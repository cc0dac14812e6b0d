use vstd::prelude::*;
use vstd::string::StringExecFns;

use crate::error::Error;
use crate::packet::{build_packet, handshake_bytes, packet_bytes};
use crate::varint::{
    has_more, is_varint, lemma_varint_bytes_len, lemma_varint_prefix_unique,
    lemma_varint_round_trip, read_varint, varint_bytes, varint_value, VarintRead,
};

verus! {

/// Server version info.
#[derive(Debug, Clone)]
pub struct Version {
    pub name: Option<String>,
    pub protocol: i32,
}

/// A player on the server and their ID.
#[derive(Debug, Clone)]
pub struct PlayerSample {
    pub name: String,
    pub id: String,
}

/// Info about players on a server.
#[derive(Debug, Clone)]
pub struct Players {
    pub max: i32,
    pub online: i32,
    /// A subset of the players on the server.
    pub sample: Option<Vec<PlayerSample>>,
}

/// All info returned from a ping.
#[derive(Debug, Clone)]
pub struct Ping {
    pub version: Version,
    pub players: Players,
    /// The description as the raw JSON text the server sent; it may carry
    /// colors and other formatting structure.
    pub description: String,
    pub favicon: Option<String>,
}

/// One extra text fragment of a server description.
#[derive(Debug, Clone)]
pub struct MotdExtra {
    pub text: String,
}

/// The text shape of a server description: a leading text and any number
/// of extra fragments.
#[derive(Debug, Clone)]
pub struct Motd {
    pub text: String,
    pub extra: Vec<MotdExtra>,
}

/// All the extra fragments, joined in order.
pub open spec fn concat_extras(es: Seq<MotdExtra>) -> Seq<char>
    decreases es.len(),
{
    if es.len() == 0 {
        Seq::<char>::empty()
    } else {
        es[0].text@ + concat_extras(es.skip(1))
    }
}

/// The plain text of a description: its text, then every extra fragment.
pub open spec fn motd_text(m: Motd) -> Seq<char> {
    m.text@ + concat_extras(m.extra@)
}

impl Motd {
    /// Extract all text fields from the server description.
    pub fn flatten(&self) -> (r: String)
        ensures
            r@ == motd_text(*self),
    {
        let mut out = self.text.clone();
        let mut i: usize = 0;
        proof {
            assert(self.extra@.skip(0) =~= self.extra@);
        }
        while i < self.extra.len()
            invariant
                i <= self.extra@.len(),
                out@ + concat_extras(self.extra@.skip(i as int)) == motd_text(*self),
            decreases self.extra@.len() - i,
        {
            let ghost before = self.extra@.skip(i as int);
            out.append(self.extra[i].text.as_str());
            i = i + 1;
            proof {
                assert(before[0] == self.extra@[i - 1]);
                assert(before.skip(1) =~= self.extra@.skip(i as int));
            }
        }
        proof {
            assert(self.extra@.skip(i as int) =~= Seq::<MotdExtra>::empty());
            assert(out@ =~= motd_text(*self));
        }
        out
    }
}

/// The handshake packet that opens a status exchange.
pub fn build_handshake_packet(host: &str, port: u16) -> (r: Vec<u8>)
    requires
        vstd::utf8::encode_utf8(host@).len() + 14 <= u32::MAX,
    ensures
        r@ == packet_bytes(handshake_bytes(host@, port), 0),
{
    let payload = crate::packet::build_handshake(host, port);
    proof {
        crate::varint::lemma_varint_bytes_len(0x47);
        crate::varint::lemma_varint_bytes_len(1);
        crate::varint::lemma_varint_bytes_len(
            vstd::utf8::encode_utf8(host@).len() as u32,
        );
    }
    build_packet(payload, 0)
}

/// The empty status request packet that follows the handshake.
pub fn build_status_request() -> (r: Vec<u8>)
    ensures
        r@ == packet_bytes(Seq::<u8>::empty(), 0),
{
    let empty: Vec<u8> = Vec::new();
    build_packet(empty, 0)
}

/// The largest status payload accepted, in bytes.
pub open spec fn max_status_len() -> int {
    0xa0_0000
}

/// Five continuation bytes in a row from `i` on: no VarInt ends there.
pub open spec fn five_continuations(s: Seq<u8>, i: int) -> bool {
    forall|j: int| i <= j < i + 5 ==> has_more(#[trigger] s[j])
}

/// The data ends inside a VarInt that starts at `i`: every byte from `i`
/// on asks for another, and fewer than five of them have arrived.
pub open spec fn varint_unfinished(s: Seq<u8>, i: int) -> bool {
    s.len() - i < 5 && (forall|j: int| i <= j < s.len() ==> has_more(#[trigger] s[j]))
}

/// The judgement of the status response header read so far.
#[derive(Debug, Clone, Copy, PartialEq, Eq)]
pub enum StatusFrame {
    /// The three leading VarInts are not complete yet; read more bytes.
    NeedMore,
    /// A VarInt in the header is malformed.
    Bad,
    /// The declared payload length is over the acceptable bound.
    TooLarge,
    /// The header is complete: the payload starts at `payload_start` and
    /// runs `payload_len` bytes.
    Header { payload_start: usize, payload_len: u32 },
}

/// What a status-header judgement may claim of the bytes it saw. The
/// existentials are bounded and anchored, so on a buffer that holds a
/// complete well-formed header only one judgement satisfies this.
pub open spec fn status_header_post(data: Seq<u8>, r: StatusFrame) -> bool {
    match r {
        StatusFrame::Header { payload_start, payload_len } => exists|k1: int, k2: int, k3: int|
            {
                &&& 0 < k1 && 0 < k2 && 0 < k3
                &&& payload_start == k1 + k2 + k3 <= data.len()
                &&& is_varint(#[trigger] data.subrange(0, k1))
                &&& is_varint(#[trigger] data.subrange(k1, k1 + k2))
                &&& is_varint(#[trigger] data.subrange(k1 + k2, k1 + k2 + k3))
                &&& payload_len == varint_value(data.subrange(k1 + k2, k1 + k2 + k3))
                &&& payload_len <= max_status_len()
            },
        StatusFrame::TooLarge => exists|k1: int, k2: int, k3: int|
            {
                &&& 0 < k1 && 0 < k2 && 0 < k3
                &&& k1 + k2 + k3 <= data.len()
                &&& is_varint(#[trigger] data.subrange(0, k1))
                &&& is_varint(#[trigger] data.subrange(k1, k1 + k2))
                &&& is_varint(#[trigger] data.subrange(k1 + k2, k1 + k2 + k3))
                &&& varint_value(data.subrange(k1 + k2, k1 + k2 + k3)) > max_status_len()
            },
        StatusFrame::NeedMore => {
            ||| varint_unfinished(data, 0)
            ||| exists|k1: int|
                0 < k1 <= data.len() && is_varint(#[trigger] data.subrange(0, k1))
                    && varint_unfinished(data, k1)
            ||| exists|k1: int, k2: int|
                0 < k1 && 0 < k2 && k1 + k2 <= data.len() && is_varint(
                    #[trigger] data.subrange(0, k1),
                ) && is_varint(#[trigger] data.subrange(k1, k1 + k2)) && varint_unfinished(
                    data,
                    k1 + k2,
                )
        },
        StatusFrame::Bad => {
            ||| (5 <= data.len() && five_continuations(data, 0))
            ||| exists|k1: int|
                0 < k1 && k1 + 5 <= data.len() && is_varint(#[trigger] data.subrange(0, k1))
                    && five_continuations(data, k1)
            ||| exists|k1: int, k2: int|
                0 < k1 && 0 < k2 && k1 + k2 + 5 <= data.len() && is_varint(
                    #[trigger] data.subrange(0, k1),
                ) && is_varint(#[trigger] data.subrange(k1, k1 + k2)) && five_continuations(
                    data,
                    k1 + k2,
                )
        },
    }
}

/// Judge the status response header in the bytes received so far: the
/// total length and packet id VarInts, which are discarded, then the
/// payload length VarInt, which is checked against the acceptable bound.
pub fn read_status_header(data: &Vec<u8>) -> (r: StatusFrame)
    ensures
        status_header_post(data@, r),
{
    let first = read_varint(data, 0);
    // the total length is discarded; the payload length below governs
    let (_total, l1) = match first {
        VarintRead::Value { value, len } => (value, len),
        VarintRead::NeedMore => {
            return StatusFrame::NeedMore;
        },
        VarintRead::Malformed => {
            proof {
                assert(five_continuations(data@, 0));
            }
            return StatusFrame::Bad;
        },
    };
    let second = read_varint(data, l1);
    // the packet id is discarded as well
    let (_id, l2) = match second {
        VarintRead::Value { value, len } => (value, len),
        VarintRead::NeedMore => {
            return StatusFrame::NeedMore;
        },
        VarintRead::Malformed => {
            proof {
                assert(five_continuations(data@, l1 as int));
            }
            return StatusFrame::Bad;
        },
    };
    let third = read_varint(data, l1 + l2);
    let (v3, l3) = match third {
        VarintRead::Value { value, len } => (value, len),
        VarintRead::NeedMore => {
            return StatusFrame::NeedMore;
        },
        VarintRead::Malformed => {
            proof {
                assert(five_continuations(data@, l1 + l2));
            }
            return StatusFrame::Bad;
        },
    };
    let start = l1 + l2 + l3;
    if v3 > 0xa0_0000 {
        proof {
            assert(is_varint(data@.subrange(0, l1 as int)));
            assert(is_varint(data@.subrange(l1 as int, l1 + l2)));
            assert(is_varint(data@.subrange(l1 + l2, l1 + l2 + l3)));
        }
        return StatusFrame::TooLarge;
    }
    proof {
        assert(is_varint(data@.subrange(0, l1 as int)));
        assert(is_varint(data@.subrange(l1 as int, l1 + l2)));
        assert(is_varint(data@.subrange(l1 + l2, l1 + l2 + l3)));
    }
    StatusFrame::Header { payload_start: start, payload_len: v3 }
}

/// Relies on String::from_utf8: only valid UTF-8 converts, and valid
/// input decodes exactly.
#[verifier::external_body]
pub(crate) fn utf8_string(bytes: Vec<u8>) -> (r: Result<String, Error>)
    ensures
        match r {
            Ok(s) => vstd::utf8::valid_utf8(bytes@) && s@ == vstd::utf8::decode_utf8(bytes@),
            Err(e) => !vstd::utf8::valid_utf8(bytes@) && e matches Error::Utf8(_),
        },
{
    match String::from_utf8(bytes) {
        Ok(s) => Ok(s),
        Err(e) => Err(Error::Utf8(e.to_string())),
    }
}

/// Cut the status payload out of the received bytes and decode it as
/// UTF-8 text, ready to be read as JSON.
pub fn extract_status_text(data: &Vec<u8>, start: usize, len: u32) -> (r: Result<String, Error>)
    requires
        start + len <= data@.len(),
    ensures
        ({
            let payload = data@.subrange(start as int, start + len);
            match r {
                Ok(s) => vstd::utf8::valid_utf8(payload) && s@ == vstd::utf8::decode_utf8(payload),
                Err(e) => !vstd::utf8::valid_utf8(payload) && e matches Error::Utf8(_),
            }
        }),
{
    let n = data.len();
    let end = start + (len as usize);
    let payload = vstd::slice::slice_to_vec(
        vstd::slice::slice_subrange(data.as_slice(), start, end),
    );
    utf8_string(payload)
}

/// The wire shape of a status response: the total length, the packet id,
/// and the payload's own length, each as a VarInt, then the payload.
pub open spec fn status_response_bytes(total: u32, id: u32, payload: Seq<u8>) -> Seq<u8>
    recommends
        payload.len() <= u32::MAX,
{
    varint_bytes(total) + varint_bytes(id) + varint_bytes(payload.len() as u32) + payload
}

/// On a well-formed status response, any reader that finds three
/// well-formed VarInt prefixes finds exactly the frame's own: the header
/// judgement is determined, and the third value is the payload's length.
pub proof fn lemma_status_header_exact(
    total: u32,
    id: u32,
    payload: Seq<u8>,
    k1: int,
    k2: int,
    k3: int,
)
    requires
        payload.len() <= u32::MAX,
        0 < k1,
        0 < k2,
        0 < k3,
        k1 + k2 + k3 <= status_response_bytes(total, id, payload).len(),
        is_varint(status_response_bytes(total, id, payload).subrange(0, k1)),
        is_varint(status_response_bytes(total, id, payload).subrange(k1, k1 + k2)),
        is_varint(status_response_bytes(total, id, payload).subrange(k1 + k2, k1 + k2 + k3)),
    ensures
        ({
            let frame = status_response_bytes(total, id, payload);
            &&& k1 == varint_bytes(total).len()
            &&& k2 == varint_bytes(id).len()
            &&& k3 == varint_bytes(payload.len() as u32).len()
            &&& varint_value(frame.subrange(0, k1)) == total
            &&& varint_value(frame.subrange(k1, k1 + k2)) == id
            &&& varint_value(frame.subrange(k1 + k2, k1 + k2 + k3)) == payload.len()
            &&& frame.subrange(k1 + k2 + k3, frame.len() as int) == payload
        }),
{
    let frame = status_response_bytes(total, id, payload);
    let vt = varint_bytes(total);
    let vi = varint_bytes(id);
    let vl = varint_bytes(payload.len() as u32);
    lemma_varint_round_trip(total);
    lemma_varint_round_trip(id);
    lemma_varint_round_trip(payload.len() as u32);
    lemma_varint_bytes_len(total);
    lemma_varint_bytes_len(id);
    lemma_varint_bytes_len(payload.len() as u32);

    assert(frame.subrange(0, vt.len() as int) =~= vt);
    lemma_varint_prefix_unique(frame, k1, vt.len() as int);
    assert(frame.subrange(0, k1) == vt);

    let after1 = frame.subrange(k1, frame.len() as int);
    assert(after1.subrange(0, vi.len() as int) =~= vi);
    assert(after1.subrange(0, k2) =~= frame.subrange(k1, k1 + k2));
    lemma_varint_prefix_unique(after1, k2, vi.len() as int);
    assert(frame.subrange(k1, k1 + k2) == vi);

    let after2 = frame.subrange(k1 + k2, frame.len() as int);
    assert(after2.subrange(0, vl.len() as int) =~= vl);
    assert(after2.subrange(0, k3) =~= frame.subrange(k1 + k2, k1 + k2 + k3));
    lemma_varint_prefix_unique(after2, k3, vl.len() as int);
    assert(frame.subrange(k1 + k2, k1 + k2 + k3) == vl);

    assert(frame.subrange(k1 + k2 + k3, frame.len() as int) =~= payload);
}

/// Any three well-formed VarInt prefixes found on a buffer that itself
/// begins with the VarInts of `a`, `b`, `c` are those three exactly.
proof fn lemma_three_prefixes(data: Seq<u8>, a: u32, b: u32, c: u32, k1: int, k2: int, k3: int)
    requires
        varint_bytes(a).len() + varint_bytes(b).len() + varint_bytes(c).len() <= data.len(),
        data.subrange(0, varint_bytes(a).len() as int) == varint_bytes(a),
        data.subrange(
            varint_bytes(a).len() as int,
            (varint_bytes(a).len() + varint_bytes(b).len()) as int,
        ) == varint_bytes(b),
        data.subrange(
            (varint_bytes(a).len() + varint_bytes(b).len()) as int,
            (varint_bytes(a).len() + varint_bytes(b).len() + varint_bytes(c).len()) as int,
        ) == varint_bytes(c),
        0 < k1,
        0 < k2,
        0 < k3,
        k1 + k2 + k3 <= data.len(),
        is_varint(data.subrange(0, k1)),
        is_varint(data.subrange(k1, k1 + k2)),
        is_varint(data.subrange(k1 + k2, k1 + k2 + k3)),
    ensures
        k1 == varint_bytes(a).len(),
        k2 == varint_bytes(b).len(),
        k3 == varint_bytes(c).len(),
        varint_value(data.subrange(k1 + k2, k1 + k2 + k3)) == c,
{
    let la = varint_bytes(a).len() as int;
    let lb = varint_bytes(b).len() as int;
    let lc = varint_bytes(c).len() as int;
    lemma_varint_round_trip(a);
    lemma_varint_round_trip(b);
    lemma_varint_round_trip(c);
    lemma_varint_prefix_unique(data, k1, la);

    let tail1 = data.subrange(la, data.len() as int);
    assert(tail1.subrange(0, lb) =~= data.subrange(la, la + lb));
    assert(tail1.subrange(0, k2) =~= data.subrange(la, la + k2));
    lemma_varint_prefix_unique(tail1, k2, lb);

    let tail2 = data.subrange(la + lb, data.len() as int);
    assert(tail2.subrange(0, lc) =~= data.subrange(la + lb, la + lb + lc));
    assert(tail2.subrange(0, k3) =~= data.subrange(la + lb, la + lb + k3));
    lemma_varint_prefix_unique(tail2, k3, lc);
}

/// On a buffer that already holds a complete, well-formed header — the
/// VarInts of `a`, `b` and `c` in order — the judgement is forced: it can
/// be neither NeedMore nor Bad, it is TooLarge exactly when the declared
/// length `c` is over the bound, and otherwise it is the Header placed at
/// the frame's own positions with `c` as the payload length.
pub proof fn lemma_status_judgement_forced(data: Seq<u8>, a: u32, b: u32, c: u32, r: StatusFrame)
    requires
        varint_bytes(a).len() + varint_bytes(b).len() + varint_bytes(c).len() <= data.len(),
        data.subrange(0, varint_bytes(a).len() as int) == varint_bytes(a),
        data.subrange(
            varint_bytes(a).len() as int,
            (varint_bytes(a).len() + varint_bytes(b).len()) as int,
        ) == varint_bytes(b),
        data.subrange(
            (varint_bytes(a).len() + varint_bytes(b).len()) as int,
            (varint_bytes(a).len() + varint_bytes(b).len() + varint_bytes(c).len()) as int,
        ) == varint_bytes(c),
        status_header_post(data, r),
    ensures
        c > max_status_len() ==> r is TooLarge,
        c <= max_status_len() ==> (r matches StatusFrame::Header { payload_start, payload_len } && {
            &&& payload_start == varint_bytes(a).len() + varint_bytes(b).len() + varint_bytes(
                c,
            ).len()
            &&& payload_len == c
        }),
{
    let la = varint_bytes(a).len() as int;
    let lb = varint_bytes(b).len() as int;
    let lc = varint_bytes(c).len() as int;
    lemma_varint_round_trip(a);
    lemma_varint_round_trip(b);
    lemma_varint_round_trip(c);
    lemma_varint_bytes_len(a);
    lemma_varint_bytes_len(b);
    lemma_varint_bytes_len(c);
    // the three final bytes of the header, each with a clear flag
    assert(data[la - 1] == varint_bytes(a)[la - 1] && !has_more(data[la - 1]));
    assert(data[la + lb - 1] == varint_bytes(b)[lb - 1] && !has_more(data[la + lb - 1]));
    assert(data[la + lb + lc - 1] == varint_bytes(c)[lc - 1] && !has_more(
        data[la + lb + lc - 1],
    ));
    match r {
        StatusFrame::NeedMore => {
            if varint_unfinished(data, 0) {
                assert(has_more(data[la - 1]));
            } else if exists|k1: int|
                0 < k1 <= data.len() && is_varint(#[trigger] data.subrange(0, k1))
                    && varint_unfinished(data, k1) {
                let k1 = choose|k1: int|
                    0 < k1 <= data.len() && is_varint(#[trigger] data.subrange(0, k1))
                        && varint_unfinished(data, k1);
                lemma_varint_prefix_unique(data, k1, la);
                assert(has_more(data[la + lb - 1]));
            } else {
                let (k1, k2) = choose|k1: int, k2: int|
                    0 < k1 && 0 < k2 && k1 + k2 <= data.len() && is_varint(
                        #[trigger] data.subrange(0, k1),
                    ) && is_varint(#[trigger] data.subrange(k1, k1 + k2)) && varint_unfinished(
                        data,
                        k1 + k2,
                    );
                lemma_varint_prefix_unique(data, k1, la);
                let tail1 = data.subrange(la, data.len() as int);
                assert(tail1.subrange(0, lb) =~= data.subrange(la, la + lb));
                assert(tail1.subrange(0, k2) =~= data.subrange(la, la + k2));
                lemma_varint_prefix_unique(tail1, k2, lb);
                assert(has_more(data[la + lb + lc - 1]));
            }
        },
        StatusFrame::Bad => {
            if 5 <= data.len() && five_continuations(data, 0) {
                assert(has_more(data[la - 1]));
            } else if exists|k1: int|
                0 < k1 && k1 + 5 <= data.len() && is_varint(#[trigger] data.subrange(0, k1))
                    && five_continuations(data, k1) {
                let k1 = choose|k1: int|
                    0 < k1 && k1 + 5 <= data.len() && is_varint(#[trigger] data.subrange(0, k1))
                        && five_continuations(data, k1);
                lemma_varint_prefix_unique(data, k1, la);
                assert(has_more(data[la + lb - 1]));
            } else {
                let (k1, k2) = choose|k1: int, k2: int|
                    0 < k1 && 0 < k2 && k1 + k2 + 5 <= data.len() && is_varint(
                        #[trigger] data.subrange(0, k1),
                    ) && is_varint(#[trigger] data.subrange(k1, k1 + k2)) && five_continuations(
                        data,
                        k1 + k2,
                    );
                lemma_varint_prefix_unique(data, k1, la);
                let tail1 = data.subrange(la, data.len() as int);
                assert(tail1.subrange(0, lb) =~= data.subrange(la, la + lb));
                assert(tail1.subrange(0, k2) =~= data.subrange(la, la + k2));
                lemma_varint_prefix_unique(tail1, k2, lb);
                assert(has_more(data[la + lb + lc - 1]));
            }
        },
        StatusFrame::TooLarge => {
            let (k1, k2, k3) = choose|k1: int, k2: int, k3: int|
                {
                    &&& 0 < k1 && 0 < k2 && 0 < k3
                    &&& k1 + k2 + k3 <= data.len()
                    &&& is_varint(#[trigger] data.subrange(0, k1))
                    &&& is_varint(#[trigger] data.subrange(k1, k1 + k2))
                    &&& is_varint(#[trigger] data.subrange(k1 + k2, k1 + k2 + k3))
                    &&& varint_value(data.subrange(k1 + k2, k1 + k2 + k3)) > max_status_len()
                };
            lemma_three_prefixes(data, a, b, c, k1, k2, k3);
        },
        StatusFrame::Header { payload_start, payload_len } => {
            let (k1, k2, k3) = choose|k1: int, k2: int, k3: int|
                {
                    &&& 0 < k1 && 0 < k2 && 0 < k3
                    &&& payload_start == k1 + k2 + k3 <= data.len()
                    &&& is_varint(#[trigger] data.subrange(0, k1))
                    &&& is_varint(#[trigger] data.subrange(k1, k1 + k2))
                    &&& is_varint(#[trigger] data.subrange(k1 + k2, k1 + k2 + k3))
                    &&& payload_len == varint_value(data.subrange(k1 + k2, k1 + k2 + k3))
                    &&& payload_len <= max_status_len()
                };
            lemma_three_prefixes(data, a, b, c, k1, k2, k3);
        },
    }
}

} // verus!
