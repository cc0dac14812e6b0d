use vstd::prelude::*;

verus! {

/// The continuation flag: a set high bit says another byte follows.
pub open spec fn has_more(b: u8) -> bool {
    b & 0x80 != 0
}

/// Wire encoding of a value: seven data bits per byte, least significant
/// group first, continuation flag on every byte but the last.
pub open spec fn varint_bytes(n: u32) -> Seq<u8>
    decreases n,
{
    if n < 0x80 {
        seq![n as u8]
    } else {
        proof {
            assert(n >= 0x80 ==> (n >> 7) < n) by (bit_vector);
        }
        seq![((n & 0x7f) | 0x80) as u8] + varint_bytes(n >> 7)
    }
}

/// A well-formed VarInt: one to five bytes, the continuation flag on every
/// byte but the last, and clear on the last.
pub open spec fn is_varint(s: Seq<u8>) -> bool {
    &&& 1 <= s.len() <= 5
    &&& !has_more(s[s.len() - 1])
    &&& forall|i: int| 0 <= i < s.len() - 1 ==> has_more(#[trigger] s[i])
}

/// The value carried by a sequence of VarInt bytes, each contributing its
/// low seven bits, least significant group first.
pub open spec fn varint_value(s: Seq<u8>) -> u32
    decreases s.len(),
{
    if s.len() == 0 {
        0u32
    } else {
        ((s[0] & 0x7f) as u32) | (varint_value(s.skip(1)) << 7)
    }
}

/// How long the encoding of a value is, by the magnitude of the value.
pub proof fn lemma_varint_bytes_len(n: u32)
    ensures
        1 <= varint_bytes(n).len() <= 5,
        n < 0x80 ==> varint_bytes(n).len() == 1,
        n < 0x4000 ==> varint_bytes(n).len() <= 2,
        n < 0x20_0000 ==> varint_bytes(n).len() <= 3,
        n < 0x1000_0000 ==> varint_bytes(n).len() <= 4,
    decreases n,
{
    if n < 0x80 {
    } else {
        assert(n >= 0x80 ==> (n >> 7) < n) by (bit_vector);
        lemma_varint_bytes_len(n >> 7);
        assert((n < 0x4000 ==> (n >> 7) < 0x80) && (n < 0x20_0000 ==> (n >> 7) < 0x4000) && (
        n < 0x1000_0000 ==> (n >> 7) < 0x20_0000) && ((n >> 7) < 0x1000_0000)) by (bit_vector);
    }
}

/// The encoding of any value is a well-formed VarInt and decodes to the
/// value itself: the round trip is the identity.
pub proof fn lemma_varint_round_trip(n: u32)
    ensures
        is_varint(varint_bytes(n)),
        varint_value(varint_bytes(n)) == n,
    decreases n,
{
    lemma_varint_bytes_len(n);
    if n < 0x80 {
        let s = varint_bytes(n);
        assert(!((n as u8) & 0x80 != 0) && ((n as u8) & 0x7f) as u32 | (0u32 << 7) == n)
            by (bit_vector)
            requires
                n < 0x80,
        ;
        assert(s.skip(1) =~= Seq::<u8>::empty());
        assert(varint_value(Seq::<u8>::empty()) == 0);
        assert(s[0] == n as u8);
        assert(varint_value(s) == ((n as u8) & 0x7f) as u32 | (0u32 << 7));
    } else {
        assert(n >= 0x80 ==> (n >> 7) < n) by (bit_vector);
        lemma_varint_round_trip(n >> 7);
        let b0 = ((n & 0x7f) | 0x80) as u8;
        let rest = varint_bytes(n >> 7);
        let s = varint_bytes(n);
        assert(s == seq![b0] + rest);
        assert(s.skip(1) =~= rest);
        assert(((((n & 0x7f) | 0x80) as u8) & 0x80) != 0) by (bit_vector);
        assert(((((n & 0x7f) | 0x80) as u8) & 0x7f) as u32 | ((n >> 7) << 7) == n) by (bit_vector);
        assert forall|i: int| 0 <= i < s.len() - 1 implies has_more(#[trigger] s[i]) by {
            if i >= 1 {
                assert(s[i] == rest[i - 1]);
            }
        }
        assert(s[s.len() - 1] == rest[rest.len() - 1]);
    }
}

/// Two well-formed VarInt prefixes of the same byte sequence are the same
/// prefix: the continuation flags fix where the encoding stops.
pub proof fn lemma_varint_prefix_unique(s: Seq<u8>, a: int, b: int)
    requires
        0 <= a <= s.len(),
        0 <= b <= s.len(),
        is_varint(s.subrange(0, a)),
        is_varint(s.subrange(0, b)),
    ensures
        a == b,
{
    if a < b {
        assert(s.subrange(0, a)[a - 1] == s[a - 1]);
        assert(s.subrange(0, b)[a - 1] == s[a - 1]);
        assert(has_more(s[a - 1]));
    }
    if b < a {
        assert(s.subrange(0, b)[b - 1] == s[b - 1]);
        assert(s.subrange(0, a)[b - 1] == s[b - 1]);
        assert(has_more(s[b - 1]));
    }
}

/// Appending one more byte to a run of VarInt bytes adds its low seven bits
/// at the next seven-bit position.
proof fn lemma_varint_value_push(p: Seq<u8>, b: u8)
    requires
        p.len() <= 4,
    ensures
        varint_value(p.push(b)) == varint_value(p) | (((b & 0x7f) as u32) << ((7 * p.len()) as u32)),
    decreases p.len(),
{
    if p.len() == 0 {
        assert(p.push(b) =~= seq![b]);
        assert(p.push(b).skip(1) =~= Seq::<u8>::empty());
        assert(varint_value(Seq::<u8>::empty()) == 0);
        assert(((b & 0x7f) as u32) | (0u32 << 7) == 0u32 | (((b & 0x7f) as u32) << 0u32))
            by (bit_vector);
        assert((7 * p.len()) as u32 == 0u32);
    } else {
        let p1 = p.skip(1);
        lemma_varint_value_push(p1, b);
        assert(p.push(b).skip(1) =~= p1.push(b));
        let x = (p[0] & 0x7f) as u32;
        let y = varint_value(p1);
        let z = (b & 0x7f) as u32;
        let sh = (7 * p1.len()) as u32;
        assert((x | ((y | (z << sh)) << 7)) == ((x | (y << 7)) | (z << ((sh + 7) as u32))))
            by (bit_vector)
            requires
                sh <= 21,
        ;
        assert((7 * p.len()) as u32 == (sh + 7) as u32);
        assert(varint_value(p.push(b)) == x | (varint_value(p1.push(b)) << 7));
        assert(varint_value(p) == x | (y << 7));
    }
}

/// The outcome of reading one VarInt from a byte buffer.
#[derive(Clone, Copy, PartialEq, Eq, Debug)]
pub enum VarintRead {
    /// A complete VarInt was found: its value and how many bytes it took.
    Value { value: u32, len: usize },
    /// The buffer ended inside the VarInt; more bytes are needed.
    NeedMore,
    /// Five bytes were consumed without reaching a final byte.
    Malformed,
}

/// Encode a u32 into a VarInt.
pub fn encode_varint(num: u32) -> (r: Vec<u8>)
    ensures
        r@ == varint_bytes(num),
{
    let mut val = num;
    let mut out: Vec<u8> = Vec::new();
    proof {
        assert(out@ + varint_bytes(val) =~= varint_bytes(num));
    }
    while val & 0xFFFF_FF80 != 0
        invariant
            out@ + varint_bytes(val) == varint_bytes(num),
        decreases val,
    {
        proof {
            assert(val & 0xFFFF_FF80 != 0 ==> val >= 0x80) by (bit_vector);
            assert(((val & 0x7f) | 0x80) < 256) by (bit_vector);
            assert(val >= 0x80 ==> (val >> 7) < val) by (bit_vector);
        }
        let ghost prev = val;
        out.push(((val & 0x7f) | 0x80) as u8);
        val = val >> 7;
        proof {
            assert(varint_bytes(prev) == seq![((prev & 0x7f) | 0x80) as u8] + varint_bytes(val));
            assert(out@ + varint_bytes(val) =~= varint_bytes(num));
        }
    }
    proof {
        assert(val & 0xFFFF_FF80 == 0 ==> val < 0x80) by (bit_vector);
        assert(val < 0x80 ==> (val & 0x7f) == val) by (bit_vector);
    }
    out.push((val & 0x7f) as u8);
    proof {
        assert(out@ =~= varint_bytes(num));
    }
    out
}

/// Read a VarInt from `data` starting at `start`.
pub fn read_varint(data: &Vec<u8>, start: usize) -> (r: VarintRead)
    requires
        start <= data@.len(),
    ensures
        match r {
            VarintRead::Value { value, len } => {
                &&& 1 <= len <= 5
                &&& start + len <= data@.len()
                &&& is_varint(data@.subrange(start as int, start + len))
                &&& value == varint_value(data@.subrange(start as int, start + len))
            },
            VarintRead::NeedMore => {
                &&& data@.len() - start < 5
                &&& forall|i: int| start <= i < data@.len() ==> has_more(#[trigger] data@[i])
            },
            VarintRead::Malformed => {
                &&& start + 5 <= data@.len()
                &&& forall|i: int| start <= i < start + 5 ==> has_more(#[trigger] data@[i])
            },
        },
{
    let mut result: u32 = 0;
    let mut index: usize = 0;
    while index < 5
        invariant
            index <= 5,
            start + index <= data@.len(),
            result == varint_value(data@.subrange(start as int, start + index)),
            forall|i: int| start <= i < start + index ==> has_more(#[trigger] data@[i]),
        decreases 5 - index,
    {
        if data.len() - start <= index {
            return VarintRead::NeedMore;
        }
        let b = data[start + index];
        let ghost p = data@.subrange(start as int, start + index);
        proof {
            lemma_varint_value_push(p, b);
            assert(data@.subrange(start as int, start + index + 1) =~= p.push(b));
            assert(7 * index < 32);
        }
        let shift = 7 * index;
        let piece = ((b & 0x7f) as u32) << (shift as u32);
        result = result | piece;
        index = index + 1;
        if b & 0x80 == 0 {
            proof {
                assert(!has_more(b));
                let s = data@.subrange(start as int, start + index);
                assert(s[s.len() - 1] == b);
            }
            return VarintRead::Value { value: result, len: index };
        }
        proof {
            assert(has_more(b));
        }
    }
    VarintRead::Malformed
}

} // verus!
