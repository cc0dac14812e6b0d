use vstd::prelude::*;
use vstd::string::{StrSliceExecFns, StringExecFns};

use crate::error::Error;
use crate::strings::{
    find_two, find_two_at, lemma_find_two_at, lemma_zero_pos, lossy_chars, string_until_zero,
    zero_pos,
};

verus! {

/// The four big-endian bytes of a 32-bit value.
pub open spec fn be32(n: u32) -> Seq<u8> {
    seq![(n >> 24) as u8, ((n >> 16) & 0xff) as u8, ((n >> 8) & 0xff) as u8, (n & 0xff) as u8]
}

fn push_be32(out: &mut Vec<u8>, n: u32)
    ensures
        final(out)@ == old(out)@ + be32(n),
{
    proof {
        assert((n >> 24) < 256 && ((n >> 16) & 0xff) < 256 && ((n >> 8) & 0xff) < 256 && (n
            & 0xff) < 256) by (bit_vector);
    }
    out.push((n >> 24) as u8);
    out.push(((n >> 16) & 0xff) as u8);
    out.push(((n >> 8) & 0xff) as u8);
    out.push((n & 0xff) as u8);
    proof {
        assert(out@ =~= old(out)@ + be32(n));
    }
}

/// Relies on rand::random for an unpredictable session seed.
#[verifier::external_body]
fn random_u32() -> u32 {
    rand::random::<u32>()
}

/// Draw a session id; the protocol keeps only the low four bits of each
/// byte, so the other bits are cleared.
pub fn random_session_id() -> (r: u32)
    ensures
        r & 0xF0F0_F0F0 == 0,
{
    let raw = random_u32();
    proof {
        assert((raw & 0x0F0F_0F0F) & 0xF0F0_F0F0 == 0) by (bit_vector);
    }
    raw & 0x0F0F_0F0F
}

/// The query handshake: two magic bytes, the challenge request type, and
/// the session id.
pub open spec fn query_handshake_bytes(session: u32) -> Seq<u8> {
    seq![0xfeu8, 0xfdu8, 0x09u8] + be32(session)
}

/// Build the handshake datagram that asks the server for a challenge.
pub fn build_query_handshake(session: u32) -> (r: Vec<u8>)
    ensures
        r@ == query_handshake_bytes(session),
{
    let mut out: Vec<u8> = Vec::new();
    out.push(0xfe);
    out.push(0xfd);
    out.push(0x09);
    push_be32(&mut out, session);
    proof {
        assert(out@ =~= query_handshake_bytes(session));
    }
    out
}

/// The unsigned reinterpretation of a signed 32-bit value.
pub open spec fn unsigned32(x: i32) -> u32 {
    if x >= 0 {
        x as u32
    } else {
        ((x + 0x1_0000_0000) as u32)
    }
}

fn to_unsigned32(x: i32) -> (r: u32)
    ensures
        r == unsigned32(x),
{
    if x >= 0 {
        x as u32
    } else {
        ((x as i64) + 0x1_0000_0000) as u32
    }
}

/// The full-stat request: magic, the stat request type, the session id, the
/// challenge token, and four zero bytes asking for the full stat.
pub open spec fn stat_request_bytes(session: u32, challenge: i32) -> Seq<u8> {
    seq![0xfeu8, 0xfdu8, 0x00u8] + be32(session) + be32(unsigned32(challenge)) + seq![
        0u8,
        0u8,
        0u8,
        0u8,
    ]
}

/// Build the datagram that asks for the full stat, quoting the challenge.
pub fn build_stat_request(session: u32, challenge: i32) -> (r: Vec<u8>)
    ensures
        r@ == stat_request_bytes(session, challenge),
{
    let mut out: Vec<u8> = Vec::new();
    out.push(0xfe);
    out.push(0xfd);
    out.push(0x00);
    push_be32(&mut out, session);
    push_be32(&mut out, to_unsigned32(challenge));
    out.push(0x00);
    out.push(0x00);
    out.push(0x00);
    out.push(0x00);
    proof {
        assert(out@ =~= stat_request_bytes(session, challenge));
    }
    out
}

/// An ASCII decimal digit.
pub open spec fn is_dec_digit(b: u8) -> bool {
    0x30 <= b <= 0x39
}

/// The value of a run of decimal digits, most significant first.
pub open spec fn digits_value(s: Seq<u8>) -> int
    decreases s.len(),
{
    if s.len() == 0 {
        0
    } else {
        digits_value(s.drop_last()) * 10 + (s.last() - 0x30)
    }
}

/// A run made of decimal digits only.
pub open spec fn all_digits(s: Seq<u8>) -> bool {
    forall|j: int| 0 <= j < s.len() ==> is_dec_digit(#[trigger] s[j])
}

/// The signed decimal reading of a byte region: an optional sign, then one
/// or more digits, and nothing else.
pub open spec fn signed_decimal(s: Seq<u8>) -> Option<int> {
    let signed = s.len() > 0 && (s[0] == 0x2d || s[0] == 0x2b);
    let ds = if signed {
        s.skip(1)
    } else {
        s
    };
    if ds.len() == 0 || !all_digits(ds) {
        None
    } else if s.len() > 0 && s[0] == 0x2d {
        Some(-digits_value(ds))
    } else {
        Some(digits_value(ds))
    }
}

/// A digit run's value never goes down as more digits arrive.
proof fn lemma_digits_extend(s: Seq<u8>, k: int)
    requires
        0 <= k <= s.len(),
        all_digits(s),
    ensures
        digits_value(s) >= digits_value(s.subrange(0, k)),
        digits_value(s.subrange(0, k)) >= 0,
    decreases s.len() - k,
{
    if k == s.len() {
        assert(s.subrange(0, k) =~= s);
        lemma_digits_nonneg(s);
    } else {
        lemma_digits_extend(s, k + 1);
        let p = s.subrange(0, k + 1);
        assert(p.drop_last() =~= s.subrange(0, k));
        lemma_digits_nonneg(s.subrange(0, k));
        assert(digits_value(p) == digits_value(s.subrange(0, k)) * 10 + (s[k] - 0x30));
        assert(digits_value(s.subrange(0, k)) * 10 >= digits_value(s.subrange(0, k)))
            by (nonlinear_arith)
            requires
                digits_value(s.subrange(0, k)) >= 0,
        ;
    }
}

/// A digit run's value is never negative.
proof fn lemma_digits_nonneg(s: Seq<u8>)
    requires
        all_digits(s),
    ensures
        digits_value(s) >= 0,
    decreases s.len(),
{
    if s.len() > 0 {
        lemma_digits_nonneg(s.drop_last());
        assert(digits_value(s.drop_last()) * 10 >= 0) by (nonlinear_arith)
            requires
                digits_value(s.drop_last()) >= 0,
        ;
    }
}

fn parse_decimal_region(data: &Vec<u8>, lo: usize, hi: usize) -> (r: Option<i32>)
    requires
        lo <= hi <= data@.len(),
    ensures
        ({
            let region = data@.subrange(lo as int, hi as int);
            match r {
                Some(v) => signed_decimal(region) == Some(v as int),
                None => signed_decimal(region) is None || (signed_decimal(region) matches Some(x)
                    && !(-0x8000_0000 <= x < 0x8000_0000)),
            }
        }),
{
    let ghost region = data@.subrange(lo as int, hi as int);
    if hi == lo {
        return None;
    }
    let first = data[lo];
    let negative = first == 0x2d;
    let start = if first == 0x2d || first == 0x2b {
        lo + 1
    } else {
        lo
    };
    let ghost ds = if first == 0x2d || first == 0x2b {
        region.skip(1)
    } else {
        region
    };
    proof {
        assert(region[0] == data@[lo as int]);
        assert(ds =~= data@.subrange(start as int, hi as int));
    }
    if start == hi {
        return None;
    }
    let mut acc: i64 = 0;
    let mut i = start;
    while i < hi
        invariant
            lo < hi,
            lo <= start <= i <= hi <= data@.len(),
            first == data@[lo as int],
            region == data@.subrange(lo as int, hi as int),
            start == (if first == 0x2d || first == 0x2b {
                lo + 1
            } else {
                lo as int
            }),
            negative == (first == 0x2d),
            ds == data@.subrange(start as int, hi as int),
            acc == digits_value(data@.subrange(start as int, i as int)),
            0 <= acc <= 0x8000_0000,
            forall|j: int| start <= j < i ==> is_dec_digit(#[trigger] data@[j]),
        decreases hi - i,
    {
        let b = data[i];
        if b < 0x30 || b > 0x39 {
            proof {
                assert(region.skip(1) =~= data@.subrange(lo + 1, hi as int));
                assert(ds[i - start] == data@[i as int]);
                assert(!all_digits(ds)) by {
                    assert(0 <= i - start < ds.len() && !is_dec_digit(ds[i - start]));
                }
                assert(signed_decimal(region) is None);
            }
            return None;
        }
        let ghost before = data@.subrange(start as int, i as int);
        acc = acc * 10 + ((b - 0x30) as i64);
        i = i + 1;
        proof {
            let now = data@.subrange(start as int, i as int);
            assert(now.drop_last() =~= before);
            assert(now.last() == b);
        }
        if acc > 0x8000_0000 {
            proof {
                assert(region.skip(1) =~= data@.subrange(lo + 1, hi as int));
                if all_digits(ds) {
                    assert(ds.subrange(0, i - start) =~= data@.subrange(start as int, i as int));
                    lemma_digits_extend(ds, i - start);
                    assert(digits_value(ds) >= acc);
                }
            }
            return None;
        }
    }
    proof {
        assert(region.skip(1) =~= data@.subrange(lo + 1, hi as int));
        assert(ds =~= data@.subrange(start as int, i as int));
        assert(all_digits(ds));
        lemma_digits_nonneg(ds);
    }
    if negative {
        Some((-acc) as i32)
    } else {
        if acc > 0x7fff_ffff {
            return None;
        }
        Some(acc as i32)
    }
}

/// Extract the challenge token from a handshake reply: the bytes from
/// position five up to the last one, read as a signed decimal.
pub fn parse_challenge(buf: &Vec<u8>, len: usize) -> (r: Result<i32, Error>)
    requires
        len <= buf@.len(),
    ensures
        match r {
            Ok(v) => len >= 6 && signed_decimal(buf@.subrange(5, len - 1)) == Some(v as int),
            Err(e) => {
                &&& e matches Error::Number(m) && m@ == "invalid challenge token"@
                &&& (len < 6 || signed_decimal(buf@.subrange(5, len - 1)) is None || (signed_decimal(
                    buf@.subrange(5, len - 1),
                ) matches Some(x)
                    && !(-0x8000_0000 <= x < 0x8000_0000)))
            },
        },
{
    if len < 6 {
        return Err(Error::Number("invalid challenge token".to_owned()));
    }
    match parse_decimal_region(buf, 5, len - 1) {
        Some(v) => Ok(v),
        None => Err(Error::Number("invalid challenge token".to_owned())),
    }
}

/// The view of a vector of strings as a sequence of character sequences.
pub open spec fn views(v: Seq<String>) -> Seq<Seq<char>> {
    v.map_values(|p: String| p@)
}

/// A string split at every occurrence of a two-character separator,
/// leftmost occurrence first.
pub open spec fn split_two(s: Seq<char>, c0: char, c1: char) -> Seq<Seq<char>>
    decreases s.len(),
{
    match find_two_at(s, c0, c1, 0) {
        None => seq![s],
        Some(i) => {
            proof {
                lemma_find_two_at(s, c0, c1, 0);
            }
            seq![s.subrange(0, i)] + split_two(s.subrange(i + 2, s.len() as int), c0, c1)
        },
    }
}

/// The plugins field split apart: the server mod name before the first
/// ": ", and after it the plugin list, separated by "; ". No field at all
/// gives an empty name and no plugins.
pub open spec fn plugins_parts(v: Option<Seq<char>>) -> (Seq<char>, Seq<Seq<char>>) {
    match v {
        None => (Seq::<char>::empty(), Seq::<Seq<char>>::empty()),
        Some(s) => match find_two_at(s, ':', ' ', 0) {
            None => (s, Seq::<Seq<char>>::empty()),
            Some(i) => (
                s.subrange(0, i),
                split_two(s.subrange(i + 2, s.len() as int), ';', ' '),
            ),
        },
    }
}

/// Parse plugins from an optional string.
pub fn parse_plugins(plugins: Option<String>) -> (r: (String, Vec<String>))
    ensures
        ({
            let parts = plugins_parts(
                match plugins {
                    None => None,
                    Some(s) => Some(s@),
                },
            );
            &&& r.0@ == parts.0
            &&& views(r.1@) == parts.1
        }),
{
    let plugins = match plugins {
        None => {
            proof {
                assert(views(Seq::<String>::empty()) =~= Seq::<Seq<char>>::empty());
            }
            return (String::new(), Vec::new());
        },
        Some(p) => p,
    };
    let n = plugins.as_str().unicode_len();
    match find_two(plugins.as_str(), ':', ' ', 0) {
        None => {
            proof {
                assert(views(Seq::<String>::empty()) =~= Seq::<Seq<char>>::empty());
            }
            (plugins, Vec::new())
        },
        Some(i) => {
            let name = plugins.as_str().substring_char(0, i).to_owned();
            let mut rest = plugins.as_str().substring_char(i + 2, n).to_owned();
            let ghost suffix = plugins@.subrange(i + 2, plugins@.len() as int);
            let mut out: Vec<String> = Vec::new();
            let mut done = false;
            while !done
                invariant
                    !done ==> split_two(suffix, ';', ' ') == views(out@) + split_two(
                        rest@,
                        ';',
                        ' ',
                    ),
                    done ==> split_two(suffix, ';', ' ') == views(out@),
                decreases rest@.len() + 1, (if done { 0int } else { 1int }),
            {
                let m = rest.as_str().unicode_len();
                match find_two(rest.as_str(), ';', ' ', 0) {
                    None => {
                        let ghost prev = out@;
                        out.push(rest);
                        rest = String::new();
                        done = true;
                        proof {
                            assert(views(out@) =~= views(prev) + seq![out@.last()@]);
                        }
                    },
                    Some(k) => {
                        proof {
                            lemma_find_two_at(rest@, ';', ' ', 0);
                        }
                        let piece = rest.as_str().substring_char(0, k).to_owned();
                        let next = rest.as_str().substring_char(k + 2, m).to_owned();
                        let ghost prev = out@;
                        let ghost old_rest = rest@;
                        out.push(piece);
                        rest = next;
                        proof {
                            assert(views(out@) =~= views(prev) + seq![old_rest.subrange(0, k as int)]);
                            assert(views(out@) + split_two(rest@, ';', ' ') =~= views(prev)
                                + split_two(old_rest, ';', ' '));
                        }
                    },
                }
            }
            (name, out)
        },
    }
}

/// The player names read from `i` on: zero-terminated strings until an
/// empty one, or until the data ends without a terminator.
pub open spec fn players_seq(s: Seq<u8>, i: int) -> Seq<Seq<char>>
    decreases s.len() - i,
    when 0 <= i <= s.len()
{
    match zero_pos(s, i) {
        None => Seq::<Seq<char>>::empty(),
        Some(z) => {
            if z == i {
                Seq::<Seq<char>>::empty()
            } else {
                proof {
                    lemma_zero_pos(s, i);
                }
                seq![lossy_chars(s.subrange(i, z))] + players_seq(s, z + 1)
            }
        },
    }
}

/// Extract the list of players that trails a stat response.
///
/// `ignore_garbage` skips the ten bytes of padding between the key/value
/// block and the list of players.
pub fn parse_players(data: &Vec<u8>, start: usize, ignore_garbage: bool) -> (r: Vec<String>)
    requires
        start <= data@.len(),
    ensures
        views(r@) == players_seq(
            data@,
            if ignore_garbage {
                if start + 10 <= data@.len() {
                    start + 10
                } else {
                    data@.len() as int
                }
            } else {
                start as int
            },
        ),
{
    let mut pos = if ignore_garbage {
        if data.len() - start >= 10 {
            start + 10
        } else {
            data.len()
        }
    } else {
        start
    };
    let ghost begin = pos as int;
    let mut players: Vec<String> = Vec::new();
    let mut done = false;
    while !done
        invariant
            pos <= data@.len(),
            !done ==> players_seq(data@, begin) == views(players@) + players_seq(
                data@,
                pos as int,
            ),
            done ==> players_seq(data@, begin) == views(players@),
        decreases data@.len() - pos, (if done {
            0int
        } else {
            1int
        }),
    {
        let (s, next) = string_until_zero(data, pos);
        proof {
            lemma_zero_pos(data@, pos as int);
        }
        match s {
            Some(player) => {
                let ghost prev = players@;
                players.push(player);
                proof {
                    assert(views(players@) =~= views(prev).push(players@.last()@));
                    assert(views(prev) + players_seq(data@, pos as int) =~= views(players@)
                        + players_seq(data@, next as int));
                }
                pos = next;
            },
            None => {
                proof {
                    assert(players_seq(data@, pos as int) =~= Seq::<Seq<char>>::empty());
                    assert(views(players@) + players_seq(data@, pos as int) =~= views(players@));
                }
                done = true;
            },
        }
    }
    players
}

/// The position right after one zero-terminated string starting at `i`.
pub open spec fn str_end(s: Seq<u8>, i: int) -> int {
    match zero_pos(s, i) {
        Some(z) => z + 1,
        None => s.len() as int,
    }
}

/// The bytes of one zero-terminated string starting at `i`: none when the
/// string is empty or the terminator is missing.
pub open spec fn str_val(s: Seq<u8>, i: int) -> Option<Seq<u8>> {
    match zero_pos(s, i) {
        Some(z) => if z == i {
            None
        } else {
            Some(s.subrange(i, z))
        },
        None => None,
    }
}

/// The bytes of the special key that carries the plugin list.
pub open spec fn plugins_key() -> Seq<u8> {
    seq![0x70u8, 0x6cu8, 0x75u8, 0x67u8, 0x69u8, 0x6eu8, 0x73u8]
}

/// The key/value walk of a stat body from `i` on: every complete pair in
/// reading order (a key whose value is missing is dropped, and the plugins
/// key is set aside), the last value seen for the plugins key, and the
/// position where the walk stopped.
pub open spec fn kv_walk(s: Seq<u8>, i: int) -> (Seq<(Seq<u8>, Seq<u8>)>, Option<Seq<u8>>, int)
    decreases s.len() - i,
    when 0 <= i <= s.len()
{
    match str_val(s, i) {
        None => (Seq::<(Seq<u8>, Seq<u8>)>::empty(), None::<Seq<u8>>, str_end(s, i)),
        Some(k) => {
            let j = str_end(s, i);
            proof {
                lemma_zero_pos(s, i);
                lemma_zero_pos(s, j);
            }
            let v = str_val(s, j);
            let j2 = str_end(s, j);
            match v {
                None => kv_walk(s, j2),
                Some(vv) => {
                    let (ps, plug, e) = kv_walk(s, j2);
                    if k == plugins_key() {
                        (
                            ps,
                            if plug is Some {
                                plug
                            } else {
                                Some(vv)
                            },
                            e,
                        )
                    } else {
                        (seq![(k, vv)] + ps, plug, e)
                    }
                },
            }
        },
    }
}

/// The map that a pair list denotes: a later pair for a key replaces an
/// earlier one.
pub open spec fn map_of_pairs(ps: Seq<(Seq<char>, Seq<char>)>) -> Map<Seq<char>, Seq<char>>
    decreases ps.len(),
{
    if ps.len() == 0 {
        Map::<Seq<char>, Seq<char>>::empty()
    } else {
        map_of_pairs(ps.drop_last()).insert(ps.last().0, ps.last().1)
    }
}

/// Byte pairs seen as text, both sides converted lossily.
pub open spec fn char_pairs(ps: Seq<(Seq<u8>, Seq<u8>)>) -> Seq<(Seq<char>, Seq<char>)> {
    ps.map_values(|p: (Seq<u8>, Seq<u8>)| (lossy_chars(p.0), lossy_chars(p.1)))
}

/// The view of a vector of string pairs.
pub open spec fn kv_views(v: Seq<(String, String)>) -> Seq<(Seq<char>, Seq<char>)> {
    v.map_values(|p: (String, String)| (p.0@, p.1@))
}

/// No two entries share a key.
pub open spec fn kv_keys_unique(v: Seq<(Seq<char>, Seq<char>)>) -> bool {
    forall|a: int, b: int| 0 <= a < b < v.len() ==> (#[trigger] v[a].0) != (#[trigger] v[b].0)
}

/// Appending a pair updates the denoted map at its key.
proof fn lemma_map_push(v: Seq<(Seq<char>, Seq<char>)>, k: Seq<char>, val: Seq<char>)
    ensures
        map_of_pairs(v.push((k, val))) == map_of_pairs(v).insert(k, val),
{
    assert(v.push((k, val)).drop_last() =~= v);
}

/// Dropping a key's only entry and then writing the key again leaves the
/// same map as writing the key over the original list.
proof fn lemma_map_remove(v: Seq<(Seq<char>, Seq<char>)>, idx: int, k: Seq<char>, val: Seq<char>)
    requires
        0 <= idx < v.len(),
        v[idx].0 == k,
        forall|a: int| 0 <= a < v.len() && a != idx ==> (#[trigger] v[a].0) != k,
    ensures
        map_of_pairs(v.remove(idx)).insert(k, val) == map_of_pairs(v).insert(k, val),
    decreases v.len(),
{
    if idx == v.len() - 1 {
        assert(v.remove(idx) =~= v.drop_last());
        assert(map_of_pairs(v.drop_last()).insert(k, v.last().1).insert(k, val)
            =~= map_of_pairs(v.drop_last()).insert(k, val));
    } else {
        let w = v.drop_last();
        let last = v.last();
        lemma_map_remove(w, idx, k, val);
        assert(v.remove(idx).drop_last() =~= w.remove(idx));
        assert(v.remove(idx).last() == last);
        assert(last.0 != k);
        assert(map_of_pairs(w.remove(idx)).insert(last.0, last.1).insert(k, val)
            =~= map_of_pairs(w.remove(idx)).insert(k, val).insert(last.0, last.1));
        assert(map_of_pairs(w).insert(k, val).insert(last.0, last.1) =~= map_of_pairs(w).insert(
            last.0,
            last.1,
        ).insert(k, val));
    }
}

fn kv_find(kv: &Vec<(String, String)>, key: &String) -> (r: Option<usize>)
    ensures
        match r {
            Some(i) => i < kv@.len() && kv_views(kv@)[i as int].0 == key@,
            None => forall|a: int| 0 <= a < kv@.len() ==> kv_views(kv@)[a].0 != key@,
        },
{
    let mut i: usize = 0;
    while i < kv.len()
        invariant
            i <= kv@.len(),
            forall|a: int| 0 <= a < i ==> kv_views(kv@)[a].0 != key@,
        decreases kv@.len() - i,
    {
        if kv[i].0 == *key {
            return Some(i);
        }
        i = i + 1;
    }
    None
}

/// Record a pair, replacing any earlier entry for the same key.
fn kv_insert(kv: &mut Vec<(String, String)>, key: String, value: String)
    requires
        kv_keys_unique(kv_views(old(kv)@)),
    ensures
        kv_keys_unique(kv_views(final(kv)@)),
        map_of_pairs(kv_views(final(kv)@)) == map_of_pairs(kv_views(old(kv)@)).insert(key@, value@),
{
    let ghost kviews = kv_views(kv@);
    let found = kv_find(kv, &key);
    match found {
        Some(i) => {
            let ghost gi = i as int;
            kv.remove(i);
            proof {
                assert(kv_views(kv@) =~= kviews.remove(gi));
            }
            let ghost kvr = kv_views(kv@);
            kv.push((key, value));
            proof {
                assert(kv_views(kv@) =~= kvr.push((key@, value@)));
                lemma_map_push(kvr, key@, value@);
                lemma_map_remove(kviews, gi, key@, value@);
                assert forall|a: int, b: int|
                    0 <= a < b < kv_views(kv@).len() implies (#[trigger] kv_views(kv@)[a].0) != (
                #[trigger] kv_views(kv@)[b].0) by {
                    if b < kv_views(kv@).len() - 1 {
                        assert(kvr[a] == if a < gi {
                            kviews[a]
                        } else {
                            kviews[a + 1]
                        });
                    } else {
                        assert(kvr[a] == if a < gi {
                            kviews[a]
                        } else {
                            kviews[a + 1]
                        });
                        assert(kv_views(kv@)[b].0 == key@);
                    }
                }
            }
        },
        None => {
            kv.push((key, value));
            proof {
                assert(kv_views(kv@) =~= kviews.push((key@, value@)));
                lemma_map_push(kviews, key@, value@);
            }
        },
    }
}

/// Info from a server query.
#[derive(Debug)]
pub struct Query {
    /// Server-supplied stat fields; one entry per key, the last value wins.
    pub kv: Vec<(String, String)>,
    /// The server mod name and its plugin list.
    pub server: (String, Vec<String>),
    /// The player names, in the order the server listed them.
    pub players: Vec<String>,
}

fn region_is_plugins(data: &Vec<u8>, lo: usize, hi: usize) -> (r: bool)
    requires
        lo <= hi <= data@.len(),
    ensures
        r == (data@.subrange(lo as int, hi as int) == plugins_key()),
{
    if hi - lo != 7 {
        proof {
            assert(data@.subrange(lo as int, hi as int).len() != plugins_key().len());
        }
        return false;
    }
    let r = data[lo] == 0x70 && data[lo + 1] == 0x6c && data[lo + 2] == 0x75 && data[lo + 3]
        == 0x67 && data[lo + 4] == 0x69 && data[lo + 5] == 0x6e && data[lo + 6] == 0x73;
    proof {
        let sub = data@.subrange(lo as int, hi as int);
        assert(sub[0] == data@[lo as int] && sub[1] == data@[lo + 1] && sub[2] == data@[lo + 2]
            && sub[3] == data@[lo + 3] && sub[4] == data@[lo + 4] && sub[5] == data@[lo + 5]
            && sub[6] == data@[lo + 6]);
        if r {
            assert(sub =~= plugins_key());
        }
    }
    r
}

/// Parse the body of a stat response: the key/value block, the plugin
/// field set aside from it, and the trailing player list.
pub fn parse_stat_body(data: &Vec<u8>) -> (r: Query)
    ensures
        ({
            let (pairs, plug, end) = kv_walk(data@, 0);
            &&& kv_keys_unique(kv_views(r.kv@))
            &&& map_of_pairs(kv_views(r.kv@)) == map_of_pairs(char_pairs(pairs))
            &&& ({
                let parts = plugins_parts(
                    match plug {
                        None => None,
                        Some(b) => Some(lossy_chars(b)),
                    },
                );
                r.server.0@ == parts.0 && views(r.server.1@) == parts.1
            })
            &&& views(r.players@) == players_seq(
                data@,
                if end + 10 <= data@.len() {
                    end + 10
                } else {
                    data@.len() as int
                },
            )
        }),
{
    let ghost whole = kv_walk(data@, 0);
    let mut kv: Vec<(String, String)> = Vec::new();
    let mut plugins_val: Option<String> = None;
    let ghost mut plug_bytes: Option<Seq<u8>> = None;
    let ghost mut processed: Seq<(Seq<u8>, Seq<u8>)> = Seq::empty();
    let mut pos: usize = 0;
    let mut done = false;
    proof {
        assert(char_pairs(processed) =~= Seq::<(Seq<char>, Seq<char>)>::empty());
        assert(kv_views(kv@) =~= Seq::<(Seq<char>, Seq<char>)>::empty());
        assert(whole.0 =~= processed + whole.0);
    }
    while !done
        invariant
            pos <= data@.len(),
            whole == kv_walk(data@, 0),
            kv_keys_unique(kv_views(kv@)),
            map_of_pairs(kv_views(kv@)) == map_of_pairs(char_pairs(processed)),
            match plug_bytes {
                Some(b) => plugins_val matches Some(s) && s@ == lossy_chars(b),
                None => plugins_val is None,
            },
            !done ==> ({
                let rest = kv_walk(data@, pos as int);
                &&& whole.0 == processed + rest.0
                &&& whole.1 == (if rest.1 is Some {
                    rest.1
                } else {
                    plug_bytes
                })
                &&& whole.2 == rest.2
            }),
            done ==> whole.0 == processed && whole.1 == plug_bytes && pos as int == whole.2,
        decreases data@.len() - pos, (if done {
            0int
        } else {
            1int
        }),
    {
        proof {
            lemma_zero_pos(data@, pos as int);
        }
        let (key_s, j) = string_until_zero(data, pos);
        match key_s {
            None => {
                proof {
                    let rest = kv_walk(data@, pos as int);
                    assert(rest.0 =~= Seq::<(Seq<u8>, Seq<u8>)>::empty());
                    assert(whole.0 =~= processed);
                }
                pos = j;
                done = true;
            },
            Some(key) => {
                proof {
                    lemma_zero_pos(data@, j as int);
                }
                let (val_s, j2) = string_until_zero(data, j);
                match val_s {
                    None => {
                        pos = j2;
                    },
                    Some(value) => {
                        let is_plug = region_is_plugins(data, pos, j - 1);
                        let ghost kb = data@.subrange(pos as int, j - 1);
                        let ghost vb = data@.subrange(j as int, j2 - 1);
                        if is_plug {
                            plugins_val = Some(value);
                            proof {
                                plug_bytes = Some(vb);
                            }
                        } else {
                            let ghost before = processed;
                            kv_insert(&mut kv, key, value);
                            proof {
                                processed = processed.push((kb, vb));
                                assert(char_pairs(processed) =~= char_pairs(before).push(
                                    (lossy_chars(kb), lossy_chars(vb)),
                                ));
                                lemma_map_push(char_pairs(before), lossy_chars(kb), lossy_chars(vb));
                                let inner = kv_walk(data@, j2 as int);
                                assert(whole.0 =~= processed + inner.0);
                            }
                        }
                        pos = j2;
                    },
                }
            },
        }
    }
    let server = parse_plugins(plugins_val);
    let players = parse_players(data, pos, true);
    Query { kv, server, players }
}

/// Parse a full stat datagram of `len` received bytes: skip the type byte,
/// the session id, and the constant padding, drop the trailing zero, and
/// walk the body. A datagram too short for that shape is refused.
pub fn parse_stat_response(buf: &Vec<u8>, len: usize) -> (r: Result<Query, Error>)
    requires
        len <= buf@.len(),
    ensures
        match r {
            Ok(q) => ({
                let body = buf@.subrange(16, len - 1);
                let (pairs, plug, end) = kv_walk(body, 0);
                &&& len >= 17
                &&& kv_keys_unique(kv_views(q.kv@))
                &&& map_of_pairs(kv_views(q.kv@)) == map_of_pairs(char_pairs(pairs))
                &&& ({
                    let parts = plugins_parts(
                        match plug {
                            None => None,
                            Some(b) => Some(lossy_chars(b)),
                        },
                    );
                    q.server.0@ == parts.0 && views(q.server.1@) == parts.1
                })
                &&& views(q.players@) == players_seq(
                    body,
                    if end + 10 <= body.len() {
                        end + 10
                    } else {
                        body.len() as int
                    },
                )
            }),
            Err(e) => len < 17 && (e matches Error::Io(m) && m@ == "short stat response"@),
        },
{
    if len < 17 {
        return Err(Error::Io("short stat response".to_owned()));
    }
    let body = vstd::slice::slice_to_vec(vstd::slice::slice_subrange(buf.as_slice(), 16, len - 1));
    let q = parse_stat_body(&body);
    Ok(q)
}

} // verus!
