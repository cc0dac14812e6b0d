use vstd::prelude::*;

verus! {

/// What lossy UTF-8 conversion makes of a byte sequence. The result depends
/// on the bytes alone; invalid sequences become replacement characters.
pub uninterp spec fn lossy_chars(s: Seq<u8>) -> Seq<char>;

/// Relies on String::from_utf8_lossy: the conversion is a function of the
/// bytes alone, and valid UTF-8 input decodes exactly.
#[verifier::external_body]
pub(crate) fn lossy_string(bytes: &[u8]) -> (r: String)
    ensures
        r@ == lossy_chars(bytes@),
        vstd::utf8::valid_utf8(bytes@) ==> r@ == vstd::utf8::decode_utf8(bytes@),
{
    String::from_utf8_lossy(bytes).to_string()
}

/// The position of the first zero byte at or after `i`, if any.
pub open spec fn zero_pos(s: Seq<u8>, i: int) -> Option<int>
    decreases s.len() - i,
{
    if i < 0 || i >= s.len() {
        None
    } else if s[i] == 0 {
        Some(i)
    } else {
        zero_pos(s, i + 1)
    }
}

/// What `zero_pos` finds: the first zero byte, or none at all.
pub proof fn lemma_zero_pos(s: Seq<u8>, i: int)
    requires
        0 <= i <= s.len(),
    ensures
        match zero_pos(s, i) {
            Some(z) => i <= z < s.len() && s[z] == 0 && (forall|j: int|
                i <= j < z ==> s[j] != 0),
            None => forall|j: int| i <= j < s.len() ==> s[j] != 0,
        },
    decreases s.len() - i,
{
    if i < s.len() && s[i] != 0 {
        lemma_zero_pos(s, i + 1);
    }
}

/// Read data from the buffer until a zero byte, then convert the data into
/// a string lossily. The zero byte is consumed. An empty run, or a run that
/// reaches the end of the buffer without a zero, yields no string.
pub fn string_until_zero(data: &Vec<u8>, start: usize) -> (r: (Option<String>, usize))
    requires
        start <= data@.len(),
    ensures
        r.1 <= data@.len(),
        match zero_pos(data@, start as int) {
            Some(z) => {
                &&& r.1 == z + 1
                &&& if z == start {
                    r.0 is None
                } else {
                    r.0 matches Some(t) && t@ == lossy_chars(data@.subrange(start as int, z))
                }
            },
            None => r.0 is None && r.1 == data@.len(),
        },
{
    let mut i = start;
    while i < data.len() && data[i] != 0
        invariant
            start <= i <= data@.len(),
            forall|j: int| start <= j < i ==> data@[j] != 0,
        decreases data@.len() - i,
    {
        i = i + 1;
    }
    proof {
        lemma_zero_pos(data@, start as int);
        if i < data@.len() {
            lemma_zero_pos(data@, i as int);
        }
    }
    if i >= data.len() {
        return (None, data.len());
    }
    if i == start {
        return (None, i + 1);
    }
    let body = vstd::slice::slice_subrange(data.as_slice(), start, i);
    (Some(lossy_string(body)), i + 1)
}

/// The first position at or after `from` where the two characters occur in
/// order, if any.
pub open spec fn find_two_at(s: Seq<char>, c0: char, c1: char, from: int) -> Option<int>
    decreases s.len() - from,
{
    if from < 0 || from + 2 > s.len() {
        None
    } else if s[from] == c0 && s[from + 1] == c1 {
        Some(from)
    } else {
        find_two_at(s, c0, c1, from + 1)
    }
}

/// What `find_two_at` finds: the first two-character match, or none.
pub proof fn lemma_find_two_at(s: Seq<char>, c0: char, c1: char, from: int)
    requires
        0 <= from,
    ensures
        match find_two_at(s, c0, c1, from) {
            Some(p) => from <= p && p + 2 <= s.len() && s[p] == c0 && s[p + 1] == c1 && (forall|
                j: int,
            |
                from <= j < p ==> !(#[trigger] s[j] == c0 && s[j + 1] == c1)),
            None => forall|j: int|
                from <= j && j + 2 <= s.len() ==> !(#[trigger] s[j] == c0 && s[j + 1] == c1),
        },
    decreases s.len() - from,
{
    if from + 2 <= s.len() && !(s[from] == c0 && s[from + 1] == c1) {
        lemma_find_two_at(s, c0, c1, from + 1);
    }
}

/// Find the first occurrence of the two-character separator in a string.
pub fn find_two(s: &str, c0: char, c1: char, from: usize) -> (r: Option<usize>)
    requires
        from <= s@.len(),
    ensures
        match r {
            Some(p) => find_two_at(s@, c0, c1, from as int) == Some(p as int) && p + 2 <= s@.len(),
            None => find_two_at(s@, c0, c1, from as int) is None,
        },
{
    let n = vstd::string::StrSliceExecFns::unicode_len(s);
    let mut i = from;
    while n - i >= 2
        invariant
            from <= i <= n,
            n == s@.len(),
            forall|j: int| from <= j < i ==> !(#[trigger] s@[j] == c0 && s@[j + 1] == c1),
        decreases n - i,
    {
        let a = vstd::string::StrSliceExecFns::get_char(s, i);
        let b = vstd::string::StrSliceExecFns::get_char(s, i + 1);
        if a == c0 && b == c1 {
            proof {
                lemma_find_two_at(s@, c0, c1, from as int);
                let f = find_two_at(s@, c0, c1, from as int);
                if f is None {
                    assert(!(s@[i as int] == c0 && s@[i as int + 1] == c1));
                } else {
                    let p = f->Some_0;
                    if p < i {
                        assert(!(s@[p] == c0 && s@[p + 1] == c1));
                    } else if p > i {
                        assert(!(s@[i as int] == c0 && s@[i as int + 1] == c1));
                    }
                }
            }
            return Some(i);
        }
        i = i + 1;
    }
    proof {
        lemma_find_two_at(s@, c0, c1, from as int);
    }
    None
}

} // verus!
