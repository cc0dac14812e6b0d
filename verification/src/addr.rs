use vstd::prelude::*;
use vstd::string::{StrSliceExecFns, StringExecFns};

use crate::error::Error;

verus! {

/// The default port of the status and query protocols.
pub const DEFAULT_PORT: u16 = 25565;

/// A decimal digit as a character.
pub open spec fn char_digit(c: char) -> bool {
    0x30 <= c as u32 <= 0x39
}

/// A run made of decimal digits only.
pub open spec fn all_char_digits(s: Seq<char>) -> bool {
    forall|j: int| 0 <= j < s.len() ==> char_digit(#[trigger] s[j])
}

/// The value of a run of decimal digits, most significant first.
pub open spec fn char_digits_value(s: Seq<char>) -> int
    decreases s.len(),
{
    if s.len() == 0 {
        0
    } else {
        char_digits_value(s.drop_last()) * 10 + (s.last() as u32 - 0x30)
    }
}

/// The reading of a run of characters the way a port number is parsed:
/// an optional plus sign, then one or more digits.
pub open spec fn port_of_chars(s: Seq<char>) -> Option<int> {
    let ds = if s.len() > 0 && s[0] == '+' {
        s.skip(1)
    } else {
        s
    };
    if ds.len() == 0 || !all_char_digits(ds) {
        None
    } else {
        Some(char_digits_value(ds))
    }
}

/// The position of the last colon in a string, if any.
pub open spec fn last_colon(s: Seq<char>) -> Option<int>
    decreases s.len(),
{
    if s.len() == 0 {
        None
    } else if s.last() == ':' {
        Some(s.len() - 1)
    } else {
        last_colon(s.drop_last())
    }
}

/// What `last_colon` finds: the last colon, or no colon at all.
pub proof fn lemma_last_colon(s: Seq<char>)
    ensures
        match last_colon(s) {
            Some(p) => 0 <= p < s.len() && s[p] == ':' && (forall|j: int|
                p < j < s.len() ==> s[j] != ':'),
            None => forall|j: int| 0 <= j < s.len() ==> s[j] != ':',
        },
    decreases s.len(),
{
    if s.len() > 0 && s.last() != ':' {
        lemma_last_colon(s.drop_last());
        assert(forall|j: int| 0 <= j < s.len() - 1 ==> s[j] == s.drop_last()[j]);
    }
}

/// How a request's host and optional port become the address actually
/// used: an explicit port wins; otherwise the host may carry a port after
/// its last colon; otherwise the default port holds.
pub open spec fn parsed_host(host: Seq<char>, port: Option<u16>) -> (Seq<char>, u16) {
    match port {
        Some(p) => (host, p),
        None => match last_colon(host) {
            Some(i) => match port_of_chars(host.skip(i + 1)) {
                Some(v) => if 0 <= v <= 0xffff {
                    (host.take(i), v as u16)
                } else {
                    (host, DEFAULT_PORT)
                },
                None => (host, DEFAULT_PORT),
            },
            None => (host, DEFAULT_PORT),
        },
    }
}

fn find_last_colon(s: &str) -> (r: Option<usize>)
    ensures
        match r {
            Some(p) => last_colon(s@) == Some(p as int) && p < s@.len(),
            None => last_colon(s@) is None,
        },
{
    let n = s.unicode_len();
    let mut i = n;
    while i > 0
        invariant
            i <= n,
            n == s@.len(),
            forall|j: int| i <= j < s@.len() ==> s@[j] != ':',
        decreases i,
    {
        i = i - 1;
        if s.get_char(i) == ':' {
            proof {
                lemma_last_colon(s@);
                let lc = last_colon(s@);
                if lc is None {
                    assert(s@[i as int] != ':');
                } else {
                    let p = lc->Some_0;
                    if p < i {
                        assert(s@[i as int] != ':');
                    } else if p > i {
                        assert(s@[p] != ':');
                    }
                }
            }
            return Some(i);
        }
    }
    proof {
        lemma_last_colon(s@);
        let lc = last_colon(s@);
        if lc is Some {
            assert(s@[lc->Some_0] != ':');
        }
    }
    None
}

fn parse_port_chars(s: &str) -> (r: Option<u16>)
    ensures
        match r {
            Some(v) => port_of_chars(s@) == Some(v as int),
            None => port_of_chars(s@) is None || (port_of_chars(s@) matches Some(x) && !(0 <= x
                <= 0xffff)),
        },
{
    let n = s.unicode_len();
    if n == 0 {
        return None;
    }
    let first = s.get_char(0);
    let start: usize = if first == '+' {
        1
    } else {
        0
    };
    let ghost ds = if s@[0] == '+' {
        s@.skip(1)
    } else {
        s@
    };
    proof {
        assert(ds =~= s@.subrange(start as int, n as int));
    }
    if start == n {
        return None;
    }
    let mut acc: u32 = 0;
    let mut i = start;
    while i < n
        invariant
            start <= i <= n,
            n == s@.len(),
            0 < n,
            start == (if s@[0] == '+' {
                1int
            } else {
                0int
            }),
            ds == s@.subrange(start as int, n as int),
            acc == char_digits_value(s@.subrange(start as int, i as int)),
            0 <= acc <= 0xffff,
            forall|j: int| start <= j < i ==> char_digit(#[trigger] s@[j]),
        decreases n - i,
    {
        let c = s.get_char(i);
        if c < '0' || c > '9' {
            proof {
                assert(s@.skip(1) =~= s@.subrange(1, s@.len() as int));
                assert(s@.subrange(0, s@.len() as int) =~= s@);
                assert(ds[i - start] == s@[i as int]);
                assert(!all_char_digits(ds)) by {
                    assert(!char_digit(ds[i - start]));
                }
            }
            return None;
        }
        let d = (c as u32) - 0x30;
        let ghost before = s@.subrange(start as int, i as int);
        acc = acc * 10 + d;
        i = i + 1;
        proof {
            let now = s@.subrange(start as int, i as int);
            assert(now.drop_last() =~= before);
            assert(now.last() == c);
        }
        if acc > 0xffff {
            proof {
                assert(s@.skip(1) =~= s@.subrange(1, s@.len() as int));
                assert(s@.subrange(0, s@.len() as int) =~= s@);
                assert(char_digits_value(s@.subrange(start as int, i as int)) == acc);
                if all_char_digits(ds) {
                    assert(ds.subrange(0, i - start) =~= s@.subrange(start as int, i as int));
                    lemma_char_digits_extend(ds, i - start);
                    assert(char_digits_value(ds) >= acc);
                    assert(port_of_chars(s@) == Some(char_digits_value(ds)));
                }
            }
            return None;
        }
    }
    proof {
        assert(s@.skip(1) =~= s@.subrange(1, s@.len() as int));
        assert(s@.subrange(0, s@.len() as int) =~= s@);
        assert(ds =~= s@.subrange(start as int, i as int));
        assert(all_char_digits(ds));
    }
    Some(acc as u16)
}

/// A digit run's value never goes down as more digits arrive.
proof fn lemma_char_digits_extend(s: Seq<char>, k: int)
    requires
        0 <= k <= s.len(),
        all_char_digits(s),
    ensures
        char_digits_value(s) >= char_digits_value(s.subrange(0, k)),
        char_digits_value(s.subrange(0, k)) >= 0,
    decreases s.len() - k,
{
    if k == s.len() {
        assert(s.subrange(0, k) =~= s);
        lemma_char_digits_nonneg(s);
    } else {
        lemma_char_digits_extend(s, k + 1);
        let p = s.subrange(0, k + 1);
        assert(p.drop_last() =~= s.subrange(0, k));
        lemma_char_digits_nonneg(s.subrange(0, k));
        assert(char_digits_value(p) == char_digits_value(s.subrange(0, k)) * 10 + (s[k] as u32
            - 0x30));
        assert(char_digits_value(s.subrange(0, k)) * 10 >= char_digits_value(s.subrange(0, k)))
            by (nonlinear_arith)
            requires
                char_digits_value(s.subrange(0, k)) >= 0,
        ;
    }
}

/// A digit run's value is never negative.
proof fn lemma_char_digits_nonneg(s: Seq<char>)
    requires
        all_char_digits(s),
    ensures
        char_digits_value(s) >= 0,
    decreases s.len(),
{
    if s.len() > 0 {
        lemma_char_digits_nonneg(s.drop_last());
        assert(char_digits_value(s.drop_last()) * 10 >= 0) by (nonlinear_arith)
            requires
                char_digits_value(s.drop_last()) >= 0,
        ;
    }
}

/// Split a request's host and optional port into the address to contact.
pub fn parse_host_port(host: &str, port: Option<u16>) -> (r: (String, u16))
    ensures
        ({
            let (h, p) = parsed_host(host@, port);
            r.0@ == h && r.1 == p
        }),
{
    match port {
        Some(p) => (host.to_owned(), p),
        None => {
            let n = host.unicode_len();
            match find_last_colon(host) {
                Some(i) => {
                    proof {
                        lemma_last_colon(host@);
                    }
                    let suffix = host.substring_char(i + 1, n);
                    proof {
                        assert(suffix@ =~= host@.skip(i + 1));
                    }
                    match parse_port_chars(suffix) {
                        Some(v) => {
                            let head = host.substring_char(0, i);
                            proof {
                                assert(head@ =~= host@.take(i as int));
                            }
                            (head.to_owned(), v)
                        },
                        None => (host.to_owned(), DEFAULT_PORT),
                    }
                },
                None => (host.to_owned(), DEFAULT_PORT),
            }
        },
    }
}

/// A request for a server's status or query data.
#[derive(Debug, Clone)]
pub struct ServerRequest {
    pub host: String,
    pub port: Option<u16>,
}

impl ServerRequest {
    /// The requested host.
    pub fn host(&self) -> (r: &str)
        ensures
            r@ == self.host@,
    {
        self.host.as_str()
    }

    /// The requested port, when one was given.
    pub fn port(&self) -> (r: Option<u16>)
        ensures
            r == self.port,
    {
        self.port
    }

    /// The host and port to actually contact.
    pub fn parse_host(&self) -> (r: (String, u16))
        ensures
            ({
                let (h, p) = parsed_host(self.host@, self.port);
                r.0@ == h && r.1 == p
            }),
    {
        parse_host_port(self.host.as_str(), self.port)
    }
}

/// A request for a server's status rendered as an image.
#[derive(Debug, Clone)]
pub struct ServerImageRequest {
    pub host: String,
    pub port: Option<u16>,
    pub title: Option<String>,
    pub theme: Option<String>,
}

impl ServerImageRequest {
    /// The requested host.
    pub fn host(&self) -> (r: &str)
        ensures
            r@ == self.host@,
    {
        self.host.as_str()
    }

    /// The requested port, when one was given.
    pub fn port(&self) -> (r: Option<u16>)
        ensures
            r == self.port,
    {
        self.port
    }

    /// The host and port to actually contact.
    pub fn parse_host(&self) -> (r: (String, u16))
        ensures
            ({
                let (h, p) = parsed_host(self.host@, self.port);
                r.0@ == h && r.1 == p
            }),
    {
        parse_host_port(self.host.as_str(), self.port)
    }
}

/// Ensure a port is something we should be attempting to connect to.
pub fn validate_port(port: u16) -> (r: Result<(), Error>)
    ensures
        port >= 1024 ==> r is Ok,
        port < 1024 ==> (r matches Err(e) && e == Error::InvalidPort(port)),
{
    if port < 1024 {
        return Err(Error::InvalidPort(port));
    }
    Ok(())
}

/// Get the current unix timestamp, as seconds.
///
/// Relies on SystemTime::now and its distance from the unix epoch.
#[verifier::external_body]
pub fn unix_timestamp() -> u64 {
    let start = std::time::SystemTime::now();
    let since = start.duration_since(std::time::UNIX_EPOCH).unwrap();
    since.as_secs() as u64
}

} // verus!
