use vstd::prelude::*;
use vstd::string::*;
use vstd::utf8::encode_utf8;

use crate::error::Error;

verus! {

/// The server's port when none is configured.
pub const DEFAULT_PORT: u16 = 4321;

/// Where to connect.
pub struct Config {
    pub hostname: String,
    pub port: u16,
}

/// The value of a string of ASCII decimal digits.
pub open spec fn digits_value(d: Seq<u8>) -> int
    decreases d.len(),
{
    if d.len() == 0 {
        0
    } else {
        10 * digits_value(d.drop_last()) + (d.last() - 48)
    }
}

pub open spec fn is_digit(b: u8) -> bool {
    48 <= b <= 57
}

/// `b` without a leading `+`.
pub open spec fn unsigned_part(b: Seq<u8>) -> Seq<u8> {
    if b.len() > 0 && b[0] == 43 { b.drop_first() } else { b }
}

pub open spec fn all_digits(d: Seq<u8>) -> bool {
    forall|i: int| 0 <= i < d.len() ==> is_digit(#[trigger] d[i])
}

/// A port as `u16`'s `FromStr` reads it: an optional `+`, then one or more
/// ASCII digits whose value fits in 16 bits.
pub open spec fn port_value(b: Seq<u8>) -> Option<u16> {
    let d = unsigned_part(b);
    if d.len() > 0 && all_digits(d) && digits_value(d) <= 0xffff {
        Some(digits_value(d) as u16)
    } else {
        None
    }
}

/// The configured port, or the default where none is given or it does not parse.
pub open spec fn port_or_default(port: Option<Seq<u8>>) -> u16 {
    match port {
        Some(p) => match port_value(p) {
            Some(v) => v,
            None => DEFAULT_PORT,
        },
        None => DEFAULT_PORT,
    }
}

/// `i` is the position of the first NUL byte of `b`.
pub open spec fn first_nul(b: Seq<u8>, i: int) -> bool {
    &&& 0 <= i < b.len()
    &&& b[i] == 0
    &&& forall|k: int| 0 <= k < i ==> b[k] != 0
}

proof fn lemma_digits_grow(d: Seq<u8>, v: int)
    requires
        d.len() > 0,
        forall|i: int| 0 <= i < d.len() ==> is_digit(#[trigger] d[i]),
        v == digits_value(d.drop_last()),
        v >= 0,
    ensures
        digits_value(d) >= v,
        digits_value(d) >= 0,
{
}

/// Reads a port number from its decimal text.
pub fn parse_port(s: &str) -> (r: Option<u16>)
    ensures
        r == port_value(s.spec_bytes()),
{
    let b = s.as_bytes();
    let n = b.len();
    let ghost bs = b@;
    let mut i: usize = 0;
    if n > 0 && b[0] == 43 {
        i = 1;
    }
    let first = i;
    let ghost d = unsigned_part(bs);
    assert(d =~= bs.subrange(first as int, n as int));
    if i == n {
        return None;
    }
    // the value so far, held at 65536 once it is larger than any port
    let mut acc: u32 = 0;
    while i < n
        invariant
            first <= i <= n == bs.len(),
            b@ == bs,
            bs == s.spec_bytes(),
            d == unsigned_part(bs),
            d == bs.subrange(first as int, n as int),
            forall|k: int| first <= k < i ==> is_digit(#[trigger] bs[k]),
            digits_value(bs.subrange(first as int, i as int)) >= 0,
            acc as int == if digits_value(bs.subrange(first as int, i as int)) > 0xffff {
                0x10000
            } else {
                digits_value(bs.subrange(first as int, i as int))
            },
        decreases n - i,
    {
        let c = b[i];
        if c < 48 || c > 57 {
            assert(d[i - first] == c);
            assert(!is_digit(d[i - first]));
            return None;
        }
        let ghost prev = bs.subrange(first as int, i as int);
        let ghost next = bs.subrange(first as int, i + 1);
        proof {
            assert(next.drop_last() =~= prev);
            assert forall|k: int| 0 <= k < next.len() implies is_digit(#[trigger] next[k]) by {
                assert(next[k] == bs[first + k]);
            }
            lemma_digits_grow(next, digits_value(prev));
        }
        let v = acc * 10 + (c - 48) as u32;
        acc = if v > 0xffff { 0x10000 } else { v };
        i = i + 1;
    }
    assert(bs.subrange(first as int, n as int) == d);
    if acc > 0xffff {
        None
    } else {
        Some(acc as u16)
    }
}

impl Config {
    /// The configuration from an optional host name and an optional port
    /// text: the host name defaults to `fibs.com` and the port to 4321, which
    /// also stands where the text is not a port. A host name with a NUL byte
    /// is refused, with the position of the first one and the bytes before it.
    pub fn from_overrides(hostname: Option<String>, port: Option<String>) -> (r: Result<Config, Error>)
        ensures
            match hostname {
                Some(h) => {
                    let b = encode_utf8(h@);
                    if exists|i: int| first_nul(b, i) {
                        match r {
                            Err(Error::MalformedConfiguration { position, preceding }) => {
                                &&& first_nul(b, position as int)
                                &&& preceding@ == b.take(position as int)
                            },
                            _ => false,
                        }
                    } else {
                        match r {
                            Ok(c) => c.hostname@ == h@ && c.port == port_or_default(
                                match port {
                                    Some(p) => Some(encode_utf8(p@)),
                                    None => None,
                                },
                            ),
                            _ => false,
                        }
                    }
                },
                None => match r {
                    Ok(c) => c.hostname@ == "fibs.com"@ && c.port == port_or_default(
                        match port {
                            Some(p) => Some(encode_utf8(p@)),
                            None => None,
                        },
                    ),
                    _ => false,
                },
            },
    {
        let port_number = match &port {
            Some(p) => match parse_port(p.as_str()) {
                Some(v) => v,
                None => DEFAULT_PORT,
            },
            None => DEFAULT_PORT,
        };
        match hostname {
            Some(h) => {
                let b = h.as_str().as_bytes();
                let mut i: usize = 0;
                while i < b.len()
                    invariant
                        0 <= i <= b@.len(),
                        hostname == Some(h),
                        port_number == port_or_default(
                            match port {
                                Some(p) => Some(encode_utf8(p@)),
                                None => None,
                            },
                        ),
                        b@ == encode_utf8(h@),
                        forall|k: int| 0 <= k < i ==> b@[k] != 0,
                    decreases b@.len() - i,
                {
                    if b[i] == 0 {
                        let mut preceding: Vec<u8> = Vec::new();
                        let mut k: usize = 0;
                        while k < i
                            invariant
                                0 <= k <= i < b@.len(),
                                b@ == encode_utf8(h@),
                                hostname == Some(h),
                                b@[i as int] == 0,
                                forall|j: int| 0 <= j < i ==> b@[j] != 0,
                                preceding@ == b@.take(k as int),
                            decreases i - k,
                        {
                            preceding.push(b[k]);
                            k = k + 1;
                            assert(preceding@ =~= b@.take(k as int));
                        }
                        assert(first_nul(b@, i as int));
                        assert(preceding@ == encode_utf8(h@).take(i as int));
                        return Err(Error::MalformedConfiguration { position: i, preceding });
                    }
                    i = i + 1;
                }
                Ok(Config { hostname: h, port: port_number })
            },
            None => Ok(Config { hostname: String::from_str("fibs.com"), port: port_number }),
        }
    }
}

} // verus!
