//! Reading a literal as a value of a requested type.
use vstd::prelude::*;

use crate::meta::Lit;

verus! {

/// The error returned when a literal does not hold a value of the requested type.
#[derive(Debug, PartialEq, Eq, Structural)]
pub struct CastError;

/// A type whose values can be read from a literal.
pub trait FromLit: Sized {
    /// The outcome of reading `lit` as a value of this type.
    spec fn cast_spec(lit: Lit) -> Result<Self, CastError>;

    /// Reads `lit` as a value of this type.
    fn from_lit(lit: Lit) -> (r: Result<Self, CastError>)
        ensures
            r == Self::cast_spec(lit),
    ;
}

/// Whether every character of `s` is an ASCII decimal digit.
pub open spec fn all_digits(s: Seq<char>) -> bool {
    forall|i: int| 0 <= i < s.len() ==> '0' <= #[trigger] s[i] <= '9'
}

/// The number that the decimal digits `s` denote.
pub open spec fn digits_value(s: Seq<char>) -> nat
    decreases s.len(),
{
    if s.len() == 0 {
        0
    } else {
        digits_value(s.drop_last()) * 10 + (s.last() as nat - '0' as nat) as nat
    }
}

/// The digits of `s` once an optional leading `+` is taken off.
pub open spec fn unsigned_digits(s: Seq<char>) -> Seq<char> {
    if s.len() > 0 && s[0] == '+' {
        s.drop_first()
    } else {
        s
    }
}

/// The `u64` that the text `s` denotes, as `u64`'s `FromStr` reads it: an
/// optional `+`, then one or more decimal digits, of a value that fits.
pub open spec fn u64_of(s: Seq<char>) -> Option<u64> {
    let d = unsigned_digits(s);
    if d.len() > 0 && all_digits(d) && digits_value(d) <= u64::MAX {
        Some(digits_value(d) as u64)
    } else {
        None
    }
}

/// Appending digits never makes the value smaller.
proof fn lemma_digits_value_grows(s: Seq<char>, j: int)
    requires
        0 <= j <= s.len(),
        all_digits(s),
    ensures
        digits_value(s.subrange(0, j)) <= digits_value(s),
    decreases s.len() - j,
{
    if j == s.len() {
        assert(s.subrange(0, j) =~= s);
    } else {
        lemma_digits_value_grows(s, j + 1);
        let t = s.subrange(0, j + 1);
        assert(t.drop_last() =~= s.subrange(0, j));
        assert('0' <= t.last() <= '9');
    }
}

/// Reads the decimal text `s` as a `u64`, as `u64`'s `FromStr` does.
pub fn parse_u64(s: &str) -> (r: Option<u64>)
    ensures
        r == u64_of(s@),
{
    let n = s.unicode_len();
    let mut i: usize = 0;
    if n > 0 && s.get_char(0) == '+' {
        i = 1;
    }
    let ghost d = unsigned_digits(s@);
    assert(d =~= s@.subrange(i as int, n as int));
    if i == n {
        return None;
    }
    let start = i;
    let mut v: u64 = 0;
    while i < n
        invariant
            start <= i <= n,
            n == s@.len(),
            d == unsigned_digits(s@),
            d =~= s@.subrange(start as int, n as int),
            all_digits(d.subrange(0, i - start)),
            v as nat == digits_value(d.subrange(0, i - start)),
        decreases n - i,
    {
        let c = s.get_char(i);
        let ghost k = i - start;
        assert(d[k] == c);
        if c < '0' || c > '9' {
            assert(!all_digits(d));
            return None;
        }
        let dv = (c as u32 - '0' as u32) as u64;
        assert(d.subrange(0, k + 1).drop_last() =~= d.subrange(0, k));
        assert(digits_value(d.subrange(0, k + 1)) == v * 10 + dv);
        if v > (u64::MAX - dv) / 10 {
            proof {
                if all_digits(d) {
                    lemma_digits_value_grows(d, k + 1);
                }
            }
            return None;
        }
        v = v * 10 + dv;
        i = i + 1;
    }
    assert(d.subrange(0, i - start) =~= d);
    Some(v)
}

impl FromLit for Lit {
    open spec fn cast_spec(lit: Lit) -> Result<Lit, CastError> {
        Ok(lit)
    }

    fn from_lit(lit: Lit) -> (r: Result<Lit, CastError>) {
        Ok(lit)
    }
}

impl FromLit for u64 {
    /// An integer literal whose value fits.
    open spec fn cast_spec(lit: Lit) -> Result<u64, CastError> {
        match lit {
            Lit::Int(digits) => match u64_of(digits@) {
                Some(v) => Ok(v),
                None => Err(CastError),
            },
            _ => Err(CastError),
        }
    }

    fn from_lit(lit: Lit) -> (r: Result<u64, CastError>) {
        match lit {
            Lit::Int(digits) => match parse_u64(digits.as_str()) {
                Some(v) => Ok(v),
                None => Err(CastError),
            },
            _ => Err(CastError),
        }
    }
}

impl FromLit for bool {
    /// A boolean literal.
    open spec fn cast_spec(lit: Lit) -> Result<bool, CastError> {
        match lit {
            Lit::Bool(b) => Ok(b),
            _ => Err(CastError),
        }
    }

    fn from_lit(lit: Lit) -> (r: Result<bool, CastError>) {
        match lit {
            Lit::Bool(b) => Ok(b),
            _ => Err(CastError),
        }
    }
}

impl FromLit for String {
    /// A string literal, read as the string it denotes.
    open spec fn cast_spec(lit: Lit) -> Result<String, CastError> {
        match lit {
            Lit::Str(s) => Ok(s),
            _ => Err(CastError),
        }
    }

    fn from_lit(lit: Lit) -> (r: Result<String, CastError>) {
        match lit {
            Lit::Str(s) => Ok(s),
            _ => Err(CastError),
        }
    }
}

} // verus!
