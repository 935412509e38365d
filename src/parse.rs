use vstd::prelude::*;
use core::marker::PhantomData;
use crate::error::Error;
use crate::work::Work;

verus! {

broadcast use vstd::string::axiom_spec_iter;

pub open spec fn is_digit(c: char) -> bool {
    '0' <= c && c <= '9'
}

pub open spec fn digit_value(c: char) -> nat {
    (c as int - '0' as int) as nat
}

/// The value of a string of decimal digits.
pub open spec fn decimal(s: Seq<char>) -> nat
    decreases s.len(),
{
    if s.len() == 0 {
        0
    } else {
        decimal(s.drop_last()) * 10 + digit_value(s.last())
    }
}

/// The digits of a number as `u64::from_str` reads it: an optional leading
/// `+`, then the digits.
pub open spec fn digits_part(s: Seq<char>) -> Seq<char> {
    if s.len() > 0 && s[0] == '+' {
        s.drop_first()
    } else {
        s
    }
}

/// The `u64` that a string denotes: at least one digit, nothing but digits
/// after the optional sign, and a value that fits.
pub open spec fn parsed_u64(s: Seq<char>) -> Option<u64> {
    let d = digits_part(s);
    if d.len() > 0 && (forall|i: int| 0 <= i < d.len() ==> is_digit(#[trigger] d[i])) && decimal(d) <= u64::MAX {
        Some(decimal(d) as u64)
    } else {
        None
    }
}

proof fn lemma_decimal_grows(s: Seq<char>, k: int)
    requires
        0 <= k <= s.len(),
    ensures
        decimal(s.take(k)) <= decimal(s),
    decreases s.len() - k,
{
    if k < s.len() {
        lemma_decimal_grows(s, k + 1);
        assert(s.take(k + 1).drop_last() =~= s.take(k));
    } else {
        assert(s.take(k) =~= s);
    }
}

/// The characters of a string.
fn chars_of(s: &str) -> (r: Vec<char>)
    ensures
        r@ == s@,
{
    let ghost full = s@;
    let mut v: Vec<char> = Vec::new();
    for c in it: s.chars()
        invariant
            it.seq() == full,
            v@ == full.take(it.index() as int),
    {
        proof {
            assert(full[it.index() as int] == c);
        }
        v.push(c);
        proof {
            assert(v@ =~= full.take(it.index() + 1));
        }
    }
    proof {
        assert(full.take(full.len() as int) =~= full);
    }
    v
}

/// Reads a decimal `u64` from a string.
pub fn parse_u64(s: &str) -> (r: Option<u64>)
    ensures
        r == parsed_u64(s@),
{
    let v = chars_of(s);
    let start: usize = if v.len() > 0 && v[0] == '+' { 1 } else { 0 };
    let ghost d = digits_part(s@);
    proof {
        if start == 1 {
            assert(d =~= v@.skip(1));
        } else {
            assert(d =~= v@.skip(0));
        }
    }
    if start == v.len() {
        return None;
    }
    let mut acc: u64 = 0;
    let mut i: usize = start;
    while i < v.len()
        invariant
            start <= i <= v.len(),
            d == digits_part(s@),
            d == v@.skip(start as int),
            acc == decimal(d.take(i - start)),
            forall|j: int| 0 <= j < i - start ==> is_digit(#[trigger] d[j]),
        decreases v.len() - i,
    {
        let c = v[i];
        proof {
            assert(d[i - start] == c);
            assert(d.take(i - start + 1).drop_last() =~= d.take(i - start));
        }
        if !('0' <= c && c <= '9') {
            proof {
                assert(!is_digit(d[i - start]));
            }
            return None;
        }
        let digit = (c as u32 - '0' as u32) as u64;
        let next = match acc.checked_mul(10) {
            Some(m) => m.checked_add(digit),
            None => None,
        };
        match next {
            Some(n) => {
                acc = n;
                i = i + 1;
            },
            None => {
                proof {
                    let k = i - start;
                    assert(d.take(k + 1).last() == c);
                    assert(digit_value(c) == digit);
                    assert(decimal(d.take(k + 1)) == acc * 10 + digit);
                    assert(acc * 10 + digit > u64::MAX);
                    if forall|j: int| 0 <= j < d.len() ==> is_digit(#[trigger] d[j]) {
                        lemma_decimal_grows(d, k + 1);
                    }
                }
                return None;
            },
        }
    }
    proof {
        assert(d.take(i - start) =~= d);
    }
    Some(acc)
}

/// A stage that parses its text input as a number.
pub struct ParseStr<T>(PhantomData<T>);

pub fn parse_str<T>() -> (r: ParseStr<T>) {
    ParseStr(PhantomData)
}

impl<C> Work<C, String> for ParseStr<u64> {
    type Output = u64;

    open spec fn call_requires(&self, ctx: C, input: String) -> bool {
        true
    }

    open spec fn call_ensures(&self, ctx: C, input: String, out: Result<u64, Error>) -> bool {
        match parsed_u64(input@) {
            Some(v) => out == Ok::<u64, Error>(v),
            None => out is Err,
        }
    }

    fn call(&self, ctx: &C, input: String) -> (r: Result<u64, Error>) {
        match parse_u64(input.as_str()) {
            Some(v) => Ok(v),
            None => Err(Error::new("invalid unsigned integer".to_string())),
        }
    }
}

} // verus!
