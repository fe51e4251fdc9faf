//! Event-bus attach points and their textual form.
//!
//! An address is a client/port pair.  Its textual form is
//! `"<client>:<port>"`: two non-negative decimal integers separated by a
//! single colon.  A string that deviates from that form does not parse;
//! for the resolver that is a per-route failure, never a fatal one.

use vstd::prelude::*;
use vstd::string::StrSliceExecFns;

verus! {

/// A resolved client/port pair identifying an attach point on the
/// external event bus.
#[derive(Clone, Copy, PartialEq, Eq, Structural, Debug)]
pub struct Addr {
    pub client: u32,
    pub port: u32,
}

/// A decimal digit.
pub open spec fn is_digit(c: char) -> bool {
    48 <= c as u32 && c as u32 <= 57
}

/// The numeric value of one decimal digit.
pub open spec fn digit_val(c: char) -> int {
    c as u32 - 48
}

/// Every character of `s` is a decimal digit.
pub open spec fn all_digits(s: Seq<char>) -> bool {
    forall|i: int| 0 <= i < s.len() ==> is_digit(s[i])
}

/// The value of a digit string read most-significant first.
pub open spec fn digits_val(s: Seq<char>) -> int
    decreases s.len(),
{
    if s.len() == 0 {
        0
    } else {
        digits_val(s.drop_last()) * 10 + digit_val(s.last())
    }
}

/// Index of the first colon in `s`, if any.
pub open spec fn first_colon(s: Seq<char>) -> Option<int>
    decreases s.len(),
{
    if s.len() == 0 {
        None
    } else if s[0] == ':' {
        Some(0int)
    } else {
        match first_colon(s.drop_first()) {
            Some(j) => Some(j + 1),
            None => None,
        }
    }
}

/// What a non-empty digit string denotes, if its value fits a `u32`.
pub open spec fn spec_parse_decimal(p: Seq<char>) -> Option<u32> {
    if p.len() > 0 && all_digits(p) && digits_val(p) <= u32::MAX as int {
        Some(digits_val(p) as u32)
    } else {
        None
    }
}

/// The address a string denotes: the part before the first colon and the
/// part after it must each be a non-empty digit string whose value fits a
/// `u32` (so a second colon, anywhere, spoils the parse).
pub open spec fn spec_parse_addr(s: Seq<char>) -> Option<Addr> {
    match first_colon(s) {
        None => None,
        Some(i) => match (spec_parse_decimal(s.take(i)), spec_parse_decimal(s.skip(i + 1))) {
            (Some(c), Some(p)) => Some(Addr { client: c, port: p }),
            _ => None,
        },
    }
}

proof fn lemma_digits_val_nonneg(s: Seq<char>)
    requires
        all_digits(s),
    ensures
        digits_val(s) >= 0,
    decreases s.len(),
{
    if s.len() > 0 {
        assert(forall|i: int| 0 <= i < s.drop_last().len() ==> s.drop_last()[i] == s[i]);
        lemma_digits_val_nonneg(s.drop_last());
    }
}

proof fn lemma_first_colon_at(s: Seq<char>, i: int)
    requires
        0 <= i < s.len(),
        s[i] == ':',
        forall|j: int| 0 <= j < i ==> s[j] != ':',
    ensures
        first_colon(s) == Some(i),
    decreases i,
{
    if i > 0 {
        assert(s.drop_first()[i - 1] == s[i]);
        assert(forall|j: int| 0 <= j < i - 1 ==> s.drop_first()[j] == s[j + 1]);
        lemma_first_colon_at(s.drop_first(), i - 1);
    }
}

proof fn lemma_first_colon_none(s: Seq<char>)
    requires
        forall|j: int| 0 <= j < s.len() ==> s[j] != ':',
    ensures
        first_colon(s) == None::<int>,
    decreases s.len(),
{
    if s.len() > 0 {
        assert(forall|j: int| 0 <= j < s.drop_first().len() ==> s.drop_first()[j] == s[j + 1]);
        lemma_first_colon_none(s.drop_first());
    }
}

/// Position of the first colon in `s`.
fn find_colon(s: &str) -> (r: Option<usize>)
    ensures
        match r {
            Some(i) => i < s@.len() && first_colon(s@) == Some(i as int),
            None => first_colon(s@) == None::<int>,
        },
{
    let n = s.unicode_len();
    let mut i: usize = 0;
    while i < n
        invariant
            i <= n,
            n == s@.len(),
            forall|j: int| 0 <= j < i ==> s@[j] != ':',
        decreases n - i,
    {
        if s.get_char(i) == ':' {
            proof {
                lemma_first_colon_at(s@, i as int);
            }
            return Some(i);
        }
        i = i + 1;
    }
    proof {
        lemma_first_colon_none(s@);
    }
    None
}

/// Value of the digit string `s[from..to]`, when it is one.
fn parse_decimal(s: &str, from: usize, to: usize) -> (r: Option<u32>)
    requires
        from <= to <= s@.len(),
    ensures
        r == spec_parse_decimal(s@.subrange(from as int, to as int)),
{
    let ghost part = s@.subrange(from as int, to as int);
    if from == to {
        return None;
    }
    let mut acc: u64 = 0;
    let mut i: usize = from;
    while i < to
        invariant
            from <= i <= to <= s@.len(),
            part == s@.subrange(from as int, to as int),
            all_digits(s@.subrange(from as int, i as int)),
            acc <= u32::MAX as u64 ==> acc as int == digits_val(s@.subrange(from as int, i as int)),
            acc > u32::MAX as u64 ==> digits_val(s@.subrange(from as int, i as int)) > u32::MAX as int,
            acc <= u32::MAX as u64 * 10 + 9,
        decreases to - i,
    {
        let c = s.get_char(i);
        let cv = c as u32;
        if cv < 48 || cv > 57 {
            proof {
                assert(part[i - from] == s@[i as int]);
                assert(!is_digit(part[i - from]));
            }
            return None;
        }
        let d = cv - 48;
        proof {
            let p0 = s@.subrange(from as int, i as int);
            let p1 = s@.subrange(from as int, i as int + 1);
            assert(p1.drop_last() =~= p0);
            assert(p1.last() == s@[i as int]);
            assert(forall|j: int| 0 <= j < p0.len() ==> p1[j] == p0[j]);
            lemma_digits_val_nonneg(p0);
        }
        if acc <= u32::MAX as u64 {
            acc = acc * 10 + d as u64;
        }
        i = i + 1;
    }
    proof {
        assert(s@.subrange(from as int, i as int) =~= part);
    }
    if acc <= u32::MAX as u64 {
        Some(acc as u32)
    } else {
        None
    }
}

impl Addr {
    /// Parse the textual form of an address.
    pub fn parse(s: &str) -> (r: Option<Addr>)
        ensures
            r == spec_parse_addr(s@),
    {
        match find_colon(s) {
            None => None,
            Some(i) => {
                let n = s.unicode_len();
                proof {
                    assert(s@.subrange(0, i as int) =~= s@.take(i as int));
                    assert(s@.subrange(i as int + 1, n as int) =~= s@.skip(i as int + 1));
                }
                let client = parse_decimal(s, 0, i);
                let port = parse_decimal(s, i + 1, n);
                match (client, port) {
                    (Some(c), Some(p)) => Some(Addr { client: c, port: p }),
                    _ => None,
                }
            },
        }
    }
}

} // verus!
