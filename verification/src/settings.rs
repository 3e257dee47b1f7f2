//! The two settings of a run: the timeout of a job in whole seconds and the
//! number of jobs that may run at a time.

use crate::job::text_view;
use crate::text::{chars_of, digit};
use vstd::prelude::*;

verus! {

/// The timeout in seconds where none is set.
pub const DEFAULT_TIMEOUT: usize = 2;

/// The number of permits where none is set.
pub const DEFAULT_NJOBS: usize = 4;

/// Whether `c` is one of the ten decimal digits.
pub open spec fn is_digit(c: char) -> bool {
    exists|d: nat| d < 10 && c == #[trigger] digit(d)
}

/// The value of a decimal digit.
pub open spec fn digit_value(c: char) -> nat {
    choose|d: nat| d < 10 && c == #[trigger] digit(d)
}

/// Every character of `s` is a decimal digit.
pub open spec fn all_digits(s: Seq<char>) -> bool {
    forall|i: int| 0 <= i < s.len() ==> is_digit(#[trigger] s[i])
}

/// The number that the digits of `s` write in base ten.
pub open spec fn number(s: Seq<char>) -> nat
    decreases s.len(),
{
    if s.len() == 0 {
        0
    } else {
        10 * number(s.drop_last()) + digit_value(s.last())
    }
}

/// The digits of a setting: the text without the plus sign that may lead it.
pub open spec fn unsigned(s: Seq<char>) -> Seq<char> {
    if s.len() > 0 && s[0] == '+' {
        s.skip(1)
    } else {
        s
    }
}

/// The number that `s` writes: one or more decimal digits, after at most one
/// plus sign, with nothing else before, between or after them, and a value
/// that a `usize` holds. Any other text writes no number.
pub open spec fn parsed(s: Seq<char>) -> Option<usize> {
    let d = unsigned(s);
    if d.len() > 0 && all_digits(d) && number(d) <= usize::MAX {
        Some(number(d) as usize)
    } else {
        None
    }
}

/// A setting's value: the default where it is not set, else the number it
/// writes, if it writes one.
pub open spec fn setting(text: Option<Seq<char>>, default: usize) -> Option<usize> {
    match text {
        None => Some(default),
        Some(t) => parsed(t),
    }
}

/// The number written by some digits is at least the number written by
/// the first of them.
pub proof fn lemma_number_grows(s: Seq<char>, k: int)
    requires
        0 <= k <= s.len(),
    ensures
        number(s.take(k)) <= number(s),
    decreases s.len() - k,
{
    if k < s.len() {
        lemma_number_grows(s, k + 1);
        assert(s.take(k + 1).drop_last() =~= s.take(k));
    } else {
        assert(s.take(k) =~= s);
    }
}

/// The value of the digit `c`, or `None` if `c` is no digit.
fn value_of(c: char) -> (r: Option<usize>)
    ensures
        r is Some <==> is_digit(c),
        r matches Some(d) ==> d < 10 && d == digit_value(c),
{
    let r: Option<usize> = if c == '0' {
        Some(0)
    } else if c == '1' {
        Some(1)
    } else if c == '2' {
        Some(2)
    } else if c == '3' {
        Some(3)
    } else if c == '4' {
        Some(4)
    } else if c == '5' {
        Some(5)
    } else if c == '6' {
        Some(6)
    } else if c == '7' {
        Some(7)
    } else if c == '8' {
        Some(8)
    } else if c == '9' {
        Some(9)
    } else {
        None
    };
    proof {
        match r {
            Some(d) => {
                assert(c == digit(d as nat));
                let e = digit_value(c);
                assert(e < 10 && c == digit(e));
            },
            None => {
                assert forall|d: nat| d < 10 implies c != #[trigger] digit(d) by {}
            },
        }
    }
    r
}

/// The number that `s` writes, if it writes one.
pub fn parse_count(s: &str) -> (r: Option<usize>)
    ensures
        r == parsed(s@),
{
    let cs = chars_of(s);
    let start: usize = if cs.len() > 0 && cs[0] == '+' {
        1
    } else {
        0
    };
    let ghost d = unsigned(cs@);
    assert(d =~= cs@.skip(start as int));
    if start == cs.len() {
        return None;
    }
    let mut acc: usize = 0;
    let mut i: usize = start;
    while i < cs.len()
        invariant
            start <= i <= cs.len(),
            d == cs@.skip(start as int),
            d == unsigned(s@),
            all_digits(d.take(i - start)),
            acc == number(d.take(i - start)),
        decreases cs.len() - i,
    {
        let ghost upto = d.take(i - start + 1);
        proof {
            assert(upto.drop_last() =~= d.take(i - start));
            assert(upto.last() == cs@[i as int]);
            assert(d[i - start] == cs@[i as int]);
        }
        match value_of(cs[i]) {
            None => {
                assert(!is_digit(d[i - start]));
                return None;
            },
            Some(v) => {
                proof {
                    assert forall|j: int| 0 <= j < upto.len() implies is_digit(
                        #[trigger] upto[j],
                    ) by {
                        if j < i - start {
                            assert(upto[j] == d.take(i - start)[j]);
                        }
                    }
                }
                if acc > (usize::MAX - v) / 10 {
                    proof {
                        assert(number(upto) > usize::MAX);
                        lemma_number_grows(d, i - start + 1);
                        if all_digits(d) {
                            assert(number(d) > usize::MAX);
                        }
                    }
                    return None;
                }
                acc = acc * 10 + v;
            },
        }
        i += 1;
    }
    assert(d.take(i - start) =~= d);
    Some(acc)
}

/// The settings of a run.
#[derive(Clone, Copy, Debug, PartialEq, Eq)]
pub struct Settings {
    /// The timeout of a job, in whole seconds.
    pub timeout: usize,
    /// The number of jobs that may run at a time.
    pub njobs: usize,
}

impl Settings {
    /// The settings where nothing is set: two seconds, four jobs.
    pub fn defaults() -> (r: Settings)
        ensures
            r.timeout == DEFAULT_TIMEOUT,
            r.njobs == DEFAULT_NJOBS,
    {
        Settings { timeout: DEFAULT_TIMEOUT, njobs: DEFAULT_NJOBS }
    }

    /// The settings from what the environment holds for the timeout and for
    /// the number of jobs: each is its default where it is not set. `None`
    /// if one that is set writes no number.
    pub fn resolve(timeout: Option<String>, njobs: Option<String>) -> (r: Option<Settings>)
        ensures
            r == (match (
                setting(text_view(timeout), DEFAULT_TIMEOUT),
                setting(text_view(njobs), DEFAULT_NJOBS),
            ) {
                (Some(t), Some(n)) => Some(Settings { timeout: t, njobs: n }),
                _ => None,
            }),
    {
        let t = match timeout {
            None => Some(DEFAULT_TIMEOUT),
            Some(text) => parse_count(text.as_str()),
        };
        let n = match njobs {
            None => Some(DEFAULT_NJOBS),
            Some(text) => parse_count(text.as_str()),
        };
        match (t, n) {
            (Some(t), Some(n)) => Some(Settings { timeout: t, njobs: n }),
            _ => None,
        }
    }
}

} // verus!
