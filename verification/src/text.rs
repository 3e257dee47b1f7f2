//! Text helpers: whitespace, trimming, splitting a command line into words,
//! and decimal numbers.
//!
//! Every contract here speaks of a string through its view, the sequence of
//! its characters.

use vstd::prelude::*;

verus! {

/// Whether `c` is whitespace in the sense of the standard library's
/// `char::is_whitespace`, that is, whether it has the Unicode property
/// `White_Space`. Nothing else is claimed of it.
pub uninterp spec fn white_space(c: char) -> bool;

/// `char::is_whitespace` of the standard library. Believed, not proved: its
/// answer is the one that [`white_space`] names.
pub assume_specification[ char::is_whitespace ](c: char) -> (b: bool)
    ensures
        b == white_space(c),
;

/// `String::push` of the standard library. Believed, not proved: it appends
/// the one character to the end of the string and changes nothing else.
pub assume_specification[ String::push ](s: &mut String, c: char)
    ensures
        final(s)@ == old(s)@.push(c),
;

/// The number of characters at the front of `s` that are whitespace
/// (`space == true`) or that are not (`space == false`).
pub open spec fn run_len(s: Seq<char>, space: bool) -> nat
    decreases s.len(),
{
    if s.len() > 0 && white_space(s[0]) == space {
        1 + run_len(s.drop_first(), space)
    } else {
        0
    }
}

/// The number of whitespace characters at the back of `s`.
pub open spec fn back_run_len(s: Seq<char>) -> nat
    decreases s.len(),
{
    if s.len() > 0 && white_space(s.last()) {
        1 + back_run_len(s.drop_last())
    } else {
        0
    }
}

/// `s` without its leading and trailing whitespace. Whitespace inside is kept.
pub open spec fn trim(s: Seq<char>) -> Seq<char> {
    let t = s.skip(run_len(s, true) as int);
    t.take(t.len() - back_run_len(t))
}

/// Every character of `s` is whitespace.
pub open spec fn all_space(s: Seq<char>) -> bool {
    forall|i: int| 0 <= i < s.len() ==> white_space(#[trigger] s[i])
}

/// The words of `s`: its maximal runs of characters that are not whitespace,
/// in order. A string of whitespace alone has no words.
pub open spec fn words(s: Seq<char>) -> Seq<Seq<char>>
    decreases s.len(),
    via words_decreases
{
    let t = s.skip(run_len(s, true) as int);
    let n = run_len(t, false);
    if n == 0 {
        Seq::empty()
    } else {
        seq![t.take(n as int)] + words(t.skip(n as int))
    }
}

#[via_fn]
proof fn words_decreases(s: Seq<char>) {
    lemma_run_len(s, true);
    lemma_run_len(s.skip(run_len(s, true) as int), false);
}

/// The views of the strings of `v`, in order.
pub open spec fn views(v: Seq<String>) -> Seq<Seq<char>> {
    Seq::new(v.len(), |i: int| v[i]@)
}

/// The leading run is `m` long when the first `m` characters are of the
/// kind and the next one, if there is one, is not.
pub proof fn lemma_run_len_is(s: Seq<char>, space: bool, m: int)
    requires
        0 <= m <= s.len(),
        forall|j: int| 0 <= j < m ==> white_space(#[trigger] s[j]) == space,
        m == s.len() || white_space(s[m]) != space,
    ensures
        run_len(s, space) == m,
    decreases m,
{
    if m > 0 {
        let t = s.drop_first();
        assert forall|j: int| 0 <= j < m - 1 implies white_space(#[trigger] t[j]) == space by {
            assert(t[j] == s[j + 1]);
        }
        assert(m - 1 == t.len() || t[m - 1] == s[m]);
        lemma_run_len_is(t, space, m - 1);
    }
}

/// The trailing run of whitespace is `m` long when the last `m` characters
/// are whitespace and the one before them, if there is one, is not.
pub proof fn lemma_back_run_len_is(s: Seq<char>, m: int)
    requires
        0 <= m <= s.len(),
        forall|j: int| s.len() - m <= j < s.len() ==> white_space(#[trigger] s[j]),
        m == s.len() || !white_space(s[s.len() - m - 1]),
    ensures
        back_run_len(s) == m,
    decreases m,
{
    if m > 0 {
        let t = s.drop_last();
        assert forall|j: int| t.len() - (m - 1) <= j < t.len() implies white_space(
            #[trigger] t[j],
        ) by {
            assert(t[j] == s[j]);
        }
        assert(m - 1 == t.len() || t[t.len() - (m - 1) - 1] == s[s.len() - m - 1]);
        lemma_back_run_len_is(t, m - 1);
    }
}

/// The leading run consists of characters of the kind, and the character
/// after it, if there is one, is not of the kind.
pub proof fn lemma_run_len(s: Seq<char>, space: bool)
    ensures
        run_len(s, space) <= s.len(),
        forall|j: int| 0 <= j < run_len(s, space) ==> white_space(#[trigger] s[j]) == space,
        run_len(s, space) < s.len() ==> white_space(s[run_len(s, space) as int]) != space,
    decreases s.len(),
{
    if s.len() > 0 && white_space(s[0]) == space {
        let t = s.drop_first();
        lemma_run_len(t, space);
        assert forall|j: int| 0 <= j < run_len(s, space) implies white_space(#[trigger] s[j])
            == space by {
            if j > 0 {
                assert(t[j - 1] == s[j]);
            }
        }
        assert(run_len(s, space) < s.len() ==> t[run_len(t, space) as int] == s[run_len(
            s,
            space,
        ) as int]);
    }
}

/// The trailing run consists of whitespace, and the character before it,
/// if there is one, is not whitespace.
pub proof fn lemma_back_run_len(s: Seq<char>)
    ensures
        back_run_len(s) <= s.len(),
        forall|j: int| s.len() - back_run_len(s) <= j < s.len() ==> white_space(#[trigger] s[j]),
        back_run_len(s) < s.len() ==> !white_space(s[s.len() - back_run_len(s) - 1]),
    decreases s.len(),
{
    if s.len() > 0 && white_space(s.last()) {
        let t = s.drop_last();
        lemma_back_run_len(t);
        assert forall|j: int| s.len() - back_run_len(s) <= j < s.len() implies white_space(
            #[trigger] s[j],
        ) by {
            if j < t.len() {
                assert(t[j] == s[j]);
            }
        }
        assert(back_run_len(s) < s.len() ==> t[t.len() - back_run_len(t) - 1] == s[s.len()
            - back_run_len(s) - 1]);
    }
}

/// Trimming takes whitespace away and nothing else: the text is some
/// whitespace, then the trimmed text, then some whitespace; and the trimmed
/// text neither starts nor ends with whitespace.
pub proof fn lemma_trim_cuts_the_ends(s: Seq<char>)
    ensures
        ({
            let a = run_len(s, true) as int;
            let b = a + trim(s).len();
            &&& 0 <= a <= b <= s.len()
            &&& trim(s) == s.subrange(a, b)
            &&& all_space(s.subrange(0, a))
            &&& all_space(s.subrange(b, s.len() as int))
        }),
        trim(s).len() > 0 ==> !white_space(trim(s).first()) && !white_space(trim(s).last()),
{
    lemma_run_len(s, true);
    let a = run_len(s, true) as int;
    let t = s.skip(a);
    lemma_back_run_len(t);
    let b = a + trim(s).len();
    assert(trim(s) =~= s.subrange(a, b));
    assert forall|i: int| 0 <= i < s.subrange(b, s.len() as int).len() implies white_space(
        #[trigger] s.subrange(b, s.len() as int)[i],
    ) by {
        assert(s.subrange(b, s.len() as int)[i] == t[b - a + i]);
    }
    if trim(s).len() > 0 {
        assert(trim(s).first() == s[a]);
        assert(trim(s).last() == t[t.len() - back_run_len(t) - 1]);
    }
}

/// Whitespace inside is kept: a text that neither starts nor ends with
/// whitespace is its own trimmed text. So trimming twice is trimming once.
pub proof fn lemma_trim_keeps_the_inside(s: Seq<char>)
    requires
        s.len() == 0 || (!white_space(s.first()) && !white_space(s.last())),
    ensures
        trim(s) == s,
{
    assert(s.skip(0) =~= s);
    assert(s.take(s.len() as int) =~= s);
}

/// Trimming a trimmed text changes nothing.
pub proof fn lemma_trim_idempotent(s: Seq<char>)
    ensures
        trim(trim(s)) == trim(s),
{
    lemma_trim_cuts_the_ends(s);
    lemma_trim_keeps_the_inside(trim(s));
}

/// Whitespace at the two ends does not count: with whitespace before and
/// after it, a text trims to what it trims to alone.
pub proof fn lemma_trim_ignores_outer_space(before: Seq<char>, s: Seq<char>, after: Seq<char>)
    requires
        all_space(before),
        all_space(after),
    ensures
        trim(before + s + after) == trim(s),
{
    let u = before + s + after;
    lemma_run_len(s, true);
    let a = run_len(s, true) as int;
    let ts = s.skip(a);
    lemma_back_run_len(ts);
    if a == s.len() {
        assert forall|j: int| 0 <= j < u.len() implies white_space(#[trigger] u[j]) == true by {
            if j < before.len() {
                assert(u[j] == before[j]);
            } else if j < before.len() + s.len() {
                assert(u[j] == s[j - before.len()]);
            } else {
                assert(u[j] == after[j - before.len() - s.len()]);
            }
        }
        lemma_run_len_is(u, true, u.len() as int);
        assert(trim(u) =~= Seq::<char>::empty());
        assert(trim(s) =~= Seq::<char>::empty());
    } else {
        let m = before.len() + a;
        assert forall|j: int| 0 <= j < m implies white_space(#[trigger] u[j]) == true by {
            if j < before.len() {
                assert(u[j] == before[j]);
            } else {
                assert(u[j] == s[j - before.len()]);
            }
        }
        assert(u[m] == s[a]);
        lemma_run_len_is(u, true, m);
        let tu = u.skip(m);
        assert(tu =~= ts + after);
        let b = back_run_len(ts) as int;
        assert(ts[0] == s[a]);
        assert(b < ts.len()) by {
            if b == ts.len() {
                assert(white_space(ts[0]));
            }
        }
        let k = after.len() + b;
        assert forall|j: int| tu.len() - k <= j < tu.len() implies white_space(#[trigger] tu[j]) by {
            if j < ts.len() {
                assert(tu[j] == ts[j]);
            } else {
                assert(tu[j] == after[j - ts.len()]);
            }
        }
        assert(tu[tu.len() - k - 1] == ts[ts.len() - b - 1]);
        lemma_back_run_len_is(tu, k);
        assert(tu.take(tu.len() - k) =~= ts.take(ts.len() - b));
    }
}

/// Every word has at least one character and no whitespace in it.
pub proof fn lemma_words_are_solid(s: Seq<char>)
    ensures
        forall|i: int|
            0 <= i < words(s).len() ==> (#[trigger] words(s)[i]).len() > 0 && forall|j: int|
                0 <= j < words(s)[i].len() ==> !white_space(#[trigger] words(s)[i][j]),
    decreases s.len(),
{
    lemma_run_len(s, true);
    let t = s.skip(run_len(s, true) as int);
    lemma_run_len(t, false);
    let n = run_len(t, false);
    if n > 0 {
        let rest = t.skip(n as int);
        lemma_words_are_solid(rest);
        let first = t.take(n as int);
        assert forall|i: int| 0 <= i < words(s).len() implies (#[trigger] words(s)[i]).len() > 0
            && forall|j: int|
            0 <= j < words(s)[i].len() ==> !white_space(#[trigger] words(s)[i][j]) by {
            if i == 0 {
                assert(words(s)[0] == first);
                assert forall|j: int| 0 <= j < first.len() implies !white_space(
                    #[trigger] first[j],
                ) by {
                    assert(first[j] == t[j]);
                }
            } else {
                assert(words(s)[i] == words(rest)[i - 1]);
            }
        }
    }
}

/// The characters of `s`, in order.
pub fn chars_of(s: &str) -> (v: Vec<char>)
    ensures
        v@ == s@,
{
    let mut v: Vec<char> = Vec::new();
    for c in it: s.chars()
        invariant
            v@ == it.seq().take(it.index() as int),
            it.seq() == s@,
    {
        v.push(c);
    }
    v
}

/// The string made of the characters of `cs` from index `from` up to, not
/// including, index `to`.
pub fn string_of(cs: &Vec<char>, from: usize, to: usize) -> (r: String)
    requires
        from <= to <= cs.len(),
    ensures
        r@ == cs@.subrange(from as int, to as int),
{
    let mut r = String::new();
    let mut i: usize = from;
    while i < to
        invariant
            from <= i <= to <= cs.len(),
            r@ == cs@.subrange(from as int, i as int),
        decreases to - i,
    {
        r.push(cs[i]);
        i += 1;
        assert(r@ =~= cs@.subrange(from as int, i as int));
    }
    r
}

/// The index just past the run of whitespace (`space == true`) or of other
/// characters (`space == false`) that starts at index `from`.
fn run_end(cs: &Vec<char>, from: usize, space: bool) -> (to: usize)
    requires
        from <= cs.len(),
    ensures
        from <= to <= cs.len(),
        to == from + run_len(cs@.skip(from as int), space),
{
    let mut k: usize = from;
    while k < cs.len() && cs[k].is_whitespace() == space
        invariant
            from <= k <= cs.len(),
            forall|j: int| from <= j < k ==> white_space(#[trigger] cs@[j]) == space,
        decreases cs.len() - k,
    {
        k += 1;
    }
    proof {
        let t = cs@.skip(from as int);
        assert forall|j: int| 0 <= j < k - from implies white_space(#[trigger] t[j]) == space by {
            assert(t[j] == cs@[from + j]);
        }
        lemma_run_len_is(t, space, k - from);
    }
    k
}

/// The index at which the trailing run of whitespace of `cs[from..]` starts.
fn back_run_start(cs: &Vec<char>, from: usize) -> (to: usize)
    requires
        from <= cs.len(),
    ensures
        from <= to <= cs.len(),
        cs.len() - to == back_run_len(cs@.skip(from as int)),
{
    let mut k: usize = cs.len();
    while k > from && cs[k - 1].is_whitespace()
        invariant
            from <= k <= cs.len(),
            forall|j: int| k <= j < cs.len() ==> white_space(#[trigger] cs@[j]),
        decreases k,
    {
        k -= 1;
    }
    proof {
        let t = cs@.skip(from as int);
        assert forall|j: int| t.len() - (cs.len() - k) <= j < t.len() implies white_space(
            #[trigger] t[j],
        ) by {
            assert(t[j] == cs@[from + j]);
        }
        lemma_back_run_len_is(t, cs.len() - k);
    }
    k
}

/// `s` without its leading and trailing whitespace.
pub fn trimmed(s: &str) -> (r: String)
    ensures
        r@ == trim(s@),
{
    let cs = chars_of(s);
    let a = run_end(&cs, 0, true);
    let b = back_run_start(&cs, a);
    let r = string_of(&cs, a, b);
    proof {
        assert(cs@.skip(0) =~= cs@);
        let t = cs@.skip(a as int);
        assert(t.take(t.len() - back_run_len(t)) =~= cs@.subrange(a as int, b as int));
    }
    r
}

/// The words of `s`, split at whitespace.
pub fn split_words(s: &str) -> (r: Vec<String>)
    ensures
        views(r@) == words(s@),
{
    let cs = chars_of(s);
    let mut out: Vec<String> = Vec::new();
    let ghost mut i: int = 0;
    let mut a: usize = run_end(&cs, 0, true);
    let mut b: usize = run_end(&cs, a, false);
    proof {
        assert(cs@.skip(0) =~= cs@);
        assert(views(out@) + words(cs@.skip(0)) =~= words(cs@));
    }
    while a < b
        invariant
            0 <= i <= a <= b <= cs.len(),
            a == i + run_len(cs@.skip(i), true),
            b == a + run_len(cs@.skip(a as int), false),
            views(out@) + words(cs@.skip(i)) == words(cs@),
        decreases cs.len() - i,
    {
        let w = string_of(&cs, a, b);
        proof {
            let s0 = cs@.skip(i);
            let t = s0.skip(run_len(s0, true) as int);
            assert(t =~= cs@.skip(a as int));
            assert(t.take(b - a) =~= cs@.subrange(a as int, b as int));
            assert(t.skip(b - a) =~= cs@.skip(b as int));
            assert(words(s0) == seq![w@] + words(cs@.skip(b as int)));
            assert(views(out@.push(w)) =~= views(out@) + seq![w@]);
            assert(views(out@.push(w)) + words(cs@.skip(b as int)) =~= views(out@) + words(s0));
            i = b as int;
        }
        out.push(w);
        a = run_end(&cs, b, true);
        b = run_end(&cs, a, false);
    }
    proof {
        let s0 = cs@.skip(i);
        let t = s0.skip(run_len(s0, true) as int);
        assert(t =~= cs@.skip(a as int));
        assert(words(s0) =~= Seq::<Seq<char>>::empty());
        assert(views(out@) + words(s0) =~= views(out@));
    }
    out
}

/// The decimal digit for `d`, which is below ten.
pub open spec fn digit(d: nat) -> char {
    if d == 0 {
        '0'
    } else if d == 1 {
        '1'
    } else if d == 2 {
        '2'
    } else if d == 3 {
        '3'
    } else if d == 4 {
        '4'
    } else if d == 5 {
        '5'
    } else if d == 6 {
        '6'
    } else if d == 7 {
        '7'
    } else if d == 8 {
        '8'
    } else {
        '9'
    }
}

/// `n` written in base ten, without sign or leading zeros.
pub open spec fn decimal(n: nat) -> Seq<char>
    decreases n,
{
    if n < 10 {
        seq![digit(n)]
    } else {
        decimal(n / 10).push(digit(n % 10))
    }
}

fn digit_char(d: u64) -> (c: char)
    requires
        d < 10,
    ensures
        c == digit(d as nat),
{
    if d == 0 {
        '0'
    } else if d == 1 {
        '1'
    } else if d == 2 {
        '2'
    } else if d == 3 {
        '3'
    } else if d == 4 {
        '4'
    } else if d == 5 {
        '5'
    } else if d == 6 {
        '6'
    } else if d == 7 {
        '7'
    } else if d == 8 {
        '8'
    } else {
        '9'
    }
}

/// Appends `n`, written in base ten, to `out`.
pub fn push_decimal(out: &mut String, n: u64)
    ensures
        final(out)@ == old(out)@ + decimal(n as nat),
    decreases n,
{
    if n >= 10 {
        push_decimal(out, n / 10);
    }
    out.push(digit_char(n % 10));
    proof {
        if n >= 10 {
            assert(old(out)@ + decimal(n as nat) =~= (old(out)@ + decimal((n / 10) as nat)).push(
                digit((n % 10) as nat),
            ));
        } else {
            assert(old(out)@ + decimal(n as nat) =~= old(out)@.push(digit(n as nat)));
        }
    }
}

/// `n` written in base ten.
pub fn decimal_string(n: u64) -> (r: String)
    ensures
        r@ == decimal(n as nat),
{
    let mut r = String::new();
    push_decimal(&mut r, n);
    assert(Seq::<char>::empty() + decimal(n as nat) =~= decimal(n as nat));
    r
}

} // verus!
