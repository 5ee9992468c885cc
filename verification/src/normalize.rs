//! Normalization passes: superscript markup, cross-document links and
//! code-fence openings.

use vstd::prelude::*;
use crate::chars::{chars_of, string_of, is_wsp_char, is_wsp, is_digit_char, is_digit, push_all,
    subvec};
use crate::replace::{spec_replace, replace_plain};
use crate::adjust::{spec_hash_run, spec_is_heading};
use crate::lines::{spec_lines, spec_unlines, spec_toggles, lines_view, toggles_line,
    split_lines_vec, unlines_vec};

verus! {

/// The length of the run of ASCII digits at the start of the sequence.
pub open spec fn spec_digit_run(s: Seq<char>) -> int
    decreases s.len(),
{
    if s.len() == 0 || !is_digit_char(s[0]) {
        0
    } else {
        1 + spec_digit_run(s.skip(1))
    }
}

/// When the first `i` characters are digits and the next one is not, the
/// digit run has length `i`.
pub proof fn lemma_digit_run_at(s: Seq<char>, i: int)
    requires
        0 <= i <= s.len(),
        forall|k: int| 0 <= k < i ==> is_digit_char(s[k]),
        i < s.len() ==> !is_digit_char(s[i]),
    ensures
        spec_digit_run(s) == i,
    decreases s.len(),
{
    if i == 0 {
    } else {
        assert(is_digit_char(s[0]));
        assert forall|k: int| 0 <= k < i - 1 implies is_digit_char(s.skip(1)[k]) by {
            assert(s.skip(1)[k] == s[k + 1]);
        }
        if i - 1 < s.skip(1).len() {
            assert(s.skip(1)[i - 1] == s[i]);
        }
        lemma_digit_run_at(s.skip(1), i - 1);
    }
}

/// The length of the digit run starting at index `i` of `v`.
fn digit_run_from(v: &Vec<char>, i: usize) -> (a: usize)
    requires
        i <= v@.len(),
    ensures
        a as int == spec_digit_run(v@.skip(i as int)),
        i + a <= v@.len(),
{
    let mut j: usize = i;
    while j < v.len() && is_digit(v[j])
        invariant
            i <= j <= v@.len(),
            forall|k: int| i <= k < j ==> is_digit_char(v@[k]),
        decreases v@.len() - j,
    {
        j = j + 1;
    }
    proof {
        let s = v@.skip(i as int);
        assert forall|k: int| 0 <= k < j - i implies is_digit_char(s[k]) by {
            assert(s[k] == v@[i + k]);
        }
        if j < v@.len() {
            assert(s[j - i] == v@[j as int]);
        }
        lemma_digit_run_at(s, j - i);
    }
    j - i
}

/// A superscript match at the start of `s`: a digit run, the literal
/// `<sup>`, a second digit run, and the literal `</sup>`.  Returns the
/// two run lengths.
pub open spec fn spec_math_at(s: Seq<char>) -> Option<(int, int)> {
    let a = spec_digit_run(s);
    let b = spec_digit_run(s.skip(a + 5));
    if a >= 1 && a + 5 <= s.len() && s[a] == '<' && s[a + 1] == 's' && s[a + 2] == 'u' && s[a + 3]
        == 'p' && s[a + 4] == '>' && b >= 1 && a + 5 + b + 6 <= s.len() && s[a + 5 + b] == '<' && s[a
        + 5 + b + 1] == '/' && s[a + 5 + b + 2] == 's' && s[a + 5 + b + 3] == 'u' && s[a + 5 + b
        + 4] == 'p' && s[a + 5 + b + 5] == '>' {
        Some((a, b))
    } else {
        None
    }
}

/// `s` with every superscript `N<sup>M</sup>`, scanned from the left,
/// rewritten to `N^M^`.
pub open spec fn spec_rw_math(s: Seq<char>) -> Seq<char>
    decreases s.len(),
{
    if s.len() == 0 {
        s
    } else {
        match spec_math_at(s) {
            Some((a, b)) => if 1 <= a && 1 <= b && a + 5 + b + 6 <= s.len() {
                s.take(a) + seq!['^'] + s.skip(a + 5).take(b) + seq!['^'] + spec_rw_math(
                    s.skip(a + 5 + b + 6),
                )
            } else {
                s
            },
            None => seq![s[0]] + spec_rw_math(s.skip(1)),
        }
    }
}

/// The superscript match starting at index `i` of `v`, if any.
fn math_at(v: &Vec<char>, i: usize) -> (r: Option<(usize, usize)>)
    requires
        i <= v@.len(),
    ensures
        match r {
            Some((a, b)) => spec_math_at(v@.skip(i as int)) == Some((a as int, b as int)) && 1 <= a
                && 1 <= b && i + a + 5 + b + 6 <= v@.len(),
            None => spec_math_at(v@.skip(i as int)) is None,
        },
{
    let ghost s = v@.skip(i as int);
    proof {
        assert(forall|k: int| 0 <= k < s.len() ==> s[k] == v@[i + k]);
    }
    let a = digit_run_from(v, i);
    proof {
        assert(s.skip(a as int) =~= v@.skip(i + a));
    }
    if a < 1 || v.len() - i - a < 5 {
        proof {
            if spec_math_at(s) is Some {
                assert(false);
            }
        }
        return None;
    }
    if !(v[i + a] == '<' && v[i + a + 1] == 's' && v[i + a + 2] == 'u' && v[i + a + 3] == 'p'
        && v[i + a + 4] == '>') {
        return None;
    }
    let b = digit_run_from(v, i + a + 5);
    proof {
        assert(v@.skip(i + a + 5) =~= s.skip(a + 5));
    }
    if b < 1 || v.len() - i - a - 5 - b < 6 {
        return None;
    }
    if v[i + a + 5 + b] == '<' && v[i + a + 5 + b + 1] == '/' && v[i + a + 5 + b + 2] == 's' && v[i
        + a + 5 + b + 3] == 'u' && v[i + a + 5 + b + 4] == 'p' && v[i + a + 5 + b + 5] == '>' {
        Some((a, b))
    } else {
        None
    }
}

/// Rewrites every superscript `N<sup>M</sup>` in the text to `N^M^`.
#[verifier::rlimit(100)]
pub fn normalize_math(text: &str) -> (r: String)
    ensures
        r@ == spec_rw_math(text@),
{
    let v = chars_of(text);
    let mut out: Vec<char> = Vec::new();
    let mut i: usize = 0;
    proof {
        assert(v@.skip(0) =~= v@);
        assert(out@ + spec_rw_math(v@) =~= spec_rw_math(v@));
    }
    while i < v.len()
        invariant
            i <= v@.len(),
            out@ + spec_rw_math(v@.skip(i as int)) == spec_rw_math(v@),
        decreases v@.len() - i,
    {
        let ghost rest = v@.skip(i as int);
        let ghost prev = out@;
        match math_at(&v, i) {
            Some((a, b)) => {
                proof {
                    assert(rest.take(a as int) =~= v@.subrange(i as int, i + a));
                    assert(rest.skip(a + 5).take(b as int) =~= v@.subrange(i + a + 5, i + a + 5
                        + b));
                    assert(rest.skip(a + 5 + b + 6) =~= v@.skip(i + a + 5 + b + 6));
                }
                let first = subvec(&v, i, i + a);
                push_all(&mut out, &first);
                out.push('^');
                let second = subvec(&v, i + a + 5, i + a + 5 + b);
                push_all(&mut out, &second);
                out.push('^');
                proof {
                    assert(out@ =~= prev + (rest.take(a as int) + seq!['^'] + rest.skip(a + 5).take(
                        b as int,
                    ) + seq!['^']));
                    assert(out@ + spec_rw_math(v@.skip(i + a + 5 + b + 6)) =~= prev + spec_rw_math(
                        rest,
                    ));
                }
                i = i + a + 5 + b + 6;
            },
            None => {
                proof {
                    assert(rest[0] == v@[i as int]);
                    assert(rest.skip(1) =~= v@.skip(i + 1));
                }
                out.push(v[i]);
                proof {
                    assert(out@ + spec_rw_math(v@.skip(i + 1)) =~= prev + spec_rw_math(rest));
                }
                i = i + 1;
            },
        }
    }
    proof {
        assert(v@.skip(v@.len() as int).len() == 0);
        assert(out@ + Seq::<char>::empty() =~= out@);
    }
    string_of(&out)
}

/// A hidden line of a code sample: a single `#`, or `#` followed by one
/// whitespace character and anything.
pub open spec fn spec_is_hidden(l: Seq<char>) -> bool {
    (l.len() == 1 && l[0] == '#') || (l.len() >= 2 && l[0] == '#' && is_wsp_char(l[1]))
}

/// A fence-open line that names the source language: it starts with three
/// backticks and the word `rust` occurs after them.
pub open spec fn spec_is_rust_start(l: Seq<char>) -> bool {
    spec_toggles(l) && exists|i: int|
        3 <= i && i + 4 <= l.len() && l[i] == 'r' && #[trigger] l[i + 1] == 'u' && l[i + 2] == 's'
            && l[i + 3] == 't'
}

/// The canonical fence-open marker for a code sample in the source
/// language.
pub open spec fn spec_canonical_fence() -> Seq<char> {
    seq!['`', '`', '`', 'r', 'u', 's', 't']
}

/// True when the line is a hidden line of a code sample.
pub fn is_hidden_line(v: &Vec<char>) -> (r: bool)
    ensures
        r == spec_is_hidden(v@),
{
    if v.len() == 1 && v[0] == '#' {
        true
    } else {
        v.len() >= 2 && v[0] == '#' && {
            let c = v[1];
            c == ' ' || c == '\t' || c == '\n' || c == '\u{b}' || c == '\u{c}' || c == '\r'
        }
    }
}

/// True when the line opens a fence that names the source language.
pub fn is_rust_start_line(v: &Vec<char>) -> (r: bool)
    ensures
        r == spec_is_rust_start(v@),
{
    if !toggles_line(v) {
        return false;
    }
    if v.len() < 7 {
        proof {
            assert(!spec_is_rust_start(v@));
        }
        return false;
    }
    let mut i: usize = 3;
    while i <= v.len() - 4
        invariant
            3 <= i,
            forall|k: int|
                3 <= k < i && k + 4 <= v@.len() ==> !(v@[k] == 'r' && #[trigger] v@[k + 1] == 'u'
                    && v@[k + 2] == 's' && v@[k + 3] == 't'),
        decreases v@.len() - i,
    {
        if v[i] == 'r' && v[i + 1] == 'u' && v[i + 2] == 's' && v[i + 3] == 't' {
            proof {
                assert(3 <= i as int && i as int + 4 <= v@.len() && v@[i as int] == 'r' && v@[
                    i as int + 1] == 'u' && v@[i as int + 2] == 's' && v@[i as int + 3] == 't');
            }
            return true;
        }
        i = i + 1;
    }
    proof {
        assert(!spec_is_rust_start(v@));
    }
    false
}

/// The code-fence canonicalizer over a sequence of lines: a fence-open
/// line naming the source language becomes the canonical marker and turns
/// the hidden-line filter on; hidden lines are then dropped until the
/// next fence-toggle line, which passes through and turns the filter off.
pub open spec fn spec_code_lines(lines: Seq<Seq<char>>, in_code: bool) -> Seq<Seq<char>>
    decreases lines.len(),
{
    if lines.len() == 0 {
        seq![]
    } else {
        let l = lines[0];
        if in_code && spec_is_hidden(l) {
            spec_code_lines(lines.drop_first(), in_code)
        } else if spec_is_rust_start(l) {
            seq![spec_canonical_fence()] + spec_code_lines(lines.drop_first(), true)
        } else {
            seq![l] + spec_code_lines(
                lines.drop_first(),
                if spec_toggles(l) {
                    false
                } else {
                    in_code
                },
            )
        }
    }
}

/// The whole text under the code-fence canonicalizer.
pub open spec fn spec_normalize_code_start(s: Seq<char>) -> Seq<char> {
    spec_unlines(spec_code_lines(spec_lines(s), false))
}

/// Rewrites every fence-open spelling that names the source language to
/// the canonical marker and drops hidden lines inside such fences; every
/// line of the result is followed by one line feed.
pub fn normalize_code_start(text: &str) -> (r: String)
    ensures
        r@ == spec_normalize_code_start(text@),
{
    let v = chars_of(text);
    let lines = split_lines_vec(&v);
    let ghost all = lines_view(lines@);
    let mut out: Vec<Vec<char>> = Vec::new();
    let mut in_code: bool = false;
    let mut i: usize = 0;
    proof {
        assert(all.skip(0) =~= all);
        assert(lines_view(out@) + spec_code_lines(all, false) =~= spec_code_lines(all, false));
    }
    while i < lines.len()
        invariant
            i <= lines@.len(),
            spec_code_lines(all, false) == lines_view(out@) + spec_code_lines(
                all.skip(i as int),
                in_code,
            ),
        decreases lines@.len() - i,
    {
        let ghost rest = all.skip(i as int);
        let ghost prev = lines_view(out@);
        proof {
            assert(rest[0] == all[i as int]);
            assert(rest.drop_first() =~= all.skip(i + 1));
        }
        let line = &lines[i];
        if in_code && is_hidden_line(line) {
            // dropped
        } else if is_rust_start_line(line) {
            let mut marker: Vec<char> = Vec::new();
            marker.push('`');
            marker.push('`');
            marker.push('`');
            marker.push('r');
            marker.push('u');
            marker.push('s');
            marker.push('t');
            proof {
                assert(marker@ =~= spec_canonical_fence());
            }
            out.push(marker);
            in_code = true;
            proof {
                assert(lines_view(out@) =~= prev.push(spec_canonical_fence()));
                assert(prev + (seq![spec_canonical_fence()] + spec_code_lines(
                    all.skip(i + 1),
                    true,
                )) =~= lines_view(out@) + spec_code_lines(all.skip(i + 1), true));
            }
        } else {
            let copy = subvec(line, 0, line.len());
            proof {
                assert(line@.subrange(0, line@.len() as int) =~= line@);
            }
            let tog = toggles_line(line);
            out.push(copy);
            if tog {
                in_code = false;
            }
            proof {
                assert(lines_view(out@) =~= prev.push(rest[0]));
                assert(prev + (seq![rest[0]] + spec_code_lines(all.skip(i + 1), in_code))
                    =~= lines_view(out@) + spec_code_lines(all.skip(i + 1), in_code));
            }
        }
        i = i + 1;
    }
    proof {
        assert(all.skip(all.len() as int).len() == 0);
        assert(lines_view(out@) + Seq::<Seq<char>>::empty() =~= lines_view(out@));
    }
    let joined = unlines_vec(&out);
    string_of(&joined)
}

/// The body of a code sample with its hidden lines removed.
pub open spec fn spec_drop_hidden(body: Seq<Seq<char>>) -> Seq<Seq<char>>
    decreases body.len(),
{
    if body.len() == 0 {
        seq![]
    } else if spec_is_hidden(body[0]) {
        spec_drop_hidden(body.drop_first())
    } else {
        seq![body[0]] + spec_drop_hidden(body.drop_first())
    }
}

/// Inside a fence, non-toggle lines either drop (hidden) or pass through
/// verbatim, and the first toggle line closes the fence.
proof fn lemma_code_body(body: Seq<Seq<char>>, close: Seq<char>)
    requires
        forall|i: int| 0 <= i < body.len() ==> !spec_toggles(#[trigger] body[i]),
        spec_toggles(close),
        !spec_is_rust_start(close),
    ensures
        spec_code_lines(body + seq![close], true) == spec_drop_hidden(body) + seq![close],
    decreases body.len(),
{
    let lines = body + seq![close];
    if body.len() == 0 {
        assert(lines[0] == close);
        assert(!spec_is_hidden(close));
        assert(lines.drop_first() =~= Seq::<Seq<char>>::empty());
        assert(spec_code_lines(lines, true) == seq![close] + spec_code_lines(
            lines.drop_first(),
            false,
        ));
        assert(spec_code_lines(lines.drop_first(), false) == Seq::<Seq<char>>::empty());
        assert(seq![close] + Seq::<Seq<char>>::empty() =~= seq![close]);
        assert(spec_drop_hidden(body) + seq![close] =~= seq![close]);
    } else {
        let l = body[0];
        assert(lines[0] == l);
        assert(!spec_toggles(l));
        assert(!spec_is_rust_start(l));
        assert(lines.drop_first() =~= body.drop_first() + seq![close]);
        lemma_code_body(body.drop_first(), close);
        if spec_is_hidden(l) {
            assert(spec_code_lines(lines, true) == spec_code_lines(
                body.drop_first() + seq![close],
                true,
            ));
        } else {
            assert(spec_code_lines(lines, true) == seq![l] + spec_code_lines(
                body.drop_first() + seq![close],
                true,
            ));
            assert(seq![l] + (spec_drop_hidden(body.drop_first()) + seq![close]) =~= (seq![l]
                + spec_drop_hidden(body.drop_first())) + seq![close]);
        }
    }
}

/// The canonicalization round trip: a fence opened by any spelling that
/// names the source language and closed by a plain toggle line comes out
/// as exactly the canonical open marker, the body with hidden lines
/// removed and every other line verbatim, and the original close marker.
pub proof fn lemma_code_fence_round_trip(open: Seq<char>, body: Seq<Seq<char>>, close: Seq<char>)
    requires
        spec_is_rust_start(open),
        forall|i: int| 0 <= i < body.len() ==> !spec_toggles(#[trigger] body[i]),
        spec_toggles(close),
        !spec_is_rust_start(close),
    ensures
        spec_code_lines(seq![open] + body + seq![close], false) == seq![spec_canonical_fence()]
            + spec_drop_hidden(body) + seq![close],
{
    let lines = seq![open] + body + seq![close];
    assert(lines[0] == open);
    assert(lines.drop_first() =~= body + seq![close]);
    lemma_code_body(body, close);
    assert(spec_code_lines(lines, false) == seq![spec_canonical_fence()] + spec_code_lines(
        body + seq![close],
        true,
    ));
    assert(seq![spec_canonical_fence()] + (spec_drop_hidden(body) + seq![close])
        =~= seq![spec_canonical_fence()] + spec_drop_hidden(body) + seq![close]);
}

/// A filename character for link targets: a word character or a dash.
pub open spec fn is_wd_char(c: char) -> bool {
    crate::chars::is_word_char(c) || c == '-'
}

/// A character allowed in the target of a reference definition: anything
/// but a colon, a caret, a slash or a line feed.
pub open spec fn is_file_char(c: char) -> bool {
    c != ':' && c != '^' && c != '/' && c != '\n'
}

/// The length of the run of word-or-dash characters at the start.
pub open spec fn spec_wd_run(s: Seq<char>) -> int
    decreases s.len(),
{
    if s.len() == 0 || !is_wd_char(s[0]) {
        0
    } else {
        1 + spec_wd_run(s.skip(1))
    }
}

/// When the first `i` characters are word-or-dash and the next one is
/// not, the run has length `i`.
pub proof fn lemma_wd_run_at(s: Seq<char>, i: int)
    requires
        0 <= i <= s.len(),
        forall|k: int| 0 <= k < i ==> is_wd_char(s[k]),
        i < s.len() ==> !is_wd_char(s[i]),
    ensures
        spec_wd_run(s) == i,
    decreases s.len(),
{
    if i == 0 {
    } else {
        assert(is_wd_char(s[0]));
        assert forall|k: int| 0 <= k < i - 1 implies is_wd_char(s.skip(1)[k]) by {
            assert(s.skip(1)[k] == s[k + 1]);
        }
        if i - 1 < s.skip(1).len() {
            assert(s.skip(1)[i - 1] == s[i]);
        }
        lemma_wd_run_at(s.skip(1), i - 1);
    }
}

/// True when the character is a word character or a dash.
fn is_wd(c: char) -> (r: bool)
    ensures
        r == is_wd_char(c),
{
    crate::chars::is_word(c) || c == '-'
}

/// The length of the word-or-dash run starting at index `i` of `v`.
fn wd_run_from(v: &Vec<char>, i: usize) -> (a: usize)
    requires
        i <= v@.len(),
    ensures
        a as int == spec_wd_run(v@.skip(i as int)),
        i + a <= v@.len(),
{
    let mut j: usize = i;
    while j < v.len() && is_wd(v[j])
        invariant
            i <= j <= v@.len(),
            forall|k: int| i <= k < j ==> is_wd_char(v@[k]),
        decreases v@.len() - j,
    {
        j = j + 1;
    }
    proof {
        let s = v@.skip(i as int);
        assert forall|k: int| 0 <= k < j - i implies is_wd_char(s[k]) by {
            assert(s[k] == v@[i + k]);
        }
        if j < v@.len() {
            assert(s[j - i] == v@[j as int]);
        }
        lemma_wd_run_at(s, j - i);
    }
    j - i
}

/// A section-link match at the start of `s`: `](`, a non-empty filename of
/// word-or-dash characters, and the literal `.html)`.  Returns the
/// filename length.
pub open spec fn spec_sec_link_at(s: Seq<char>) -> Option<int> {
    if s.len() >= 9 && s[0] == ']' && s[1] == '(' {
        let a = spec_wd_run(s.skip(2));
        if a >= 1 && 2 + a + 6 <= s.len() && s[2 + a] == '.' && s[2 + a + 1] == 'h' && s[2 + a + 2]
            == 't' && s[2 + a + 3] == 'm' && s[2 + a + 4] == 'l' && s[2 + a + 5] == ')' {
            Some(a)
        } else {
            None
        }
    } else {
        None
    }
}

/// `s` with every section link `](name.html)` rewritten to
/// `](#sec--name)`.
pub open spec fn spec_rw_sec_link(s: Seq<char>) -> Seq<char>
    decreases s.len(),
{
    if s.len() == 0 {
        s
    } else {
        match spec_sec_link_at(s) {
            Some(a) => if 1 <= a && 2 + a + 6 <= s.len() {
                seq![']', '(', '#', 's', 'e', 'c', '-', '-'] + s.subrange(2, 2 + a) + seq![')']
                    + spec_rw_sec_link(s.skip(2 + a + 6))
            } else {
                s
            },
            None => seq![s[0]] + spec_rw_sec_link(s.skip(1)),
        }
    }
}

/// The section-link match starting at index `i` of `v`, if any.
fn sec_link_at(v: &Vec<char>, i: usize) -> (r: Option<usize>)
    requires
        i <= v@.len(),
    ensures
        match r {
            Some(a) => spec_sec_link_at(v@.skip(i as int)) == Some(a as int) && 1 <= a && i + 2 + a
                + 6 <= v@.len(),
            None => spec_sec_link_at(v@.skip(i as int)) is None,
        },
{
    let ghost s = v@.skip(i as int);
    proof {
        assert(forall|k: int| 0 <= k < s.len() ==> s[k] == v@[i + k]);
    }
    if v.len() - i < 9 || v[i] != ']' || v[i + 1] != '(' {
        return None;
    }
    let a = wd_run_from(v, i + 2);
    proof {
        assert(s.skip(2) =~= v@.skip(i + 2));
    }
    if a < 1 || v.len() - i - 2 - a < 6 {
        return None;
    }
    if v[i + 2 + a] == '.' && v[i + 2 + a + 1] == 'h' && v[i + 2 + a + 2] == 't' && v[i + 2 + a + 3]
        == 'm' && v[i + 2 + a + 4] == 'l' && v[i + 2 + a + 5] == ')' {
        Some(a)
    } else {
        None
    }
}

/// Rewrites every section link `](name.html)` in the text to
/// `](#sec--name)`.
#[verifier::rlimit(60)]
pub fn rw_sec_links(text: &str) -> (r: String)
    ensures
        r@ == spec_rw_sec_link(text@),
{
    let v = chars_of(text);
    let mut out: Vec<char> = Vec::new();
    let mut i: usize = 0;
    proof {
        assert(v@.skip(0) =~= v@);
        assert(out@ + spec_rw_sec_link(v@) =~= spec_rw_sec_link(v@));
    }
    while i < v.len()
        invariant
            i <= v@.len(),
            out@ + spec_rw_sec_link(v@.skip(i as int)) == spec_rw_sec_link(v@),
        decreases v@.len() - i,
    {
        let ghost rest = v@.skip(i as int);
        let ghost prev = out@;
        match sec_link_at(&v, i) {
            Some(a) => {
                proof {
                    assert(rest.subrange(2, 2 + a) =~= v@.subrange(i + 2, i + 2 + a));
                    assert(rest.skip(2 + a + 6) =~= v@.skip(i + 2 + a + 6));
                }
                out.push(']');
                out.push('(');
                out.push('#');
                out.push('s');
                out.push('e');
                out.push('c');
                out.push('-');
                out.push('-');
                let name = subvec(&v, i + 2, i + 2 + a);
                push_all(&mut out, &name);
                out.push(')');
                proof {
                    assert(out@ =~= prev + (seq![']', '(', '#', 's', 'e', 'c', '-', '-']
                        + rest.subrange(2, 2 + a) + seq![')']));
                    assert(out@ + spec_rw_sec_link(v@.skip(i + 2 + a + 6)) =~= prev
                        + spec_rw_sec_link(rest));
                }
                i = i + 2 + a + 6;
            },
            None => {
                proof {
                    assert(rest[0] == v@[i as int]);
                    assert(rest.skip(1) =~= v@.skip(i + 1));
                }
                out.push(v[i]);
                proof {
                    assert(out@ + spec_rw_sec_link(v@.skip(i + 1)) =~= prev + spec_rw_sec_link(
                        rest,
                    ));
                }
                i = i + 1;
            },
        }
    }
    proof {
        assert(v@.skip(v@.len() as int).len() == 0);
        assert(out@ + Seq::<char>::empty() =~= out@);
    }
    string_of(&out)
}

/// A subsection-link match at the start of `s`: `](`, a filename, the
/// literal `.html#`, a subsection name, and `)`.  Returns the filename
/// and subsection lengths.
pub open spec fn spec_subsec_link_at(s: Seq<char>) -> Option<(int, int)> {
    if s.len() >= 4 && s[0] == ']' && s[1] == '(' {
        let a = spec_wd_run(s.skip(2));
        let b = spec_wd_run(s.skip(2 + a + 6));
        if a >= 1 && 2 + a + 6 <= s.len() && s[2 + a] == '.' && s[2 + a + 1] == 'h' && s[2 + a + 2]
            == 't' && s[2 + a + 3] == 'm' && s[2 + a + 4] == 'l' && s[2 + a + 5] == '#' && b >= 1
            && 2 + a + 6 + b + 1 <= s.len() && s[2 + a + 6 + b] == ')' {
            Some((a, b))
        } else {
            None
        }
    } else {
        None
    }
}

/// `s` with every subsection link `](name.html#sub)` rewritten to
/// `](#sub)`.
pub open spec fn spec_rw_subsec_link(s: Seq<char>) -> Seq<char>
    decreases s.len(),
{
    if s.len() == 0 {
        s
    } else {
        match spec_subsec_link_at(s) {
            Some((a, b)) => if 1 <= a && 1 <= b && 2 + a + 6 + b + 1 <= s.len() {
                seq![']', '(', '#'] + s.subrange(2 + a + 6, 2 + a + 6 + b) + seq![')']
                    + spec_rw_subsec_link(s.skip(2 + a + 6 + b + 1))
            } else {
                s
            },
            None => seq![s[0]] + spec_rw_subsec_link(s.skip(1)),
        }
    }
}

/// The subsection-link match starting at index `i` of `v`, if any.
fn subsec_link_at(v: &Vec<char>, i: usize) -> (r: Option<(usize, usize)>)
    requires
        i <= v@.len(),
    ensures
        match r {
            Some((a, b)) => spec_subsec_link_at(v@.skip(i as int)) == Some((a as int, b as int))
                && 1 <= a && 1 <= b && i + 2 + a + 6 + b + 1 <= v@.len(),
            None => spec_subsec_link_at(v@.skip(i as int)) is None,
        },
{
    let ghost s = v@.skip(i as int);
    proof {
        assert(forall|k: int| 0 <= k < s.len() ==> s[k] == v@[i + k]);
    }
    if v.len() - i < 4 || v[i] != ']' || v[i + 1] != '(' {
        return None;
    }
    let a = wd_run_from(v, i + 2);
    proof {
        assert(s.skip(2) =~= v@.skip(i + 2));
    }
    if a < 1 || v.len() - i - 2 - a < 6 {
        return None;
    }
    if !(v[i + 2 + a] == '.' && v[i + 2 + a + 1] == 'h' && v[i + 2 + a + 2] == 't' && v[i + 2 + a
        + 3] == 'm' && v[i + 2 + a + 4] == 'l' && v[i + 2 + a + 5] == '#') {
        return None;
    }
    let b = wd_run_from(v, i + 2 + a + 6);
    proof {
        assert(s.skip(2 + a + 6) =~= v@.skip(i + 2 + a + 6));
    }
    if b < 1 || v.len() - i - 2 - a - 6 - b < 1 {
        return None;
    }
    if v[i + 2 + a + 6 + b] == ')' {
        Some((a, b))
    } else {
        None
    }
}

/// Rewrites every subsection link `](name.html#sub)` in the text to
/// `](#sub)`.
#[verifier::rlimit(60)]
pub fn rw_subsec_links(text: &str) -> (r: String)
    ensures
        r@ == spec_rw_subsec_link(text@),
{
    let v = chars_of(text);
    let mut out: Vec<char> = Vec::new();
    let mut i: usize = 0;
    proof {
        assert(v@.skip(0) =~= v@);
        assert(out@ + spec_rw_subsec_link(v@) =~= spec_rw_subsec_link(v@));
    }
    while i < v.len()
        invariant
            i <= v@.len(),
            out@ + spec_rw_subsec_link(v@.skip(i as int)) == spec_rw_subsec_link(v@),
        decreases v@.len() - i,
    {
        let ghost rest = v@.skip(i as int);
        let ghost prev = out@;
        match subsec_link_at(&v, i) {
            Some((a, b)) => {
                proof {
                    assert(rest.subrange(2 + a, 2 + a + 6 + b + 1) =~= v@.subrange(i + 2 + a, i + 2
                        + a + 6 + b + 1));
                    assert(rest.subrange(2 + a + 6, 2 + a + 6 + b) =~= v@.subrange(i + 2 + a + 6, i
                        + 2 + a + 6 + b));
                    assert(rest.skip(2 + a + 6 + b + 1) =~= v@.skip(i + 2 + a + 6 + b + 1));
                }
                out.push(']');
                out.push('(');
                out.push('#');
                let sub = subvec(&v, i + 2 + a + 6, i + 2 + a + 6 + b);
                push_all(&mut out, &sub);
                out.push(')');
                proof {
                    assert(out@ =~= prev + (seq![']', '(', '#'] + rest.subrange(2 + a + 6, 2 + a + 6
                        + b) + seq![')']));
                    assert(out@ + spec_rw_subsec_link(v@.skip(i + 2 + a + 6 + b + 1)) =~= prev
                        + spec_rw_subsec_link(rest));
                }
                i = i + 2 + a + 6 + b + 1;
            },
            None => {
                proof {
                    assert(rest[0] == v@[i as int]);
                    assert(rest.skip(1) =~= v@.skip(i + 1));
                }
                out.push(v[i]);
                proof {
                    assert(out@ + spec_rw_subsec_link(v@.skip(i + 1)) =~= prev
                        + spec_rw_subsec_link(rest));
                }
                i = i + 1;
            },
        }
    }
    proof {
        assert(v@.skip(v@.len() as int).len() == 0);
        assert(out@ + Seq::<char>::empty() =~= out@);
    }
    string_of(&out)
}

/// The index of the first line feed in `s`, or the length of `s`.
pub open spec fn spec_line_end(s: Seq<char>) -> int {
    match crate::chars::spec_find(s, '\n') {
        Some(i) => i,
        None => s.len() as int,
    }
}

/// True when every character of `v` in `[a, b)` is a definition-target
/// character.
fn range_all_file(v: &Vec<char>, a: usize, b: usize) -> (r: bool)
    requires
        a <= b <= v@.len(),
    ensures
        r == forall|k: int| a <= k < b ==> is_file_char(#[trigger] v@[k]),
{
    let mut i: usize = a;
    while i < b
        invariant
            a <= i <= b,
            forall|k: int| a <= k < i ==> is_file_char(#[trigger] v@[k]),
        decreases b - i,
    {
        let c = v[i];
        if c == ':' || c == '^' || c == '/' || c == '\n' {
            return false;
        }
        i = i + 1;
    }
    true
}

/// True when every character of `v` in `[a, b)` is word-or-dash.
fn range_all_wd(v: &Vec<char>, a: usize, b: usize) -> (r: bool)
    requires
        a <= b <= v@.len(),
    ensures
        r == forall|k: int| a <= k < b ==> is_wd_char(#[trigger] v@[k]),
{
    let mut i: usize = a;
    while i < b
        invariant
            a <= i <= b,
            forall|k: int| a <= k < i ==> is_wd_char(#[trigger] v@[k]),
        decreases b - i,
    {
        if !is_wd(v[i]) {
            return false;
        }
        i = i + 1;
    }
    true
}

/// True when index `q` splits the line into a section-reference
/// definition whose target carries the `.html` suffix at the line's end.
pub open spec fn spec_secref_ok(l: Seq<char>, q: int) -> bool {
    &&& 2 <= q
    &&& q + 9 <= l.len()
    &&& l[q] == ']'
    &&& l[q + 1] == ':'
    &&& is_wsp_char(l[q + 2])
    &&& (forall|k: int| q + 3 <= k < l.len() - 5 ==> is_file_char(#[trigger] l[k]))
}

/// The greatest section-reference split at most `q`, if any.
pub open spec fn spec_secref_from(l: Seq<char>, q: int) -> Option<int>
    decreases q + 1,
{
    if q < 2 {
        None
    } else if spec_secref_ok(l, q) {
        Some(q)
    } else {
        spec_secref_from(l, q - 1)
    }
}

/// The split of a whole line that is a section-reference definition
/// `[id]: name.html`.
pub open spec fn spec_secref_line(l: Seq<char>) -> Option<int> {
    if l.len() >= 11 && l[0] == '[' && l[l.len() - 5] == '.' && l[l.len() - 4] == 'h' && l[l.len()
        - 3] == 't' && l[l.len() - 2] == 'm' && l[l.len() - 1] == 'l' {
        spec_secref_from(l, l.len() - 9)
    } else {
        None
    }
}

/// A section-reference definition line rewritten to target the in-document
/// anchor: `[id]: #sec--name`.
pub open spec fn spec_secref_out(l: Seq<char>) -> Seq<char> {
    match spec_secref_line(l) {
        Some(q) => seq!['['] + l.subrange(1, q) + seq![']', ':', ' ', '#', 's', 'e', 'c', '-', '-']
            + l.subrange(q + 3, l.len() - 5),
        None => l,
    }
}

/// `s` with every line that is a section-reference definition rewritten;
/// `bol` says whether `s` starts at a line begin.
pub open spec fn spec_rw_secref(s: Seq<char>, bol: bool) -> Seq<char>
    decreases s.len(),
{
    if s.len() == 0 {
        s
    } else {
        let e = spec_line_end(s);
        if bol && 1 <= e <= s.len() && spec_secref_line(s.take(e)) is Some {
            spec_secref_out(s.take(e)) + spec_rw_secref(s.skip(e), false)
        } else {
            seq![s[0]] + spec_rw_secref(s.skip(1), s[0] == '\n')
        }
    }
}

/// The split of the line, when the line is a section-reference
/// definition.
fn secref_line(l: &Vec<char>) -> (r: Option<usize>)
    ensures
        match r {
            Some(q) => spec_secref_line(l@) == Some(q as int) && spec_secref_ok(l@, q as int) && 2
                <= q && q + 9 <= l@.len(),
            None => spec_secref_line(l@) is None,
        },
{
    let n = l.len();
    if n < 11 || l[0] != '[' {
        return None;
    }
    if !(l[n - 5] == '.' && l[n - 4] == 'h' && l[n - 3] == 't' && l[n - 2] == 'm' && l[n - 1]
        == 'l') {
        return None;
    }
    let q0 = n - 9;
    let mut q = q0;
    while q >= 2
        invariant
            q <= q0,
            spec_secref_from(l@, q0 as int) == spec_secref_from(l@, q as int),
        decreases q,
    {
        if l[q] == ']' && l[q + 1] == ':' && is_wsp(l[q + 2]) && range_all_file(l, q + 3, n - 5) {
            return Some(q);
        }
        q = q - 1;
    }
    None
}

/// Appends the rewritten form of a section-reference definition line to
/// `out`; reports whether the line was one.
fn push_secref_out(out: &mut Vec<char>, line: &Vec<char>) -> (ok: bool)
    ensures
        ok == (spec_secref_line(line@) is Some),
        ok ==> final(out)@ == old(out)@ + spec_secref_out(line@),
        !ok ==> final(out)@ == old(out)@,
{
    match secref_line(line) {
        Some(q) => {
            let ghost prev = out@;
            let n = line.len();
            out.push('[');
            let id = subvec(line, 1, q);
            push_all(out, &id);
            out.push(']');
            out.push(':');
            out.push(' ');
            out.push('#');
            out.push('s');
            out.push('e');
            out.push('c');
            out.push('-');
            out.push('-');
            let name = subvec(line, q + 3, n - 5);
            push_all(out, &name);
            proof {
                assert(out@ =~= prev + spec_secref_out(line@));
            }
            true
        },
        None => false,
    }
}

/// Rewrites every line of the text that is a section-reference definition
/// `[id]: name.html` to `[id]: #sec--name`.
#[verifier::rlimit(100)]
pub fn rw_secrefs(text: &str) -> (r: String)
    ensures
        r@ == spec_rw_secref(text@, true),
{
    let v = chars_of(text);
    let mut out: Vec<char> = Vec::new();
    let mut i: usize = 0;
    let mut bol: bool = true;
    proof {
        assert(v@.skip(0) =~= v@);
        assert(out@ + spec_rw_secref(v@, true) =~= spec_rw_secref(v@, true));
    }
    while i < v.len()
        invariant
            i <= v@.len(),
            out@ + spec_rw_secref(v@.skip(i as int), bol) == spec_rw_secref(v@, true),
        decreases v@.len() - i,
    {
        let ghost rest = v@.skip(i as int);
        let ghost prev = out@;
        let mut handled = false;
        if bol {
            let sub = subvec(&v, i, v.len());
            proof {
                assert(sub@ =~= rest);
            }
            let e_rel = match crate::chars::find_char(&sub, '\n') {
                Some(e) => e,
                None => sub.len(),
            };
            proof {
                crate::chars::lemma_find(sub@, '\n');
                assert(e_rel as int == spec_line_end(rest));
            }
            let line = subvec(&v, i, i + e_rel);
            proof {
                assert(line@ =~= rest.take(e_rel as int));
            }
            if push_secref_out(&mut out, &line) {
                proof {
                    assert(rest.skip(e_rel as int) =~= v@.skip(i + e_rel));
                    assert(out@ + spec_rw_secref(v@.skip(i + e_rel), false) =~= prev
                        + spec_rw_secref(rest, true));
                }
                i = i + e_rel;
                bol = false;
                handled = true;
            }
        }
        if !handled {
            proof {
                assert(rest[0] == v@[i as int]);
                assert(rest.skip(1) =~= v@.skip(i + 1));
            }
            let c = v[i];
            out.push(c);
            proof {
                assert(out@ + spec_rw_secref(v@.skip(i + 1), v@[i as int] == '\n') =~= prev
                    + spec_rw_secref(rest, bol));
            }
            bol = c == '\n';
            i = i + 1;
        }
    }
    proof {
        assert(v@.skip(v@.len() as int).len() == 0);
        assert(out@ + Seq::<char>::empty() =~= out@);
    }
    string_of(&out)
}

/// True when `r` splits the tail of a subsection-reference definition:
/// the literal `.html#` stands at `r`, a non-empty target of
/// definition-target characters fills `[q+3, r)`, and a non-empty
/// word-or-dash subsection name fills the rest of the line.
pub open spec fn spec_subsec_r_ok(l: Seq<char>, q: int, r: int) -> bool {
    &&& q + 4 <= r
    &&& r + 6 < l.len()
    &&& l[r] == '.'
    &&& l[r + 1] == 'h'
    &&& l[r + 2] == 't'
    &&& l[r + 3] == 'm'
    &&& l[r + 4] == 'l'
    &&& l[r + 5] == '#'
    &&& (forall|k: int| q + 3 <= k < r ==> is_file_char(#[trigger] l[k]))
    &&& (forall|k: int| r + 6 <= k < l.len() ==> is_wd_char(#[trigger] l[k]))
}

/// The greatest subsection split at most `r` for the given `q`, if any.
pub open spec fn spec_subsec_r_from(l: Seq<char>, q: int, r: int) -> Option<int>
    decreases r - q,
{
    if r < q + 4 {
        None
    } else if spec_subsec_r_ok(l, q, r) {
        Some(r)
    } else {
        spec_subsec_r_from(l, q, r - 1)
    }
}

/// True when index `q` splits the line into a subsection-reference
/// definition.
pub open spec fn spec_subsecref_ok(l: Seq<char>, q: int) -> bool {
    &&& 2 <= q
    &&& l[q] == ']'
    &&& l[q + 1] == ':'
    &&& is_wsp_char(l[q + 2])
    &&& spec_subsec_r_from(l, q, l.len() - 7) is Some
}

/// The greatest subsection-reference split at most `q`, if any.
pub open spec fn spec_subsecref_from(l: Seq<char>, q: int) -> Option<int>
    decreases q + 1,
{
    if q < 2 {
        None
    } else if spec_subsecref_ok(l, q) {
        Some(q)
    } else {
        spec_subsecref_from(l, q - 1)
    }
}

/// The split of a whole line that is a subsection-reference definition
/// `[id]: name.html#sub`.
pub open spec fn spec_subsecref_line(l: Seq<char>) -> Option<int> {
    if l.len() >= 13 && l[0] == '[' {
        spec_subsecref_from(l, l.len() - 11)
    } else {
        None
    }
}

/// A subsection-reference definition line rewritten to target the
/// in-document anchor: `[id]: #sub`.
pub open spec fn spec_subsecref_out(l: Seq<char>) -> Seq<char> {
    match spec_subsecref_line(l) {
        Some(q) => match spec_subsec_r_from(l, q, l.len() - 7) {
            Some(r) => seq!['['] + l.subrange(1, q) + seq![']', ':', ' ', '#'] + l.subrange(
                r + 6,
                l.len() as int,
            ),
            None => l,
        },
        None => l,
    }
}

/// `s` with every line that is a subsection-reference definition
/// rewritten; `bol` says whether `s` starts at a line begin.
pub open spec fn spec_rw_subsecref(s: Seq<char>, bol: bool) -> Seq<char>
    decreases s.len(),
{
    if s.len() == 0 {
        s
    } else {
        let e = spec_line_end(s);
        if bol && 1 <= e <= s.len() && spec_subsecref_line(s.take(e)) is Some {
            spec_subsecref_out(s.take(e)) + spec_rw_subsecref(s.skip(e), false)
        } else {
            seq![s[0]] + spec_rw_subsecref(s.skip(1), s[0] == '\n')
        }
    }
}

/// The subsection split of the line for the given `q`, if any.
fn subsec_r(l: &Vec<char>, q: usize) -> (r: Option<usize>)
    requires
        q + 11 <= l@.len(),
    ensures
        match r {
            Some(x) => spec_subsec_r_from(l@, q as int, l@.len() - 7) == Some(x as int)
                && spec_subsec_r_ok(l@, q as int, x as int),
            None => spec_subsec_r_from(l@, q as int, l@.len() - 7) is None,
        },
{
    let n = l.len();
    let r0 = n - 7;
    let mut r = r0;
    while r >= q + 4
        invariant
            r <= r0,
            spec_subsec_r_from(l@, q as int, r0 as int) == spec_subsec_r_from(
                l@,
                q as int,
                r as int,
            ),
        decreases r,
    {
        if l[r] == '.' && l[r + 1] == 'h' && l[r + 2] == 't' && l[r + 3] == 'm' && l[r + 4] == 'l'
            && l[r + 5] == '#' && range_all_file(l, q + 3, r) && range_all_wd(l, r + 6, n) {
            return Some(r);
        }
        r = r - 1;
    }
    None
}

/// The split of the line, when the line is a subsection-reference
/// definition.
fn subsecref_line(l: &Vec<char>) -> (r: Option<(usize, usize)>)
    ensures
        match r {
            Some((q, x)) => spec_subsecref_line(l@) == Some(q as int) && spec_subsec_r_from(
                l@,
                q as int,
                l@.len() - 7,
            ) == Some(x as int) && spec_subsec_r_ok(l@, q as int, x as int) && 2 <= q && q + 4 <= x
                && x + 6 < l@.len(),
            None => spec_subsecref_line(l@) is None,
        },
{
    let n = l.len();
    if n < 13 || l[0] != '[' {
        return None;
    }
    let q0 = n - 11;
    let mut q = q0;
    while q >= 2
        invariant
            q <= q0,
            spec_subsecref_from(l@, q0 as int) == spec_subsecref_from(l@, q as int),
        decreases q,
    {
        if l[q] == ']' && l[q + 1] == ':' && is_wsp(l[q + 2]) {
            match subsec_r(l, q) {
                Some(x) => {
                    return Some((q, x));
                },
                None => {},
            }
        }
        q = q - 1;
    }
    None
}

/// Appends the rewritten form of a subsection-reference definition line
/// to `out`; reports whether the line was one.
fn push_subsecref_out(out: &mut Vec<char>, line: &Vec<char>) -> (ok: bool)
    ensures
        ok == (spec_subsecref_line(line@) is Some),
        ok ==> final(out)@ == old(out)@ + spec_subsecref_out(line@),
        !ok ==> final(out)@ == old(out)@,
{
    match subsecref_line(line) {
        Some((q, x)) => {
            let ghost prev = out@;
            let n = line.len();
            out.push('[');
            let id = subvec(line, 1, q);
            push_all(out, &id);
            out.push(']');
            out.push(':');
            out.push(' ');
            out.push('#');
            let name = subvec(line, x + 6, n);
            push_all(out, &name);
            proof {
                assert(out@ =~= prev + spec_subsecref_out(line@));
            }
            true
        },
        None => false,
    }
}

/// Rewrites every line of the text that is a subsection-reference
/// definition `[id]: name.html#sub` to `[id]: #sub`.
#[verifier::rlimit(100)]
pub fn rw_subsecrefs(text: &str) -> (r: String)
    ensures
        r@ == spec_rw_subsecref(text@, true),
{
    let v = chars_of(text);
    let mut out: Vec<char> = Vec::new();
    let mut i: usize = 0;
    let mut bol: bool = true;
    proof {
        assert(v@.skip(0) =~= v@);
        assert(out@ + spec_rw_subsecref(v@, true) =~= spec_rw_subsecref(v@, true));
    }
    while i < v.len()
        invariant
            i <= v@.len(),
            out@ + spec_rw_subsecref(v@.skip(i as int), bol) == spec_rw_subsecref(v@, true),
        decreases v@.len() - i,
    {
        let ghost rest = v@.skip(i as int);
        let ghost prev = out@;
        let mut handled = false;
        if bol {
            let sub = subvec(&v, i, v.len());
            proof {
                assert(sub@ =~= rest);
            }
            let e_rel = match crate::chars::find_char(&sub, '\n') {
                Some(e) => e,
                None => sub.len(),
            };
            proof {
                crate::chars::lemma_find(sub@, '\n');
                assert(e_rel as int == spec_line_end(rest));
            }
            let line = subvec(&v, i, i + e_rel);
            proof {
                assert(line@ =~= rest.take(e_rel as int));
            }
            if push_subsecref_out(&mut out, &line) {
                proof {
                    assert(rest.skip(e_rel as int) =~= v@.skip(i + e_rel));
                    assert(out@ + spec_rw_subsecref(v@.skip(i + e_rel), false) =~= prev
                        + spec_rw_subsecref(rest, true));
                }
                i = i + e_rel;
                bol = false;
                handled = true;
            }
        }
        if !handled {
            proof {
                assert(rest[0] == v@[i as int]);
                assert(rest.skip(1) =~= v@.skip(i + 1));
            }
            let c = v[i];
            out.push(c);
            proof {
                assert(out@ + spec_rw_subsecref(v@.skip(i + 1), v@[i as int] == '\n') =~= prev
                    + spec_rw_subsecref(rest, bol));
            }
            bol = c == '\n';
            i = i + 1;
        }
    }
    proof {
        assert(v@.skip(v@.len() as int).len() == 0);
        assert(out@ + Seq::<char>::empty() =~= out@);
    }
    string_of(&out)
}

/// The fixed table of relative path aliases and their absolute
/// documentation URLs.
pub open spec fn spec_alias_table(s: Seq<char>) -> Seq<char> {
    spec_replace(
        spec_replace(
            spec_replace(
                spec_replace(
                    spec_replace(
                        spec_replace(
                            spec_replace(s, "../std"@, "http://doc.rust-lang.org/std"@),
                            "../reference"@,
                            "http://doc.rust-lang.org/reference"@,
                        ),
                        "../rustc"@,
                        "http://doc.rust-lang.org/rustc"@,
                    ),
                    "../syntax"@,
                    "http://doc.rust-lang.org/syntax"@,
                ),
                "../book"@,
                "http://doc.rust-lang.org/book"@,
            ),
            "../adv-book"@,
            "http://doc.rust-lang.org/adv-book"@,
        ),
        "../core"@,
        "http://doc.rust-lang.org/core"@,
    )
}

/// The whole link normalizer: the alias table, then section links, then
/// section-reference definitions, then subsection links, then
/// subsection-reference definitions.
pub open spec fn spec_normalize_links(s: Seq<char>) -> Seq<char> {
    spec_rw_subsecref(
        spec_rw_subsec_link(spec_rw_secref(spec_rw_sec_link(spec_alias_table(s)), true)),
        true,
    )
}

/// Rewrites a fixed table of relative path aliases to absolute URLs and
/// turns cross-document links and reference definitions that target
/// sibling pages into same-document anchors.
pub fn normalize_links(text: &str) -> (r: String)
    ensures
        r@ == spec_normalize_links(text@),
{
    proof {
        reveal_strlit("../std");
        reveal_strlit("../reference");
        reveal_strlit("../rustc");
        reveal_strlit("../syntax");
        reveal_strlit("../book");
        reveal_strlit("../adv-book");
        reveal_strlit("../core");
    }
    let s1 = replace_plain(text, "../std", "http://doc.rust-lang.org/std");
    let s2 = replace_plain(s1.as_str(), "../reference", "http://doc.rust-lang.org/reference");
    let s3 = replace_plain(s2.as_str(), "../rustc", "http://doc.rust-lang.org/rustc");
    let s4 = replace_plain(s3.as_str(), "../syntax", "http://doc.rust-lang.org/syntax");
    let s5 = replace_plain(s4.as_str(), "../book", "http://doc.rust-lang.org/book");
    let s6 = replace_plain(s5.as_str(), "../adv-book", "http://doc.rust-lang.org/adv-book");
    let s7 = replace_plain(s6.as_str(), "../core", "http://doc.rust-lang.org/core");
    let s8 = rw_sec_links(s7.as_str());
    let s9 = rw_secrefs(s8.as_str());
    let s10 = rw_subsec_links(s9.as_str());
    rw_subsecrefs(s10.as_str())
}

/// All normalization passes in order: superscript markup, links, then
/// code-fence canonicalization.
pub open spec fn spec_normalize_all(s: Seq<char>) -> Seq<char> {
    spec_normalize_code_start(spec_normalize_links(spec_rw_math(s)))
}

/// Runs every normalization pass: superscript markup, the link rewrites,
/// and code-fence canonicalization with hidden-line removal.
pub fn normalize_all(text: &str) -> (r: String)
    ensures
        r@ == spec_normalize_all(text@),
{
    let s1 = normalize_math(text);
    let s2 = normalize_links(s1.as_str());
    normalize_code_start(s2.as_str())
}

/// A non-digit first character passes through the superscript rewrite
/// unchanged.
proof fn lemma_rw_math_nondigit_step(s: Seq<char>)
    requires
        s.len() > 0,
        !is_digit_char(s[0]),
    ensures
        spec_rw_math(s) == seq![s[0]] + spec_rw_math(s.skip(1)),
{
    assert(spec_digit_run(s) == 0);
    assert(spec_math_at(s) is None);
}

/// The superscript rewrite never empties a text and never changes its
/// first character.
proof fn lemma_rw_math_first(s: Seq<char>)
    requires
        s.len() > 0,
    ensures
        spec_rw_math(s).len() > 0,
        spec_rw_math(s)[0] == s[0],
{
    match spec_math_at(s) {
        Some((a, b)) => {
            assert(1 <= a && 1 <= b && a + 5 + b + 6 <= s.len());
            assert(spec_rw_math(s)[0] == s.take(a)[0]);
        },
        None => {
            assert(spec_rw_math(s)[0] == seq![s[0]][0]);
        },
    }
}

/// A prefix free of digits passes through the superscript rewrite
/// verbatim.
proof fn lemma_rw_math_prefix(s: Seq<char>, p: int)
    requires
        0 <= p <= s.len(),
        forall|k: int| 0 <= k < p ==> !is_digit_char(#[trigger] s[k]),
    ensures
        spec_rw_math(s) == s.take(p) + spec_rw_math(s.skip(p)),
    decreases p,
{
    if p == 0 {
        assert(s.take(0) + spec_rw_math(s.skip(0)) =~= spec_rw_math(s.skip(0)));
        assert(s.skip(0) =~= s);
    } else {
        lemma_rw_math_nondigit_step(s);
        assert forall|k: int| 0 <= k < p - 1 implies !is_digit_char(#[trigger] s.skip(1)[k]) by {
            assert(s.skip(1)[k] == s[k + 1]);
        }
        lemma_rw_math_prefix(s.skip(1), p - 1);
        assert(s.skip(1).skip(p - 1) =~= s.skip(p));
        assert(seq![s[0]] + (s.skip(1).take(p - 1) + spec_rw_math(s.skip(p))) =~= s.take(p)
            + spec_rw_math(s.skip(p)));
    }
}

/// A text too short to hold a superscript passes through unchanged.
proof fn lemma_rw_math_short(s: Seq<char>)
    requires
        s.len() < 12,
    ensures
        spec_rw_math(s) == s,
    decreases s.len(),
{
    if s.len() == 0 {
    } else {
        match spec_math_at(s) {
            Some((a, b)) => {
                assert(1 <= a && 1 <= b && a + 5 + b + 6 <= s.len());
                assert(false);
            },
            None => {
                lemma_rw_math_short(s.skip(1));
                assert(seq![s[0]] + s.skip(1) =~= s);
            },
        }
    }
}

/// The superscript rewrite keeps a line's fence-toggle status.
pub proof fn lemma_rw_math_toggles(l: Seq<char>)
    ensures
        spec_toggles(spec_rw_math(l)) == spec_toggles(l),
{
    if l.len() == 0 {
    } else if l.len() < 3 {
        lemma_rw_math_short(l);
    } else if spec_toggles(l) {
        assert forall|k: int| 0 <= k < 3 implies !is_digit_char(#[trigger] l[k]) by {
            assert(l[k] == '`');
        }
        lemma_rw_math_prefix(l, 3);
        assert(spec_rw_math(l)[0] == l.take(3)[0]);
        assert(spec_rw_math(l)[1] == l.take(3)[1]);
        assert(spec_rw_math(l)[2] == l.take(3)[2]);
    } else {
        let q: int = if l[0] != '`' {
            0
        } else if l[1] != '`' {
            1
        } else {
            2
        };
        assert(l[q] != '`');
        assert forall|k: int| 0 <= k < q implies !is_digit_char(#[trigger] l[k]) by {
            assert(l[k] == '`');
        }
        lemma_rw_math_prefix(l, q);
        lemma_rw_math_first(l.skip(q));
        assert(spec_rw_math(l)[q] == spec_rw_math(l.skip(q))[0]);
        assert(spec_rw_math(l)[q] != '`');
    }
}

/// The superscript rewrite keeps a line's heading status and hash run,
/// and rewrites a heading's title independently.
pub proof fn lemma_rw_math_heading(l: Seq<char>)
    ensures
        spec_is_heading(spec_rw_math(l)) == spec_is_heading(l),
        spec_is_heading(l) ==> spec_hash_run(spec_rw_math(l)) == spec_hash_run(l),
        spec_is_heading(l) ==> spec_rw_math(l).skip(spec_hash_run(l) + 1) == spec_rw_math(
            l.skip(spec_hash_run(l) + 1),
        ),
{
    let k = crate::adjust::spec_hash_run(l);
    crate::adjust::lemma_hash_run(l);
    if spec_is_heading(l) {
        assert forall|x: int| 0 <= x < k + 1 implies !is_digit_char(#[trigger] l[x]) by {
            if x < k {
                assert(l[x] == '#');
            } else {
                assert(is_wsp_char(l[x]));
            }
        }
        lemma_rw_math_prefix(l, k + 1);
        let r = spec_rw_math(l);
        let title = l.skip(k + 1);
        lemma_rw_math_first(title);
        assert(r =~= l.take(k + 1) + spec_rw_math(title));
        assert forall|x: int| 0 <= x < k implies r[x] == '#' by {
            assert(r[x] == l.take(k + 1)[x]);
        }
        assert(r[k] == l.take(k + 1)[k]);
        assert(r[k] == l[k]);
        crate::adjust::lemma_hash_run_at(r, k);
        assert(r.len() >= k + 2);
        assert(spec_is_heading(r));
        assert(r.skip(k + 1) =~= spec_rw_math(title));
    } else {
        if l.len() == 0 {
        } else if k == 0 {
            lemma_rw_math_first(l);
            crate::adjust::lemma_hash_run_at(spec_rw_math(l), 0);
            assert(!spec_is_heading(spec_rw_math(l)));
        } else if k == l.len() {
            assert forall|x: int| 0 <= x < k implies !is_digit_char(#[trigger] l[x]) by {
                assert(l[x] == '#');
            }
            lemma_rw_math_prefix(l, k);
            assert(l.skip(k).len() == 0);
            assert(spec_rw_math(l) =~= l);
        } else {
            assert forall|x: int| 0 <= x < k implies !is_digit_char(#[trigger] l[x]) by {
                assert(l[x] == '#');
            }
            lemma_rw_math_prefix(l, k);
            let r = spec_rw_math(l);
            let rest = l.skip(k);
            lemma_rw_math_first(rest);
            assert(r =~= l.take(k) + spec_rw_math(rest));
            assert forall|x: int| 0 <= x < k implies r[x] == '#' by {
                assert(r[x] == l.take(k)[x]);
            }
            assert(r[k] == spec_rw_math(rest)[0]);
            assert(r[k] == l[k]);
            assert(r[k] != '#');
            crate::adjust::lemma_hash_run_at(r, k);
            if !is_wsp_char(l[k]) {
                assert(!spec_is_heading(r));
            } else {
                assert(l.len() == k + 1);
                lemma_rw_math_short(rest);
                assert(r =~= l);
            }
        }
    }
}

/// On one line, the heading adjuster and the superscript rewrite can be
/// applied in either order.
pub proof fn lemma_adjust_math_line_commute(l: Seq<char>, in_code: bool, increase: int)
    requires
        increase >= 0,
    ensures
        crate::adjust::spec_adjust_line(spec_rw_math(l), in_code, increase) == spec_rw_math(
            crate::adjust::spec_adjust_line(l, in_code, increase),
        ),
{
    lemma_rw_math_toggles(l);
    lemma_rw_math_heading(l);
    let k = crate::adjust::spec_hash_run(l);
    crate::adjust::lemma_hash_run(l);
    if in_code && !spec_toggles(l) {
    } else if crate::adjust::spec_is_heading(l) {
        let title = l.skip(k + 1);
        let hashes = Seq::new((k + increase - 1) as nat, |x: int| '#');
        let adj = crate::adjust::spec_adjust_line(l, in_code, increase);
        assert(adj == hashes + seq![' '] + title);
        let p = k + increase - 1 + 1;
        assert forall|x: int| 0 <= x < p implies !is_digit_char(#[trigger] adj[x]) by {
            if x < p - 1 {
                assert(adj[x] == hashes[x]);
                assert(adj[x] == '#');
            } else {
                assert(adj[x] == ' ');
            }
        }
        lemma_rw_math_prefix(adj, p);
        assert(adj.take(p) =~= hashes + seq![' ']);
        assert(adj.skip(p) =~= title);
        assert(spec_rw_math(adj) == hashes + seq![' '] + spec_rw_math(title));
        let r = spec_rw_math(l);
        assert(crate::adjust::spec_adjust_line(r, in_code, increase) == Seq::new(
            (crate::adjust::spec_hash_run(r) + increase - 1) as nat,
            |x: int| '#',
        ) + seq![' '] + r.skip(crate::adjust::spec_hash_run(r) + 1));
        assert(crate::adjust::spec_adjust_line(r, in_code, increase) =~= hashes + seq![' ']
            + spec_rw_math(title));
    } else {
    }
}

/// The superscript rewrite of every line, in order.
pub open spec fn spec_math_lines(lines: Seq<Seq<char>>) -> Seq<Seq<char>>
    decreases lines.len(),
{
    if lines.len() == 0 {
        seq![]
    } else {
        seq![spec_rw_math(lines[0])] + spec_math_lines(lines.drop_first())
    }
}

/// The heading adjuster is order-independent of the superscript rewrite:
/// over any sequence of lines, adjusting the headings of the rewritten
/// lines gives exactly the rewrite of the adjusted lines, and the fence
/// state threads identically through both.
pub proof fn lemma_adjust_math_order_independent(
    lines: Seq<Seq<char>>,
    in_code: bool,
    increase: int,
)
    requires
        increase >= 0,
    ensures
        crate::adjust::spec_adjust_lines(spec_math_lines(lines), in_code, increase)
            == spec_math_lines(crate::adjust::spec_adjust_lines(lines, in_code, increase)),
    decreases lines.len(),
{
    if lines.len() == 0 {
    } else {
        let l = lines[0];
        lemma_rw_math_toggles(l);
        lemma_adjust_math_line_commute(l, in_code, increase);
        let next = crate::lines::spec_next_state(l, in_code);
        lemma_adjust_math_order_independent(lines.drop_first(), next, increase);
        assert(spec_math_lines(lines).drop_first() =~= spec_math_lines(lines.drop_first()));
        assert(spec_math_lines(lines)[0] == spec_rw_math(l));
        let adj = crate::adjust::spec_adjust_lines(lines, in_code, increase);
        assert(adj.drop_first() =~= crate::adjust::spec_adjust_lines(
            lines.drop_first(),
            next,
            increase,
        ));
        assert(adj[0] == crate::adjust::spec_adjust_line(l, in_code, increase));
        assert(crate::adjust::spec_adjust_lines(spec_math_lines(lines), in_code, increase)
            =~= spec_math_lines(adj));
    }
}

/// True when the sequence holds no line feed.
pub open spec fn nl_free(s: Seq<char>) -> bool {
    forall|k: int| 0 <= k < s.len() ==> s[k] != '\n'
}

/// The superscript rewrite introduces no line feed.
proof fn lemma_rw_math_nl_free(s: Seq<char>)
    requires
        nl_free(s),
    ensures
        nl_free(spec_rw_math(s)),
    decreases s.len(),
{
    if s.len() == 0 {
    } else {
        match spec_math_at(s) {
            Some((a, b)) => {
                assert(1 <= a && 1 <= b && a + 5 + b + 6 <= s.len());
                lemma_rw_math_nl_free(s.skip(a + 5 + b + 6));
                assert forall|k: int|
                    0 <= k < spec_rw_math(s).len() implies spec_rw_math(s)[k] != '\n' by {
                    let head = s.take(a) + seq!['^'] + s.skip(a + 5).take(b) + seq!['^'];
                    if k < head.len() {
                        assert(spec_rw_math(s)[k] == head[k]);
                    } else {
                        assert(spec_rw_math(s)[k] == spec_rw_math(s.skip(a + 5 + b + 6))[k
                            - head.len()]);
                    }
                }
            },
            None => {
                lemma_rw_math_nl_free(s.skip(1));
                assert forall|k: int|
                    0 <= k < spec_rw_math(s).len() implies spec_rw_math(s)[k] != '\n' by {
                    if k > 0 {
                        assert(spec_rw_math(s)[k] == spec_rw_math(s.skip(1))[k - 1]);
                    }
                }
            },
        }
    }
}

/// A digit run stops at a non-digit, so a suffix opening with one never
/// lengthens it.
proof fn lemma_digit_run_append(x: Seq<char>, z: Seq<char>)
    requires
        z.len() > 0,
        !is_digit_char(z[0]),
    ensures
        spec_digit_run(x + z) == spec_digit_run(x),
    decreases x.len(),
{
    if x.len() == 0 {
        assert(x + z =~= z);
    } else if !is_digit_char(x[0]) {
        assert((x + z)[0] == x[0]);
    } else {
        assert((x + z)[0] == x[0]);
        assert((x + z).skip(1) =~= x.skip(1) + z);
        lemma_digit_run_append(x.skip(1), z);
    }
}

/// The digit run never exceeds the length.
proof fn lemma_digit_run_le(s: Seq<char>)
    ensures
        0 <= spec_digit_run(s) <= s.len(),
    decreases s.len(),
{
    if s.len() == 0 || !is_digit_char(s[0]) {
    } else {
        lemma_digit_run_le(s.skip(1));
    }
}

/// A superscript match before a line feed reads the same whether or not
/// the following lines are in view.
proof fn lemma_math_at_append(a: Seq<char>, b: Seq<char>)
    ensures
        spec_math_at(a + seq!['\n'] + b) == spec_math_at(a),
{
    let s = a + seq!['\n'] + b;
    assert(forall|k: int| 0 <= k < a.len() ==> s[k] == a[k]);
    assert(s[a.len() as int] == '\n');
    assert(seq!['\n'] + b =~= s.skip(a.len() as int));
    lemma_digit_run_append(a, seq!['\n'] + b);
    assert(a + (seq!['\n'] + b) =~= s);
    assert(spec_digit_run(s) == spec_digit_run(a));
    lemma_digit_run_le(a);
    let a1 = spec_digit_run(a);
    if a1 + 5 <= a.len() {
        assert(s.skip(a1 + 5) =~= a.skip(a1 + 5) + (seq!['\n'] + b));
        assert(a.skip(a1 + 5) + seq!['\n'] + b =~= a.skip(a1 + 5) + (seq!['\n'] + b));
        lemma_digit_run_append(a.skip(a1 + 5), seq!['\n'] + b);
        assert(spec_digit_run(s.skip(a1 + 5)) == spec_digit_run(a.skip(a1 + 5)));
        lemma_digit_run_le(a.skip(a1 + 5));
        let b1 = spec_digit_run(a.skip(a1 + 5));
        if a1 + 5 + b1 + 6 <= a.len() {
            assert(spec_math_at(s) == spec_math_at(a));
        } else {
            // The closing literal would have to cross the line feed.
            assert(a1 + 5 + b1 <= a.len());
            if spec_math_at(s) is Some {
                let off = a.len() - a1 - 5 - b1;
                assert(0 <= off < 6);
                assert(s[a.len() as int] == '\n');
                assert(false);
            }
            assert(spec_math_at(a) is None);
        }
    } else {
        // The opening literal would have to cross the line feed.
        if spec_math_at(s) is Some {
            assert(a1 <= a.len() < a1 + 5);
            let off = a.len() - a1;
            assert(0 <= off < 5);
            assert(s[a.len() as int] == '\n');
            assert(false);
        }
        assert(spec_math_at(a) is None);
    }
}

/// The superscript rewrite distributes over a line feed.
proof fn lemma_rw_math_append(a: Seq<char>, b: Seq<char>)
    requires
        nl_free(a),
    ensures
        spec_rw_math(a + seq!['\n'] + b) == spec_rw_math(a) + seq!['\n'] + spec_rw_math(b),
    decreases a.len(),
{
    let s = a + seq!['\n'] + b;
    lemma_math_at_append(a, b);
    match spec_math_at(a) {
        Some((a1, b1)) => {
            assert(1 <= a1 && 1 <= b1 && a1 + 5 + b1 + 6 <= a.len());
            let l = a1 + 5 + b1 + 6;
            assert(s.take(a1) =~= a.take(a1));
            assert(s.skip(a1 + 5).take(b1) =~= a.skip(a1 + 5).take(b1));
            assert(s.skip(l) =~= a.skip(l) + seq!['\n'] + b);
            assert forall|k: int| 0 <= k < a.skip(l).len() implies a.skip(l)[k] != '\n' by {
                assert(a.skip(l)[k] == a[l + k]);
            }
            lemma_rw_math_append(a.skip(l), b);
            let head = a.take(a1) + seq!['^'] + a.skip(a1 + 5).take(b1) + seq!['^'];
            assert(spec_rw_math(s) == head + spec_rw_math(a.skip(l) + seq!['\n'] + b));
            assert(spec_rw_math(a) == head + spec_rw_math(a.skip(l)));
            assert(head + (spec_rw_math(a.skip(l)) + seq!['\n'] + spec_rw_math(b)) =~= (head
                + spec_rw_math(a.skip(l))) + seq!['\n'] + spec_rw_math(b));
        },
        None => {
            if a.len() == 0 {
                assert(s =~= seq!['\n'] + b);
                assert(s[0] == '\n');
                assert(!is_digit_char('\n'));
                lemma_rw_math_nondigit_step(s);
                assert(s.skip(1) =~= b);
                assert(spec_rw_math(a) + seq!['\n'] + spec_rw_math(b) =~= seq!['\n']
                    + spec_rw_math(b));
            } else {
                assert(s[0] == a[0]);
                assert(s.skip(1) =~= a.skip(1) + seq!['\n'] + b);
                assert forall|k: int| 0 <= k < a.skip(1).len() implies a.skip(1)[k] != '\n' by {
                    assert(a.skip(1)[k] == a[1 + k]);
                }
                lemma_rw_math_append(a.skip(1), b);
                assert(spec_rw_math(s) == seq![s[0]] + spec_rw_math(a.skip(1) + seq!['\n'] + b));
                assert(spec_rw_math(a) == seq![a[0]] + spec_rw_math(a.skip(1)));
                assert(seq![a[0]] + (spec_rw_math(a.skip(1)) + seq!['\n'] + spec_rw_math(b))
                    =~= (seq![a[0]] + spec_rw_math(a.skip(1))) + seq!['\n'] + spec_rw_math(b));
            }
        },
    }
}

/// Splitting into lines peels off a line-feed-free prefix as one line.
proof fn lemma_lines_rec_split(a: Seq<char>, rest: Seq<char>, cur: Seq<char>)
    requires
        nl_free(a),
    ensures
        crate::lines::spec_lines_rec(a + seq!['\n'] + rest, cur) == seq![cur + a]
            + crate::lines::spec_lines_rec(rest, Seq::empty()),
    decreases a.len(),
{
    let s = a + seq!['\n'] + rest;
    if a.len() == 0 {
        assert(s[0] == '\n');
        assert(s.skip(1) =~= rest);
        assert(cur + a =~= cur);
    } else {
        assert(s[0] == a[0]);
        assert(a[0] != '\n');
        assert(s.skip(1) =~= a.skip(1) + seq!['\n'] + rest);
        assert forall|k: int| 0 <= k < a.skip(1).len() implies a.skip(1)[k] != '\n' by {
            assert(a.skip(1)[k] == a[1 + k]);
        }
        lemma_lines_rec_split(a.skip(1), rest, cur.push(a[0]));
        assert(cur.push(a[0]) + a.skip(1) =~= cur + a);
    }
}

/// A line-feed-free text is one line, or none when it is empty.
proof fn lemma_lines_rec_free(a: Seq<char>, cur: Seq<char>)
    requires
        nl_free(a),
    ensures
        crate::lines::spec_lines_rec(a, cur) == if cur.len() + a.len() > 0 {
            seq![cur + a]
        } else {
            seq![]
        },
    decreases a.len(),
{
    if a.len() == 0 {
        if cur.len() > 0 {
            assert(cur + a =~= cur);
        }
    } else {
        assert(a[0] != '\n');
        assert forall|k: int| 0 <= k < a.skip(1).len() implies a.skip(1)[k] != '\n' by {
            assert(a.skip(1)[k] == a[1 + k]);
        }
        lemma_lines_rec_free(a.skip(1), cur.push(a[0]));
        assert(cur.push(a[0]) + a.skip(1) =~= cur + a);
    }
}

/// Every line of a split holds no line feed.
proof fn lemma_lines_rec_nl_free(s: Seq<char>, cur: Seq<char>)
    requires
        nl_free(cur),
    ensures
        forall|i: int|
            0 <= i < crate::lines::spec_lines_rec(s, cur).len() ==> nl_free(
                #[trigger] crate::lines::spec_lines_rec(s, cur)[i],
            ),
    decreases s.len(),
{
    if s.len() == 0 {
    } else if s[0] == '\n' {
        lemma_lines_rec_nl_free(s.skip(1), Seq::empty());
        assert forall|i: int|
            0 <= i < crate::lines::spec_lines_rec(s, cur).len() implies nl_free(
            #[trigger] crate::lines::spec_lines_rec(s, cur)[i],
        ) by {
            if i > 0 {
                assert(crate::lines::spec_lines_rec(s, cur)[i] == crate::lines::spec_lines_rec(
                    s.skip(1),
                    Seq::empty(),
                )[i - 1]);
            }
        }
    } else {
        assert forall|k: int| 0 <= k < cur.push(s[0]).len() implies cur.push(s[0])[k] != '\n' by {
            if k < cur.len() {
                assert(cur.push(s[0])[k] == cur[k]);
            } else {
                assert(cur.push(s[0])[k] == s[0]);
            }
        }
        lemma_lines_rec_nl_free(s.skip(1), cur.push(s[0]));
        assert(forall|i: int|
            0 <= i < crate::lines::spec_lines_rec(s, cur).len() ==> crate::lines::spec_lines_rec(
                s,
                cur,
            )[i] == crate::lines::spec_lines_rec(s.skip(1), cur.push(s[0]))[i]);
    }
}

/// Splitting a rewritten text gives the rewritten lines of the text.
proof fn lemma_lines_math(s: Seq<char>)
    ensures
        spec_lines(spec_rw_math(s)) == spec_math_lines(spec_lines(s)),
    decreases s.len(),
{
    crate::chars::lemma_find(s, '\n');
    match crate::chars::spec_find(s, '\n') {
        None => {
            assert(nl_free(s));
            lemma_rw_math_nl_free(s);
            lemma_lines_rec_free(s, Seq::empty());
            lemma_lines_rec_free(spec_rw_math(s), Seq::empty());
            if s.len() == 0 {
            } else {
                lemma_rw_math_first(s);
                assert(Seq::<char>::empty() + s =~= s);
                assert(Seq::<char>::empty() + spec_rw_math(s) =~= spec_rw_math(s));
                assert(spec_lines(s) == seq![s]);
                assert(seq![s].drop_first() =~= Seq::<Seq<char>>::empty());
                assert(seq![s].len() == 1 && seq![s][0] == s);
                assert(spec_math_lines(seq![s]) == seq![spec_rw_math(s)] + spec_math_lines(
                    Seq::<Seq<char>>::empty(),
                ));
                assert(seq![spec_rw_math(s)] + Seq::<Seq<char>>::empty() =~= seq![spec_rw_math(
                    s,
                )]);
                assert(spec_math_lines(spec_lines(s)) == seq![spec_rw_math(s)]);
            }
        },
        Some(i) => {
            let a = s.take(i);
            let rest = s.skip(i + 1);
            assert forall|k: int| 0 <= k < a.len() implies a[k] != '\n' by {
                assert(a[k] == s[k]);
            }
            assert(s =~= a + seq!['\n'] + rest);
            lemma_rw_math_append(a, rest);
            lemma_rw_math_nl_free(a);
            lemma_lines_rec_split(a, rest, Seq::empty());
            lemma_lines_rec_split(spec_rw_math(a), spec_rw_math(rest), Seq::empty());
            lemma_lines_math(rest);
            assert(Seq::<char>::empty() + a =~= a);
            assert(Seq::<char>::empty() + spec_rw_math(a) =~= spec_rw_math(a));
            assert(spec_lines(s) == seq![a] + spec_lines(rest));
            assert(spec_lines(spec_rw_math(s)) == seq![spec_rw_math(a)] + spec_lines(
                spec_rw_math(rest),
            ));
            assert((seq![a] + spec_lines(rest)).drop_first() =~= spec_lines(rest));
            assert(spec_math_lines(seq![a] + spec_lines(rest)) == seq![spec_rw_math(a)]
                + spec_math_lines(spec_lines(rest)));
        },
    }
}

/// Joining rewritten lines gives the rewrite of the joined lines.
proof fn lemma_unlines_math(ls: Seq<Seq<char>>)
    requires
        forall|i: int| 0 <= i < ls.len() ==> nl_free(#[trigger] ls[i]),
    ensures
        spec_rw_math(spec_unlines(ls)) == spec_unlines(spec_math_lines(ls)),
    decreases ls.len(),
{
    if ls.len() == 0 {
    } else {
        let l = ls[0];
        let rest = ls.drop_first();
        assert(forall|i: int| 0 <= i < rest.len() ==> rest[i] == ls[i + 1]);
        lemma_unlines_math(rest);
        assert(spec_unlines(ls) == l + seq!['\n'] + spec_unlines(rest));
        lemma_rw_math_append(l, spec_unlines(rest));
        assert(spec_unlines(spec_math_lines(ls)) == spec_rw_math(l) + seq!['\n'] + spec_unlines(
            spec_math_lines(rest),
        )) by {
            assert(spec_math_lines(ls)[0] == spec_rw_math(l));
            assert(spec_math_lines(ls).drop_first() =~= spec_math_lines(rest));
        }
    }
}

/// The heading adjuster introduces no line feed.
proof fn lemma_adjust_lines_nl_free(ls: Seq<Seq<char>>, in_code: bool, increase: int)
    requires
        increase >= 0,
        forall|i: int| 0 <= i < ls.len() ==> nl_free(#[trigger] ls[i]),
    ensures
        forall|i: int|
            0 <= i < crate::adjust::spec_adjust_lines(ls, in_code, increase).len() ==> nl_free(
                #[trigger] crate::adjust::spec_adjust_lines(ls, in_code, increase)[i],
            ),
    decreases ls.len(),
{
    if ls.len() == 0 {
    } else {
        let l = ls[0];
        let next = crate::lines::spec_next_state(l, in_code);
        assert(forall|i: int| 0 <= i < ls.drop_first().len() ==> ls.drop_first()[i] == ls[i + 1]);
        lemma_adjust_lines_nl_free(ls.drop_first(), next, increase);
        let out = crate::adjust::spec_adjust_line(l, in_code, increase);
        assert(nl_free(out)) by {
            if !(in_code && !spec_toggles(l)) && spec_is_heading(l) {
                let k = spec_hash_run(l);
                crate::adjust::lemma_hash_run(l);
                assert(k >= 1);
                assert(((k + increase - 1) as nat) == k + increase - 1);
                assert forall|x: int| 0 <= x < out.len() implies out[x] != '\n' by {
                    if x < k + increase - 1 {
                        assert(out[x] == '#');
                    } else if x == k + increase - 1 {
                        assert(out[x] == ' ');
                    } else {
                        assert(out[x] == l.skip(k + 1)[x - (k + increase)]);
                        assert(l.skip(k + 1)[x - (k + increase)] == l[k + 1 + x - (k + increase)]);
                    }
                }
            }
        }
        assert forall|i: int|
            0 <= i < crate::adjust::spec_adjust_lines(ls, in_code, increase).len() implies nl_free(
            #[trigger] crate::adjust::spec_adjust_lines(ls, in_code, increase)[i],
        ) by {
            if i == 0 {
                assert(crate::adjust::spec_adjust_lines(ls, in_code, increase)[0] == out);
            } else {
                assert(crate::adjust::spec_adjust_lines(ls, in_code, increase)[i]
                    == crate::adjust::spec_adjust_lines(ls.drop_first(), next, increase)[i - 1]);
            }
        }
    }
}

/// The heading adjuster and the superscript rewrite are order-independent
/// on whole texts: rewriting superscripts before shifting heading levels
/// gives exactly the same document as shifting first and rewriting after.
pub proof fn lemma_adjust_math_order_independent_text(s: Seq<char>, increase: int)
    requires
        increase >= 0,
    ensures
        crate::adjust::spec_increase_title_level(spec_rw_math(s), increase) == spec_rw_math(
            crate::adjust::spec_increase_title_level(s, increase),
        ),
{
    lemma_lines_math(s);
    lemma_adjust_math_order_independent(spec_lines(s), false, increase);
    lemma_lines_rec_nl_free(s, Seq::empty());
    lemma_adjust_lines_nl_free(spec_lines(s), false, increase);
    lemma_unlines_math(crate::adjust::spec_adjust_lines(spec_lines(s), false, increase));
}

} // verus!
