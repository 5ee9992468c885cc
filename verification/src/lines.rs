//! Splitting text into lines and joining lines back into text, together
//! with the shared line-state primitive: recognizing fence-toggle lines.
//!
//! A text is split at every line feed; a final segment after the last line
//! feed only counts as a line when it is non-empty, so `"a\nb\n"` and
//! `"a\nb"` both split into the two lines `"a"` and `"b"`.  Every rewrite
//! pass of this library folds over lines in that order and emits each
//! produced line followed by one line feed.

use vstd::prelude::*;
use crate::chars::{chars_of, string_of, push_all};

verus! {

/// The lines of `s`, while `cur` holds the characters of the line read so
/// far: a line feed closes the current line, and a non-empty last line is
/// kept even without a final line feed.
pub open spec fn spec_lines_rec(s: Seq<char>, cur: Seq<char>) -> Seq<Seq<char>>
    decreases s.len(),
{
    if s.len() == 0 {
        if cur.len() == 0 {
            seq![]
        } else {
            seq![cur]
        }
    } else if s[0] == '\n' {
        seq![cur] + spec_lines_rec(s.skip(1), Seq::empty())
    } else {
        spec_lines_rec(s.skip(1), cur.push(s[0]))
    }
}

/// The lines of `s`.
pub open spec fn spec_lines(s: Seq<char>) -> Seq<Seq<char>> {
    spec_lines_rec(s, Seq::empty())
}

/// The views of a sequence of character vectors.
pub open spec fn lines_view(q: Seq<Vec<char>>) -> Seq<Seq<char>> {
    q.map_values(|l: Vec<char>| l@)
}

/// Each line followed by one line feed, concatenated.
pub open spec fn spec_unlines(lines: Seq<Seq<char>>) -> Seq<char>
    decreases lines.len(),
{
    if lines.len() == 0 {
        Seq::empty()
    } else {
        lines[0] + seq!['\n'] + spec_unlines(lines.drop_first())
    }
}

/// True when the line is a fence-toggle line: its first three characters
/// are backticks.
pub open spec fn spec_toggles(s: Seq<char>) -> bool {
    s.len() >= 3 && s[0] == '`' && s[1] == '`' && s[2] == '`'
}

/// The fence state after scanning one line: a fence-toggle line flips it,
/// every other line keeps it.
pub open spec fn spec_next_state(line: Seq<char>, in_code: bool) -> bool {
    if spec_toggles(line) {
        !in_code
    } else {
        in_code
    }
}

/// Scans one line: returns the fence state after the line and whether the
/// line itself is a fence-toggle line.
pub fn scan_line(line: &str, in_code: bool) -> (r: (bool, bool))
    ensures
        r.0 == spec_next_state(line@, in_code),
        r.1 == spec_toggles(line@),
{
    let t = toggles_code_block(line);
    (if t { !in_code } else { in_code }, t)
}

/// Every line of a text is at most as long as the text itself.
pub proof fn lemma_lines_len(s: Seq<char>, cur: Seq<char>)
    ensures
        forall|i: int|
            0 <= i < spec_lines_rec(s, cur).len() ==> #[trigger] spec_lines_rec(s, cur)[i].len()
                <= s.len() + cur.len(),
    decreases s.len(),
{
    if s.len() == 0 {
    } else if s[0] == '\n' {
        lemma_lines_len(s.skip(1), Seq::empty());
        assert forall|i: int| 0 <= i < spec_lines_rec(s, cur).len() implies #[trigger] spec_lines_rec(
            s,
            cur,
        )[i].len() <= s.len() + cur.len() by {
            if i > 0 {
                assert(spec_lines_rec(s, cur)[i] == spec_lines_rec(s.skip(1), Seq::empty())[i - 1]);
            }
        }
    } else {
        lemma_lines_len(s.skip(1), cur.push(s[0]));
        assert forall|i: int| 0 <= i < spec_lines_rec(s, cur).len() implies #[trigger] spec_lines_rec(
            s,
            cur,
        )[i].len() <= s.len() + cur.len() by {
            assert(spec_lines_rec(s, cur)[i] == spec_lines_rec(s.skip(1), cur.push(s[0]))[i]);
        }
    }
}

/// True when the line starts the marker of a fenced code block.
pub fn toggles_line(v: &Vec<char>) -> (r: bool)
    ensures
        r == spec_toggles(v@),
{
    v.len() >= 3 && v[0] == '`' && v[1] == '`' && v[2] == '`'
}

/// True when the line starts the marker of a fenced code block.
pub fn toggles_code_block(line: &str) -> (r: bool)
    ensures
        r == spec_toggles(line@),
{
    let v = chars_of(line);
    toggles_line(&v)
}

/// Splits a character vector into its lines.
pub fn split_lines_vec(v: &Vec<char>) -> (r: Vec<Vec<char>>)
    ensures
        lines_view(r@) == spec_lines(v@),
{
    let mut out: Vec<Vec<char>> = Vec::new();
    let mut cur: Vec<char> = Vec::new();
    let mut i: usize = 0;
    proof {
        assert(v@.skip(0) =~= v@);
        assert(lines_view(out@) + spec_lines_rec(v@, Seq::empty()) =~= spec_lines_rec(
            v@,
            Seq::empty(),
        ));
    }
    while i < v.len()
        invariant
            i <= v@.len(),
            spec_lines(v@) == lines_view(out@) + spec_lines_rec(v@.skip(i as int), cur@),
        decreases v@.len() - i,
    {
        let ghost rest = v@.skip(i as int);
        proof {
            assert(rest[0] == v@[i as int]);
            assert(rest.skip(1) =~= v@.skip(i + 1 as int));
        }
        if v[i] == '\n' {
            out.push(cur);
            cur = Vec::new();
            proof {
                assert(lines_view(out@) =~= lines_view(out@.drop_last()).push(
                    out@.last()@,
                ));
                assert(lines_view(out@.drop_last()) + (seq![out@.last()@]
                    + spec_lines_rec(rest.skip(1), Seq::empty())) =~= lines_view(out@)
                    + spec_lines_rec(rest.skip(1), Seq::empty()));
            }
        } else {
            cur.push(v[i]);
        }
        i = i + 1;
    }
    if cur.len() > 0 {
        out.push(cur);
        proof {
            assert(v@.skip(v@.len() as int).len() == 0);
            assert(lines_view(out@) =~= lines_view(out@.drop_last()).push(out@.last()@));
            assert(lines_view(out@.drop_last()) + seq![out@.last()@] =~= lines_view(out@));
        }
    } else {
        proof {
            assert(v@.skip(v@.len() as int).len() == 0);
            assert(lines_view(out@) + Seq::<Seq<char>>::empty() =~= lines_view(out@));
        }
    }
    out
}

/// Joins lines, appending one line feed after each.
pub fn unlines_vec(lines: &Vec<Vec<char>>) -> (r: Vec<char>)
    ensures
        r@ == spec_unlines(lines_view(lines@)),
{
    let mut out: Vec<char> = Vec::new();
    let mut i: usize = 0;
    proof {
        assert(lines_view(lines@).skip(0) =~= lines_view(lines@));
        assert(out@ + spec_unlines(lines_view(lines@)) =~= spec_unlines(lines_view(lines@)));
    }
    while i < lines.len()
        invariant
            i <= lines@.len(),
            out@ + spec_unlines(lines_view(lines@).skip(i as int)) == spec_unlines(
                lines_view(lines@),
            ),
        decreases lines@.len() - i,
    {
        let ghost rest = lines_view(lines@).skip(i as int);
        let ghost prev = out@;
        proof {
            assert(rest[0] == lines@[i as int]@);
            assert(rest.drop_first() =~= lines_view(lines@).skip(i + 1 as int));
        }
        push_all(&mut out, &lines[i]);
        out.push('\n');
        proof {
            assert(out@ =~= prev + (rest[0] + seq!['\n']));
            assert(out@ + spec_unlines(rest.drop_first()) =~= prev + (rest[0] + seq!['\n']
                + spec_unlines(rest.drop_first())));
        }
        i = i + 1;
    }
    proof {
        assert(spec_unlines(lines_view(lines@).skip(lines@.len() as int)) =~= Seq::<
            char,
        >::empty());
        assert(out@ + Seq::<char>::empty() =~= out@);
    }
    out
}

/// The lines of `text`, in order.
pub fn split_lines(text: &str) -> (r: Vec<String>)
    ensures
        r@.map_values(|l: String| l@) == spec_lines(text@),
{
    let v = chars_of(text);
    let parts = split_lines_vec(&v);
    let mut out: Vec<String> = Vec::new();
    let mut i: usize = 0;
    while i < parts.len()
        invariant
            i <= parts@.len(),
            out@.len() == i,
            forall|k: int| 0 <= k < i ==> out@[k]@ == lines_view(parts@)[k],
        decreases parts@.len() - i,
    {
        out.push(string_of(&parts[i]));
        i = i + 1;
    }
    proof {
        assert(out@.map_values(|l: String| l@) =~= lines_view(parts@));
    }
    out
}

/// Joins lines, appending one line feed after each.
pub fn unlines(lines: &Vec<String>) -> (r: String)
    ensures
        r@ == spec_unlines(lines@.map_values(|l: String| l@)),
{
    let mut out: Vec<Vec<char>> = Vec::new();
    let mut i: usize = 0;
    while i < lines.len()
        invariant
            i <= lines@.len(),
            out@.len() == i,
            forall|k: int| 0 <= k < i ==> out@[k]@ == lines@.map_values(|l: String| l@)[k],
        decreases lines@.len() - i,
    {
        out.push(chars_of(lines[i].as_str()));
        i = i + 1;
    }
    proof {
        assert(lines_view(out@) =~= lines@.map_values(|l: String| l@));
    }
    let joined = unlines_vec(&out);
    string_of(&joined)
}

} // verus!
