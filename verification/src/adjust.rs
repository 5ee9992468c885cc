//! Line-level adjustments: shifting the level of ATX headings, removing a
//! document-title directive, and hard-wrapping overlong lines.

use vstd::prelude::*;
use crate::chars::{chars_of, string_of, is_wsp_char, is_wsp, spec_find, push_all, push_repeat,
    subvec, find_char};
use crate::lines::{spec_lines, spec_lines_rec, spec_unlines, spec_toggles, spec_next_state,
    lines_view, lemma_lines_len, toggles_line, split_lines_vec, unlines_vec};
use vstd::string::StringExecFns;

verus! {

/// The length of the run of `#` characters at the start of the line.
pub open spec fn spec_hash_run(s: Seq<char>) -> int
    decreases s.len(),
{
    if s.len() == 0 || s[0] != '#' {
        0
    } else {
        1 + spec_hash_run(s.skip(1))
    }
}

/// The hash run is the maximal all-`#` prefix of the line.
pub proof fn lemma_hash_run(s: Seq<char>)
    ensures
        0 <= spec_hash_run(s) <= s.len(),
        forall|k: int| 0 <= k < spec_hash_run(s) ==> s[k] == '#',
        spec_hash_run(s) < s.len() ==> s[spec_hash_run(s)] != '#',
    decreases s.len(),
{
    if s.len() == 0 || s[0] != '#' {
    } else {
        lemma_hash_run(s.skip(1));
        assert forall|k: int| 0 <= k < spec_hash_run(s) implies s[k] == '#' by {
            if k > 0 {
                assert(s.skip(1)[k - 1] == s[k]);
            }
        }
        if spec_hash_run(s) < s.len() {
            assert(s.skip(1)[spec_hash_run(s) - 1] == s[spec_hash_run(s)]);
        }
    }
}

/// When the first `i` characters are `#` and the next one is not, the hash
/// run has length `i`.
pub proof fn lemma_hash_run_at(s: Seq<char>, i: int)
    requires
        0 <= i <= s.len(),
        forall|k: int| 0 <= k < i ==> s[k] == '#',
        i < s.len() ==> s[i] != '#',
    ensures
        spec_hash_run(s) == i,
    decreases s.len(),
{
    if i == 0 {
    } else {
        assert(s[0] == '#');
        assert forall|k: int| 0 <= k < i - 1 implies s.skip(1)[k] == '#' by {
            assert(s.skip(1)[k] == s[k + 1]);
        }
        if i - 1 < s.skip(1).len() {
            assert(s.skip(1)[i - 1] == s[i]);
        }
        lemma_hash_run_at(s.skip(1), i - 1);
    }
}

/// An ATX heading line: one or more `#`, one whitespace character, and a
/// non-empty title.
pub open spec fn spec_is_heading(l: Seq<char>) -> bool {
    let k = spec_hash_run(l);
    k >= 1 && l.len() >= k + 2 && is_wsp_char(l[k])
}

/// One line under the heading adjuster: lines inside a fenced block pass
/// through, a heading gets a run of `old level + increase - 1` hashes and
/// a single space before its unchanged title, all other lines pass through.
pub open spec fn spec_adjust_line(l: Seq<char>, in_code: bool, increase: int) -> Seq<char> {
    if in_code && !spec_toggles(l) {
        l
    } else if spec_is_heading(l) {
        Seq::new((spec_hash_run(l) + increase - 1) as nat, |k: int| '#') + seq![' '] + l.skip(
            spec_hash_run(l) + 1,
        )
    } else {
        l
    }
}

/// The heading adjuster over a sequence of lines, threading the fence
/// state from `in_code` onward.
pub open spec fn spec_adjust_lines(lines: Seq<Seq<char>>, in_code: bool, increase: int) -> Seq<
    Seq<char>,
>
    decreases lines.len(),
{
    if lines.len() == 0 {
        seq![]
    } else {
        seq![spec_adjust_line(lines[0], in_code, increase)] + spec_adjust_lines(
            lines.drop_first(),
            spec_next_state(lines[0], in_code),
            increase,
        )
    }
}

/// The whole text under the heading adjuster: split into lines, adjust
/// each outside-fence heading, join each line with a line feed.
pub open spec fn spec_increase_title_level(s: Seq<char>, increase: int) -> Seq<char> {
    spec_unlines(spec_adjust_lines(spec_lines(s), false, increase))
}

/// The length of the `#` run at the start of the line.
pub fn hash_run(v: &Vec<char>) -> (k: usize)
    ensures
        k as int == spec_hash_run(v@),
{
    let mut i: usize = 0;
    while i < v.len() && v[i] == '#'
        invariant
            i <= v@.len(),
            forall|k: int| 0 <= k < i ==> v@[k] == '#',
        decreases v@.len() - i,
    {
        i = i + 1;
    }
    proof {
        lemma_hash_run_at(v@, i as int);
    }
    i
}

/// One line under the heading adjuster.
fn adjust_one(line: &Vec<char>, in_code: bool, increase: usize) -> (r: Vec<char>)
    requires
        line@.len() + increase <= usize::MAX,
    ensures
        r@ == spec_adjust_line(line@, in_code, increase as int),
{
    if in_code && !toggles_line(line) {
        let r = subvec(line, 0, line.len());
        proof {
            assert(line@.subrange(0, line@.len() as int) =~= line@);
        }
        return r;
    }
    let k = hash_run(line);
    let heading = k >= 1 && line.len() >= 2 && k <= line.len() - 2 && is_wsp(line[k]);
    if heading {
        let mut out: Vec<char> = Vec::new();
        push_repeat(&mut out, '#', k - 1 + increase);
        out.push(' ');
        let title = subvec(line, k + 1, line.len());
        push_all(&mut out, &title);
        proof {
            assert(out@ =~= Seq::new((spec_hash_run(line@) + increase - 1) as nat, |j: int| '#')
                + seq![' '] + line@.skip(spec_hash_run(line@) + 1));
        }
        out
    } else {
        let r = subvec(line, 0, line.len());
        proof {
            assert(line@.subrange(0, line@.len() as int) =~= line@);
        }
        r
    }
}

/// Rewrites every ATX heading outside a fenced code block so that a
/// heading of level `n` comes out at level `n + increase - 1`, leaving
/// the title and every other line untouched; every line of the result is
/// followed by one line feed.
pub fn increase_title_level(text: &str, increase: usize) -> (r: String)
    requires
        text@.len() + increase <= usize::MAX,
    ensures
        r@ == spec_increase_title_level(text@, increase as int),
{
    let v = chars_of(text);
    let lines = split_lines_vec(&v);
    let ghost all = lines_view(lines@);
    let mut out: Vec<Vec<char>> = Vec::new();
    let mut in_code: bool = false;
    let mut i: usize = 0;
    proof {
        lemma_lines_len(v@, Seq::empty());
        assert(all.skip(0) =~= all);
        assert(lines_view(out@) + spec_adjust_lines(all, false, increase as int)
            =~= spec_adjust_lines(all, false, increase as int));
    }
    while i < lines.len()
        invariant
            i <= lines@.len(),
            spec_adjust_lines(all, false, increase as int) == lines_view(out@)
                + spec_adjust_lines(all.skip(i as int), in_code, increase as int),
        decreases lines@.len() - i,
    {
        let ghost rest = all.skip(i as int);
        proof {
            assert(rest[0] == all[i as int]);
            assert(rest.drop_first() =~= all.skip(i + 1));
        }
        let nl = adjust_one(&lines[i], in_code, increase);
        in_code = if toggles_line(&lines[i]) {
            !in_code
        } else {
            in_code
        };
        let ghost prev = lines_view(out@);
        out.push(nl);
        proof {
            assert(lines_view(out@) =~= prev.push(nl@));
            assert(prev + (seq![nl@] + spec_adjust_lines(all.skip(i + 1), in_code, increase as int))
                =~= lines_view(out@) + spec_adjust_lines(all.skip(i + 1), in_code, increase as int));
        }
        i = i + 1;
    }
    proof {
        assert(all.skip(all.len() as int).len() == 0);
        assert(lines_view(out@) + Seq::<Seq<char>>::empty() =~= lines_view(out@));
    }
    let joined = unlines_vec(&out);
    string_of(&joined)
}

/// The fence state that holds when line `i` is reached, starting from
/// `in_code` at the first line.
pub open spec fn spec_state_at(lines: Seq<Seq<char>>, in_code: bool, i: int) -> bool
    decreases i,
{
    if i <= 0 {
        in_code
    } else {
        spec_state_at(lines.drop_first(), spec_next_state(lines[0], in_code), i - 1)
    }
}

/// The heading adjuster maps lines one to one.
pub proof fn lemma_adjust_len(lines: Seq<Seq<char>>, in_code: bool, increase: int)
    ensures
        spec_adjust_lines(lines, in_code, increase).len() == lines.len(),
    decreases lines.len(),
{
    if lines.len() == 0 {
    } else {
        lemma_adjust_len(lines.drop_first(), spec_next_state(lines[0], in_code), increase);
    }
}

/// The heading adjuster never alters a line that lies inside a fenced
/// code block: whatever the line looks like, if the fence state is on
/// when it is reached and the line is no fence-toggle line, it passes
/// through verbatim.
pub proof fn lemma_adjust_keeps_fenced_lines(
    lines: Seq<Seq<char>>,
    in_code: bool,
    increase: int,
    i: int,
)
    requires
        0 <= i < lines.len(),
        spec_state_at(lines, in_code, i),
        !spec_toggles(lines[i]),
    ensures
        spec_adjust_lines(lines, in_code, increase).len() == lines.len(),
        spec_adjust_lines(lines, in_code, increase)[i] == lines[i],
    decreases i,
{
    lemma_adjust_len(lines, in_code, increase);
    if i == 0 {
        assert(spec_adjust_lines(lines, in_code, increase)[0] == spec_adjust_line(
            lines[0],
            in_code,
            increase,
        ));
    } else {
        let rest = lines.drop_first();
        let next = spec_next_state(lines[0], in_code);
        assert(rest[i - 1] == lines[i]);
        lemma_adjust_keeps_fenced_lines(rest, next, increase, i - 1);
        assert(spec_adjust_lines(lines, in_code, increase)[i] == spec_adjust_lines(
            rest,
            next,
            increase,
        )[i - 1]);
    }
}

/// The text without its document-title directive: when the text starts
/// with `%`, one whitespace character and a non-empty title line, that
/// whole first piece up to and including its line feed is removed.
pub open spec fn spec_remove_file_title(s: Seq<char>) -> Seq<char> {
    if s.len() >= 2 && s[0] == '%' && is_wsp_char(s[1]) {
        match spec_find(s.skip(2), '\n') {
            Some(j) => if j >= 1 {
                s.skip(2 + j + 1)
            } else {
                s
            },
            None => s,
        }
    } else {
        s
    }
}

/// Removes a document-title directive from the start of the text.
pub fn remove_markdown_file_title(text: &str) -> (r: String)
    ensures
        r@ == spec_remove_file_title(text@),
{
    let v = chars_of(text);
    if v.len() >= 2 && v[0] == '%' && is_wsp(v[1]) {
        let rest = subvec(&v, 2, v.len());
        proof {
            assert(rest@ =~= v@.skip(2));
        }
        match find_char(&rest, '\n') {
            Some(j) => {
                proof {
                    crate::chars::lemma_find(rest@, '\n');
                }
                if j >= 1 {
                    let tail = subvec(&v, 2 + j + 1, v.len());
                    proof {
                        assert(tail@ =~= v@.skip(2 + j + 1));
                    }
                    return string_of(&tail);
                }
                String::from_str(text)
            },
            None => String::from_str(text),
        }
    } else {
        String::from_str(text)
    }
}

/// The chunks of `rest`, each of at most `w` characters, each preceded by
/// the separator, joined by line feeds.
pub open spec fn spec_chunks(rest: Seq<char>, w: int, sep: Seq<char>) -> Seq<char>
    decreases rest.len(),
{
    if w < 1 || rest.len() <= w {
        sep + rest
    } else {
        sep + rest.take(w) + seq!['\n'] + spec_chunks(rest.skip(w), w, sep)
    }
}

/// A text of more than `max` characters hard-wrapped: the first `max`
/// characters stand alone, the remainder is cut into chunks of
/// `max - sep.len()` characters, each on its own line behind the
/// separator.
pub open spec fn spec_line_break(s: Seq<char>, max: int, sep: Seq<char>) -> Seq<char> {
    if s.len() <= max {
        s
    } else {
        s.take(max) + seq!['\n'] + spec_chunks(s.skip(max), max - sep.len(), sep)
    }
}

/// Hard-wraps an overlong text at `max_len` characters; continuation
/// lines are prefixed with the separator and hold
/// `max_len - separator.len()` characters each.
pub fn line_break_at(text: &str, max_len: usize, separator: &str) -> (r: String)
    requires
        separator@.len() < max_len,
    ensures
        r@ == spec_line_break(text@, max_len as int, separator@),
{
    let v = chars_of(text);
    if v.len() <= max_len {
        return String::from_str(text);
    }
    let sep = chars_of(separator);
    let w = max_len - sep.len();
    let mut out: Vec<char> = Vec::new();
    let first = subvec(&v, 0, max_len);
    push_all(&mut out, &first);
    out.push('\n');
    let ghost restg = v@.skip(max_len as int);
    let ghost total = spec_line_break(text@, max_len as int, separator@);
    let rest = subvec(&v, max_len, v.len());
    proof {
        assert(rest@ =~= restg);
        assert(first@ =~= v@.take(max_len as int));
        assert(out@ =~= v@.take(max_len as int) + seq!['\n']);
        assert(total =~= out@ + spec_chunks(restg, w as int, sep@));
        assert(restg.skip(0) =~= restg);
    }
    let mut i: usize = 0;
    while i < rest.len()
        invariant
            i <= rest@.len(),
            w == max_len - sep@.len(),
            w >= 1,
            i < rest@.len() ==> total == out@ + spec_chunks(
                rest@.skip(i as int),
                w as int,
                sep@,
            ),
            i == rest@.len() ==> total == out@,
        decreases rest@.len() - i,
    {
        let ghost tail = rest@.skip(i as int);
        let ghost prev = out@;
        let last = rest.len() - i <= w;
        let end = if last {
            rest.len()
        } else {
            i + w
        };
        push_all(&mut out, &sep);
        let chunk = subvec(&rest, i, end);
        push_all(&mut out, &chunk);
        if last {
            proof {
                assert(chunk@ =~= tail);
                assert(out@ =~= prev + (sep@ + tail));
                assert(spec_chunks(tail, w as int, sep@) == sep@ + tail);
            }
        } else {
            out.push('\n');
            proof {
                assert(chunk@ =~= tail.take(w as int));
                assert(tail.skip(w as int) =~= rest@.skip(i + w));
                assert(out@ =~= prev + (sep@ + tail.take(w as int) + seq!['\n']));
                assert(out@ + spec_chunks(rest@.skip(i + w), w as int, sep@) =~= prev + (sep@
                    + tail.take(w as int) + seq!['\n'] + spec_chunks(
                    tail.skip(w as int),
                    w as int,
                    sep@,
                )));
            }
        }
        i = end;
    }
    string_of(&out)
}

} // verus!
