//! Namespacing of markdown references: reference-style link usages
//! `][id]`, footnote usages `[^id]` and reference definition lines
//! `[id]: link` get the given prefix spliced in front of the id, so that
//! identically named references from different chapters do not collide
//! once the chapters are concatenated.

use vstd::prelude::*;
use crate::chars::{chars_of, string_of, is_wsp_char, is_wsp, spec_find, push_all, subvec,
    find_char, lemma_find};
use crate::lines::{spec_lines, spec_unlines, spec_toggles, spec_next_state, lines_view,
    toggles_line, split_lines_vec, unlines_vec};

verus! {

/// A usage match at the start of `s`: the two opening characters, then an
/// id free of line feeds, closed by the first `]` that leaves the id
/// non-empty.  Returns the length of the id.
pub open spec fn spec_usage_at(s: Seq<char>, c0: char, c1: char) -> Option<int> {
    if s.len() >= 4 && s[0] == c0 && s[1] == c1 {
        let t = s.skip(2);
        match spec_find(t.skip(1), ']') {
            Some(j) => if 0 <= j < t.len() - 1 && (forall|k: int| 0 <= k < j + 1 ==> t[k] != '\n') {
                Some(j + 1)
            } else {
                None
            },
            None => None,
        }
    } else {
        None
    }
}

/// The bounds that every usage match respects.
pub proof fn lemma_usage_at(s: Seq<char>, c0: char, c1: char)
    ensures
        match spec_usage_at(s, c0, c1) {
            Some(m) => 1 <= m && m + 3 <= s.len() && s.skip(2)[m] == ']',
            None => true,
        },
{
    if s.len() >= 4 && s[0] == c0 && s[1] == c1 {
        let t = s.skip(2);
        lemma_find(t.skip(1), ']');
        match spec_find(t.skip(1), ']') {
            Some(j) => {
                if 0 <= j < t.len() - 1 && (forall|k: int| 0 <= k < j + 1 ==> t[k] != '\n') {
                    assert(t[j + 1] == t.skip(1)[j]);
                }
            },
            None => {},
        }
    }
}

/// The replacement for one usage: the two opening characters, the prefix,
/// two dashes, the id, and the closing bracket.
pub open spec fn spec_usage_replacement(c0: char, c1: char, prefix: Seq<char>, id: Seq<char>) -> Seq<
    char,
> {
    seq![c0, c1] + prefix + seq!['-', '-'] + id + seq![']']
}

/// `s` with every usage, scanned from the left and without overlap,
/// rewritten to carry the prefix in front of its id.
pub open spec fn spec_rw_usage(s: Seq<char>, c0: char, c1: char, prefix: Seq<char>) -> Seq<char>
    decreases s.len(),
{
    if s.len() == 0 {
        s
    } else {
        match spec_usage_at(s, c0, c1) {
            Some(m) => if 1 <= m && m + 3 <= s.len() {
                spec_usage_replacement(c0, c1, prefix, s.skip(2).take(m)) + spec_rw_usage(
                    s.skip(m + 3),
                    c0,
                    c1,
                    prefix,
                )
            } else {
                s
            },
            None => seq![s[0]] + spec_rw_usage(s.skip(1), c0, c1, prefix),
        }
    }
}

/// True when some usage occurs in `s`.
pub open spec fn spec_has_usage(s: Seq<char>, c0: char, c1: char) -> bool
    decreases s.len(),
{
    if s.len() == 0 {
        false
    } else if spec_usage_at(s, c0, c1) is Some {
        true
    } else {
        spec_has_usage(s.skip(1), c0, c1)
    }
}

/// The id length of a usage starting at index `i` of `v`, if one starts
/// there.
fn usage_at(v: &Vec<char>, i: usize, c0: char, c1: char) -> (r: Option<usize>)
    requires
        i <= v@.len(),
    ensures
        match r {
            Some(m) => spec_usage_at(v@.skip(i as int), c0, c1) == Some(m as int),
            None => spec_usage_at(v@.skip(i as int), c0, c1) is None,
        },
{
    let ghost s = v@.skip(i as int);
    if v.len() - i < 4 {
        return None;
    }
    if v[i] != c0 || v[i + 1] != c1 {
        proof {
            assert(s[0] == v@[i as int]);
            assert(s[1] == v@[i + 1]);
        }
        return None;
    }
    let ghost t = s.skip(2);
    let sub = subvec(v, i + 3, v.len());
    proof {
        assert(sub@ =~= t.skip(1));
    }
    match find_char(&sub, ']') {
        None => None,
        Some(j) => {
            proof {
                lemma_find(sub@, ']');
            }
            let mut k: usize = 0;
            while k < j + 1
                invariant
                    k <= j + 1,
                    j < sub@.len(),
                    forall|x: int| 0 <= x < k ==> t[x] != '\n',
                    t =~= v@.skip(i + 2),
                decreases j + 1 - k,
            {
                if v[i + 2 + k] == '\n' {
                    proof {
                        assert(t[k as int] == v@[i + 2 + k]);
                    }
                    return None;
                }
                proof {
                    assert(t[k as int] == v@[i + 2 + k]);
                }
                k = k + 1;
            }
            Some(j + 1)
        },
    }
}

/// Appends the replacement for one usage to `out`.
fn push_usage_replacement(out: &mut Vec<char>, c0: char, c1: char, prefix: &Vec<char>, id: &Vec<
    char,
>)
    ensures
        final(out)@ == old(out)@ + spec_usage_replacement(c0, c1, prefix@, id@),
{
    let ghost start = out@;
    out.push(c0);
    out.push(c1);
    push_all(out, prefix);
    out.push('-');
    out.push('-');
    push_all(out, id);
    out.push(']');
    proof {
        assert(out@ =~= start + spec_usage_replacement(c0, c1, prefix@, id@));
    }
}

/// Rewrites every usage of the given shape in `v`, splicing the prefix in
/// front of each id.
fn rw_usage(v: &Vec<char>, c0: char, c1: char, prefix: &Vec<char>) -> (r: Vec<char>)
    ensures
        r@ == spec_rw_usage(v@, c0, c1, prefix@),
{
    let mut out: Vec<char> = Vec::new();
    let mut i: usize = 0;
    proof {
        assert(v@.skip(0) =~= v@);
        assert(out@ + spec_rw_usage(v@, c0, c1, prefix@) =~= spec_rw_usage(v@, c0, c1, prefix@));
    }
    while i < v.len()
        invariant
            i <= v@.len(),
            out@ + spec_rw_usage(v@.skip(i as int), c0, c1, prefix@) == spec_rw_usage(
                v@,
                c0,
                c1,
                prefix@,
            ),
        decreases v@.len() - i,
    {
        let ghost rest = v@.skip(i as int);
        let ghost prev = out@;
        match usage_at(v, i, c0, c1) {
            Some(m) => {
                proof {
                    lemma_usage_at(rest, c0, c1);
                    assert(rest.skip(2).take(m as int) =~= v@.subrange(i + 2, i + 2 + m));
                    assert(rest.skip(m + 3) =~= v@.skip(i + m + 3));
                }
                let id = subvec(v, i + 2, i + 2 + m);
                push_usage_replacement(&mut out, c0, c1, prefix, &id);
                proof {
                    assert(out@ + spec_rw_usage(v@.skip(i + m + 3), c0, c1, prefix@) =~= prev
                        + spec_rw_usage(rest, c0, c1, prefix@));
                }
                i = i + m + 3;
            },
            None => {
                proof {
                    assert(rest[0] == v@[i as int]);
                    assert(rest.skip(1) =~= v@.skip(i + 1));
                }
                out.push(v[i]);
                proof {
                    assert(out@ + spec_rw_usage(v@.skip(i + 1), c0, c1, prefix@) =~= prev
                        + spec_rw_usage(rest, c0, c1, prefix@));
                }
                i = i + 1;
            },
        }
    }
    proof {
        assert(v@.skip(v@.len() as int).len() == 0);
        assert(out@ + Seq::<char>::empty() =~= out@);
    }
    out
}

/// True when some usage of the given shape occurs in `v`.
fn has_usage(v: &Vec<char>, c0: char, c1: char) -> (r: bool)
    ensures
        r == spec_has_usage(v@, c0, c1),
{
    let mut i: usize = 0;
    proof {
        assert(v@.skip(0) =~= v@);
    }
    while i < v.len()
        invariant
            i <= v@.len(),
            spec_has_usage(v@, c0, c1) == spec_has_usage(v@.skip(i as int), c0, c1),
        decreases v@.len() - i,
    {
        let ghost rest = v@.skip(i as int);
        if usage_at(v, i, c0, c1).is_some() {
            return true;
        }
        proof {
            assert(rest[0] == v@[i as int]);
            assert(rest.skip(1) =~= v@.skip(i + 1));
        }
        i = i + 1;
    }
    proof {
        assert(v@.skip(v@.len() as int).len() == 0);
    }
    false
}

/// Rewrites every reference-style link usage `][id]` in the line to
/// `][prefix--id]`.
pub fn replace_ref_link(line: &str, prefix: &str) -> (r: String)
    ensures
        r@ == spec_rw_usage(line@, ']', '[', prefix@),
{
    let v = chars_of(line);
    let p = chars_of(prefix);
    let out = rw_usage(&v, ']', '[', &p);
    string_of(&out)
}

/// Rewrites every footnote usage `[^id]` in the line to `[^prefix--id]`.
pub fn replace_footnote(line: &str, prefix: &str) -> (r: String)
    ensures
        r@ == spec_rw_usage(line@, '[', '^', prefix@),
{
    let v = chars_of(line);
    let p = chars_of(prefix);
    let out = rw_usage(&v, '[', '^', &p);
    string_of(&out)
}

/// True when index `q` splits the line into a definition: a closing
/// bracket, a colon and one whitespace character stand at `q`, a line
/// feed occurs neither in the id before `q` nor in the non-empty link
/// after the whitespace.
pub open spec fn spec_split_ok(l: Seq<char>, q: int) -> bool {
    &&& 2 <= q
    &&& q + 3 < l.len()
    &&& l[q] == ']'
    &&& l[q + 1] == ':'
    &&& is_wsp_char(l[q + 2])
    &&& (forall|k: int| 1 <= k < q ==> l[k] != '\n')
    &&& (forall|k: int| q + 3 <= k < l.len() ==> l[k] != '\n')
}

/// The greatest split index at most `q`, if any: the id of a definition
/// line is matched greedily, so the rightmost split wins.
pub open spec fn spec_split_from(l: Seq<char>, q: int) -> Option<int>
    decreases q + 1,
{
    if q < 2 {
        None
    } else if spec_split_ok(l, q) {
        Some(q)
    } else {
        spec_split_from(l, q - 1)
    }
}

/// The split index of a definition line: the line must open with a
/// bracket, and the rightmost split wins.
pub open spec fn spec_defn_split(l: Seq<char>) -> Option<int> {
    if l.len() >= 5 && l[0] == '[' {
        spec_split_from(l, l.len() - 4)
    } else {
        None
    }
}

/// The bounds that every definition split respects.
pub proof fn lemma_split_from(l: Seq<char>, q: int)
    ensures
        match spec_split_from(l, q) {
            Some(r) => 2 <= r <= q && spec_split_ok(l, r),
            None => true,
        },
    decreases q + 1,
{
    if q < 2 {
    } else if spec_split_ok(l, q) {
    } else {
        lemma_split_from(l, q - 1);
    }
}

/// A definition line rewritten: the optional footnote marker is kept, the
/// prefix and two dashes are spliced in front of the id, and the link
/// follows `]: ` with a single space.  When `footnote_aware` is false the
/// marker is not recognized and stays part of the id.
pub open spec fn spec_rw_defn(l: Seq<char>, prefix: Seq<char>, footnote_aware: bool) -> Seq<char> {
    match spec_defn_split(l) {
        Some(q) => {
            let fnote = footnote_aware && l[1] == '^' && q >= 3;
            let id = if fnote {
                l.subrange(2, q)
            } else {
                l.subrange(1, q)
            };
            let marker = if fnote {
                seq!['[', '^']
            } else {
                seq!['[']
            };
            marker + prefix + seq!['-', '-'] + id + seq![']', ':', ' '] + l.skip(q + 3)
        },
        None => l,
    }
}

/// True when a line feed occurs in `v` between `a` (inclusive) and `b`
/// (exclusive).
fn range_has_nl(v: &Vec<char>, a: usize, b: usize) -> (r: bool)
    requires
        a <= b <= v@.len(),
    ensures
        r == exists|k: int| a <= k < b && v@[k] == '\n',
{
    let mut i: usize = a;
    while i < b
        invariant
            a <= i <= b,
            forall|k: int| a <= k < i ==> v@[k] != '\n',
        decreases b - i,
    {
        if v[i] == '\n' {
            return true;
        }
        i = i + 1;
    }
    false
}

/// Whether index `q` splits the line into a definition.
fn split_ok(v: &Vec<char>, q: usize) -> (r: bool)
    requires
        2 <= q,
        q + 3 < v@.len(),
    ensures
        r == spec_split_ok(v@, q as int),
{
    let n = v.len();
    v[q] == ']' && v[q + 1] == ':' && is_wsp(v[q + 2]) && !range_has_nl(v, 1, q) && !range_has_nl(
        v,
        q + 3,
        n,
    )
}

/// The split index of a definition line, if the line is one.
fn defn_split(v: &Vec<char>) -> (r: Option<usize>)
    ensures
        match r {
            Some(q) => spec_defn_split(v@) == Some(q as int),
            None => spec_defn_split(v@) is None,
        },
{
    if v.len() < 5 || v[0] != '[' {
        return None;
    }
    let q0 = v.len() - 4;
    let mut q = q0;
    while q >= 2
        invariant
            q <= q0,
            spec_split_from(v@, q0 as int) == spec_split_from(v@, q as int),
        decreases q,
    {
        if split_ok(v, q) {
            return Some(q);
        }
        q = q - 1;
    }
    None
}

/// Rewrites the line when it is a reference or footnote definition,
/// leaving every other line unchanged.
pub fn replace_ref_defn(line: &str, prefix: &str) -> (r: String)
    ensures
        r@ == spec_rw_defn(line@, prefix@, true),
{
    let v = chars_of(line);
    let p = chars_of(prefix);
    let out = rw_defn(&v, &p, true);
    string_of(&out)
}

/// Rewrites a definition line, splicing the prefix in front of its id.
fn rw_defn(v: &Vec<char>, prefix: &Vec<char>, footnote_aware: bool) -> (r: Vec<char>)
    ensures
        r@ == spec_rw_defn(v@, prefix@, footnote_aware),
{
    match defn_split(v) {
        None => {
            let r = subvec(v, 0, v.len());
            proof {
                assert(v@.subrange(0, v@.len() as int) =~= v@);
            }
            r
        },
        Some(q) => {
            let n = v.len();
            proof {
                lemma_split_from(v@, v@.len() - 4);
            }
            let fnote = footnote_aware && v[1] == '^' && q >= 3;
            let mut out: Vec<char> = Vec::new();
            out.push('[');
            if fnote {
                out.push('^');
            }
            push_all(&mut out, prefix);
            out.push('-');
            out.push('-');
            let id = if fnote {
                subvec(v, 2, q)
            } else {
                subvec(v, 1, q)
            };
            push_all(&mut out, &id);
            out.push(']');
            out.push(':');
            out.push(' ');
            let link = subvec(v, q + 3, n);
            push_all(&mut out, &link);
            proof {
                assert(link@ =~= v@.skip(q + 3));
                assert(out@ =~= spec_rw_defn(v@, prefix@, footnote_aware));
            }
            out
        },
    }
}

/// A well-formed reference id: non-empty, without a closing bracket and
/// without a line feed.
pub open spec fn spec_valid_id(x: Seq<char>) -> bool {
    x.len() >= 1 && forall|k: int| 0 <= k < x.len() ==> x[k] != ']' && #[trigger] x[k] != '\n'
}

/// A whole reference usage `][id]` is rewritten to exactly
/// `][prefix--id]`.
pub proof fn lemma_usage_whole(a: Seq<char>, prefix: Seq<char>)
    requires
        spec_valid_id(a),
    ensures
        spec_rw_usage(seq![']', '['] + a + seq![']'], ']', '[', prefix) == spec_usage_replacement(
            ']',
            '[',
            prefix,
            a,
        ),
{
    let s = seq![']', '['] + a + seq![']'];
    let t = s.skip(2);
    assert(t =~= a + seq![']']);
    assert(t.skip(1) =~= a.skip(1) + seq![']']);
    assert(t.skip(1)[a.len() - 1] == ']');
    assert forall|k: int| 0 <= k < a.len() - 1 implies t.skip(1)[k] != ']' by {
        assert(t.skip(1)[k] == a[k + 1]);
    }
    crate::chars::lemma_find_at(t.skip(1), ']', a.len() - 1);
    assert forall|k: int| 0 <= k < a.len() implies t[k] != '\n' by {
        assert(t[k] == a[k]);
    }
    assert(spec_usage_at(s, ']', '[') == Some(a.len() as int));
    let m = a.len() as int;
    assert(s.skip(m + 3).len() == 0);
    assert(spec_rw_usage(s.skip(m + 3), ']', '[', prefix) == s.skip(m + 3));
    assert(t.take(m) =~= a);
    assert(spec_usage_replacement(']', '[', prefix, a) + s.skip(m + 3)
        =~= spec_usage_replacement(']', '[', prefix, a));
}

/// Namespacing is injective per prefix: two different well-formed ids
/// never collide once the same prefix is spliced in front of each.
pub proof fn lemma_namespace_injective(a: Seq<char>, b: Seq<char>, prefix: Seq<char>)
    requires
        spec_valid_id(a),
        spec_valid_id(b),
        a != b,
    ensures
        spec_rw_usage(seq![']', '['] + a + seq![']'], ']', '[', prefix) != spec_rw_usage(
            seq![']', '['] + b + seq![']'],
            ']',
            '[',
            prefix,
        ),
{
    lemma_usage_whole(a, prefix);
    lemma_usage_whole(b, prefix);
    let ra = spec_usage_replacement(']', '[', prefix, a);
    let rb = spec_usage_replacement(']', '[', prefix, b);
    if ra == rb {
        assert(ra.len() == rb.len());
        assert(a.len() == b.len());
        assert forall|i: int| 0 <= i < a.len() implies a[i] == b[i] by {
            assert(ra[4 + prefix.len() + i] == a[i]);
            assert(rb[4 + prefix.len() + i] == b[i]);
        }
        assert(a =~= b);
        assert(false);
    }
}

/// One line under the reference namespacer: inside a fenced block a
/// non-toggle line passes through; otherwise exactly one of the three
/// rewrites applies: link usages first, then footnote usages, then the
/// definition form.
pub open spec fn spec_ns_line(l: Seq<char>, in_code: bool, prefix: Seq<char>) -> Seq<char> {
    if in_code && !spec_toggles(l) {
        l
    } else if spec_has_usage(l, ']', '[') {
        spec_rw_usage(l, ']', '[', prefix)
    } else if spec_has_usage(l, '[', '^') {
        spec_rw_usage(l, '[', '^', prefix)
    } else {
        spec_rw_defn(l, prefix, true)
    }
}

/// Applies the per-line reference rewrite that `spec_ns_line` states.
pub fn replace_all(line: &str, in_code: bool, prefix: &str) -> (r: String)
    ensures
        r@ == spec_ns_line(line@, in_code, prefix@),
{
    let v = chars_of(line);
    let p = chars_of(prefix);
    let out = ns_line(&v, in_code, &p);
    string_of(&out)
}

/// One line under the reference namespacer.
fn ns_line(v: &Vec<char>, in_code: bool, prefix: &Vec<char>) -> (r: Vec<char>)
    ensures
        r@ == spec_ns_line(v@, in_code, prefix@),
{
    if in_code && !toggles_line(v) {
        let r = subvec(v, 0, v.len());
        proof {
            assert(v@.subrange(0, v@.len() as int) =~= v@);
        }
        r
    } else if has_usage(v, ']', '[') {
        rw_usage(v, ']', '[', prefix)
    } else if has_usage(v, '[', '^') {
        rw_usage(v, '[', '^', prefix)
    } else {
        rw_defn(v, prefix, true)
    }
}

/// The reference namespacer over a sequence of lines, threading the fence
/// state from `in_code` onward.
pub open spec fn spec_ns_lines(lines: Seq<Seq<char>>, in_code: bool, prefix: Seq<char>) -> Seq<
    Seq<char>,
>
    decreases lines.len(),
{
    if lines.len() == 0 {
        seq![]
    } else {
        seq![spec_ns_line(lines[0], in_code, prefix)] + spec_ns_lines(
            lines.drop_first(),
            spec_next_state(lines[0], in_code),
            prefix,
        )
    }
}

/// The whole text under the reference namespacer: each line rewritten
/// under the fence state, each followed by one line feed.
pub open spec fn spec_prefix_refs(s: Seq<char>, prefix: Seq<char>) -> Seq<char> {
    spec_unlines(spec_ns_lines(spec_lines(s), false, prefix))
}

/// Rewrites reference-style link usages, footnote usages and definition
/// lines outside fenced code blocks so that each id carries
/// `prefix--` in front; every line of the result is followed by one line
/// feed.
pub fn prefix_refs_with(text: &str, prefix: &str) -> (r: String)
    ensures
        r@ == spec_prefix_refs(text@, prefix@),
{
    let v = chars_of(text);
    let p = chars_of(prefix);
    let lines = split_lines_vec(&v);
    let ghost all = lines_view(lines@);
    let mut out: Vec<Vec<char>> = Vec::new();
    let mut in_code: bool = false;
    let mut i: usize = 0;
    proof {
        assert(all.skip(0) =~= all);
        assert(lines_view(out@) + spec_ns_lines(all, false, p@) =~= spec_ns_lines(all, false, p@));
    }
    while i < lines.len()
        invariant
            i <= lines@.len(),
            spec_ns_lines(all, false, p@) == lines_view(out@) + spec_ns_lines(
                all.skip(i as int),
                in_code,
                p@,
            ),
        decreases lines@.len() - i,
    {
        let ghost rest = all.skip(i as int);
        proof {
            assert(rest[0] == all[i as int]);
            assert(rest.drop_first() =~= all.skip(i + 1));
        }
        let nl = ns_line(&lines[i], in_code, &p);
        in_code = if toggles_line(&lines[i]) {
            !in_code
        } else {
            in_code
        };
        let ghost prev = lines_view(out@);
        out.push(nl);
        proof {
            assert(lines_view(out@) =~= prev.push(nl@));
            assert(prev + (seq![nl@] + spec_ns_lines(all.skip(i + 1), in_code, p@)) =~= lines_view(
                out@,
            ) + spec_ns_lines(all.skip(i + 1), in_code, p@));
        }
        i = i + 1;
    }
    proof {
        assert(all.skip(all.len() as int).len() == 0);
        assert(lines_view(out@) + Seq::<Seq<char>>::empty() =~= lines_view(out@));
    }
    let joined = unlines_vec(&out);
    string_of(&joined)
}

/// One line under the plain reference renamer: inside a fenced block a
/// non-toggle line passes through; otherwise link usages are rewritten,
/// or else the definition form without a footnote marker.
pub open spec fn spec_rename_line(l: Seq<char>, in_code: bool, prefix: Seq<char>) -> Seq<char> {
    if in_code && !spec_toggles(l) {
        l
    } else if spec_has_usage(l, ']', '[') {
        spec_rw_usage(l, ']', '[', prefix)
    } else {
        spec_rw_defn(l, prefix, false)
    }
}

/// The plain reference renamer over a sequence of lines.
pub open spec fn spec_rename_lines(lines: Seq<Seq<char>>, in_code: bool, prefix: Seq<char>) -> Seq<
    Seq<char>,
>
    decreases lines.len(),
{
    if lines.len() == 0 {
        seq![]
    } else {
        seq![spec_rename_line(lines[0], in_code, prefix)] + spec_rename_lines(
            lines.drop_first(),
            spec_next_state(lines[0], in_code),
            prefix,
        )
    }
}

/// The whole text under the plain reference renamer.
pub open spec fn spec_adjust_reference_name(s: Seq<char>, prefix: Seq<char>) -> Seq<char> {
    spec_unlines(spec_rename_lines(spec_lines(s), false, prefix))
}

/// Rewrites reference-style link usages and reference definition lines
/// outside fenced code blocks so that each id carries `prefix--` in
/// front; footnote markers are not treated specially.  Every line of the
/// result is followed by one line feed.
pub fn adjust_reference_name(input: &str, prefix: &str) -> (r: String)
    ensures
        r@ == spec_adjust_reference_name(input@, prefix@),
{
    let v = chars_of(input);
    let p = chars_of(prefix);
    let lines = split_lines_vec(&v);
    let ghost all = lines_view(lines@);
    let mut out: Vec<Vec<char>> = Vec::new();
    let mut in_code: bool = false;
    let mut i: usize = 0;
    proof {
        assert(all.skip(0) =~= all);
        assert(lines_view(out@) + spec_rename_lines(all, false, p@) =~= spec_rename_lines(
            all,
            false,
            p@,
        ));
    }
    while i < lines.len()
        invariant
            i <= lines@.len(),
            spec_rename_lines(all, false, p@) == lines_view(out@) + spec_rename_lines(
                all.skip(i as int),
                in_code,
                p@,
            ),
        decreases lines@.len() - i,
    {
        let ghost rest = all.skip(i as int);
        proof {
            assert(rest[0] == all[i as int]);
            assert(rest.drop_first() =~= all.skip(i + 1));
        }
        let line = &lines[i];
        let nl = if in_code && !toggles_line(line) {
            let r = subvec(line, 0, line.len());
            proof {
                assert(line@.subrange(0, line@.len() as int) =~= line@);
            }
            r
        } else if has_usage(line, ']', '[') {
            rw_usage(line, ']', '[', &p)
        } else {
            rw_defn(line, &p, false)
        };
        in_code = if toggles_line(&lines[i]) {
            !in_code
        } else {
            in_code
        };
        let ghost prev = lines_view(out@);
        out.push(nl);
        proof {
            assert(lines_view(out@) =~= prev.push(nl@));
            assert(prev + (seq![nl@] + spec_rename_lines(all.skip(i + 1), in_code, p@))
                =~= lines_view(out@) + spec_rename_lines(all.skip(i + 1), in_code, p@));
        }
        i = i + 1;
    }
    proof {
        assert(all.skip(all.len() as int).len() == 0);
        assert(lines_view(out@) + Seq::<Seq<char>>::empty() =~= lines_view(out@));
    }
    let joined = unlines_vec(&out);
    string_of(&joined)
}

} // verus!
