//! The table-of-contents parser: the book's nested bullet-list index
//! becomes an ordered sequence of chapter descriptors.
//!
//! A chapter line has the shape `<indent>* [<title>](<filename>)`; its
//! nesting level is the indent length divided by four, and its display
//! header carries an anchor slug derived from the filename with directory
//! and extension stripped.

use vstd::prelude::*;
use crate::chars::{chars_of, string_of, is_wsp_char, is_wsp, spec_find, spec_find2, spec_rfind,
    spec_ws_run, spec_ws_back, find_char, find2_from, rfind_char, ws_run, ws_back, range_has_char,
    lemma_find, lemma_find2, subvec, push_all};
use crate::lines::{spec_lines, lines_view, split_lines_vec};

verus! {

/// Why a table of contents cannot be parsed.
#[derive(Clone, Copy, Debug, PartialEq, Eq, Structural)]
pub enum ParseError {
    /// A kept bullet line does not match the chapter-link pattern.
    NoChapterMatch,
    /// A chapter's filename has no stem to derive an anchor from.
    NoFileStem,
}

/// One chapter of the book: its source file, its display header with the
/// embedded anchor, and its nesting depth in the table of contents.
#[derive(Debug, PartialEq)]
pub struct Chapter {
    pub filename: String,
    pub header: String,
    pub nest_level: usize,
}

/// The mathematical model of a chapter.
pub ghost struct SpecChapter {
    pub filename: Seq<char>,
    pub header: Seq<char>,
    pub nest_level: int,
}

impl View for Chapter {
    type V = SpecChapter;

    open spec fn view(&self) -> SpecChapter {
        SpecChapter {
            filename: self.filename@,
            header: self.header@,
            nest_level: self.nest_level as int,
        }
    }
}

/// The ordered chapters of a book; source order is rendering order.
#[derive(Debug, PartialEq)]
pub struct TableOfContents(pub Vec<Chapter>);

impl View for TableOfContents {
    type V = Seq<SpecChapter>;

    open spec fn view(&self) -> Seq<SpecChapter> {
        self.0@.map_values(|c: Chapter| c@)
    }
}

/// A chapter-link match whose bullet stands at index `k` of `s`: `*`, one
/// whitespace character, `[`, a non-empty title up to the first following
/// `](`, and a non-empty filename up to the first following `)`; neither
/// part may hold a line feed.  Returns the title and filename lengths.
pub open spec fn spec_core_at(s: Seq<char>, k: int) -> Option<(int, int)> {
    let w = s.skip(k);
    if w.len() >= 8 && w[0] == '*' && is_wsp_char(w[1]) && w[2] == '[' {
        match spec_find2(w.skip(4), ']', '(') {
            Some(j) => {
                let jj = j + 1;
                let fstart = 3 + jj + 2;
                if 0 <= j && fstart + 1 <= w.len() && (forall|x: int|
                    3 <= x < 3 + jj ==> w[x] != '\n') {
                    match spec_find(w.skip(fstart + 1), ')') {
                        Some(m) => {
                            let mm = m + 1;
                            if fstart + mm < w.len() && (forall|x: int|
                                fstart <= x < fstart + mm ==> w[x] != '\n') {
                                Some((jj, mm))
                            } else {
                                None
                            }
                        },
                        None => None,
                    }
                } else {
                    None
                }
            },
            None => None,
        }
    } else {
        None
    }
}

/// The first index at or after `i` where a chapter-link match starts.
pub open spec fn spec_core_from(s: Seq<char>, i: int) -> Option<int>
    decreases s.len() - i,
{
    if i < 0 || i >= s.len() {
        None
    } else if spec_core_at(s, i) is Some {
        Some(i)
    } else {
        spec_core_from(s, i + 1)
    }
}

/// The anchor stem of a filename: the part after the last slash, with
/// the extension after the last dot stripped; a name that is empty or is
/// only dots has no stem.
pub open spec fn spec_stem(f: Seq<char>) -> Option<Seq<char>> {
    let base = match spec_rfind(f, '/') {
        Some(i) => if 0 <= i < f.len() {
            f.skip(i + 1)
        } else {
            f
        },
        None => f,
    };
    if base.len() == 0 || base == seq!['.'] || base == seq!['.', '.'] {
        None
    } else {
        match spec_rfind(base, '.') {
            Some(d) => if 0 < d < base.len() {
                Some(base.take(d))
            } else {
                Some(base)
            },
            None => Some(base),
        }
    }
}

/// A chapter header: the title, a space, and the anchor `{#sec--stem}`.
pub open spec fn spec_build_header(title: Seq<char>, filename: Seq<char>) -> Option<Seq<char>> {
    match spec_stem(filename) {
        None => None,
        Some(st) => Some(
            title + seq![' ', '{', '#', 's', 'e', 'c', '-', '-'] + st + seq!['}'],
        ),
    }
}

/// The chapter described by `s`: the leftmost chapter-link match, with
/// the nesting level given by the whitespace run before the bullet
/// divided by four.
pub open spec fn spec_parse_chapter(s: Seq<char>) -> Result<SpecChapter, ParseError> {
    match spec_core_from(s, 0) {
        None => Err(ParseError::NoChapterMatch),
        Some(k) => match spec_core_at(s, k) {
            Some((jj, mm)) => {
                let title = s.subrange(k + 3, k + 3 + jj);
                let filename = s.subrange(k + 3 + jj + 2, k + 3 + jj + 2 + mm);
                match spec_build_header(title, filename) {
                    None => Err(ParseError::NoFileStem),
                    Some(h) => Ok(
                        SpecChapter {
                            filename: filename,
                            header: h,
                            nest_level: spec_ws_back(s, k) / 4,
                        },
                    ),
                }
            },
            None => Err(ParseError::NoChapterMatch),
        },
    }
}

/// The anchor stem of a filename, if it has one.
fn stem_of(f: &Vec<char>) -> (r: Option<Vec<char>>)
    ensures
        match r {
            Some(st) => spec_stem(f@) == Some(st@),
            None => spec_stem(f@) is None,
        },
{
    let flen = f.len();
    let base = match rfind_char(f, '/') {
        Some(i) => {
            proof {
                crate::chars::lemma_rfind(f@, '/');
            }
            subvec(f, i + 1, flen)
        },
        None => subvec(f, 0, flen),
    };
    proof {
        match spec_rfind(f@, '/') {
            Some(i) => {
                assert(base@ =~= f@.skip(i + 1));
            },
            None => {
                assert(base@ =~= f@);
            },
        }
    }
    let n = base.len();
    if n == 0 {
        return None;
    }
    if n == 1 && base[0] == '.' {
        proof {
            assert(base@ =~= seq!['.']);
        }
        return None;
    }
    if n == 2 && base[0] == '.' && base[1] == '.' {
        proof {
            assert(base@ =~= seq!['.', '.']);
        }
        return None;
    }
    proof {
        if base@ == seq!['.'] {
            assert(base@.len() == 1 && base@[0] == '.');
        }
        if base@ == seq!['.', '.'] {
            assert(base@.len() == 2 && base@[0] == '.' && base@[1] == '.');
        }
    }
    match rfind_char(&base, '.') {
        Some(d) => {
            proof {
                crate::chars::lemma_rfind(base@, '.');
            }
            if d > 0 {
                let st = subvec(&base, 0, d);
                proof {
                    assert(st@ =~= base@.take(d as int));
                }
                Some(st)
            } else {
                Some(base)
            }
        },
        None => Some(base),
    }
}

/// Builds a chapter header `title {#sec--stem}` from the display title
/// and the chapter's filename; fails when the filename has no stem.
pub fn build_header(title: &str, filename: &str) -> (r: Result<String, ParseError>)
    ensures
        match r {
            Ok(h) => spec_build_header(title@, filename@) == Some(h@),
            Err(e) => spec_build_header(title@, filename@) is None && e == ParseError::NoFileStem,
        },
{
    let t = chars_of(title);
    let f = chars_of(filename);
    match header_of(&t, &f) {
        Some(h) => Ok(string_of(&h)),
        None => Err(ParseError::NoFileStem),
    }
}

/// Builds a chapter header from title and filename character vectors.
fn header_of(title: &Vec<char>, filename: &Vec<char>) -> (r: Option<Vec<char>>)
    ensures
        match r {
            Some(h) => spec_build_header(title@, filename@) == Some(h@),
            None => spec_build_header(title@, filename@) is None,
        },
{
    match stem_of(filename) {
        None => None,
        Some(st) => {
            let mut h: Vec<char> = Vec::new();
            push_all(&mut h, title);
            h.push(' ');
            h.push('{');
            h.push('#');
            h.push('s');
            h.push('e');
            h.push('c');
            h.push('-');
            h.push('-');
            push_all(&mut h, &st);
            h.push('}');
            proof {
                assert(h@ =~= title@ + seq![' ', '{', '#', 's', 'e', 'c', '-', '-'] + st@
                    + seq!['}']);
            }
            Some(h)
        },
    }
}

/// The chapter-link match starting at index `k` of `v`, if any.
fn core_at(v: &Vec<char>, k: usize) -> (r: Option<(usize, usize)>)
    requires
        k <= v@.len(),
    ensures
        match r {
            Some((jj, mm)) => spec_core_at(v@, k as int) == Some((jj as int, mm as int)) && 1 <= jj
                && 1 <= mm && k + 3 + jj + 2 + mm < v@.len(),
            None => spec_core_at(v@, k as int) is None,
        },
{
    let ghost w = v@.skip(k as int);
    proof {
        assert(forall|x: int| 0 <= x < w.len() ==> w[x] == v@[k + x]);
    }
    if v.len() - k < 8 {
        return None;
    }
    if !(v[k] == '*' && is_wsp(v[k + 1]) && v[k + 2] == '[') {
        return None;
    }
    proof {
        assert(w.skip(4) =~= v@.skip(k + 4));
    }
    let j = match find2_from(v, k + 4, ']', '(') {
        Some(j) => j,
        None => {
            return None;
        },
    };
    proof {
        lemma_find2(w.skip(4), ']', '(');
        assert(j + 2 <= w.len() - 4);
    }
    let jj = j + 1;
    if v.len() - k - 3 - jj < 3 {
        return None;
    }
    let fstart = 3 + jj + 2;
    if range_has_char(v, k + 3, k + 3 + jj, '\n') {
        proof {
            let x = choose|x: int| k + 3 <= x < k + 3 + jj && v@[x] == '\n';
            assert(w[x - k] == '\n' && 3 <= x - k < 3 + jj);
        }
        return None;
    }
    proof {
        assert forall|x: int| 3 <= x < 3 + jj implies w[x] != '\n' by {
            assert(w[x] == v@[k + x]);
        }
    }
    let sub = subvec(v, k + fstart + 1, v.len());
    proof {
        assert(sub@ =~= w.skip(fstart + 1));
    }
    let m = match find_char(&sub, ')') {
        Some(m) => m,
        None => {
            return None;
        },
    };
    proof {
        lemma_find(sub@, ')');
    }
    let mm = m + 1;
    if range_has_char(v, k + fstart, k + fstart + mm, '\n') {
        proof {
            let x = choose|x: int| k + fstart <= x < k + fstart + mm && v@[x] == '\n';
            assert(w[x - k] == '\n' && fstart <= x - k < fstart + mm);
        }
        return None;
    }
    proof {
        assert forall|x: int| fstart <= x < fstart + mm implies w[x] != '\n' by {
            assert(w[x] == v@[k + x]);
        }
    }
    Some((jj, mm))
}

/// The leftmost chapter-link match in `v`, if any.
fn core_find(v: &Vec<char>) -> (r: Option<(usize, usize, usize)>)
    ensures
        match r {
            Some((k, jj, mm)) => spec_core_from(v@, 0) == Some(k as int) && spec_core_at(
                v@,
                k as int,
            ) == Some((jj as int, mm as int)) && 1 <= jj && 1 <= mm && k + 3 + jj + 2 + mm
                < v@.len(),
            None => spec_core_from(v@, 0) is None,
        },
{
    let mut i: usize = 0;
    while i < v.len()
        invariant
            i <= v@.len(),
            spec_core_from(v@, 0) == spec_core_from(v@, i as int),
        decreases v@.len() - i,
    {
        match core_at(v, i) {
            Some((jj, mm)) => {
                return Some((i, jj, mm));
            },
            None => {},
        }
        i = i + 1;
    }
    None
}

impl Chapter {
    /// Parses one chapter from the leftmost chapter-link match of
    /// `source`; the nesting level is the whitespace run before the
    /// bullet divided by four.
    pub fn from_str(source: &str) -> (r: Result<Chapter, ParseError>)
        ensures
            match r {
                Ok(c) => spec_parse_chapter(source@) == Ok::<SpecChapter, ParseError>(c@),
                Err(e) => spec_parse_chapter(source@) == Err::<SpecChapter, ParseError>(e),
            },
    {
        let v = chars_of(source);
        match core_find(&v) {
            None => Err(ParseError::NoChapterMatch),
            Some((k, jj, mm)) => {
                let title = subvec(&v, k + 3, k + 3 + jj);
                let fstart = k + 3 + jj + 2;
                let filename = subvec(&v, fstart, fstart + mm);
                proof {
                    assert(title@ =~= v@.subrange(k + 3, k + 3 + jj));
                    assert(filename@ =~= v@.subrange(k + 3 + jj + 2, k + 3 + jj + 2 + mm));
                }
                match header_of(&title, &filename) {
                    None => Err(ParseError::NoFileStem),
                    Some(h) => {
                        let indent = ws_back(&v, k);
                        Ok(
                            Chapter {
                                filename: string_of(&filename),
                                header: string_of(&h),
                                nest_level: indent / 4,
                            },
                        )
                    },
                }
            },
        }
    }
}

/// True when the line belongs to the table of contents: its first
/// non-whitespace character is the list bullet.
pub open spec fn spec_is_bullet(l: Seq<char>) -> bool {
    spec_ws_run(l) < l.len() && l[spec_ws_run(l)] == '*'
}

/// The chapters of the kept bullet lines, in order; the first
/// unparsable bullet line fails the whole parse.
pub open spec fn spec_parse_toc_lines(lines: Seq<Seq<char>>) -> Result<
    Seq<SpecChapter>,
    ParseError,
>
    decreases lines.len(),
{
    if lines.len() == 0 {
        Ok(seq![])
    } else if !spec_is_bullet(lines[0]) {
        spec_parse_toc_lines(lines.drop_first())
    } else {
        match spec_parse_chapter(lines[0]) {
            Err(e) => Err(e),
            Ok(c) => match spec_parse_toc_lines(lines.drop_first()) {
                Err(e) => Err(e),
                Ok(cs) => Ok(seq![c] + cs),
            },
        }
    }
}

/// The table of contents of a source text.
pub open spec fn spec_parse_toc(s: Seq<char>) -> Result<Seq<SpecChapter>, ParseError> {
    spec_parse_toc_lines(spec_lines(s))
}

/// The kept lines of a table of contents: those whose first
/// non-whitespace character is the list bullet, in order.
pub open spec fn spec_kept_lines(lines: Seq<Seq<char>>) -> Seq<Seq<char>>
    decreases lines.len(),
{
    if lines.len() == 0 {
        seq![]
    } else if spec_is_bullet(lines[0]) {
        seq![lines[0]] + spec_kept_lines(lines.drop_first())
    } else {
        spec_kept_lines(lines.drop_first())
    }
}

/// Parsing preserves order: when a table of contents parses, it has one
/// chapter per kept bullet line, and the i-th chapter is parsed from the
/// i-th bullet line — no reordering ever happens.
pub proof fn lemma_toc_order(lines: Seq<Seq<char>>)
    requires
        spec_parse_toc_lines(lines) is Ok,
    ensures
        spec_parse_toc_lines(lines)->Ok_0.len() == spec_kept_lines(lines).len(),
        forall|i: int|
            0 <= i < spec_kept_lines(lines).len() ==> spec_parse_chapter(
                #[trigger] spec_kept_lines(lines)[i],
            ) == Ok::<SpecChapter, ParseError>(spec_parse_toc_lines(lines)->Ok_0[i]),
    decreases lines.len(),
{
    if lines.len() == 0 {
    } else if !spec_is_bullet(lines[0]) {
        lemma_toc_order(lines.drop_first());
    } else {
        lemma_toc_order(lines.drop_first());
        let c = spec_parse_chapter(lines[0])->Ok_0;
        let cs = spec_parse_toc_lines(lines.drop_first())->Ok_0;
        let kept = spec_kept_lines(lines.drop_first());
        assert(spec_parse_toc_lines(lines)->Ok_0 == seq![c] + cs);
        assert(spec_kept_lines(lines) == seq![lines[0]] + kept);
        assert forall|i: int| 0 <= i < spec_kept_lines(lines).len() implies spec_parse_chapter(
            #[trigger] spec_kept_lines(lines)[i],
        ) == Ok::<SpecChapter, ParseError>(spec_parse_toc_lines(lines)->Ok_0[i]) by {
            if i == 0 {
                assert(spec_kept_lines(lines)[0] == lines[0]);
                assert(spec_parse_toc_lines(lines)->Ok_0[0] == c);
            } else {
                assert(spec_kept_lines(lines)[i] == kept[i - 1]);
                assert(spec_parse_toc_lines(lines)->Ok_0[i] == cs[i - 1]);
            }
        }
    }
}

/// The helper step for `lemma_nest_level`: whitespace before the bullet
/// never starts a chapter-link match of its own.
proof fn lemma_core_skip_ws(l: Seq<char>, i: int, m: int)
    requires
        0 <= i <= m <= l.len(),
        forall|k: int| i <= k < m ==> is_wsp_char(#[trigger] l[k]),
        spec_core_at(l, m) is Some,
    ensures
        spec_core_from(l, i) == Some(m),
    decreases m - i,
{
    assert(l.skip(m).len() >= 8);
    if i == m {
    } else {
        assert(l.skip(i).len() >= 8);
        assert(l.skip(i)[0] == l[i]);
        assert(is_wsp_char(l[i]));
        assert(spec_core_at(l, i) is None);
        lemma_core_skip_ws(l, i + 1, m);
    }
}

/// The nesting level is exactly the indent divided by four: for a line
/// whose leading whitespace run ends at its chapter bullet, a successful
/// parse yields `nest_level == indent / 4`, so indents of up to three
/// characters give level zero, four to seven give level one, and so on.
pub proof fn lemma_nest_level(l: Seq<char>)
    requires
        spec_core_at(l, spec_ws_run(l)) is Some,
    ensures
        match spec_parse_chapter(l) {
            Ok(c) => c.nest_level == spec_ws_run(l) / 4,
            Err(e) => e == ParseError::NoFileStem,
        },
{
    let m = spec_ws_run(l);
    crate::chars::lemma_ws_run(l);
    lemma_core_skip_ws(l, 0, m);
    crate::chars::lemma_ws_back_at(l, m, m);
}

impl TableOfContents {
    /// Parses the table of contents: every line whose first
    /// non-whitespace character is the list bullet must be a chapter
    /// line, and the chapters keep the order of their lines.
    pub fn from_str(source: &str) -> (r: Result<TableOfContents, ParseError>)
        ensures
            match r {
                Ok(toc) => spec_parse_toc(source@) == Ok::<Seq<SpecChapter>, ParseError>(toc@),
                Err(e) => spec_parse_toc(source@) == Err::<Seq<SpecChapter>, ParseError>(e),
            },
    {
        let v = chars_of(source);
        let lines = split_lines_vec(&v);
        let ghost all = lines_view(lines@);
        let mut out: Vec<Chapter> = Vec::new();
        let mut i: usize = 0;
        proof {
            assert(all.skip(0) =~= all);
        }
        while i < lines.len()
            invariant
                i <= lines@.len(),
                spec_parse_toc_lines(all) == (match spec_parse_toc_lines(all.skip(i as int)) {
                    Ok(cs) => Ok::<Seq<SpecChapter>, ParseError>(
                        out@.map_values(|c: Chapter| c@) + cs,
                    ),
                    Err(e) => Err::<Seq<SpecChapter>, ParseError>(e),
                }),
            decreases lines@.len() - i,
        {
            let ghost rest = all.skip(i as int);
            let ghost prev = out@.map_values(|c: Chapter| c@);
            proof {
                assert(rest[0] == all[i as int]);
                assert(rest.drop_first() =~= all.skip(i + 1));
            }
            let line = &lines[i];
            let w = ws_run(line);
            if w < line.len() && line[w] == '*' {
                let text = string_of(line);
                match Chapter::from_str(text.as_str()) {
                    Err(e) => {
                        return Err(e);
                    },
                    Ok(c) => {
                        let ghost cv = c@;
                        out.push(c);
                        proof {
                            assert(out@.map_values(|c: Chapter| c@) =~= prev.push(cv));
                            if spec_parse_toc_lines(all.skip(i + 1)) is Ok {
                                let cs = spec_parse_toc_lines(all.skip(i + 1))->Ok_0;
                                assert(prev + (seq![cv] + cs) =~= prev.push(cv) + cs);
                            }
                        }
                    },
                }
            } else {
                proof {
                    assert(!spec_is_bullet(rest[0]));
                }
            }
            i = i + 1;
        }
        proof {
            assert(all.skip(all.len() as int).len() == 0);
            assert(out@.map_values(|c: Chapter| c@) + Seq::<SpecChapter>::empty()
                =~= out@.map_values(|c: Chapter| c@));
        }
        Ok(TableOfContents(out))
    }
}

} // verus!
