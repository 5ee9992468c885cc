//! The book aggregator: metadata, the introduction and every chapter in
//! table-of-contents order, concatenated into one markdown document.

use vstd::prelude::*;
use crate::chars::{chars_of, string_of, push_all, push_repeat, push_str_chars};
use crate::replace::{spec_replace, replace_plain};
use crate::adjust::{spec_increase_title_level, spec_remove_file_title, increase_title_level,
    remove_markdown_file_title};
use crate::references::{spec_prefix_refs, prefix_refs_with};
use crate::normalize::{spec_normalize_all, normalize_all};
use crate::toc::{Chapter, TableOfContents, SpecChapter};
use vstd::string::StringExecFns;

verus! {

/// The command-line arguments of a book build: the output name prefix,
/// the source directory and the metadata file.
#[derive(Debug)]
pub struct Args {
    pub flag_prefix: String,
    pub flag_source: String,
    pub flag_meta: String,
}

/// One chapter text under the full rewrite pipeline: headings shifted,
/// the file title stripped, references namespaced, everything normalized.
pub open spec fn spec_prepare_chapter_md(s: Seq<char>, title_bump: int, prefix: Seq<char>) -> Seq<
    char,
> {
    spec_normalize_all(
        spec_prefix_refs(
            spec_remove_file_title(spec_increase_title_level(s, title_bump)),
            prefix,
        ),
    )
}

/// Runs one chapter text through the full rewrite pipeline: heading
/// levels shifted by `title_bump`, the document-title directive removed,
/// references namespaced with `ref_prefix`, and every normalization pass.
pub fn prepare_chapter_md(markdown: &str, title_bump: usize, ref_prefix: &str) -> (r: String)
    requires
        markdown@.len() + title_bump <= usize::MAX,
    ensures
        r@ == spec_prepare_chapter_md(markdown@, title_bump as int, ref_prefix@),
{
    let s1 = increase_title_level(markdown, title_bump);
    let s2 = remove_markdown_file_title(s1.as_str());
    let s3 = prefix_refs_with(s2.as_str(), ref_prefix);
    normalize_all(s3.as_str())
}

/// The introduction block: a fixed heading followed by the prepared
/// README.
pub open spec fn spec_introduction(readme: Seq<char>) -> Seq<char> {
    "\n\n# Introduction\n\n"@ + spec_prepare_chapter_md(readme, 1, "readme"@)
}

/// One chapter block: a blank line, a heading of `nest_level + 1` hashes
/// with the chapter's header text, and the prepared chapter body.
pub open spec fn spec_chapter_block(c: SpecChapter, text: Seq<char>) -> Seq<char> {
    seq!['\n', '\n'] + Seq::new((c.nest_level + 1) as nat, |k: int| '#') + seq![' '] + c.header
        + seq!['\n'] + spec_prepare_chapter_md(text, c.nest_level + 1, c.filename)
}

/// Every chapter block, in table-of-contents order.
pub open spec fn spec_chapter_blocks(toc: Seq<SpecChapter>, texts: Seq<Seq<char>>) -> Seq<char>
    decreases toc.len(),
{
    if toc.len() == 0 {
        Seq::empty()
    } else {
        spec_chapter_block(toc[0], texts[0]) + spec_chapter_blocks(
            toc.drop_first(),
            texts.drop_first(),
        )
    }
}

/// The whole book: metadata with the release date substituted, one line
/// feed, the introduction, then every chapter block in order.
pub open spec fn spec_create_book(
    metadata: Seq<char>,
    readme: Seq<char>,
    toc: Seq<SpecChapter>,
    texts: Seq<Seq<char>>,
    release_date: Seq<char>,
) -> Seq<char> {
    spec_replace(metadata, "{release_date}"@, release_date) + seq!['\n'] + spec_introduction(
        readme,
    ) + spec_chapter_blocks(toc, texts)
}

/// The views of a vector of chapter texts.
pub open spec fn texts_view(texts: Seq<String>) -> Seq<Seq<char>> {
    texts.map_values(|s: String| s@)
}

/// Builds the heading line of one chapter: a blank line, then
/// `nest_level + 1` hashes, a space, the header text and a line feed.
fn chapter_heading(c: &Chapter) -> (r: Vec<char>)
    requires
        c.nest_level < usize::MAX,
    ensures
        r@ == seq!['\n', '\n'] + Seq::new((c@.nest_level + 1) as nat, |k: int| '#') + seq![' ']
            + c@.header + seq!['\n'],
{
    let mut hl: Vec<char> = Vec::new();
    hl.push('\n');
    hl.push('\n');
    push_repeat(&mut hl, '#', c.nest_level + 1);
    hl.push(' ');
    push_str_chars(&mut hl, c.header.as_str());
    hl.push('\n');
    proof {
        assert(hl@ =~= seq!['\n', '\n'] + Seq::new((c@.nest_level + 1) as nat, |k: int| '#')
            + seq![' '] + c@.header + seq!['\n']);
    }
    hl
}

/// Aggregates the whole book: the metadata text with its
/// `{release_date}` placeholder substituted, the prepared README under a
/// fixed Introduction heading, then each chapter's text, transformed with
/// a heading bump and reference prefix derived from its table-of-contents
/// entry, behind its heading line.
#[verifier::rlimit(100)]
pub fn create_book(
    metadata: &str,
    readme: &str,
    toc: &TableOfContents,
    chapter_texts: &Vec<String>,
    release_date: &str,
) -> (r: String)
    requires
        toc@.len() == chapter_texts@.len(),
        readme@.len() + 1 <= usize::MAX,
        forall|i: int|
            0 <= i < toc@.len() ==> chapter_texts@[i]@.len() + toc@[i].nest_level + 1
                <= usize::MAX,
    ensures
        r@ == spec_create_book(
            metadata@,
            readme@,
            toc@,
            texts_view(chapter_texts@),
            release_date@,
        ),
{
    proof {
        reveal_strlit("{release_date}");
        reveal_strlit("\n");
        assert("\n"@ =~= seq!['\n']);
    }
    let mut book = replace_plain(metadata, "{release_date}", release_date);
    book.append("\n");
    book.append("\n\n# Introduction\n\n");
    let intro = prepare_chapter_md(readme, 1, "readme");
    book.append(intro.as_str());
    let ghost texts = texts_view(chapter_texts@);
    let ghost total = spec_create_book(metadata@, readme@, toc@, texts, release_date@);
    proof {
        assert(book@ =~= spec_replace(metadata@, "{release_date}"@, release_date@) + seq!['\n']
            + spec_introduction(readme@));
        assert(toc@.skip(0) =~= toc@);
        assert(texts.skip(0) =~= texts);
        assert(total =~= book@ + spec_chapter_blocks(toc@, texts));
    }
    let mut i: usize = 0;
    while i < chapter_texts.len()
        invariant
            i <= toc@.len(),
            toc@.len() == chapter_texts@.len(),
            forall|k: int|
                0 <= k < toc@.len() ==> chapter_texts@[k]@.len() + toc@[k].nest_level + 1
                    <= usize::MAX,
            total == book@ + spec_chapter_blocks(toc@.skip(i as int), texts.skip(i as int)),
        decreases chapter_texts@.len() - i,
    {
        let ghost prev = book@;
        let ghost rest_toc = toc@.skip(i as int);
        let ghost rest_texts = texts.skip(i as int);
        proof {
            assert(rest_toc[0] == toc@[i as int]);
            assert(rest_texts[0] == texts[i as int]);
            assert(rest_toc.drop_first() =~= toc@.skip(i + 1));
            assert(rest_texts.drop_first() =~= texts.skip(i + 1));
        }
        let c = &toc.0[i];
        let hl = chapter_heading(c);
        let hs = string_of(&hl);
        book.append(hs.as_str());
        let body = prepare_chapter_md(
            chapter_texts[i].as_str(),
            c.nest_level + 1,
            c.filename.as_str(),
        );
        book.append(body.as_str());
        proof {
            assert(book@ =~= prev + spec_chapter_block(toc@[i as int], texts[i as int]));
            assert(book@ + spec_chapter_blocks(toc@.skip(i + 1), texts.skip(i + 1)) =~= prev
                + spec_chapter_blocks(rest_toc, rest_texts));
        }
        i = i + 1;
    }
    proof {
        assert(spec_chapter_blocks(
            toc@.skip(toc@.len() as int),
            texts.skip(texts.len() as int),
        ) =~= Seq::<char>::empty());
        assert(book@ + Seq::<char>::empty() =~= book@);
    }
    book
}

} // verus!
