use trpl_ebook::adjust::increase_title_level;
use trpl_ebook::book::{create_book, prepare_chapter_md, Args};
use trpl_ebook::normalize::{normalize_all, normalize_links};
use trpl_ebook::toc::TableOfContents;

#[test]
fn link_normalization() {
    assert_eq!("[see](#sec--other)", normalize_links("[see](other.html)"));
    assert_eq!("[see](#anchor)", normalize_links("[see](ch-1.html#anchor)"));
    assert_eq!("[id]: #sec--page", normalize_links("[id]: page.html"));
    assert_eq!("[id]: #section", normalize_links("[id]: page.html#section"));
    assert_eq!(
        "docs at http://doc.rust-lang.org/std/vec",
        normalize_links("docs at ../std/vec")
    );
}

#[test]
fn link_normalization_leaves_external_targets() {
    assert_eq!(
        "[crates](http://crates.io/)",
        normalize_links("[crates](http://crates.io/)")
    );
}

#[test]
fn fence_scenario() {
    assert_eq!(
        "```rust\nlet x = true;\n```\n",
        normalize_all("```{rust,ignore}\n# hidden\nlet x = true;\n```")
    );
}

#[test]
fn prepare_chapter_pipeline() {
    let input = "% File Title\n\n# Heading\n\nSee [dolor][amet].\n\n[amet]: other.html\n";
    let expected = "\n### Heading\n\nSee [dolor][ch.md--amet].\n\n[ch.md--amet]: #sec--other\n";
    assert_eq!(expected, prepare_chapter_md(input, 3, "ch.md"));
}

#[test]
fn book_aggregation() {
    let toc = TableOfContents::from_str("* [Ch](ch.md)").unwrap();
    let texts = vec!["Text".to_string()];
    let book = create_book("v {release_date}", "Hello", &toc, &texts, "2016-10-01");
    assert_eq!(
        "v 2016-10-01\n\n\n# Introduction\n\nHello\n\n\n# Ch {#sec--ch}\nText\n",
        book
    );
}

#[test]
fn book_substitutes_every_placeholder() {
    let toc = TableOfContents::from_str("").unwrap();
    let texts: Vec<String> = Vec::new();
    let book = create_book("{release_date} and {release_date}", "", &toc, &texts, "d");
    assert!(book.starts_with("d and d\n"));
}

#[test]
fn empty_text_stays_empty() {
    assert_eq!("", normalize_all(""));
    assert_eq!("", prepare_chapter_md("", 3, "ch.md"));
}

#[test]
fn unbalanced_fence_runs_to_the_end() {
    // An unclosed fence is not an error: the state simply stays on, so
    // later heading-looking lines are left alone.
    assert_eq!("```\n# x\n", increase_title_level("```\n# x", 3));
}

#[test]
fn args_record_holds_flags() {
    let args = Args {
        flag_prefix: "trpl".to_string(),
        flag_source: "trpl".to_string(),
        flag_meta: "trpl_meta.yml".to_string(),
    };
    assert_eq!("trpl", args.flag_prefix);
    assert_eq!("trpl", args.flag_source);
    assert_eq!("trpl_meta.yml", args.flag_meta);
}
