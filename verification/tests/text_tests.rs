use trpl_ebook::adjust::{increase_title_level, line_break_at, remove_markdown_file_title};
use trpl_ebook::lines::{split_lines, toggles_code_block, unlines};
use trpl_ebook::normalize::{normalize_code_start, normalize_math};

#[test]
fn code_block_toggle() {
    assert!(toggles_code_block("```wharglbargl"));
    assert!(!toggles_code_block("other thing"));
}

const LONG_LINE: &str = "markdown+grid_tables+pipe_tables+raw_html+implicit_figures\
+footnotes+intraword_underscores+auto_identifiers-inline_code_attributesmarkdow\
n+grid_tables+pipe_tables+raw_html+implicit_figures+footnotes+intraword_undersc\
ores+auto_identifiers-inline_code_attributes\n";

const CORRECT_SPLIT: &str = "markdown+grid_tables+pipe_tables+raw_html+implicit_figures+footnotes+intraword_u\n\
↳ nderscores+auto_identifiers-inline_code_attributesmarkdown+grid_tables+pipe_ta\n\
↳ bles+raw_html+implicit_figures+footnotes+intraword_underscores+auto_identifier\n\
↳ s-inline_code_attributes\n";

#[test]
fn long_lines() {
    assert_eq!(CORRECT_SPLIT, line_break_at(LONG_LINE, 80, "↳ "));
}

#[test]
fn markdown_file_title() {
    assert_eq!(
        "\nthing\nand\nthong",
        remove_markdown_file_title("% title\n\nthing\nand\nthong")
    );
}

#[test]
fn unlines_single() {
    assert_eq!("foo\n", unlines(&vec!["foo".to_string()]));
}

#[test]
fn unlines_multiple() {
    const FBB: &str = "foo\nbar\nbaz\n";
    assert_eq!(FBB, unlines(&split_lines(FBB)));
}

#[test]
fn math() {
    assert_eq!("123^1234^thing", normalize_math("123<sup>1234</sup>thing"));
}

const CODE_BLOCKS: &str = "Code:\n\n```sh\n$ lol\n```\n\n```{rust,ignore}\nlet x = true;\n```\n\n``` rust,no_extras\nlet x = true;\n```\n\n```rust\n# use magic::from_the_future::*;\n#\n# #[inline]\n# fn extension(file_name: &str) -> Option<&str> {\n#     find(file_name, '.').map(|i| &file_name[i+1..])\n# }\nlet x = true;\n```\n";

const CODE_BLOCKS_CLEAN: &str = "Code:\n\n```sh\n$ lol\n```\n\n```rust\nlet x = true;\n```\n\n```rust\nlet x = true;\n```\n\n```rust\nlet x = true;\n```\n";

#[test]
fn normalize_code_block_starts() {
    assert_eq!(CODE_BLOCKS_CLEAN, normalize_code_start(CODE_BLOCKS));
}

#[test]
fn title_level_scenario() {
    assert_eq!("#### Title\n", increase_title_level("## Title", 3));
}

#[test]
fn title_level_keeps_fenced_headings() {
    let input = "# Top\n```\n# not a heading\n```\n# Bottom\n";
    let expected = "### Top\n```\n# not a heading\n```\n### Bottom\n";
    assert_eq!(expected, increase_title_level(input, 3));
}

#[test]
fn title_level_one_keeps_depth() {
    assert_eq!("## Deep\n", increase_title_level("## Deep", 1));
}

#[test]
fn file_title_only_at_start() {
    assert_eq!("abc\n% title\ndef", remove_markdown_file_title("abc\n% title\ndef"));
}

#[test]
fn line_break_short_is_unchanged() {
    assert_eq!("short", line_break_at("short", 80, "> "));
}

#[test]
fn adjust_and_math_commute() {
    let input = "## Result: 2<sup>8</sup>\n```\n10<sup>3</sup>\n```\n";
    let one_way = normalize_math(&increase_title_level(input, 3));
    let other_way = increase_title_level(&normalize_math(input), 3);
    assert_eq!(one_way, other_way);
    assert_eq!("#### Result: 2^8^\n```\n10^3^\n```\n", one_way);
}

#[test]
fn adjustment_is_not_idempotent() {
    let once = increase_title_level("## T", 2);
    let twice = increase_title_level(&once, 2);
    assert_eq!("### T\n", once);
    assert_ne!(once, twice);
    assert_eq!("#### T\n", twice);
}

#[test]
fn split_lines_shapes() {
    assert_eq!(vec!["a".to_string(), "b".to_string()], split_lines("a\nb\n"));
    assert_eq!(vec!["a".to_string(), "b".to_string()], split_lines("a\nb"));
    assert_eq!(vec!["a".to_string(), "".to_string()], split_lines("a\n\n"));
    assert!(split_lines("").is_empty());
}
