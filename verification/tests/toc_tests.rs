use trpl_ebook::toc::{build_header, Chapter, ParseError, TableOfContents};

#[test]
fn chapter_from_str() {
    assert_eq!(
        Chapter {
            filename: "guessing-game.md".into(),
            header: "Tutorial: Guessing Game {#sec--guessing-game}".into(),
            nest_level: 0
        },
        Chapter::from_str("* [Tutorial: Guessing Game](guessing-game.md)").unwrap()
    );

    assert_eq!(
        Chapter {
            filename: "variable-bindings.md".into(),
            header: "Variable Bindings {#sec--variable-bindings}".into(),
            nest_level: 1
        },
        Chapter::from_str("    * [Variable Bindings](variable-bindings.md)").unwrap()
    );
}

const TOC_TEXT: &str = "# Sample TOC\n\n* [Tutorial: Guessing Game](guessing-game.md)\n* [Syntax and Semantics](syntax-and-semantics.md)\n    * [Functions](functions.md)\n* [Effective Rust](effective-rust.md)\n    * [The Stack and the Heap](the-stack-and-the-heap.md)\n    * [Testing](testing.md)\n";

#[test]
fn toc_from_str() {
    let correct_toc = vec![
        Chapter {
            filename: "guessing-game.md".into(),
            header: "Tutorial: Guessing Game {#sec--guessing-game}".into(),
            nest_level: 0,
        },
        Chapter {
            filename: "syntax-and-semantics.md".into(),
            header: "Syntax and Semantics {#sec--syntax-and-semantics}".into(),
            nest_level: 0,
        },
        Chapter {
            filename: "functions.md".into(),
            header: "Functions {#sec--functions}".into(),
            nest_level: 1,
        },
        Chapter {
            filename: "effective-rust.md".into(),
            header: "Effective Rust {#sec--effective-rust}".into(),
            nest_level: 0,
        },
        Chapter {
            filename: "the-stack-and-the-heap.md".into(),
            header: "The Stack and the Heap {#sec--the-stack-and-the-heap}".into(),
            nest_level: 1,
        },
        Chapter {
            filename: "testing.md".into(),
            header: "Testing {#sec--testing}".into(),
            nest_level: 1,
        },
    ];

    assert_eq!(correct_toc, TableOfContents::from_str(TOC_TEXT).unwrap().0);
}

#[test]
fn toc_scenario_nesting() {
    let toc = TableOfContents::from_str("* [Intro](intro.md)\n    * [Sub](sub.md)").unwrap();
    assert_eq!(2, toc.0.len());
    assert_eq!("intro.md", toc.0[0].filename);
    assert_eq!(0, toc.0[0].nest_level);
    assert_eq!("Intro {#sec--intro}", toc.0[0].header);
    assert_eq!("sub.md", toc.0[1].filename);
    assert_eq!(1, toc.0[1].nest_level);
    assert_eq!("Sub {#sec--sub}", toc.0[1].header);
}

#[test]
fn nest_level_per_indent_width() {
    for indent in 0..8 {
        let line = format!("{}* [T](t.md)", " ".repeat(indent));
        let c = Chapter::from_str(&line).unwrap();
        assert_eq!(indent / 4, c.nest_level);
    }
}

#[test]
fn malformed_bullet_fails_whole_parse() {
    let r = TableOfContents::from_str("* [Good](good.md)\n* [broken\n* [Fine](fine.md)");
    assert_eq!(Err(ParseError::NoChapterMatch), r);
}

#[test]
fn missing_stem_is_distinct_error() {
    assert_eq!(Err(ParseError::NoFileStem), build_header("Title", ""));
    assert_eq!(Err(ParseError::NoFileStem), Chapter::from_str("* [Title](..)"));
}

#[test]
fn header_strips_directory_and_extension() {
    assert_eq!("T {#sec--name}", build_header("T", "dir/sub/name.md").unwrap());
    assert_eq!("T {#sec--plain}", build_header("T", "plain").unwrap());
}

#[test]
fn non_bullet_lines_are_ignored() {
    let toc = TableOfContents::from_str("prose\n\n* [One](one.md)\nmore prose").unwrap();
    assert_eq!(1, toc.0.len());
}
