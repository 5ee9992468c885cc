use trpl_ebook::render::{
    options_for, output_path, pandoc_common_options, pandoc_from_markdown, Format, OutputType,
};

#[test]
fn format_extensions() {
    assert_eq!("html", Format::Html.file_extension());
    assert_eq!("epub", Format::Epub.file_extension());
    assert_eq!("md", Format::Markdown.file_extension());
}

#[test]
fn format_names() {
    assert_eq!("HTML", Format::Html.display_name());
    assert_eq!("ePub", Format::Epub.display_name());
    assert_eq!("Markdown", Format::Markdown.display_name());
}

#[test]
fn output_paths() {
    assert_eq!("dist/trpl-2016-10-01.md", output_path("trpl", "2016-10-01", Format::Markdown));
    assert_eq!("dist/trpl-2016-10-01.epub", output_path("trpl", "2016-10-01", Format::Epub));
}

#[test]
fn pandoc_option_strings() {
    assert_eq!(
        "--standalone --self-contained --highlight-style=tango --table-of-contents",
        pandoc_common_options()
    );
    assert!(pandoc_from_markdown().starts_with("--from=markdown+grid_tables"));
    assert_eq!(
        "--css=lib/pandoc.css --to=html5 --section-divs --template=lib/template.html",
        options_for(Format::Html)
    );
    assert_eq!("--css=lib/epub.css", options_for(Format::Epub));
}

#[test]
fn output_type_arguments() {
    assert_eq!("html", OutputType::Html.file_extension());
    assert_eq!("epub", OutputType::Epub.file_extension());
    assert!(OutputType::Html.pandoc_args().contains("--to=html5"));
    assert!(OutputType::Epub.pandoc_args().contains("--epub-stylesheet=lib/epub.css"));
}
