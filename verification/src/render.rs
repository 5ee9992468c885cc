//! Output formats and the fixed converter options for each of them.
//! Writing files and running the external converter are left to the
//! caller; this module only computes names and argument strings.

use vstd::prelude::*;
use vstd::string::StringExecFns;

verus! {

/// An output format of the book build.
#[derive(Clone, Copy, Debug, PartialEq, Eq, Structural)]
pub enum Format {
    Html,
    Epub,
    Markdown,
}

/// The file extension of each output format.
pub open spec fn spec_file_extension(f: Format) -> Seq<char> {
    match f {
        Format::Html => "html"@,
        Format::Epub => "epub"@,
        Format::Markdown => "md"@,
    }
}

/// The display name of each output format.
pub open spec fn spec_display_name(f: Format) -> Seq<char> {
    match f {
        Format::Html => "HTML"@,
        Format::Epub => "ePub"@,
        Format::Markdown => "Markdown"@,
    }
}

impl Format {
    /// The file extension used for this format's output artifact.
    pub fn file_extension(&self) -> (r: &'static str)
        ensures
            r@ == spec_file_extension(*self),
    {
        match self {
            Format::Html => "html",
            Format::Epub => "epub",
            Format::Markdown => "md",
        }
    }

    /// The human-readable name of this format.
    pub fn display_name(&self) -> (r: &'static str)
        ensures
            r@ == spec_display_name(*self),
    {
        match self {
            Format::Html => "HTML",
            Format::Epub => "ePub",
            Format::Markdown => "Markdown",
        }
    }
}

/// The converter options shared by every format.
pub fn pandoc_common_options() -> (r: &'static str)
    ensures
        r@ == "--standalone --self-contained --highlight-style=tango --table-of-contents"@,
{
    "--standalone --self-contained --highlight-style=tango --table-of-contents"
}

/// The converter's source-format options.
pub fn pandoc_from_markdown() -> (r: &'static str)
    ensures
        r@
            == "--from=markdown+grid_tables+pipe_tables-simple_tables+raw_html+implicit_figures+footnotes+intraword_underscores+auto_identifiers-inline_code_attributes\n"@,
{
    "--from=markdown+grid_tables+pipe_tables-simple_tables+raw_html+implicit_figures+footnotes+intraword_underscores+auto_identifiers-inline_code_attributes\n"
}

/// The converter options specific to a rendered format.
pub open spec fn spec_options_for(f: Format) -> Seq<char> {
    match f {
        Format::Html => "--css=lib/pandoc.css --to=html5 --section-divs --template=lib/template.html"@,
        Format::Epub => "--css=lib/epub.css"@,
        Format::Markdown => Seq::empty(),
    }
}

/// The converter options for a rendered format; the plain-markdown
/// format is written directly and never reaches the converter.
pub fn options_for(format: Format) -> (r: &'static str)
    requires
        format != Format::Markdown,
    ensures
        r@ == spec_options_for(format),
{
    match format {
        Format::Html => "--css=lib/pandoc.css --to=html5 --section-divs --template=lib/template.html",
        Format::Epub => "--css=lib/epub.css",
        Format::Markdown => "",
    }
}

/// The path of one output artifact:
/// `dist/<prefix>-<release_date>.<extension>`.
pub open spec fn spec_output_path(prefix: Seq<char>, release_date: Seq<char>, f: Format) -> Seq<
    char,
> {
    "dist/"@ + prefix + "-"@ + release_date + "."@ + spec_file_extension(f)
}

/// Builds the path of one output artifact.
pub fn output_path(prefix: &str, release_date: &str, format: Format) -> (r: String)
    ensures
        r@ == spec_output_path(prefix@, release_date@, format),
{
    let mut p = String::new();
    p.append("dist/");
    p.append(prefix);
    p.append("-");
    p.append(release_date);
    p.append(".");
    p.append(format.file_extension());
    proof {
        assert(p@ =~= spec_output_path(prefix@, release_date@, format));
    }
    p
}

/// An output type of the older converter pipeline.
#[derive(Clone, Copy, Debug, PartialEq, Eq, Structural)]
pub enum OutputType {
    Html,
    Epub,
}

/// The file extension of each output type.
pub open spec fn spec_output_type_extension(t: OutputType) -> Seq<char> {
    match t {
        OutputType::Html => "html"@,
        OutputType::Epub => "epub"@,
    }
}

/// The converter arguments of each output type.
pub open spec fn spec_output_type_args(t: OutputType) -> Seq<char> {
    match t {
        OutputType::Html => "--smart --normalize --standalone --self-contained --highlight-style=tango --table-of-contents --section-divs --template=lib/template.html --css=lib/pandoc.css --to=html5"@,
        OutputType::Epub => "--smart --normalize --standalone --self-contained --highlight-style=tango --epub-stylesheet=lib/epub.css --table-of-contents"@,
    }
}

impl OutputType {
    /// The file extension used for this output type's artifact.
    pub fn file_extension(&self) -> (r: &'static str)
        ensures
            r@ == spec_output_type_extension(*self),
    {
        match self {
            OutputType::Html => "html",
            OutputType::Epub => "epub",
        }
    }

    /// The converter arguments for this output type.
    pub fn pandoc_args(&self) -> (r: &'static str)
        ensures
            r@ == spec_output_type_args(*self),
    {
        match self {
            OutputType::Html => "--smart --normalize --standalone --self-contained --highlight-style=tango --table-of-contents --section-divs --template=lib/template.html --css=lib/pandoc.css --to=html5",
            OutputType::Epub => "--smart --normalize --standalone --self-contained --highlight-style=tango --epub-stylesheet=lib/epub.css --table-of-contents",
        }
    }
}

} // verus!
