use trpl_ebook::references::{
    adjust_reference_name, prefix_refs_with, replace_all, replace_footnote, replace_ref_defn,
    replace_ref_link,
};

const REFERENCE_PREFIX: &str = "PREFIX";

#[test]
fn reference_renamer() {
    assert_eq!(
        adjust_reference_name(
            "Lorem ipsum [dolor sit][amet], [consectetur adipisicing][elit]. Odio provident repellendus temporibus possimus magnam odit [neque obcaecati][illo], ab tenetur deserunt quae quia? Asperiores a hic, maiores quaerat, autem ea!",
            REFERENCE_PREFIX
        ),
        "Lorem ipsum [dolor sit][PREFIX--amet], [consectetur adipisicing][PREFIX--elit]. Odio provident repellendus temporibus possimus magnam odit [neque obcaecati][PREFIX--illo], ab tenetur deserunt quae quia? Asperiores a hic, maiores quaerat, autem ea!\n"
    );
}

const WITH_REFERENCES: &str = "Lorem ipsum [dolor sit][amet], [consectetur adipisicing][elit].\n\nOdio provident repellendus temporibus possimus magnam odit [neque obcaecati][illo], ab tenetur deserunt quae quia? Asperiores a hic, maiores quaerat, autem ea!\n";

const WITH_PREFIXED_REFERENCES: &str = "Lorem ipsum [dolor sit][PREFIX--amet], [consectetur adipisicing][PREFIX--elit].\n\nOdio provident repellendus temporibus possimus magnam odit [neque obcaecati][PREFIX--illo], ab tenetur deserunt quae quia? Asperiores a hic, maiores quaerat, autem ea!\n";

#[test]
fn references_reference_renaming() {
    assert_eq!(
        WITH_PREFIXED_REFERENCES.to_string(),
        prefix_refs_with(WITH_REFERENCES, REFERENCE_PREFIX)
    );
}

#[test]
fn ref_link_scenario() {
    assert_eq!("][PREFIX--amet]", replace_ref_link("][amet]", "PREFIX"));
}

#[test]
fn footnote_usage() {
    assert_eq!("see [^PREFIX--note] here", replace_footnote("see [^note] here", "PREFIX"));
}

#[test]
fn reference_definition() {
    assert_eq!(
        "[PREFIX--id]: http://example.net/x",
        replace_ref_defn("[id]: http://example.net/x", "PREFIX")
    );
}

#[test]
fn footnote_definition() {
    assert_eq!("[^PREFIX--deep]: note text", replace_ref_defn("[^deep]: note text", "PREFIX"));
}

#[test]
fn namespacing_is_injective_per_prefix() {
    let a = replace_ref_link("][amet]", "PREFIX");
    let b = replace_ref_link("][elit]", "PREFIX");
    assert_ne!(a, b);
    assert_eq!("][PREFIX--amet]", a);
    assert_eq!("][PREFIX--elit]", b);
}

#[test]
fn dispatcher_keeps_code_lines() {
    assert_eq!("[a][b]", replace_all("[a][b]", true, "PREFIX"));
}

#[test]
fn only_one_rewrite_per_line() {
    // A line is tested for link usages first; footnotes on the same
    // line are then left alone.
    assert_eq!(
        "see [a][P--x] and [^y]",
        replace_all("see [a][x] and [^y]", false, "P")
    );
}

#[test]
fn usage_id_ends_at_first_bracket() {
    assert_eq!("][P--a]b]", replace_ref_link("][a]b]", "P"));
}

#[test]
fn definition_with_bare_caret_id() {
    // The footnote marker needs a non-empty id behind it; a bare caret
    // is itself the id.
    assert_eq!("[P--^]: x", replace_ref_defn("[^]: x", "P"));
}

#[test]
fn definition_splits_at_last_colon() {
    // The id is matched greedily, so the rightmost `]: ` wins.
    assert_eq!("[P--a]: b]: c", replace_ref_defn("[a]: b]: c", "P"));
}

#[test]
fn namespacing_skips_fenced_blocks() {
    let input = "see [dolor][amet]\n```\nlet x = a[0][1];\n```\n[amet]: http://example.net\n";
    let expected =
        "see [dolor][PREFIX--amet]\n```\nlet x = a[0][1];\n```\n[PREFIX--amet]: http://example.net\n";
    assert_eq!(expected, prefix_refs_with(input, "PREFIX"));
}
