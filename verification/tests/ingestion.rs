use find_cmdlet::error::FindCmdletError;
use find_cmdlet::gallery::{process_file_json, process_metadata_json, Meta, ModuleMetaData};
use find_cmdlet::markdown::{process_file_md, split_front_matter, MdEvent};

fn obj(entries: Vec<(&str, Meta)>) -> Meta {
    Meta::Object(
        entries
            .into_iter()
            .map(|(k, v)| (String::from(k), v))
            .collect(),
    )
}

fn text(s: &str) -> Meta {
    Meta::Text(String::from(s))
}

fn metadata() -> ModuleMetaData {
    ModuleMetaData {
        name: String::from("DemoModule"),
        version: String::from("1.2.3"),
        docs_dir: String::from("docs"),
    }
}

#[test]
fn gallery_name_with_fallback_to_details() {
    let help = obj(vec![(
        "Details",
        obj(vec![("Name", text(" Get-Demo "))]),
    )]);
    let module = obj(vec![]);
    let command = obj(vec![]);
    let cmdlet = process_file_json(&metadata(), &module, &command, &help).unwrap();
    assert_eq!(cmdlet.name, "Get-Demo");
    assert_eq!(cmdlet.module, "DemoModule");
    assert_eq!(cmdlet.module_version, "1.2.3");
    assert_eq!(cmdlet.syntax, "");
    assert_eq!(cmdlet.notes, "");
}

#[test]
fn gallery_missing_name_is_rejected() {
    let help = obj(vec![("synopsis", text("whatever"))]);
    let module = obj(vec![]);
    let command = obj(vec![]);
    let err = process_file_json(&metadata(), &module, &command, &help).unwrap_err();
    assert!(matches!(err, FindCmdletError::MissingCmdletName));
}

#[test]
fn gallery_blank_name_falls_back() {
    // A blank first candidate falls through to the second spelling.
    let help = obj(vec![("name", text("   ")), ("Name", text("Get-Real"))]);
    let module = obj(vec![]);
    let command = obj(vec![]);
    let cmdlet = process_file_json(&metadata(), &module, &command, &help).unwrap();
    assert_eq!(cmdlet.name, "Get-Real");
}

#[test]
fn gallery_url_fallback_chain() {
    let help = obj(vec![("name", text("Get-Demo"))]);
    let command = obj(vec![("helpuri", text("https://example.test/help"))]);
    let module = obj(vec![]);
    let cmdlet = process_file_json(&metadata(), &module, &command, &help).unwrap();
    assert_eq!(cmdlet.url, "https://example.test/help");

    let command2 = obj(vec![]);
    let module2 = obj(vec![("projectUri", text("https://example.test/project"))]);
    let cmdlet2 = process_file_json(&metadata(), &module2, &command2, &help).unwrap();
    assert_eq!(cmdlet2.url, "https://example.test/project");

    let command3 = obj(vec![]);
    let module3 = obj(vec![]);
    let cmdlet3 = process_file_json(&metadata(), &module3, &command3, &help).unwrap();
    assert_eq!(
        cmdlet3.url,
        "https://www.powershellgallery.com/packages/DemoModule/1.2.3"
    );
}

#[test]
fn gallery_tags_sorted_and_deduplicated() {
    let help = obj(vec![("name", text("Get-Demo"))]);
    let command = obj(vec![]);
    let module = obj(vec![(
        "Tags",
        Meta::List(vec![
            text("Zeta"),
            text("alpha"),
            text("ALPHA"),
            text("beta"),
            text("   "),
            Meta::Null,
        ]),
    )]);
    let cmdlet = process_file_json(&metadata(), &module, &command, &help).unwrap();
    assert_eq!(
        cmdlet.tags,
        vec![
            String::from("alpha"),
            String::from("beta"),
            String::from("Zeta"),
        ]
    );
}

#[test]
fn gallery_description_chain() {
    let help = obj(vec![
        ("name", text("Get-Demo")),
        (
            "description",
            Meta::List(vec![obj(vec![("text", text("  described  "))])]),
        ),
    ]);
    let module = obj(vec![]);
    let command = obj(vec![]);
    let cmdlet = process_file_json(&metadata(), &module, &command, &help).unwrap();
    assert_eq!(cmdlet.description, "described");
}

#[test]
fn module_metadata_extraction() {
    let json = obj(vec![("Name", text("Mod")), ("Version", text("0.1"))]);
    let m = process_metadata_json(&json, String::from("docs")).unwrap();
    assert_eq!(m.name, "Mod");
    assert_eq!(m.version, "0.1");

    let missing_name = obj(vec![("Version", text("0.1"))]);
    let err = process_metadata_json(&missing_name, String::from("docs")).unwrap_err();
    assert!(matches!(err, FindCmdletError::MissingModuleName));

    let missing_version = obj(vec![("name", text("Mod"))]);
    let err = process_metadata_json(&missing_version, String::from("docs")).unwrap_err();
    assert!(matches!(err, FindCmdletError::MissingModuleVersion));
}

#[test]
fn front_matter_split_lf() {
    let text = "---\ntitle: X\n---\nbody here";
    let (yaml, body) = split_front_matter(text).unwrap();
    assert_eq!(yaml, "title: X\n");
    assert_eq!(body, "body here");
}

#[test]
fn front_matter_split_crlf() {
    let text = "---\r\ntitle: X\r\n---\r\nbody";
    let (yaml, body) = split_front_matter(text).unwrap();
    assert_eq!(yaml, "title: X\r\n");
    assert_eq!(body, "body");
}

#[test]
fn front_matter_missing_start() {
    let err = split_front_matter("intro\n---\ntitle: X\n---\n").unwrap_err();
    assert!(matches!(err, FindCmdletError::MissingMetaDataStart));
}

#[test]
fn front_matter_missing_end() {
    let err = split_front_matter("---\ntitle: X\n").unwrap_err();
    assert!(matches!(err, FindCmdletError::MissingMetaDataEnd));
    let err = split_front_matter("no markers at all").unwrap_err();
    assert!(matches!(err, FindCmdletError::MissingMetaDataEnd));
}

fn heading(level: u8) -> MdEvent {
    MdEvent::Heading { level }
}

fn body_text(s: &str, in_heading: bool) -> MdEvent {
    MdEvent::Text {
        content: String::from(s),
        in_heading,
    }
}

#[test]
fn markdown_record_assembly() {
    let docs = vec![obj(vec![
        ("title", text("Get-Demo")),
        ("online version", text("https://example.test/get-demo")),
        ("keywords", text("one,two")),
    ])];
    let events = vec![
        heading(2),
        body_text("SYNOPSIS", true),
        body_text("A short synopsis.", false),
        heading(2),
        body_text("SYNTAX", true),
        body_text("Get-Demo [-Name]", false),
        heading(2),
        body_text("DESCRIPTION", true),
        body_text("The long description.", false),
        heading(2),
        body_text("NOTES", true),
        body_text("Some notes.", false),
    ];
    let cmdlet = process_file_md(&docs, &events).unwrap();
    assert_eq!(cmdlet.name, "Get-Demo");
    assert_eq!(cmdlet.url, "https://example.test/get-demo");
    assert_eq!(cmdlet.tags, vec![String::from("one"), String::from("two")]);
    assert_eq!(cmdlet.synopsis, "A short synopsis.");
    assert_eq!(cmdlet.syntax, "Get-Demo [-Name]");
    assert_eq!(cmdlet.description, "The long description.");
    assert_eq!(cmdlet.notes, "Some notes.");
    assert_eq!(cmdlet.module, "TODO");
    assert_eq!(cmdlet.module_version, "TODO");
}

#[test]
fn markdown_section_headings_match_case_insensitively() {
    let docs = vec![obj(vec![
        ("title", text("Get-Demo")),
        ("online version", text("https://example.test/get-demo")),
    ])];
    let events = vec![
        heading(2),
        body_text("Synopsis", true),
        body_text("Mixed-case heading still counts.", false),
    ];
    let cmdlet = process_file_md(&docs, &events).unwrap();
    assert_eq!(cmdlet.synopsis, "Mixed-case heading still counts.");
    // Keywords were absent: splitting the empty string yields one empty tag.
    assert_eq!(cmdlet.tags, vec![String::new()]);
}

#[test]
fn markdown_rejects_bad_metadata_shape() {
    let events: Vec<MdEvent> = Vec::new();
    let err = process_file_md(&Vec::new(), &events).unwrap_err();
    assert!(matches!(err, FindCmdletError::UnexpectedMetaData));

    let not_a_map = vec![text("scalar")];
    let err = process_file_md(&not_a_map, &events).unwrap_err();
    assert!(matches!(err, FindCmdletError::UnexpectedMetaData));

    let no_title = vec![obj(vec![("online version", text("u"))])];
    let err = process_file_md(&no_title, &events).unwrap_err();
    assert!(matches!(err, FindCmdletError::MissingCmdletName));

    let no_url = vec![obj(vec![("title", text("T"))])];
    let err = process_file_md(&no_url, &events).unwrap_err();
    assert!(matches!(err, FindCmdletError::MissingCmdletUrl));
}

#[test]
fn error_messages_render() {
    let e = FindCmdletError::MissingModJson(
        String::from("Mod"),
        String::from("1.0"),
        String::from("/tmp/mod.json"),
    );
    assert_eq!(
        e.message(),
        "Missing mod.json file for module Mod [1.0]: /tmp/mod.json"
    );
    assert_eq!(
        FindCmdletError::MissingMetaDataStart.message(),
        "Missing metadata start for file"
    );
}
