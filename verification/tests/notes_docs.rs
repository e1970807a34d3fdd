use taskw::{split_yaml_header, Date, NotesFile, YamlMeta};

const YAML_STR: &str = "title: Complex note title\ndate: 2022-02-18\nkeywords:\n  - projectX\n  - withQuotes\nauthor: \"That's me\"";

#[test]
fn deserialize_simple_yaml_meta() {
    let yaml = YamlMeta::from_str(YAML_STR).expect("Deserialization succeeds");
    assert_eq!(yaml.title, "Complex note title");
    assert_eq!(yaml.date, Date { year: 2022, month: 2, day: 18 });
    assert_eq!(yaml.keywords, vec!["projectX".to_string(), "withQuotes".to_string()]);
    assert_eq!(
        yaml.unknown_fields,
        vec![("author".to_string(), "That's me".to_string())]
    );
}

#[test]
fn split_yaml_header_with_valid_yaml_header() {
    let content_str = "## Document Headline\n\nand some content";
    let header_str = format!("---\n{}\n---", YAML_STR);
    let document_str = format!("{}\n\n{}", header_str, content_str);

    let (header, content) = split_yaml_header(&document_str).expect("splitting succeeds");
    assert_eq!(header, YAML_STR);
    assert_eq!(content, content_str);
}

#[test]
fn split_yaml_header_without_yaml_header() {
    let content_str = "## Document Headline\n\nand some content";
    let document_str = format!("\n\n{}", content_str);
    assert_eq!(None, split_yaml_header(&document_str));
}

#[test]
fn split_yaml_header_with_invalid_yaml_header() {
    let content_str = "## Document Headline\n\nand some content";
    let document_str = format!("---\nFOOBAR\n---\n\n{}", content_str);

    let (header, content) = split_yaml_header(&document_str).expect("notes file from_str");
    assert_eq!(header, "FOOBAR");
    assert_eq!(content, content_str);
}

#[test]
fn split_yaml_header_on_minimal_document() {
    let (header, content) = split_yaml_header("---\nX\n---\n\nBODY").expect("splitting succeeds");
    assert_eq!(header, "X");
    assert_eq!(content, "BODY");
}

#[test]
fn read_notes_files_from_filesystem() {
    let content_str = "## Document Headline\n\nand some content";
    let header_str = format!("---\n{}\n---", YAML_STR);
    let document_str = format!("{}\n\n{}", header_str, content_str);

    let notes_file = NotesFile::from_document("a_note.md", &document_str);
    assert_eq!(notes_file.content, content_str);
    assert_eq!(notes_file.path, "a_note.md");
    assert!(notes_file.header.is_some());
}

#[test]
fn read_notes_files_without_header_from_filesystem() {
    let document_str = "---\n\n## Document Headline\n\nand some content";

    let notes_file = NotesFile::from_document("a_note.md", document_str);
    assert_eq!(notes_file.content, document_str);
    assert!(notes_file.header.is_none());
}

#[test]
fn read_notes_files_with_invalid_header_from_filesystem() {
    let content_str = "## Document Headline\n\nand some content";
    let header_str = "---\nFOOBAR\n---";
    let document_str = format!("{}\n\n{}", header_str, content_str);

    let notes_file = NotesFile::from_document("a_note.md", &document_str);
    assert_eq!(notes_file.content, document_str);
    assert!(notes_file.header.is_none());
}

#[test]
fn create_notes_file_in_filesystem() {
    let content_str = "## Document Headline\n\nand some content";
    let yaml_meta = YamlMeta::from_str(YAML_STR).expect("parse yaml meta");

    let notes_file = NotesFile::new("test_notes_file.md")
        .with_header(yaml_meta)
        .with_content(content_str);
    let written_str = notes_file.render();

    assert_eq!(written_str, format!("---\n{}\n---\n\n{}", YAML_STR, content_str));
}

#[test]
fn render_without_header_is_plain_content() {
    let notes_file = NotesFile::new("a_note.md").with_content("just text");
    assert_eq!(notes_file.render(), "just text");
}

#[test]
fn render_empty_keyword_list_as_empty_brackets() {
    let meta = YamlMeta::new("A title", Date { year: 2022, month: 1, day: 10 });
    assert_eq!(meta.to_text(), "title: A title\ndate: 2022-01-10\nkeywords: []");
}

#[test]
fn rendered_header_parses_back() {
    let meta = YamlMeta::new("A title", Date { year: 2022, month: 1, day: 10 });
    let again = YamlMeta::from_str(&meta.to_text()).expect("parse back succeeds");
    assert_eq!(again.title, "A title");
    assert_eq!(again.date, Date { year: 2022, month: 1, day: 10 });
    assert!(again.keywords.is_empty());
    assert!(again.unknown_fields.is_empty());
    let document = NotesFile::new("a_note.md").with_header(meta).with_content("BODY").render();
    let reread = NotesFile::from_document("a_note.md", &document);
    assert!(reread.header.is_some());
    assert_eq!(reread.content, "BODY");
}

#[test]
fn header_with_bad_date_degrades_to_content() {
    let document_str = "---\ntitle: x\ndate: 2022-13-99\nkeywords: []\n---\n\nBODY";
    let notes_file = NotesFile::from_document("a_note.md", document_str);
    assert!(notes_file.header.is_none());
    assert_eq!(notes_file.content, document_str);
}

#[test]
fn header_missing_mandatory_field_degrades_to_content() {
    let document_str = "---\ntitle: x\nkeywords: []\n---\n\nBODY";
    let notes_file = NotesFile::from_document("a_note.md", document_str);
    assert!(notes_file.header.is_none());
    assert_eq!(notes_file.content, document_str);
}

#[test]
fn duplicate_header_field_degrades_to_content() {
    let document_str = "---\ntitle: x\ntitle: y\ndate: 2022-01-10\nkeywords: []\n---\n\nBODY";
    let notes_file = NotesFile::from_document("a_note.md", document_str);
    assert!(notes_file.header.is_none());
}

#[test]
fn split_ignores_delimiters_inside_a_line() {
    assert!(split_yaml_header("a---b---c").is_none());

    let document_str = "x---\ntitle: a\ndate: 2022-01-10\nkeywords: []\n---y";
    assert!(split_yaml_header(document_str).is_none());
    let notes_file = NotesFile::from_document("a_note.md", document_str);
    assert!(notes_file.header.is_none());
    assert_eq!(notes_file.content, document_str);
}

#[test]
fn title_with_newline_round_trips() {
    let meta = YamlMeta::new("a\nb", Date { year: 2022, month: 1, day: 10 });
    let text = meta.to_text();
    assert_eq!(text, "title: \"a\\nb\"\ndate: 2022-01-10\nkeywords: []");
    let again = YamlMeta::from_str(&text).expect("parse back succeeds");
    assert_eq!(again.title, "a\nb");

    let document = NotesFile::new("a_note.md").with_header(meta).with_content("BODY").render();
    let reread = NotesFile::from_document("a_note.md", &document);
    let header = reread.header.expect("header read back");
    assert_eq!(header.title, "a\nb");
    assert_eq!(reread.content, "BODY");
}

#[test]
fn quoted_stored_value_round_trips() {
    let document_str = "---\ntitle: t\ndate: 2022-01-10\nkeywords: []\nq: \"\\\"x\\\"\"\n---\n\nBODY";
    let notes_file = NotesFile::from_document("a_note.md", document_str);
    let header = notes_file.header.expect("header parses");
    assert_eq!(header.unknown_fields, vec![("q".to_string(), "\"x\"".to_string())]);

    let rewritten = NotesFile::new("a_note.md").with_header(header).with_content("BODY").render();
    let reread = NotesFile::from_document("a_note.md", &rewritten);
    let header2 = reread.header.expect("header reads back");
    assert_eq!(header2.unknown_fields, vec![("q".to_string(), "\"x\"".to_string())]);
}

#[test]
fn written_values_quote_when_needed() {
    let mut meta = YamlMeta::new("plain title", Date { year: 2022, month: 1, day: 10 });
    meta.unknown_fields.push(("a".to_string(), "it's quoted".to_string()));
    meta.unknown_fields.push(("b".to_string(), "bare".to_string()));
    meta.unknown_fields.push(("c".to_string(), " padded ".to_string()));
    let text = meta.to_text();
    assert!(text.contains("a: \"it's quoted\""));
    assert!(text.contains("b: bare"));
    assert!(text.contains("c: \" padded \""));
    let again = YamlMeta::from_str(&text).expect("parse back succeeds");
    assert_eq!(again.unknown_fields, meta.unknown_fields);
}
