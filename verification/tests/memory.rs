use mivi::memory::{record_filename, render_record, sanitize_identifier, split_frontmatter, MemoryType};

#[test]
fn test_memory_type_parsing_and_display() {
    let t: MemoryType = "episodic".into();
    assert_eq!(t, MemoryType::Episodic);
    assert_eq!(t.to_string(), "episodic");
    let custom: MemoryType = "conversation".into();
    assert_eq!(custom, MemoryType::Custom("conversation".to_string()));
    assert_eq!(custom.to_string(), "conversation");
}

#[test]
fn memory_type_names_ignore_ascii_case() {
    assert_eq!(MemoryType::from("SeMaNtIc"), MemoryType::Semantic);
    assert_eq!(MemoryType::from(String::from("ENTITY")), MemoryType::Entity);
    assert_eq!(MemoryType::parse_name("Procedural"), MemoryType::Procedural);
    assert_eq!(MemoryType::parse_name("Custom-Kind").to_string(), "Custom-Kind");
}

#[test]
fn sanitize_keeps_only_file_name_characters() {
    assert_eq!(sanitize_identifier("a b/c_d-e!", "x"), "abc_d-e");
    assert_eq!(sanitize_identifier("../..", "fallback"), "fallback");
    assert_eq!(record_filename("episodic", "123e4567-e89b"), "episodic_123e4567-e89b.md");
    assert_eq!(record_filename("", "//"), "record_unknown_id.md");
}

#[test]
fn record_files_split_back_into_metadata_and_content() {
    let file = render_record("title: x\ntags: []", "  Body text\nmore");
    assert_eq!(file, "---\ntitle: x\ntags: []\n---\n\n  Body text\nmore");
    assert_eq!(split_frontmatter(&file), Some(("title: x\ntags: []".to_string(), "Body text\nmore".to_string())));
    assert_eq!(split_frontmatter("---\r\na: 1\r\n---\r\nbody"), Some(("a: 1".to_string(), "body".to_string())));
    assert_eq!(split_frontmatter("no fence"), None);
    assert_eq!(split_frontmatter("---\nunterminated"), None);
}

#[test]
fn memory_type_from_str_never_fails() {
    assert_eq!("Entity".parse::<MemoryType>(), Ok(MemoryType::Entity));
    assert_eq!("notes".parse::<MemoryType>(), Ok(MemoryType::Custom("notes".to_string())));
}
