use policy_engine::parser::PolicyFormat;

#[test]
fn test_format_detection() {
    assert_eq!(PolicyFormat::detect(r#"{"id": "test"}"#), PolicyFormat::Json);
    assert_eq!(PolicyFormat::detect("id: test"), PolicyFormat::Yaml);
}

#[test]
fn detection_skips_leading_white_space() {
    assert_eq!(PolicyFormat::detect("  \n\t{}"), PolicyFormat::Json);
    assert_eq!(PolicyFormat::detect(""), PolicyFormat::Yaml);
    assert_eq!(PolicyFormat::detect("   "), PolicyFormat::Yaml);
}

#[test]
fn format_from_extension() {
    assert_eq!(PolicyFormat::from_extension("a.yaml"), Some(PolicyFormat::Yaml));
    assert_eq!(PolicyFormat::from_extension("a.yml"), Some(PolicyFormat::Yaml));
    assert_eq!(PolicyFormat::from_extension("dir/a.json"), Some(PolicyFormat::Json));
    assert_eq!(PolicyFormat::from_extension("a.txt"), None);
    assert_eq!(PolicyFormat::from_extension("json"), None);
}

#[test]
fn documents_are_split_at_separator_lines() {
    let text = "\nid: policy1\nname: Policy 1\n---\nid: policy2\n---\n\n---\n";
    let docs = policy_engine::parser::split_documents(text);
    assert_eq!(docs, vec!["id: policy1\nname: Policy 1".to_string(), "id: policy2".to_string()]);
}

#[test]
fn separator_must_be_a_whole_line() {
    let docs = policy_engine::parser::split_documents("a: x---y\r\n---\r\nb: 1");
    assert_eq!(docs, vec!["a: x---y".to_string(), "b: 1".to_string()]);
    assert!(policy_engine::parser::split_documents("  \n--- \n").len() == 1);
    assert!(policy_engine::parser::split_documents("").is_empty());
}

#[test]
fn test_parse_multiple() {
    let yaml = r#"
id: policy1
version: "1.0.0"
name: Policy 1
rules: []
---
id: policy2
version: "1.0.0"
name: Policy 2
rules: []
"#;
    let documents = policy_engine::parser::split_documents(yaml);
    assert_eq!(documents.len(), 2);
}
