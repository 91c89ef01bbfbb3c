use mivi::schema::{compact_json_schema, compact_json_schema_str, JsonNode, MAX_SCHEMA_COMPACT_DEPTH};

#[test]
fn test_compact_json_schema_strips_descriptions_and_whitespace() {
    let schema_json = r#"{
        "title": "CalculatorParameters",
        "description": "Calculates math operations",
        "type": "object",
        "properties": {
            "operation": {
                "type": "string",
                "description": "The math operation to perform (add, subtract, etc.)",
                "enum": ["add", "sub", "mul", "div"]
            },
            "operands": {
                "type": "array",
                "description": "The list of numbers to compute",
                "items": {
                    "type": "number",
                    "description": "A single float operand"
                }
            }
        },
        "required": ["operation", "operands"]
    }"#;

    let compacted = compact_json_schema_str(schema_json);
    assert!(!compacted.contains("description"));
    assert!(!compacted.contains("Calculates math operations"));
    assert!(!compacted.contains("The math operation to perform"));
    assert!(!compacted.contains("title"));
    assert!(compacted.contains("\"type\":\"object\""));
    assert!(compacted.contains("\"required\":[\"operation\",\"operands\"]"));
    assert!(compacted.contains("\"enum\":[\"add\",\"sub\",\"mul\",\"div\"]"));
}

#[test]
fn compaction_drops_every_annotation_key_and_keeps_the_rest() {
    let raw = r#"{"$schema":"draft","type":"object","examples":[null],"default":3,
                  "$comment":"x","minimum":1.5,"title":"T"}"#;
    assert_eq!(compact_json_schema_str(raw), "{\"minimum\":1.5,\"type\":\"object\"}");
}

#[test]
fn compaction_reaches_into_arrays_and_keeps_scalars() {
    let raw = r#"{"anyOf":[{"type":"string","description":"a"},{"type":"null","title":"b"}],"x":true}"#;
    assert_eq!(
        compact_json_schema_str(raw),
        r#"{"anyOf":[{"type":"string"},{"type":"null"}],"x":true}"#
    );
    assert_eq!(compact_json_schema_str("\"description\""), "\"description\"");
    assert_eq!(compact_json_schema_str(" [1, 2.5, -3] "), "[1,2.5,-3]");
}

#[test]
fn compaction_stops_at_the_depth_limit() {
    // An object nested exactly at the limit keeps its annotations.
    let deep = format!(
        "{}{{\"description\":\"deep\"}}{}",
        "[".repeat(MAX_SCHEMA_COMPACT_DEPTH),
        "]".repeat(MAX_SCHEMA_COMPACT_DEPTH)
    );
    assert!(compact_json_schema_str(&deep).contains("\"description\":\"deep\""));

    let shallow = format!(
        "{}{{\"description\":\"deep\"}}{}",
        "[".repeat(MAX_SCHEMA_COMPACT_DEPTH - 1),
        "]".repeat(MAX_SCHEMA_COMPACT_DEPTH - 1)
    );
    assert!(!compact_json_schema_str(&shallow).contains("description"));
}

#[test]
fn compaction_of_a_node_keeps_member_order() {
    let s = |x: &str| x.to_string();
    let node = JsonNode::Object(vec![
        (s("type"), JsonNode::Str(s("object"))),
        (s("title"), JsonNode::Str(s("T"))),
        (s("additionalProperties"), JsonNode::Bool(false)),
    ]);
    match compact_json_schema(node) {
        JsonNode::Object(members) => {
            let keys: Vec<&str> = members.iter().map(|(k, _)| k.as_str()).collect();
            assert_eq!(keys, vec!["type", "additionalProperties"]);
        }
        _ => panic!("an object stays an object"),
    }
}

#[test]
fn text_that_is_not_json_is_returned_unchanged() {
    assert_eq!(compact_json_schema_str("not json {"), "not json {");
}

#[test]
fn compaction_keeps_numbers_as_read() {
    let raw = r#"{"minimum":0.30000000000000004,"maximum":1e-7,"n":-12,"big":18446744073709551615}"#;
    let v: serde_json::Value = serde_json::from_str(raw).unwrap();
    assert_eq!(compact_json_schema_str(raw), serde_json::to_string(&v).unwrap());
}
