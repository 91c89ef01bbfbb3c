use mivi::grammar::{JsonGrammar, TokenBitMask, ToolCallGrammar};

#[test]
fn test_json_grammar_validation() {
    let mut grammar = JsonGrammar::new();
    assert!(grammar.feed("{\"name\":"));
    assert!(grammar.feed("\"Mivi\","));
    assert!(grammar.feed("\"version\":4}"));
    assert!(grammar.completed);
    assert!(!grammar.has_error);
}

#[test]
fn test_json_grammar_rejects_malformed_syntax() {
    let mut grammar = JsonGrammar::new();
    assert!(grammar.feed("{\"name\":"));
    assert!(!grammar.feed("}"));
}

#[test]
fn test_json_grammar_floating_point_numbers() {
    let mut grammar = JsonGrammar::new();
    assert!(grammar.feed("{\"pi\":3.14159,\"rate\":-0.05,\"exp\":1e-4}"));
    assert!(grammar.completed);
    assert!(!grammar.has_error);
}

#[test]
fn test_tool_call_grammar_roundtrip() {
    let mut grammar = ToolCallGrammar::new();
    assert!(grammar.feed("<tool_call>"));
    assert!(grammar.feed("{\"name\":\"calc\",\"args\":{\"x\":42}}"));
    assert!(grammar.feed("</tool_call>"));
    assert!(grammar.completed);
}

#[test]
fn test_token_bitmask_allow_disallow_apply() {
    let mut mask = TokenBitMask::allow_none();
    mask.allow(0);
    mask.allow(10);
    mask.allow(100);

    assert!(mask.is_allowed(0));
    assert!(mask.is_allowed(10));
    assert!(mask.is_allowed(100));
    assert!(!mask.is_allowed(1));
    assert!(!mask.is_allowed(99));

    let mut logits = vec![0.0f32; 128];
    mask.apply_to_logits(&mut logits, f32::NEG_INFINITY);

    assert_eq!(logits[0], 0.0);
    assert_eq!(logits[10], 0.0);
    assert_eq!(logits[100], 0.0);
    assert_eq!(logits[1], f32::NEG_INFINITY);
    assert_eq!(logits[99], f32::NEG_INFINITY);
}

#[test]
fn token_bitmask_disallow_and_limit() {
    let mut mask = TokenBitMask::allow_none();
    mask.allow(10);
    mask.disallow(10);
    assert!(!mask.is_allowed(10));
    assert!(!mask.is_allowed(262144));
    let all = TokenBitMask::allow_all();
    assert!(all.is_allowed(262143));
    assert!(!all.is_allowed(262144));
    // Entries past the mask's range are left as they are.
    let none = TokenBitMask::allow_none();
    let mut logits = vec![1.5f32; 262146];
    none.apply_to_logits(&mut logits, -1.0);
    assert_eq!(logits[0], -1.0);
    assert_eq!(logits[262143], -1.0);
    assert_eq!(logits[262144], 1.5);
    assert_eq!(logits[262145], 1.5);
}

#[test]
fn json_chunking_does_not_change_the_verdict() {
    let mut whole = JsonGrammar::new();
    assert!(whole.feed("[1, {\"a\": [true, null]}]"));
    let mut parts = JsonGrammar::new();
    for piece in ["[1, ", "{\"a\"", ": [tr", "ue, null]}", "]"] {
        assert!(parts.feed(piece));
    }
    assert_eq!(whole.completed, parts.completed);
    assert_eq!(whole.stack_depth, parts.stack_depth);
    assert!(whole.completed);
}

#[test]
fn json_grammar_rejects_after_completion_and_escapes_in_strings() {
    let mut g = JsonGrammar::new();
    assert!(g.feed("{\"q\":\"a\\\"}b\"}"));
    assert!(g.completed);
    assert!(!g.feed(" "));
    let mut bad = JsonGrammar::new();
    assert!(!bad.feed("{]"));
    assert!(bad.has_error);
    assert!(!bad.feed("{"));
}

#[test]
fn json_can_accept_leaves_state_unchanged() {
    let g = JsonGrammar::new();
    assert!(g.can_accept("{\"k\""));
    assert!(!g.can_accept("}"));
    assert!(!g.can_accept(""));
    assert_eq!(g.stack_depth, 0);
    assert!(!g.started);
}

#[test]
fn json_compute_mask_allows_only_acceptable_tokens() {
    let g = JsonGrammar::new();
    let vocab: Vec<String> = vec!["{".to_string(), "}".to_string(), "".to_string(), "[1".to_string(), "x".to_string()];
    let mask = g.compute_mask(&vocab);
    assert!(mask.is_allowed(0));
    assert!(!mask.is_allowed(1));
    assert!(!mask.is_allowed(2));
    assert!(mask.is_allowed(3));
    assert!(!mask.is_allowed(4));
}

#[test]
fn tool_call_grammar_phases() {
    let mut g = ToolCallGrammar::new();
    assert!(g.can_accept("<tool"));
    assert!(!g.can_accept("{"));
    assert!(g.feed("<tool"));
    assert_eq!(g.prefix_pos, 5);
    assert!(g.feed("_call>{\"a\":1}"));
    assert!(g.json.completed);
    assert!(g.can_accept("</tool"));
    assert!(!g.can_accept("x"));
    assert!(g.feed("</tool_call>"));
    assert!(g.completed);
    assert!(!g.feed("x"));
    let vocab: Vec<String> = vec!["<tool_call>".to_string(), "{".to_string()];
    let fresh = ToolCallGrammar::new();
    let mask = fresh.compute_mask(&vocab);
    assert!(mask.is_allowed(0));
    assert!(!mask.is_allowed(1));
}

#[test]
fn tool_call_in_one_chunk_is_accepted() {
    let mut g = ToolCallGrammar::new();
    assert!(g.feed(r#"<tool_call>{"a":1}</tool_call>"#));
    assert!(g.completed);

    let mut g = ToolCallGrammar::new();
    assert!(g.feed("<tool_call>"));
    assert!(g.feed("{\"a\":[1,2]} </tool"));
    assert!(!g.completed);
    assert!(g.feed("_call>"));
    assert!(g.completed);

    let mut g = ToolCallGrammar::new();
    assert!(!g.feed(r#"<tool_call>{"a":1}x"#));

    let mut g = ToolCallGrammar::new();
    assert!(g.feed("<tool_call>{\"a\":"));
    assert!(g.can_accept("1}</tool_call>"));
    assert!(!g.can_accept("1}oops"));
}
