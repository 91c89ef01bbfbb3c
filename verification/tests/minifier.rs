use mivi::minifier::output::minify_json_payload;
use mivi::minifier::code::{minify_python_code, minify_rust_code, minify_source, minify_typescript_code, Language};
use mivi::minifier::output::{minify_git_diff, minify_test_output};

#[test]
fn test_minify_rust_code_extracts_signatures() {
    let code = r#"
use std::collections::HashMap;

pub struct Config {
    pub name: String,
    pub port: u16,
}

impl Config {
    pub fn new(name: String, port: u16) -> Self {
        let validated_port = port.max(1);
        Self { name, port: validated_port }
    }

    pub fn is_valid(&self) -> bool {
        self.port > 0
    }
}
"#;
    let minified = minify_rust_code(code);
    assert!(minified.contains("use std::collections::HashMap;"));
    assert!(minified.contains("pub struct Config"));
    assert!(minified.contains("pub fn new(name: String, port: u16) -> Self { /* ... */ }"));
    assert!(minified.contains("pub fn is_valid(&self) -> bool { /* ... */ }"));
    assert!(!minified.contains("let validated_port"));
}

#[test]
fn test_minify_python_code_extracts_signatures() {
    let code = r#"
import os

class ModelLoader:
    def __init__(self, path: str):
        self.path = path
        self.load_weights()

    def load_weights(self) -> bool:
        weights = os.listdir(self.path)
        return len(weights) > 0
"#;
    let minified = minify_python_code(code);
    assert!(minified.contains("import os"));
    assert!(minified.contains("class ModelLoader:"));
    assert!(minified.contains("def __init__(self, path: str):"));
    assert!(minified.contains("pass"));
    assert!(!minified.contains("os.listdir"));
}

#[test]
fn test_minify_test_output_suppresses_passing_tests() {
    let raw = r#"
   Compiling mivi-core v0.2.11
   Compiling mivi-model v0.2.11
    Finished `test` profile in 1.2s
     Running unittests src/lib.rs

running 4 tests
test math::tests::test_rms_norm ... ok
test math::tests::test_silu ... ok
test math::tests::test_softmax ... ok
test cache::tests::test_overflow ... FAILED

failures:

---- cache::tests::test_overflow stdout ----
thread 'cache::tests::test_overflow' panicked at src/cache.rs:42:
assertion failed: capacity == 64

failures:
    cache::tests::test_overflow

test result: FAILED. 3 passed; 1 failed; 0 ignored; 0 measured; 0 filtered out
"#;
    let minified = minify_test_output(raw);
    assert!(!minified.contains("test math::tests::test_rms_norm ... ok"));
    assert!(!minified.contains("Compiling mivi-core"));
    assert!(minified.contains("test cache::tests::test_overflow ... FAILED"));
    assert!(minified.contains("assertion failed: capacity == 64"));
    assert!(minified.contains("test result: FAILED. 3 passed; 1 failed"));
}

#[test]
fn minify_rust_exact_output() {
    let code = "use a::b;\nfn f() {\n    let x = 1;\n}\nstruct S;\n";
    assert_eq!(minify_rust_code(code), "use a::b;\nfn f() { /* ... */ }\nstruct S;\n");
    assert_eq!(minify_source(code, Language::Rust), minify_rust_code(code));
}

#[test]
fn minify_python_pass_indentation() {
    let code = "def f(x):\n    return x\n";
    assert_eq!(minify_python_code(code), "def f(x):\n    pass\n");
    let nested = "class A:\n  def g(self):\n    y = 1\nz = 2\n";
    assert_eq!(minify_python_code(nested), "class A:\n  def g(self):\n      pass\nz = 2\n");
}

#[test]
fn minify_typescript_arrow_functions() {
    let code = "import x from 'y';\nconst f = (a) => {\n  return a;\n};\nlet k = 1;\n";
    assert_eq!(minify_typescript_code(code), "import x from 'y';\nconst f = (a) => { /* ... */ }\nlet k = 1;\n");
}

#[test]
fn minify_handles_crlf_line_endings() {
    assert_eq!(minify_rust_code("use a;\r\nfn g() {}\r\n"), "use a;\nfn g() { /* ... */ }\n");
}

#[test]
fn language_from_extension_is_case_insensitive() {
    assert_eq!(Language::from_extension("RS"), Some(Language::Rust));
    assert_eq!(Language::from_extension("py"), Some(Language::Python));
    assert_eq!(Language::from_extension("Tsx"), Some(Language::TypeScript));
    assert_eq!(Language::from_extension("jsx"), Some(Language::TypeScript));
    assert_eq!(Language::from_extension("md"), None);
}

#[test]
fn git_diff_collapses_long_context_runs() {
    let diff = "@@ -1,5 +1,5 @@\n a\n b\n c\n d\n-old\n+new\n e\n";
    assert_eq!(
        minify_git_diff(diff),
        "@@ -1,5 +1,5 @@\n a\n b\n  [... context collapsed ...]\n-old\n+new\n e\n"
    );
}

#[test]
fn test_minify_json_payload_large_array() {
    let items: Vec<String> = (0..100).map(|i| format!("{{\"id\":{},\"name\":\"item_{}\"}}", i, i)).collect();
    let raw = format!("[{}]", items.join(","));

    let minified = minify_json_payload(&raw, 3);
    assert!(minified.contains("_total_count\": 100"));
    assert!(minified.contains("Showing first 3 of 100 items"));
    assert!(minified.contains("item_2"));
    assert!(!minified.contains("item_3\""));
}

#[test]
fn json_payload_left_alone_when_small_or_not_an_array() {
    assert_eq!(minify_json_payload("[1,2,3]", 3), "[1,2,3]");
    assert_eq!(minify_json_payload("{\"a\":[1,2,3,4]}", 1), "{\"a\":[1,2,3,4]}");
    assert_eq!(minify_json_payload("not json", 0), "not json");
}

#[test]
fn git_diff_minified_twice_is_minified_once() {
    let raw = "@@ -1,9 +1,9 @@\n a\n b\n c\n d\n e\n-old\n+new\n f\n g\n h\n";
    let once = minify_git_diff(raw);
    assert_eq!(
        once,
        "@@ -1,9 +1,9 @@\n a\n b\n  [... context collapsed ...]\n-old\n+new\n f\n g\n  [... context collapsed ...]\n"
    );
    assert_eq!(minify_git_diff(&once), once);
}

#[test]
fn json_payload_summary_keeps_numbers_as_read() {
    let raw = "[0.1, 123456789012345680000, -7, 18446744073709551615, 2.5e-8, 1]";
    let out = minify_json_payload(raw, 5);
    let v: serde_json::Value = serde_json::from_str(raw).unwrap();
    let sample: Vec<serde_json::Value> = v.as_array().unwrap().iter().take(5).cloned().collect();
    let mut m = serde_json::Map::new();
    m.insert("_total_count".to_string(), serde_json::Value::from(6usize));
    m.insert("_truncated_sample".to_string(), serde_json::Value::Array(sample));
    m.insert("_note".to_string(), serde_json::Value::from("Showing first 5 of 6 items"));
    let expected = serde_json::to_string_pretty(&serde_json::Value::Object(m)).unwrap();
    assert_eq!(out, expected);
}
