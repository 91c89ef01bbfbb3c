use mivi::context::{ContextOp, ContextStore, ContextVm};

#[test]
fn test_context_store_eviction() {
    let mut store = ContextStore::with_capacity(2);
    store.add_block("1", "src1", "content 1", true);
    store.add_block("2", "src2", "content 2", false);
    store.add_block("3", "src3", "content 3", false);
    assert_eq!(store.blocks.len(), 2);
    assert!(store.find_block("1").is_some());
    assert!(store.find_block("2").is_none());
    assert!(store.find_block("3").is_some());
}

#[test]
fn test_context_vm_operations() {
    let mut store = ContextStore::new();
    store.add_block("doc1", "rust_intro.md", "Rust is a systems programming language focused on safety and speed.", false);
    let mut vm = ContextVm::new(&mut store);
    let search_res = vm.execute(ContextOp::Search { query: "safety".to_string() });
    assert!(search_res.contains("Found 1"));
    let slice_res = vm.execute(ContextOp::Slice { source: "rust_intro.md".to_string(), start: 0, end: 4 });
    assert!(slice_res.contains("Rust"));
    let slice_offset = vm.execute(ContextOp::Slice { source: "rust_intro.md".to_string(), start: 5, end: 7 });
    assert!(slice_offset.contains("is"));
    let oob_slice = vm.execute(ContextOp::Slice { source: "rust_intro.md".to_string(), start: 9999, end: 10000 });
    assert!(oob_slice.contains("out of bounds"));
    let summarize_res = vm.execute(ContextOp::Summarize { source: "rust_intro.md".to_string() });
    assert!(summarize_res.contains("Summary of 'rust_intro.md'"));
}

#[test]
fn context_vm_exact_replies() {
    let mut store = ContextStore::with_capacity(4);
    store.add_block("a", "notes.md", "One\nTwo\nThree\nFour", false);
    store.add_block("b", "ünï.md", "Grüße", true);
    let mut vm = ContextVm::new(&store);
    assert_eq!(
        vm.execute(ContextOp::Summarize { source: "notes.md".to_string() }),
        "Summary of 'notes.md' (18 chars):\nOne\nTwo\nThree..."
    );
    assert_eq!(
        vm.execute(ContextOp::Slice { source: "a".to_string(), start: 4, end: 100 }),
        "Slice [4..100] from 'a':\nTwo\nThree\nFour"
    );
    assert_eq!(
        vm.execute(ContextOp::Slice { source: "a".to_string(), start: 18, end: 20 }),
        "Slice error: start index 18 out of bounds (total chars: 18) for 'a'"
    );
    assert_eq!(
        vm.execute(ContextOp::Search { query: "GRÜSSE".to_string() }),
        "No matching context blocks found for query 'GRÜSSE'"
    );
    assert_eq!(
        vm.execute(ContextOp::Search { query: "TWO".to_string() }),
        "Found 1 relevant context blocks:\n- [a] (source: notes.md): One\nTwo\nThree\nFour...\n"
    );
    assert_eq!(
        vm.execute(ContextOp::Recurse { task: "t".to_string(), context_ids: vec!["b".to_string(), "zz".to_string(), "a".to_string()] }),
        "Recursive subtask 't' scheduled on 3 blocks (total 25 bytes)."
    );
    assert_eq!(
        vm.execute(ContextOp::Summarize { source: "nope".to_string() }),
        "Context source 'nope' not found in store."
    );
}

#[test]
fn context_store_all_pinned_refuses_unpinned() {
    let mut store = ContextStore::with_capacity(1);
    store.add_block("p", "s", "c", true);
    store.add_block("u", "s2", "c2", false);
    assert_eq!(store.blocks.len(), 1);
    assert_eq!(store.blocks[0].id, "p");
    store.add_block("q", "s3", "c3", true);
    assert_eq!(store.blocks.len(), 1);
    assert_eq!(store.blocks[0].id, "q");
    assert_eq!(store.search("C3").len(), 1);
}
