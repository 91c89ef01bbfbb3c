use mivi::stop::{cut_pending, longest_stop_prefix_len, matches_any_stop_suffix, strip_stop_suffixes};

fn stops(v: &[&str]) -> Vec<String> {
    v.iter().map(|s| s.to_string()).collect()
}

#[test]
fn stop_suffix_reports_the_first_matching_sequence() {
    let st = stops(&["", "<|end|>", "end|>"]);
    assert_eq!(matches_any_stop_suffix("hello<|end|>", &st), Some(7));
    assert_eq!(matches_any_stop_suffix("hello end|>", &st), Some(5));
    assert_eq!(matches_any_stop_suffix("hello", &st), None);
    assert_eq!(matches_any_stop_suffix("héllo</s>", &stops(&["</s>"])), Some(4));
}

#[test]
fn hold_back_is_the_longest_proper_prefix_at_the_end() {
    let st = stops(&["<|im_end|>", "</s>"]);
    assert_eq!(longest_stop_prefix_len("answer <|im", &st), 4);
    assert_eq!(longest_stop_prefix_len("answer </", &st), 2);
    assert_eq!(longest_stop_prefix_len("answer", &st), 0);
    // A full stop sequence is not a proper prefix of itself.
    assert_eq!(longest_stop_prefix_len("x</s>", &stops(&["</s>"])), 0);
    assert_eq!(longest_stop_prefix_len("<", &st), 1);
}

#[test]
fn strip_removes_each_sequence_in_turn() {
    let st = stops(&["</s>", "<|end|>"]);
    assert_eq!(strip_stop_suffixes("done</s><|end|>", &st), "done</s>");
    assert_eq!(strip_stop_suffixes("done<|end|></s>", &st), "done");
    assert_eq!(strip_stop_suffixes("done", &st), "done");
}

#[test]
fn cut_pending_emits_holds_and_stops() {
    let st = stops(&["<|im_end|>"]);
    let c = cut_pending("Hello <|im", &st);
    assert_eq!(c.emit, "Hello ");
    assert_eq!(c.keep, "<|im");
    assert!(!c.stop);

    let c = cut_pending("Bye<|im_end|>", &st);
    assert_eq!(c.emit, "Bye");
    assert_eq!(c.keep, "");
    assert!(c.stop);

    let c = cut_pending("plain text", &st);
    assert_eq!(c.emit, "plain text");
    assert_eq!(c.keep, "");
    assert!(!c.stop);
}

#[test]
fn non_ascii_stop_sequences_are_held_back_by_whole_characters() {
    let st = stops(&["«end»"]);
    // "«e" is a proper prefix of the stop sequence: 2 characters, 3 bytes.
    assert_eq!(longest_stop_prefix_len("answer «e", &st), 3);
    assert_eq!(longest_stop_prefix_len("answer «", &st), 2);
    assert_eq!(longest_stop_prefix_len("answer", &st), 0);
    let c = cut_pending("answer «en", &st);
    assert_eq!(c.emit, "answer ");
    assert_eq!(c.keep, "«en");
    assert!(!c.stop);
    let c = cut_pending("done«end»", &st);
    assert_eq!(c.emit, "done");
    assert!(c.stop);
}
