use mivi::pld::{PromptLookupProposer, ReasoningSpecRouter, SpeculativeMode, TreePldProposer, TreeVerifier};

#[test]
fn test_tree_pld_proposer_deep_chain_mode() {
    let proposer = TreePldProposer::new(3, 3, 5);
    let tokens = vec![10, 20, 30, 40, 50, 60, 70, 80, 999, 10, 20, 30];
    let candidate = proposer.propose_tree(&tokens, SpeculativeMode::DeepChain);
    assert!(candidate.is_some());
    let c = candidate.unwrap();
    assert_eq!(c.mode, SpeculativeMode::DeepChain);
    assert_eq!(c.primary(), &[40, 50, 60, 70, 80]);
    assert_eq!(c.secondary_len, 0);
}

#[test]
fn test_tree_pld_proposer_multi_branch_mode() {
    let proposer = TreePldProposer::new(3, 3, 5);
    let tokens = vec![10, 20, 30, 111, 222, 999, 10, 20, 30, 40, 50, 60, 999, 10, 20, 30];
    let candidate = proposer.propose_tree(&tokens, SpeculativeMode::MultiBranchTree);
    assert!(candidate.is_some());
    let c = candidate.unwrap();
    assert_eq!(c.mode, SpeculativeMode::MultiBranchTree);
    assert_eq!(c.primary(), &[40, 50, 60]);
    assert_eq!(c.secondary(), &[111, 222, 999]);
}

#[test]
fn test_reasoning_router_detects_think_tag() {
    let text_inside_think = "Hello <think> let me solve 4+4 step 1:";
    let mode = ReasoningSpecRouter::detect_mode_from_text(text_inside_think);
    assert_eq!(mode, SpeculativeMode::DeepChain);
    let text_after_think = "Hello <think> 4+4=8 </think> The answer is 8.";
    let mode = ReasoningSpecRouter::detect_mode_from_text(text_after_think);
    assert_eq!(mode, SpeculativeMode::MultiBranchTree);
}

#[test]
fn test_tree_verifier_acceptance() {
    let candidate = [10, 20, 30, 40, 50];
    let verified = [10, 20, 30, 99];
    let accepted = TreeVerifier::verify_branch(&candidate, &verified);
    assert_eq!(accepted, 3);
}

#[test]
fn pld_no_match_gives_none() {
    let proposer = TreePldProposer::new(3, 3, 5);
    let tokens = vec![1, 2, 3, 4, 5, 6];
    assert!(proposer.propose_tree(&tokens, SpeculativeMode::DeepChain).is_none());
    let simple = PromptLookupProposer::new(2, 2);
    assert_eq!(simple.propose(&[7, 8, 9, 7, 8]), Some(vec![9]));
}
