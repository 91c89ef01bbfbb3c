use mivi::prefix::HybridStateSnapshot;
use mivi::semantic::{SemanticAnchorCache, SemanticAnchorType};

#[test]
fn test_semantic_anchor_cache_insert_and_find() {
    let mut cache = SemanticAnchorCache::new(8);
    let snapshot1: HybridStateSnapshot<f32> = HybridStateSnapshot::new(10, 0, vec![], vec![], vec![], vec![]);
    let snapshot2: HybridStateSnapshot<f32> = HybridStateSnapshot::new(25, 0, vec![], vec![], vec![], vec![]);
    cache.insert_anchor(SemanticAnchorType::ThinkingStart, 10, &[1, 2, 3, 4, 5, 6, 7, 8, 9, 10], snapshot1);
    let prefix2: Vec<u32> = (1..=25).collect();
    cache.insert_anchor(SemanticAnchorType::ToolCallStart, 25, &prefix2, snapshot2);
    let query_tokens: Vec<u32> = (1..=30).collect();
    let (matched_pos, matched_anchor) = cache.find_deepest_anchor(&query_tokens).unwrap();
    assert_eq!(matched_pos, 25);
    assert_eq!(matched_anchor.anchor_type, SemanticAnchorType::ToolCallStart);
}

#[test]
fn semantic_anchor_budget_and_replacement() {
    let mut cache: SemanticAnchorCache<f32> = SemanticAnchorCache::new(1);
    assert_eq!(cache.max_anchors, 4);
    for p in 1..=5usize {
        let prefix: Vec<u32> = (0..p as u32).collect();
        cache.insert_anchor(SemanticAnchorType::TurnUser, p, &prefix, HybridStateSnapshot::new(p, 0, vec![], vec![], vec![], vec![]));
    }
    assert_eq!(cache.len(), 4);
    assert_eq!(cache.anchors[0].token_pos, 2);
    cache.insert_anchor(SemanticAnchorType::TurnSystem, 3, &[0, 1, 2], HybridStateSnapshot::new(3, 0, vec![], vec![], vec![], vec![]));
    assert_eq!(cache.len(), 4);
    assert_eq!(cache.anchors[1].anchor_type, SemanticAnchorType::TurnSystem);
    assert!(cache.find_deepest_anchor(&[9, 9]).is_none());
    cache.clear();
    assert!(cache.is_empty());
}
