use mivi::prefix::{compute_chunk_hash, HybridStateSnapshot, PrefixCache};

fn snapshot(pos: usize, k: Vec<f32>, v: Vec<f32>, conv: Vec<f32>, hidden: Vec<f32>) -> HybridStateSnapshot<f32> {
    HybridStateSnapshot::new(pos, 0, k, v, conv, hidden)
}

#[test]
fn test_chunk_hash_determinism_and_chaining() {
    let chunk_a: Vec<u32> = (0..64).collect();
    let chunk_b: Vec<u32> = (64..128).collect();
    let h0_a = compute_chunk_hash(0, &chunk_a);
    let h0_a_repeat = compute_chunk_hash(0, &chunk_a);
    assert_eq!(h0_a, h0_a_repeat);
    let h1_b = compute_chunk_hash(h0_a, &chunk_b);
    assert_ne!(h0_a, h1_b);
    let h1_b_different_prev = compute_chunk_hash(42, &chunk_b);
    assert_ne!(h1_b, h1_b_different_prev);
}

#[test]
fn chunk_hash_of_nothing_is_the_offset_basis() {
    assert_eq!(compute_chunk_hash(0, &[]), 0xCBF29CE484222325);
    assert_eq!(compute_chunk_hash(1, &[]), 1 ^ 0x9E3779B97F4A7C15);
    let one = compute_chunk_hash(0, &[1]);
    let mut h: u64 = 0xCBF29CE484222325;
    for b in 1u32.to_le_bytes() {
        h ^= b as u64;
        h = h.wrapping_mul(0x00000100000001B3);
    }
    assert_eq!(one, h);
}

#[test]
fn test_prefix_cache_insert_and_lookup() {
    let mut cache = PrefixCache::new(10, 64);
    let chunk_0: Vec<u32> = (0..64).collect();
    let chunk_1: Vec<u32> = (64..128).collect();
    let state_0 = snapshot(64, vec![1.0; 64 * 8], vec![2.0; 64 * 8], vec![0.5; 16], vec![]);
    let state_1 = snapshot(128, vec![1.5; 128 * 8], vec![2.5; 128 * 8], vec![0.7; 16], vec![]);
    let h0 = cache.insert_chunk(0, &chunk_0, 0, state_0);
    let _h1 = cache.insert_chunk(h0, &chunk_1, 1, state_1);
    assert_eq!(cache.len(), 2);

    let mut full_prompt = Vec::new();
    full_prompt.extend_from_slice(&chunk_0);
    full_prompt.extend_from_slice(&chunk_1);
    full_prompt.extend_from_slice(&[999, 1000, 1001]);
    let lookup = cache.find_longest_prefix(&full_prompt);
    assert!(lookup.is_some());
    let (matched_len, chunk) = lookup.unwrap();
    assert_eq!(matched_len, 128);
    assert_eq!(chunk.chunk_index, 1);
    assert_eq!(chunk.state.pos, 128);

    let mut partial_prompt = Vec::new();
    partial_prompt.extend_from_slice(&chunk_0);
    partial_prompt.extend_from_slice(&[500; 64]);
    let partial_lookup = cache.find_longest_prefix(&partial_prompt);
    assert!(partial_lookup.is_some());
    let (matched_len_partial, chunk_partial) = partial_lookup.unwrap();
    assert_eq!(matched_len_partial, 64);
    assert_eq!(chunk_partial.chunk_index, 0);
}

#[test]
fn test_prefix_cache_lru_eviction() {
    let mut cache = PrefixCache::new(2, 64);
    let c0: Vec<u32> = vec![1; 64];
    let c1: Vec<u32> = vec![2; 64];
    let c2: Vec<u32> = vec![3; 64];
    let state = snapshot(64, vec![], vec![], vec![], vec![]);
    let _h0 = cache.insert_chunk(0, &c0, 0, state.clone());
    let _h1 = cache.insert_chunk(0, &c1, 0, state.clone());
    assert_eq!(cache.len(), 2);
    let _h2 = cache.insert_chunk(0, &c2, 0, state);
    assert_eq!(cache.len(), 2);
    assert!(cache.find_longest_prefix(&c0).is_none());
    assert!(cache.find_longest_prefix(&c2).is_some());
}

#[test]
fn test_suffix_match_finds_cached_chunk() {
    let mut cache = PrefixCache::new(2, 64);
    let chunk_tokens: Vec<u32> = (0..64).collect();
    let state = snapshot(64, vec![], vec![], vec![], vec![]);
    let hash = cache.insert_chunk(0, &chunk_tokens, 0, state.clone());
    assert_eq!(cache.len(), 1);
    let history: Vec<u32> = (100..164).collect();
    let step2: Vec<u32> = history.iter().chain(chunk_tokens.iter()).cloned().collect();
    let result = cache.find_longest_suffix_match(64, &step2);
    assert!(result.is_some(), "Should find suffix match");
    let (skip, pos, matched) = result.unwrap();
    assert_eq!(skip, 64);
    assert_eq!(pos, 64);
    assert_eq!(matched.hash, hash);
}

#[test]
fn test_suffix_match_no_match_on_different_content() {
    let mut cache = PrefixCache::new(2, 64);
    let chunk_tokens: Vec<u32> = (0..64).collect();
    let state = snapshot(64, vec![], vec![], vec![], vec![]);
    cache.insert_chunk(0, &chunk_tokens, 0, state);
    let different: Vec<u32> = (200..264).collect();
    let history: Vec<u32> = (100..164).collect();
    let step2: Vec<u32> = history.iter().chain(different.iter()).cloned().collect();
    let result = cache.find_longest_suffix_match(64, &step2);
    assert!(result.is_none(), "No match when content differs");
}

#[test]
fn test_suffix_match_returns_correct_chunk() {
    let mut cache = PrefixCache::new(5, 64);
    let chunk0: Vec<u32> = (0..64).collect();
    let chunk1: Vec<u32> = (1000..1064).collect();
    let state0 = snapshot(64, vec![], vec![], vec![], vec![]);
    let state1 = snapshot(128, vec![], vec![], vec![], vec![]);
    let _h0 = cache.insert_chunk(0, &chunk0, 0, state0);
    let hash2 = cache.insert_chunk(0, &chunk1, 0, state1);
    let history: Vec<u32> = (500..564).collect();
    let step2: Vec<u32> = history.iter().chain(chunk1.iter()).cloned().collect();
    let result = cache.find_longest_suffix_match(64, &step2);
    assert!(result.is_some());
    let (_, _, matched) = result.unwrap();
    assert_eq!(matched.hash, hash2);
}

#[test]
fn prefix_cache_memory_budget_is_enforced() {
    let header = std::mem::size_of::<HybridStateSnapshot<f32>>();
    let per = 100 * 4 + header;
    let mut cache = PrefixCache::with_budget(10, 4, 2 * per);
    for i in 0..5u32 {
        let s = snapshot(4, vec![0.0; 100], vec![], vec![], vec![]);
        cache.insert_chunk(0, &[i, i, i, i], 0, s);
        assert!(cache.memory_usage_bytes() <= 2 * per);
    }
    assert_eq!(cache.len(), 2);
    assert_eq!(cache.memory_usage_bytes(), 2 * per);
    assert_eq!(cache.prune_to_bytes(per), 1);
    assert_eq!(cache.len(), 1);
    cache.clear();
    assert!(cache.is_empty());
    assert_eq!(cache.memory_usage_bytes(), 0);
}

#[test]
fn prefix_cache_lookup_refreshes_recency() {
    let mut cache = PrefixCache::new(2, 2);
    let s = snapshot(2, vec![], vec![], vec![], vec![]);
    cache.insert_chunk(0, &[1, 1], 0, s.clone());
    cache.insert_chunk(0, &[2, 2], 0, s.clone());
    assert!(cache.find_longest_prefix(&[1, 1]).is_some());
    cache.insert_chunk(0, &[3, 3], 0, s);
    assert!(cache.find_longest_prefix(&[1, 1]).is_some());
    assert!(cache.find_longest_prefix(&[2, 2]).is_none());
}
