use mivi::okf::{OkfBundleNavigator, OkfConcept};

#[test]
fn test_parse_okf_concept_with_frontmatter() {
    let doc = r#"---
id: architecture/turboquant
type: algorithm
title: TurboQuant Vector Quantization
trust_tier: verified
status: active
sources: ["arXiv:2504.19874", "Google Research"]
tags: [quantization, sim_search, slm]
---
# TurboQuant Vector Quantization

TurboQuant performs 4-bit data-oblivious vector quantization using Fast Walsh-Hadamard transforms.
See also [[crates/mivi-core]] and [[crates/mivi-kv]].
"#;
    let concept = OkfConcept::parse(doc, "default_id").unwrap();
    assert_eq!(concept.frontmatter.id, "architecture/turboquant");
    assert_eq!(concept.frontmatter.doc_type, "algorithm");
    assert_eq!(concept.title, "TurboQuant Vector Quantization");
    assert_eq!(concept.frontmatter.trust_tier.as_deref(), Some("verified"));
    assert!(concept.is_active());
    assert_eq!(concept.frontmatter.sources.len(), 2);
    assert_eq!(concept.frontmatter.tags.len(), 3);
    assert_eq!(concept.wiki_links, vec!["crates/mivi-core", "crates/mivi-kv"]);
    assert!(concept.body.contains("TurboQuant performs 4-bit"));
}

#[test]
fn test_okf_bundle_navigator_progressive_outline() {
    let mut nav = OkfBundleNavigator::new();
    let concept1 = OkfConcept::parse(
        "---\nid: model/ssm\ntitle: State Space Models\ntype: layer\n---\n# State Space Models\nSSM layers scan in linear time.",
        "model/ssm",
    )
    .unwrap();
    let concept2 = OkfConcept::parse(
        "---\nid: model/attention\ntitle: GQA Attention\ntype: layer\n---\n# GQA Attention\nGQA layers compute KV cache attention.",
        "model/attention",
    )
    .unwrap();
    nav.insert_concept(concept1);
    nav.insert_concept(concept2);
    let outline = nav.get_progressive_outline();
    assert!(outline.contains("Knowledge Bundle Catalog"));
    assert!(outline.contains("State Space Models"));
    assert!(outline.contains("GQA Attention"));
}

#[test]
fn test_parse_okf_concept_with_multiline_yaml_lists() {
    let doc = r#"---
id: algorithms/pld
type: algorithm
title: Prompt Lookup Decoding
sources:
  - "Google Research"
  - "Apoorv Saxena"
tags:
  - speculative_decoding
  - pld
  - latency
---
# Prompt Lookup Decoding
Matches n-grams in the context buffer.
"#;
    let concept = OkfConcept::parse(doc, "default_id").unwrap();
    assert_eq!(concept.frontmatter.id, "algorithms/pld");
    assert_eq!(concept.frontmatter.sources, vec!["Google Research", "Apoorv Saxena"]);
    assert_eq!(concept.frontmatter.tags, vec!["speculative_decoding", "pld", "latency"]);
}

#[test]
fn okf_unclosed_frontmatter_is_an_error() {
    let err = OkfConcept::parse("---\nid: x\nno closing fence", "d").err().unwrap();
    assert_eq!(err, "Malformed OKF document: unclosed YAML frontmatter delimiter '---'");
}

#[test]
fn okf_without_frontmatter_uses_defaults() {
    let c = OkfConcept::parse("Intro line\n## Heading Here\nBody [[ a ]] and [[]] [[b]]", "dflt").unwrap();
    assert_eq!(c.frontmatter.id, "dflt");
    assert_eq!(c.title, "Heading Here");
    assert_eq!(c.frontmatter.title.as_deref(), Some("Heading Here"));
    assert_eq!(c.frontmatter.doc_type, "concept");
    assert_eq!(c.frontmatter.status, "active");
    assert_eq!(c.body, "Intro line\nBody [[ a ]] and [[]] [[b]]");
    assert_eq!(c.wiki_links, vec!["a", "b"]);
}

#[test]
fn okf_inactive_concepts_are_left_out_of_the_outline() {
    let mut nav = OkfBundleNavigator::new();
    let c = OkfConcept::parse("---\nid: old/thing\nstatus: Deprecated\n---\n# Old\nx", "d").unwrap();
    assert!(!c.is_active());
    nav.insert_concept(c);
    let active = OkfConcept::parse("---\nid: root\ntrust: draft\n---\n# Root\ny", "d").unwrap();
    nav.insert_concept(active);
    assert_eq!(
        nav.get_progressive_outline(),
        "# Knowledge Bundle Catalog\n\n- **[Root](root)** (`concept`): draft\n"
    );
    assert_eq!(nav.root_indexes, vec!["root"]);
    assert!(nav.get_concept("old/thing").is_some());
    assert!(nav.get_concept("missing").is_none());
}

#[test]
fn okf_reinserting_an_id_replaces_the_concept() {
    let mut nav = OkfBundleNavigator::new();
    nav.insert_concept(OkfConcept::parse("---\nid: a\ntitle: One\n---\n", "d").unwrap());
    nav.insert_concept(OkfConcept::parse("---\nid: a\ntitle: Two\n---\n", "d").unwrap());
    assert_eq!(nav.concepts.len(), 1);
    assert_eq!(nav.get_concept("a").unwrap().title, "Two");
}
