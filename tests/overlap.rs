use recommender::{overlap_counts, shared_tags_reason, word_overlap, Overlap};

fn strings(v: &[&str]) -> Vec<String> {
    v.iter().map(|s| s.to_string()).collect()
}

#[test]
fn overlap_counts_each_tag_once() {
    let a = strings(&["rust", "verus", "proof", "rust"]);
    let b = strings(&["verus", "proof", "math"]);
    let o = overlap_counts(&a, &b);
    assert_eq!(o, Overlap { common: 2, first_only: 1, second_only: 1 });
}

#[test]
fn shared_tags_scenario() {
    let current = strings(&["x", "y", "z"]);
    let candidate = strings(&["y", "z", "w"]);
    let o = overlap_counts(&current, &candidate);
    assert_eq!(o.common, 2);
    let score = o.common as f64 * 0.2;
    assert!((score - 0.4).abs() < 1e-9);
    assert_eq!(shared_tags_reason(o.common), "Shared tags: 2");
}

#[test]
fn overlap_of_empty_lists() {
    let o = overlap_counts(&Vec::new(), &strings(&["a"]));
    assert_eq!(o, Overlap { common: 0, first_only: 0, second_only: 1 });
}

#[test]
fn same_text_overlaps_fully() {
    let o = word_overlap("deep work notes", "notes deep work");
    assert_eq!(o, Overlap { common: 3, first_only: 0, second_only: 0 });
    assert_eq!(o.jaccard(), (3, 3));
}

#[test]
fn empty_text_has_zero_similarity() {
    let o = word_overlap("", "some words");
    assert_eq!(o.common, 0);
    assert_eq!(o.jaccard(), (0, 2));
    let none = word_overlap("", "");
    assert_eq!(none.jaccard(), (0, 1));
}

#[test]
fn words_split_on_any_whitespace() {
    let o = word_overlap("alpha  beta\tgamma\n", "beta delta");
    assert_eq!(o, Overlap { common: 1, first_only: 2, second_only: 1 });
    assert_eq!(o.jaccard(), (1, 4));
}

#[test]
fn words_are_case_sensitive() {
    let o = word_overlap("Rust", "rust");
    assert_eq!(o, Overlap { common: 0, first_only: 1, second_only: 1 });
}
