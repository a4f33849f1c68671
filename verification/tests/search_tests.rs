use flapjack::search::{
    enough_hits, fallback_queries, merge_hit_ids, page_window, search_total, should_retry_with_fewer_words,
    lowest_rank, searched_paths, total_after_hiding, PathRank,
};

fn ids(v: &[&str]) -> Vec<String> {
    v.iter().map(|x| x.to_string()).collect()
}

#[test]
fn merge_keeps_first_place_of_each_document() {
    let mut acc = ids(&["a", "b"]);
    merge_hit_ids(&mut acc, &ids(&["c", "a", "d", "c"]));
    assert_eq!(acc, ids(&["a", "b", "c", "d"]));
}

#[test]
fn merge_into_empty_drops_repeats() {
    let mut acc = Vec::new();
    merge_hit_ids(&mut acc, &ids(&["x", "x", "y"]));
    assert_eq!(acc, ids(&["x", "y"]));
}

#[test]
fn total_of_single_variant_is_its_count() {
    assert_eq!(search_total(&vec![57], 10, 20), 57);
}

#[test]
fn total_of_variants_is_distinct_hits_when_under_limit() {
    assert_eq!(search_total(&vec![5, 7], 9, 20), 9);
}

#[test]
fn total_of_variants_at_limit_is_largest_count() {
    assert_eq!(search_total(&vec![40, 90, 12], 20, 20), 90);
    assert_eq!(search_total(&vec![], 20, 20), 20);
}

#[test]
fn page_window_clamps_to_hits() {
    assert_eq!(page_window(0, 10, 25), (0, 10));
    assert_eq!(page_window(20, 10, 25), (20, 25));
    assert_eq!(page_window(30, 10, 25), (25, 25));
}

#[test]
fn enough_hits_at_page_end() {
    assert!(enough_hits(30, 20, 10));
    assert!(!enough_hits(29, 20, 10));
}

#[test]
fn hidden_hits_lower_the_total() {
    assert_eq!(total_after_hiding(10, &ids(&["a", "z"]), &ids(&["a", "b", "c"])), 9);
    assert_eq!(total_after_hiding(1, &ids(&["a", "b"]), &ids(&["a", "b"])), 0);
    assert_eq!(total_after_hiding(5, &ids(&[]), &ids(&["a"])), 5);
}

#[test]
fn retry_only_when_nothing_found_with_a_strategy() {
    assert!(should_retry_with_fewer_words(0, 0, "lastWords", "red shoes"));
    assert!(!should_retry_with_fewer_words(0, 0, "none", "red shoes"));
    assert!(!should_retry_with_fewer_words(3, 0, "lastWords", "red shoes"));
    assert!(!should_retry_with_fewer_words(0, 0, "lastWords", "   "));
}

#[test]
fn fallback_queries_drop_last_words() {
    assert_eq!(fallback_queries("big red  shoes", "lastWords"), ids(&["big red", "big"]));
}

#[test]
fn fallback_queries_drop_first_words() {
    assert_eq!(fallback_queries(" big red shoes", "firstWords"), ids(&["red shoes", "shoes"]));
}

#[test]
fn fallback_queries_need_two_words_and_a_strategy() {
    assert!(fallback_queries("shoes", "lastWords").is_empty());
    assert!(fallback_queries("big shoes", "allOptional").is_empty());
}

fn ranked(v: &[(&str, PathRank)]) -> Vec<(String, PathRank)> {
    v.iter().map(|(p, r)| (p.to_string(), *r)).collect()
}

#[test]
fn searched_paths_without_attributes_keep_order() {
    let all = ids(&["title", "body", "tags"]);
    assert_eq!(
        searched_paths(&all, None, None),
        ranked(&[("title", PathRank::Even), ("body", PathRank::Even), ("tags", PathRank::Even)])
    );
}

#[test]
fn searched_paths_follow_attribute_rank_then_the_rest() {
    let all = ids(&["body", "tags", "title", "extra"]);
    let attrs = ids(&["title", "body"]);
    assert_eq!(
        searched_paths(&all, Some(&attrs), None),
        ranked(&[
            ("title", PathRank::Rank(0)),
            ("body", PathRank::Rank(1)),
            ("tags", PathRank::Unranked),
            ("extra", PathRank::Unranked),
        ])
    );
}

#[test]
fn searched_paths_restriction_applies_only_when_something_is_listed() {
    let all = ids(&["body", "title"]);
    let attrs = ids(&["title", "body"]);
    let only_body = ids(&["body"]);
    assert_eq!(searched_paths(&all, Some(&attrs), Some(&only_body)), ranked(&[("body", PathRank::Rank(1))]));
    let nothing = ids(&["missing"]);
    assert_eq!(
        searched_paths(&all, Some(&attrs), Some(&nothing)),
        ranked(&[("title", PathRank::Rank(0)), ("body", PathRank::Rank(1))])
    );
}

#[test]
fn lowest_rank_is_the_last_ranked_path() {
    let all = ids(&["body", "tags", "title"]);
    assert_eq!(lowest_rank(&all, &ids(&["title", "missing", "body"])), Some(2));
    assert_eq!(lowest_rank(&all, &ids(&["nothing"])), None);
}
