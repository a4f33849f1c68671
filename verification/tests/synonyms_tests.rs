use flapjack::synonyms::{Synonym, SynonymStore};

fn regular(id: &str, words: &[&str]) -> Synonym {
    Synonym::Regular {
        object_id: id.to_string(),
        synonyms: words.iter().map(|s| s.to_string()).collect(),
    }
}

fn oneway(id: &str, input: &str, synonyms: &[&str]) -> Synonym {
    Synonym::OneWay {
        object_id: id.to_string(),
        input: input.to_string(),
        synonyms: synonyms.iter().map(|s| s.to_string()).collect(),
    }
}

#[test]
fn object_id_regular() {
    let s = regular("syn-1", &["a", "b"]);
    assert_eq!(s.object_id(), "syn-1");
}

#[test]
fn object_id_oneway() {
    let s = oneway("ow-1", "phone", &["mobile"]);
    assert_eq!(s.object_id(), "ow-1");
}

#[test]
fn synonym_type_variants() {
    assert_eq!(regular("r", &["a"]).synonym_type(), "synonym");
    assert_eq!(oneway("o", "x", &["y"]).synonym_type(), "onewaysynonym");
    let alt1 = Synonym::AltCorrection1 {
        object_id: "a".into(),
        word: "w".into(),
        corrections: vec![],
    };
    assert_eq!(alt1.synonym_type(), "altcorrection1");
    let ph = Synonym::Placeholder {
        object_id: "p".into(),
        placeholder: "<x>".into(),
        replacements: vec![],
    };
    assert_eq!(ph.synonym_type(), "placeholder");
}

#[test]
fn matches_text_regular_case_insensitive() {
    let s = regular("1", &["Laptop", "Notebook"]);
    assert!(s.matches_text("laptop"));
    assert!(s.matches_text("NOTEBOOK"));
    assert!(!s.matches_text("phone"));
}

#[test]
fn matches_text_oneway_input_and_synonyms() {
    let s = oneway("1", "phone", &["mobile", "cell"]);
    assert!(s.matches_text("phone"));
    assert!(s.matches_text("mobile"));
    assert!(!s.matches_text("tablet"));
}

#[test]
fn matches_text_partial_match() {
    let s = regular("1", &["smartphone"]);
    assert!(s.matches_text("smart"), "substring should match (contains)");
}

#[test]
fn store_insert_get_remove() {
    let mut store = SynonymStore::new();
    assert!(store.get("syn-1").is_none());

    store.insert(regular("syn-1", &["a", "b"]));
    assert!(store.get("syn-1").is_some());

    let removed = store.remove("syn-1");
    assert!(removed.is_some());
    assert!(store.get("syn-1").is_none());
}

#[test]
fn store_clear() {
    let mut store = SynonymStore::new();
    store.insert(regular("1", &["a"]));
    store.insert(regular("2", &["b"]));
    store.clear();
    assert!(store.get("1").is_none());
    assert!(store.get("2").is_none());
}

#[test]
fn store_insert_overwrites_same_id() {
    let mut store = SynonymStore::new();
    store.insert(regular("1", &["old"]));
    store.insert(regular("1", &["new"]));
    let syn = store.get("1").unwrap();
    match syn {
        Synonym::Regular { synonyms, .. } => assert_eq!(synonyms, &["new"]),
        _ => panic!("wrong variant"),
    }
}

#[test]
fn synonyms_search_empty_query_returns_all() {
    let mut store = SynonymStore::new();
    store.insert(regular("1", &["a"]));
    store.insert(regular("2", &["b"]));
    let (results, total) = store.search("", None, 0, 10);
    assert_eq!(total, 2);
    assert_eq!(results.len(), 2);
}

#[test]
fn search_filters_by_text() {
    let mut store = SynonymStore::new();
    store.insert(regular("1", &["laptop", "notebook"]));
    store.insert(regular("2", &["phone", "mobile"]));
    let (results, total) = store.search("laptop", None, 0, 10);
    assert_eq!(total, 1);
    assert_eq!(results[0].object_id(), "1");
}

#[test]
fn search_filters_by_type() {
    let mut store = SynonymStore::new();
    store.insert(regular("1", &["a", "b"]));
    store.insert(oneway("2", "x", &["y"]));
    let (results, total) = store.search("", Some("onewaysynonym"), 0, 10);
    assert_eq!(total, 1);
    assert_eq!(results[0].object_id(), "2");
}

#[test]
fn synonyms_search_pagination() {
    let mut store = SynonymStore::new();
    for i in 0..5 {
        store.insert(regular(&format!("syn-{}", i), &[&format!("word-{}", i)]));
    }
    let (page0, total) = store.search("", None, 0, 2);
    assert_eq!(total, 5);
    assert_eq!(page0.len(), 2);

    let (page2, _) = store.search("", None, 2, 2);
    assert_eq!(page2.len(), 1, "last page should have 1 item");

    let (page_oob, _) = store.search("", None, 10, 2);
    assert!(page_oob.is_empty(), "out-of-bounds page should be empty");
}

#[test]
fn expand_regular_synonym() {
    let mut store = SynonymStore::new();
    store.insert(regular("1", &["laptop", "notebook"]));

    let expanded = store.expand_query("laptop");
    assert!(expanded.contains(&"laptop".to_string()));
    assert!(expanded.contains(&"notebook".to_string()));
}

#[test]
fn expand_oneway_synonym() {
    let mut store = SynonymStore::new();
    store.insert(oneway("1", "phone", &["mobile", "cell"]));

    let expanded = store.expand_query("phone");
    assert!(expanded.contains(&"phone".to_string()));
    assert!(expanded.contains(&"mobile".to_string()));
    assert!(expanded.contains(&"cell".to_string()));
}

#[test]
fn expand_no_match_returns_original() {
    let mut store = SynonymStore::new();
    store.insert(regular("1", &["laptop", "notebook"]));

    let expanded = store.expand_query("phone");
    assert_eq!(expanded, vec!["phone"]);
}

#[test]
fn expand_oneway_not_reverse() {
    let mut store = SynonymStore::new();
    store.insert(oneway("1", "phone", &["mobile"]));

    let expanded = store.expand_query("mobile");
    assert_eq!(
        expanded,
        vec!["mobile"],
        "one-way should not expand reverse direction"
    );
}

// -- further cases --

#[test]
fn expansion_starts_with_the_query_itself() {
    let mut store = SynonymStore::new();
    store.insert(regular("1", &["tv", "television"]));
    let expanded = store.expand_query("big tv deal");
    assert_eq!(expanded[0], "big tv deal");
    assert!(expanded.contains(&"big television deal".to_string()));
    assert_eq!(expanded.len(), 2);
}

#[test]
fn oneway_expansion_lowercases_the_query() {
    let mut store = SynonymStore::new();
    store.insert(oneway("1", "Phone", &["Mobile"]));
    let expanded = store.expand_query("Red PHONE");
    assert_eq!(expanded, vec!["Red PHONE".to_string(), "red mobile".to_string()]);
}

#[test]
fn corrections_and_placeholders_do_not_expand() {
    let mut store = SynonymStore::new();
    store.insert(Synonym::AltCorrection2 {
        object_id: "a".into(),
        word: "phone".into(),
        corrections: vec!["fone".into()],
    });
    store.insert(Synonym::Placeholder {
        object_id: "p".into(),
        placeholder: "phone".into(),
        replacements: vec!["mobile".into()],
    });
    assert_eq!(store.expand_query("phone"), vec!["phone"]);
}

#[test]
fn expansion_has_no_duplicates() {
    let mut store = SynonymStore::new();
    store.insert(regular("1", &["a", "b"]));
    store.insert(regular("2", &["a", "b"]));
    let expanded = store.expand_query("a");
    assert_eq!(expanded, vec!["a".to_string(), "b".to_string()]);
}

#[test]
fn search_type_and_text_combine() {
    let mut store = SynonymStore::new();
    store.insert(regular("1", &["phone", "mobile"]));
    store.insert(oneway("2", "phone", &["cell"]));
    let (results, total) = store.search("PHONE", Some("synonym"), 0, 10);
    assert_eq!(total, 1);
    assert_eq!(results[0].object_id(), "1");
}

#[test]
fn corrections_match_by_word_and_corrections() {
    let s = Synonym::AltCorrection1 {
        object_id: "a".into(),
        word: "color".into(),
        corrections: vec!["colour".into()],
    };
    assert!(s.matches_text("COLOUR"));
    assert!(s.matches_text("col"));
    assert!(!s.matches_text("shade"));
    assert_eq!(s.object_id(), "a");
}

#[test]
fn placeholder_matches_by_placeholder_and_replacements() {
    let s = Synonym::Placeholder {
        object_id: "p".into(),
        placeholder: "<size>".into(),
        replacements: vec!["large".into()],
    };
    assert!(s.matches_text("<SIZE>"));
    assert!(s.matches_text("LARGE"));
    assert!(!s.matches_text("small"));
    assert_eq!(s.synonym_type(), "placeholder");
    let s2 = Synonym::AltCorrection2 {
        object_id: "b".into(),
        word: "w".into(),
        corrections: vec![],
    };
    assert_eq!(s2.synonym_type(), "altcorrection2");
}

#[test]
fn remove_missing_returns_none() {
    let mut store = SynonymStore::new();
    store.insert(regular("1", &["a"]));
    assert!(store.remove("2").is_none());
    assert!(store.get("1").is_some());
}

#[test]
fn matching_lowercases_beyond_ascii() {
    let s = regular("1", &["Äpfel"]);
    assert!(s.matches_text("ÄPFEL"));
    assert!(s.matches_text("äpfel"));
}
