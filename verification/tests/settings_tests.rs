use flapjack::settings::{
    detect_embedder_changes, parse_facet_modifier, DistinctValue, EmbedderChange, IndexMode,
    IndexSettings,
};
use flapjack::document::{clone_json, Json};

fn obj(members: &[(&str, Json)]) -> Json {
    Json::Object(members.iter().map(|(k, v)| (k.to_string(), clone_json(v))).collect())
}

fn s(x: &str) -> Json {
    Json::Str(x.to_string())
}

fn n(x: u64) -> Json {
    Json::Number(serde_json::Number::from(x))
}

#[test]
fn test_parse_modifiers() {
    assert_eq!(parse_facet_modifier("category"), "category");
    assert_eq!(parse_facet_modifier("filterOnly(price)"), "price");
    assert_eq!(parse_facet_modifier("searchable(brand)"), "brand");
}

#[test]
fn test_facet_set() {
    let settings = IndexSettings {
        attributes_for_faceting: vec![
            "category".to_string(),
            "filterOnly(price)".to_string(),
            "searchable(brand)".to_string(),
        ],
        ..Default::default()
    };

    let facets = settings.facet_set();
    assert!(facets.contains(&"category".to_string()));
    assert!(facets.contains(&"price".to_string()));
    assert!(facets.contains(&"brand".to_string()));
}

#[test]
fn test_distinct_value() {
    let bool_false = DistinctValue::Bool(false);
    assert_eq!(bool_false.as_count(), 0);

    let bool_true = DistinctValue::Bool(true);
    assert_eq!(bool_true.as_count(), 1);

    let int_val = DistinctValue::Integer(3);
    assert_eq!(int_val.as_count(), 3);
}

#[test]
fn test_settings_embedders_default_none() {
    let settings = IndexSettings::default();
    assert!(settings.embedders.is_none());
}

#[test]
fn test_validate_embedders_none_is_ok() {
    let settings = IndexSettings::default();
    assert!(settings.validate_embedders().is_ok());
}

#[test]
fn test_validate_embedders_empty_map_is_ok() {
    let settings = IndexSettings {
        embedders: Some(Vec::new()),
        ..Default::default()
    };
    assert!(settings.validate_embedders().is_ok());
}

#[test]
fn test_embedder_changes_detects_model_change() {
    let old = Some(vec![(
        "emb1".to_string(),
        obj(&[("source", s("openAi")), ("model", s("A"))]),
    )]);
    let new = Some(vec![(
        "emb1".to_string(),
        obj(&[("source", s("openAi")), ("model", s("B"))]),
    )]);
    let changes = detect_embedder_changes(&old, &new);
    assert_eq!(changes, vec![EmbedderChange::Modified("emb1".to_string())]);
}

#[test]
fn test_embedder_changes_detects_source_change() {
    let old = Some(vec![("emb1".to_string(), obj(&[("source", s("openAi"))]))]);
    let new = Some(vec![("emb1".to_string(), obj(&[("source", s("rest"))]))]);
    let changes = detect_embedder_changes(&old, &new);
    assert_eq!(changes, vec![EmbedderChange::Modified("emb1".to_string())]);
}

#[test]
fn test_embedder_changes_detects_dimensions_change() {
    let old = Some(vec![(
        "emb1".to_string(),
        obj(&[("source", s("userProvided")), ("dimensions", n(128))]),
    )]);
    let new = Some(vec![(
        "emb1".to_string(),
        obj(&[("source", s("userProvided")), ("dimensions", n(384))]),
    )]);
    let changes = detect_embedder_changes(&old, &new);
    assert_eq!(changes, vec![EmbedderChange::Modified("emb1".to_string())]);
}

#[test]
fn test_embedder_changes_unchanged() {
    let config = obj(&[("source", s("userProvided")), ("dimensions", n(384))]);
    let old = Some(vec![("emb1".to_string(), clone_json(&config))]);
    let new = Some(vec![("emb1".to_string(), config)]);
    let changes = detect_embedder_changes(&old, &new);
    assert!(changes.is_empty());
}

#[test]
fn test_embedder_changes_new_embedder() {
    let old: Option<Vec<(String, Json)>> = Some(Vec::new());
    let new = Some(vec![(
        "new_emb".to_string(),
        obj(&[("source", s("userProvided")), ("dimensions", n(128))]),
    )]);
    let changes = detect_embedder_changes(&old, &new);
    assert_eq!(changes, vec![EmbedderChange::Added("new_emb".to_string())]);
}

#[test]
fn test_embedder_changes_removed_embedder() {
    let old = Some(vec![(
        "old_emb".to_string(),
        obj(&[("source", s("userProvided")), ("dimensions", n(128))]),
    )]);
    let new: Option<Vec<(String, Json)>> = Some(Vec::new());
    let changes = detect_embedder_changes(&old, &new);
    assert_eq!(changes, vec![EmbedderChange::Removed("old_emb".to_string())]);
}

#[test]
fn test_embedder_changes_both_none() {
    let changes = detect_embedder_changes(&None, &None);
    assert!(changes.is_empty());
}

#[test]
fn test_settings_mode_default_none() {
    let settings = IndexSettings::default();
    assert!(settings.mode.is_none());
}

#[test]
fn test_settings_semantic_search_default_none() {
    let settings = IndexSettings::default();
    assert!(settings.semantic_search.is_none());
}

#[test]
fn test_settings_is_neural_search_active() {
    let mut settings = IndexSettings::default();
    assert!(
        !settings.is_neural_search_active(),
        "default should not be neural"
    );

    settings.mode = Some(IndexMode::KeywordSearch);
    assert!(
        !settings.is_neural_search_active(),
        "keywordSearch should not be neural"
    );

    settings.mode = Some(IndexMode::NeuralSearch);
    assert!(
        settings.is_neural_search_active(),
        "neuralSearch should be neural"
    );
}

// -- further cases --

#[test]
fn after_distinct_modifier_and_unclosed_parens() {
    assert_eq!(parse_facet_modifier("afterDistinct(color)"), "color");
    assert_eq!(parse_facet_modifier("searchable(size))"), "size");
    assert_eq!(parse_facet_modifier("filterOnly(x"), "x");
    assert_eq!(parse_facet_modifier("other(y)"), "other(y)");
}

#[test]
fn facet_set_lists_each_name_once_in_first_order() {
    let settings = IndexSettings::default_with_facets(vec![
        "brand".to_string(),
        "searchable(brand)".to_string(),
        "filterOnly(price)".to_string(),
        "searchable(color)".to_string(),
    ]);
    assert_eq!(settings.facet_set(), vec!["brand", "price", "color"]);
    assert_eq!(settings.searchable_facet_set(), vec!["brand", "color"]);
}

#[test]
fn default_settings_values() {
    let settings = IndexSettings::default();
    assert!(settings.attributes_for_faceting.is_empty());
    assert_eq!(settings.hits_per_page, 20);
    assert_eq!(settings.max_values_per_facet, 100);
    assert_eq!(settings.pagination_limited_to, 1000);
    assert_eq!(settings.query_type, "prefixLast");
    assert_eq!(settings.highlight_pre_tag, Some("<em>".to_string()));
    assert_eq!(settings.highlight_post_tag, Some("</em>".to_string()));
    assert_eq!(
        settings.ranking,
        Some(vec![
            "typo".to_string(),
            "geo".to_string(),
            "words".to_string(),
            "filters".to_string(),
            "proximity".to_string(),
            "attribute".to_string(),
            "exact".to_string(),
            "custom".to_string(),
        ])
    );
    assert!(settings.distinct.is_none());
}

#[test]
fn unretrievable_attribute_is_never_returned() {
    let settings = IndexSettings {
        attributes_to_retrieve: Some(vec!["*".to_string()]),
        unretrievable_attributes: Some(vec!["secret".to_string()]),
        ..Default::default()
    };
    assert!(!settings.should_retrieve("secret"));
    assert!(settings.should_retrieve("title"));
    let listed = IndexSettings {
        attributes_to_retrieve: Some(vec!["title".to_string()]),
        ..Default::default()
    };
    assert!(listed.should_retrieve("title"));
    assert!(!listed.should_retrieve("body"));
    assert!(IndexSettings::default().should_retrieve("anything"));
}

#[test]
fn embedder_changes_list_old_names_then_new() {
    let cfg = obj(&[("source", s("userProvided"))]);
    let old = Some(vec![
        ("a".to_string(), clone_json(&cfg)),
        ("b".to_string(), clone_json(&cfg)),
    ]);
    let new = Some(vec![
        ("c".to_string(), clone_json(&cfg)),
        ("a".to_string(), obj(&[("source", s("rest"))])),
    ]);
    let changes = detect_embedder_changes(&old, &new);
    assert_eq!(
        changes,
        vec![
            EmbedderChange::Modified("a".to_string()),
            EmbedderChange::Removed("b".to_string()),
            EmbedderChange::Added("c".to_string()),
        ]
    );
}

#[test]
fn embedder_changes_ignore_other_members() {
    let old = Some(vec![(
        "e".to_string(),
        obj(&[("source", s("rest")), ("apiKey", s("k1"))]),
    )]);
    let new = Some(vec![(
        "e".to_string(),
        obj(&[("source", s("rest")), ("apiKey", s("k2"))]),
    )]);
    assert!(detect_embedder_changes(&old, &new).is_empty());
}

#[test]
fn embedder_changes_compare_nested_members() {
    let old = Some(vec![(
        "e".to_string(),
        obj(&[("source", s("rest")), ("model", obj(&[("name", s("m1"))]))]),
    )]);
    let same = Some(vec![(
        "e".to_string(),
        obj(&[("source", s("rest")), ("model", obj(&[("name", s("m1"))]))]),
    )]);
    let changed = Some(vec![(
        "e".to_string(),
        obj(&[("source", s("rest")), ("model", obj(&[("name", s("m2"))]))]),
    )]);
    let dropped = Some(vec![("e".to_string(), obj(&[("source", s("rest"))]))]);
    assert!(detect_embedder_changes(&old, &same).is_empty());
    assert_eq!(detect_embedder_changes(&old, &changed), vec![EmbedderChange::Modified("e".to_string())]);
    assert_eq!(detect_embedder_changes(&old, &dropped), vec![EmbedderChange::Modified("e".to_string())]);
}

#[test]
fn embedder_changes_compare_numbers_as_json_does() {
    let f = |x: f64| Json::Number(serde_json::Number::from_f64(x).unwrap());
    let old = Some(vec![("e".to_string(), obj(&[("source", s("rest")), ("dimensions", f(0.0))]))]);
    let neg = Some(vec![("e".to_string(), obj(&[("source", s("rest")), ("dimensions", f(-0.0))]))]);
    let other = Some(vec![("e".to_string(), obj(&[("source", s("rest")), ("dimensions", f(1.5))]))]);
    assert!(detect_embedder_changes(&old, &neg).is_empty());
    assert_eq!(detect_embedder_changes(&old, &other), vec![EmbedderChange::Modified("e".to_string())]);
}
