use models_dev_cli::app::ListItem;
use models_dev_cli::data::{find_entry, Modalities, Model, Provider};
use models_dev_cli::search::{
    fuzzy_match_item, fuzzy_score, order_providers, sort_hits, FuzzyHit, FuzzyMatcher,
    MAX_QUERY_CHARS,
};
use models_dev_cli::text::{chars_of, lex_le_exec};

fn model(id: &str, name: &str, family: Option<&str>) -> Model {
    Model {
        id: id.to_string(),
        name: name.to_string(),
        family: family.map(|f| f.to_string()),
        attachment: false,
        reasoning: false,
        tool_call: false,
        temperature: false,
        knowledge: None,
        release_date: None,
        last_updated: None,
        modalities: Modalities { input: vec![], output: vec![] },
        open_weights: None,
        cost: None,
        limit: None,
    }
}

fn provider(name: &str) -> Provider {
    Provider {
        id: name.to_lowercase(),
        name: name.to_string(),
        env: vec![],
        npm: String::new(),
        api: String::new(),
        doc: String::new(),
        models: vec![],
    }
}

fn hit(name: &str, score: u32) -> FuzzyHit {
    FuzzyHit { item: ListItem::Provider { id: name.to_string(), name: name.to_string() }, score }
}

fn hit_name(h: &FuzzyHit) -> &str {
    match &h.item {
        ListItem::Provider { name, .. } => name,
        ListItem::Model { model_name, .. } => model_name,
    }
}

#[test]
fn empty_query_scores_zero() {
    let mut matcher = FuzzyMatcher::new();
    assert_eq!(fuzzy_score("anything", "", &mut matcher), Some(0));
    assert_eq!(fuzzy_score("", "", &mut matcher), Some(0));
}

#[test]
fn fuzzy_score_matches_subsequences_only() {
    let mut matcher = FuzzyMatcher::new();
    assert!(fuzzy_score("GPT-4o mini", "gpt4", &mut matcher).is_some());
    assert!(fuzzy_score("GPT-4o mini", "mnx", &mut matcher).is_none());
    let close = fuzzy_score("gpt", "gpt", &mut matcher).unwrap();
    let far = fuzzy_score("g-p-t", "gpt", &mut matcher).unwrap();
    assert!(close > far);
}

#[test]
fn longest_query_is_scored() {
    let mut matcher = FuzzyMatcher::new();
    let query = "a".repeat(MAX_QUERY_CHARS);
    assert!(fuzzy_score(&query, &query, &mut matcher).is_some());
    let hay = format!("x{}", " a".repeat(MAX_QUERY_CHARS));
    assert!(fuzzy_score(&hay, &query, &mut matcher).is_some());
    assert_eq!(fuzzy_score("aaaa", &query, &mut matcher), None);
}

#[test]
fn words_of_a_query_add_up() {
    let mut matcher = FuzzyMatcher::new();
    let gpt = fuzzy_score("GPT-4o mini", "gpt", &mut matcher).unwrap();
    let mini = fuzzy_score("GPT-4o mini", "mini", &mut matcher).unwrap();
    assert_eq!(fuzzy_score("GPT-4o mini", "gpt  mini", &mut matcher), Some(gpt + mini));
    assert_eq!(fuzzy_score("GPT-4o mini", "gpt mnx", &mut matcher), None);
    assert_eq!(fuzzy_score("GPT-4o mini", "   ", &mut matcher), Some(0));
}

#[test]
fn provider_match_takes_the_better_of_name_and_id() {
    let mut matcher = FuzzyMatcher::new();
    let by_id = fuzzy_match_item("xai", "Grok Company", None, "xai", &mut matcher).unwrap();
    assert_eq!(by_id.score, fuzzy_score("xai", "xai", &mut matcher).unwrap());
    match by_id.item {
        ListItem::Provider { id, name } => {
            assert_eq!(id, "xai");
            assert_eq!(name, "Grok Company");
        }
        _ => panic!("expected a provider"),
    }
    assert!(fuzzy_match_item("xai", "Grok Company", None, "qqq", &mut matcher).is_none());
    let all = fuzzy_match_item("xai", "Grok Company", None, "", &mut matcher).unwrap();
    assert_eq!(all.score, 0);
}

#[test]
fn model_match_uses_joined_names() {
    let mut matcher = FuzzyMatcher::new();
    let m = model("zen-coder", "Coder Large", Some("zen"));
    // "zencl" matches "zenmux Coder Large" across the two names only.
    let h = fuzzy_match_item("zenmux", "zenmux", Some(("zen-coder", &m)), "zencl", &mut matcher).unwrap();
    let joined = fuzzy_score("zenmux Coder Large", "zencl", &mut matcher).unwrap();
    assert!(h.score >= joined);
    match h.item {
        ListItem::Model { provider_id, provider_name, model_id, model_name } => {
            assert_eq!(provider_id, "zenmux");
            assert_eq!(provider_name, "zenmux");
            assert_eq!(model_id, "zen-coder");
            assert_eq!(model_name, "Coder Large");
        }
        _ => panic!("expected a model"),
    }
    assert!(fuzzy_match_item("zenmux", "zenmux", Some(("zen-coder", &m)), "qqq", &mut matcher).is_none());
}

#[test]
fn sort_hits_is_stable_and_descending() {
    let hits = vec![hit("a", 1), hit("b", 5), hit("c", 1), hit("d", 5), hit("e", 3)];
    let sorted = sort_hits(hits);
    let order: Vec<&str> = sorted.iter().map(hit_name).collect();
    assert_eq!(order, vec!["b", "d", "e", "a", "c"]);
    assert!(sort_hits(vec![]).is_empty());
}

#[test]
fn providers_are_ordered_by_lowercase_name_keeping_ties() {
    let data = vec![
        ("z".to_string(), provider("zeta")),
        ("b1".to_string(), provider("Beta")),
        ("a".to_string(), provider("alpha")),
        ("b2".to_string(), provider("beta")),
    ];
    let order = order_providers(&data);
    assert_eq!(order, vec![2, 1, 3, 0]);
}

#[test]
fn find_entry_by_key() {
    let entries = vec![("a".to_string(), 1), ("b".to_string(), 2)];
    assert_eq!(find_entry(&entries, "b"), Some(&2));
    assert_eq!(find_entry(&entries, "c"), None);
}

#[test]
fn text_helpers() {
    assert_eq!(chars_of("héllo"), vec!['h', 'é', 'l', 'l', 'o']);
    assert!(lex_le_exec(&chars_of("ab"), &chars_of("abc")));
    assert!(!lex_le_exec(&chars_of("b"), &chars_of("abc")));
    assert!(lex_le_exec(&chars_of(""), &chars_of("")));
}

#[test]
fn models_of_a_matching_provider_match_at_least_as_well() {
    let mut matcher = FuzzyMatcher::new();
    let m = model("zz-9", "Quux", None);
    let by_name = fuzzy_score("OpenAI", "open", &mut matcher).unwrap();
    let h = fuzzy_match_item("openai", "OpenAI", Some(("zz-9", &m)), "open", &mut matcher).unwrap();
    assert!(h.score >= by_name);
}
