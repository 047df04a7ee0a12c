use models_dev_cli::app::{App, ListItem, ListSelection, View};
use models_dev_cli::data::{ApiData, Cost, Limit, Modalities, Model, Provider};
use models_dev_cli::input::{Event, KeyCode, KeyKind, KeyPress, MODIFIER_CONTROL};
use models_dev_cli::search::MAX_QUERY_CHARS;

fn model(id: &str, name: &str, family: Option<&str>) -> Model {
    Model {
        id: id.to_string(),
        name: name.to_string(),
        family: family.map(|f| f.to_string()),
        attachment: false,
        reasoning: true,
        tool_call: true,
        temperature: false,
        knowledge: None,
        release_date: None,
        last_updated: None,
        modalities: Modalities { input: vec!["text".to_string()], output: vec!["text".to_string()] },
        open_weights: None,
        cost: None,
        limit: None,
    }
}

fn provider(id: &str, name: &str, models: Vec<Model>) -> Provider {
    Provider {
        id: id.to_string(),
        name: name.to_string(),
        env: vec![],
        npm: String::new(),
        api: String::new(),
        doc: String::new(),
        models: models.into_iter().map(|m| (m.id.clone(), m)).collect(),
    }
}

fn sample() -> ApiData {
    vec![
        (
            "openai".to_string(),
            provider(
                "openai",
                "OpenAI",
                vec![model("gpt-4o", "GPT-4o", Some("gpt")), model("o1", "o1", None)],
            ),
        ),
        ("zenmux".to_string(), provider("zenmux", "zenmux", vec![model("zen-1", "Zen One", None)])),
        (
            "mistral".to_string(),
            provider("mistral", "Mistral", vec![model("mistral-large", "Mistral Large", Some("mistral"))]),
        ),
    ]
}

fn key(code: KeyCode) -> Event {
    Event::Key(KeyPress { code, modifiers: 0, kind: KeyKind::Press })
}

fn names(items: &[ListItem]) -> Vec<String> {
    items
        .iter()
        .map(|it| match it {
            ListItem::Provider { name, .. } => format!("P:{}", name),
            ListItem::Model { model_name, .. } => format!("M:{}", model_name),
        })
        .collect()
}

fn type_text(app: &mut App, text: &str) {
    for c in text.chars() {
        app.handle_event(&key(KeyCode::Char(c)));
    }
}

#[test]
fn new_app_lists_providers_by_lowercase_name() {
    let app = App::new(sample());
    assert_eq!(names(&app.filtered_items), vec!["P:Mistral", "P:OpenAI", "P:zenmux"]);
    assert_eq!(app.list_state.selected, Some(0));
    assert!(matches!(app.view, View::Level1));
    assert!(!app.should_quit);
}

#[test]
fn empty_catalogue_selects_nothing() {
    let app = App::new(vec![]);
    assert!(app.filtered_items.is_empty());
    assert_eq!(app.list_state.selected, None);
}

#[test]
fn up_and_down_stay_in_the_list() {
    let mut app = App::new(sample());
    app.handle_event(&key(KeyCode::Up));
    assert_eq!(app.list_state.selected, Some(0));
    app.handle_event(&key(KeyCode::Down));
    app.handle_event(&key(KeyCode::Down));
    app.handle_event(&key(KeyCode::Down));
    assert_eq!(app.list_state.selected, Some(2));
    app.handle_event(&key(KeyCode::Up));
    assert_eq!(app.list_state.selected, Some(1));
}

#[test]
fn enter_shows_the_providers_models_and_esc_goes_back() {
    let mut app = App::new(sample());
    app.handle_event(&key(KeyCode::Down));
    app.handle_event(&key(KeyCode::Enter));
    match &app.view {
        View::Level2 { provider_id } => assert_eq!(provider_id, "openai"),
        View::Level1 => panic!("expected the provider's models"),
    }
    assert_eq!(names(&app.filtered_items), vec!["M:GPT-4o", "M:o1"]);
    assert_eq!(app.list_state.selected, Some(0));
    // Enter on a model does nothing.
    app.handle_event(&key(KeyCode::Enter));
    assert_eq!(names(&app.filtered_items), vec!["M:GPT-4o", "M:o1"]);
    app.handle_event(&key(KeyCode::Esc));
    assert!(matches!(app.view, View::Level1));
    assert_eq!(names(&app.filtered_items), vec!["P:Mistral", "P:OpenAI", "P:zenmux"]);
    assert!(!app.should_quit);
}

#[test]
fn esc_in_the_first_list_quits() {
    let mut app = App::new(sample());
    app.handle_event(&key(KeyCode::Esc));
    assert!(app.should_quit);
}

#[test]
fn q_and_control_c_quit() {
    let mut app = App::new(sample());
    app.handle_event(&key(KeyCode::Char('q')));
    assert!(app.should_quit);
    let mut app = App::new(sample());
    app.handle_event(&key(KeyCode::Char('c')));
    assert!(!app.should_quit);
    assert_eq!(app.current_input().value(), "c");
    app.handle_event(&Event::Key(KeyPress {
        code: KeyCode::Char('c'),
        modifiers: MODIFIER_CONTROL,
        kind: KeyKind::Press,
    }));
    assert!(app.should_quit);
}

#[test]
fn q_with_a_modifier_does_not_quit() {
    let mut app = App::new(sample());
    app.handle_event(&Event::Key(KeyPress {
        code: KeyCode::Char('q'),
        modifiers: MODIFIER_CONTROL,
        kind: KeyKind::Press,
    }));
    assert!(!app.should_quit);
    assert_eq!(app.current_input().value(), "");
    app.handle_event(&Event::Key(KeyPress { code: KeyCode::Char('q'), modifiers: 1, kind: KeyKind::Press }));
    assert!(!app.should_quit);
    assert_eq!(app.current_input().value(), "q");
}

#[test]
fn releases_and_other_events_change_nothing() {
    let mut app = App::new(sample());
    app.handle_event(&Event::Key(KeyPress { code: KeyCode::Down, modifiers: 0, kind: KeyKind::Release }));
    app.handle_event(&Event::Other);
    assert_eq!(app.list_state.selected, Some(0));
    assert_eq!(app.current_input().value(), "");
}

#[test]
fn typing_searches_providers_and_models() {
    let mut app = App::new(sample());
    type_text(&mut app, "large");
    assert_eq!(app.current_input().value(), "large");
    let found = names(&app.filtered_items);
    assert!(found.contains(&"M:Mistral Large".to_string()));
    assert!(!found.contains(&"M:GPT-4o".to_string()));
    assert_eq!(app.list_state.selected, Some(0));
}

#[test]
fn search_ignores_case_and_lists_providers_first() {
    let mut app = App::new(sample());
    type_text(&mut app, "OPENAI");
    let found = names(&app.filtered_items);
    assert_eq!(found[0], "P:OpenAI");
    let first_model = found.iter().position(|n| n.starts_with("M:")).unwrap();
    assert!(found[first_model..].iter().all(|n| n.starts_with("M:")));
    assert!(found.contains(&"M:GPT-4o".to_string()));
}

#[test]
fn search_without_matches_selects_nothing() {
    let mut app = App::new(sample());
    type_text(&mut app, "xyzzy");
    assert!(app.filtered_items.is_empty());
    assert_eq!(app.list_state.selected, None);
    app.handle_event(&key(KeyCode::Down));
    assert_eq!(app.list_state.selected, None);
}

#[test]
fn backspace_restores_the_full_list() {
    let mut app = App::new(sample());
    type_text(&mut app, "zx");
    app.handle_event(&key(KeyCode::Backspace));
    app.handle_event(&key(KeyCode::Backspace));
    assert_eq!(app.current_input().value(), "");
    assert_eq!(names(&app.filtered_items), vec!["P:Mistral", "P:OpenAI", "P:zenmux"]);
}

#[test]
fn search_in_a_providers_list_filters_its_models() {
    let mut app = App::new(sample());
    app.handle_event(&key(KeyCode::Down));
    app.handle_event(&key(KeyCode::Enter));
    type_text(&mut app, "gpt");
    assert_eq!(names(&app.filtered_items), vec!["M:GPT-4o"]);
    assert_eq!(app.level1_input.value(), "");
    assert_eq!(app.level2_input.value(), "gpt");
}

#[test]
fn cursor_moves_do_not_rebuild_the_list() {
    let mut app = App::new(sample());
    type_text(&mut app, "ai");
    app.handle_event(&key(KeyCode::Down));
    let selected = app.list_state.selected;
    app.handle_event(&key(KeyCode::Left));
    assert_eq!(app.current_input().cursor(), 1);
    assert_eq!(app.list_state.selected, selected);
}

#[test]
fn page_keys_scroll_within_the_content() {
    let mut app = App::new(sample());
    app.detail_height = 10;
    app.detail_content_height = 12;
    app.handle_event(&key(KeyCode::PageDown));
    assert_eq!(app.detail_scroll, 2);
    app.handle_event(&key(KeyCode::PageUp));
    assert_eq!(app.detail_scroll, 0);
    app.detail_content_height = 30;
    app.handle_event(&key(KeyCode::PageDown));
    app.handle_event(&key(KeyCode::PageDown));
    assert_eq!(app.detail_scroll, 10);
    app.handle_event(&key(KeyCode::Down));
    assert_eq!(app.detail_scroll, 0);
}

#[test]
fn clamp_detail_scroll_limits_the_scroll() {
    let mut app = App::new(sample());
    app.detail_scroll = 50;
    app.detail_content_height = 20;
    app.detail_height = 15;
    app.clamp_detail_scroll();
    assert_eq!(app.detail_scroll, 5);
    app.detail_content_height = 3;
    app.clamp_detail_scroll();
    assert_eq!(app.detail_scroll, 0);
}

#[test]
fn lookups_find_providers_and_models() {
    let app = App::new(sample());
    assert_eq!(app.get_provider("openai").unwrap().name, "OpenAI");
    assert!(app.get_provider("nobody").is_none());
    assert_eq!(app.get_model("mistral", "mistral-large").unwrap().name, "Mistral Large");
    assert!(app.get_model("mistral", "gpt-4o").is_none());
    assert!(app.get_model("nobody", "gpt-4o").is_none());
}

#[test]
fn get_selected_follows_the_selection() {
    let mut app = App::new(sample());
    match app.get_selected() {
        Some(ListItem::Provider { id, .. }) => assert_eq!(id, "mistral"),
        _ => panic!("expected a provider"),
    }
    app.list_state.select(Some(7));
    assert!(app.get_selected().is_none());
    app.list_state.select(None);
    assert!(app.get_selected().is_none());
}

#[test]
fn list_selection_select_resets_offset_only_when_cleared() {
    let mut sel = ListSelection { offset: 4, selected: Some(6) };
    sel.select(Some(2));
    assert_eq!((sel.offset, sel.selected), (4, Some(2)));
    sel.select(None);
    assert_eq!((sel.offset, sel.selected), (0, None));
}

#[test]
fn update_filtered_keeps_the_selection_in_the_list() {
    let mut app = App::new(sample());
    app.list_state.select(Some(9));
    app.update_filtered();
    assert_eq!(app.list_state.selected, Some(2));
}

#[test]
fn current_input_mut_edits_the_shown_field() {
    let mut app = App::new(sample());
    app.current_input_mut().handle_key(KeyCode::Char('x'), 0);
    assert_eq!(app.level1_input.value(), "x");
    assert_eq!(app.level2_input.value(), "");
}

#[test]
fn cost_and_limits_reach_the_model() {
    let mut m = model("m", "M", None);
    m.cost = Some(Cost {
        input: Some("$1.00".to_string()),
        output: None,
        reasoning: None,
        cache_read: None,
        cache_write: None,
        input_audio: None,
        output_audio: None,
    });
    m.limit = Some(Limit { context: Some(128000), output: None });
    let app = App::new(vec![("p".to_string(), provider("p", "P", vec![m]))]);
    let found = app.get_model("p", "m").unwrap();
    assert_eq!(found.limit.as_ref().unwrap().context, Some(128000));
}

#[test]
fn down_then_up_returns_to_the_same_entry() {
    let mut app = App::new(sample());
    app.handle_event(&key(KeyCode::Down));
    let selected = app.list_state.selected;
    app.handle_event(&key(KeyCode::Down));
    app.handle_event(&key(KeyCode::Up));
    assert_eq!(app.list_state.selected, selected);
}

#[test]
fn repeated_key_events_are_ignored() {
    let mut app = App::new(sample());
    app.handle_event(&Event::Key(KeyPress { code: KeyCode::Char('o'), modifiers: 0, kind: KeyKind::Repeat }));
    assert_eq!(app.current_input().value(), "");
    assert_eq!(app.list_state.selected, Some(0));
}

#[test]
fn typing_inserts_at_the_cursor() {
    let mut app = App::new(sample());
    type_text(&mut app, "ac");
    app.handle_event(&key(KeyCode::Left));
    app.handle_event(&Event::Key(KeyPress { code: KeyCode::Char('B'), modifiers: 1, kind: KeyKind::Press }));
    assert_eq!(app.current_input().value(), "aBc");
    assert_eq!(app.current_input().cursor(), 2);
    app.handle_event(&key(KeyCode::Backspace));
    assert_eq!(app.current_input().value(), "ac");
    assert_eq!(app.current_input().cursor(), 1);
}

#[test]
fn typing_stops_at_the_longest_query() {
    let mut app = App::new(sample());
    type_text(&mut app, &"x".repeat(MAX_QUERY_CHARS - 1));
    assert_eq!(app.current_input().value().chars().count(), MAX_QUERY_CHARS - 1);
    app.handle_event(&key(KeyCode::Char('y')));
    assert_eq!(app.current_input().value().chars().count(), MAX_QUERY_CHARS);
    assert!(app.filtered_items.is_empty());
    app.handle_event(&key(KeyCode::Char('z')));
    assert_eq!(app.current_input().value().chars().count(), MAX_QUERY_CHARS);
    assert!(app.current_input().value().ends_with('y'));
    assert_eq!(app.current_input().cursor(), MAX_QUERY_CHARS);
    app.handle_event(&key(KeyCode::Backspace));
    assert_eq!(app.current_input().value().chars().count(), MAX_QUERY_CHARS - 1);
}
