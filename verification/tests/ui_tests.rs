use models_dev_cli::app::{App, ListItem, View};
use models_dev_cli::data::{ApiData, Cost, Limit, Modalities, Model, Provider};
use models_dev_cli::input::{Event, KeyCode, KeyKind, KeyPress};
use models_dev_cli::ui::{
    blank_line, decimal_string, detail_lines, footer_text, format_price, join, label_value,
    line_width, list_lines, list_title, render_model_detail, render_provider_detail,
    search_scroll_and_cursor, search_title, section_header, title_text, wrapped_rows, Line,
    Tone,
};

fn texts(line: &Line) -> Vec<(String, Tone)> {
    line.spans.iter().map(|s| (s.text.clone(), s.tone)).collect()
}

fn joined(line: &Line) -> String {
    line.spans.iter().map(|s| s.text.as_str()).collect()
}

fn full_model() -> Model {
    Model {
        id: "gpt-4o".to_string(),
        name: "GPT-4o".to_string(),
        family: Some("gpt".to_string()),
        attachment: true,
        reasoning: false,
        tool_call: true,
        temperature: true,
        knowledge: Some("2023-10".to_string()),
        release_date: None,
        last_updated: Some("2024-08-06".to_string()),
        modalities: Modalities {
            input: vec!["text".to_string(), "image".to_string()],
            output: vec!["text".to_string()],
        },
        open_weights: Some(false),
        cost: Some(Cost {
            input: Some("$2.50".to_string()),
            output: Some("$10.00".to_string()),
            reasoning: None,
            cache_read: Some("$1.25".to_string()),
            cache_write: None,
            input_audio: None,
            output_audio: None,
        }),
        limit: Some(Limit { context: Some(128000), output: Some(16384) }),
    }
}

fn sample() -> ApiData {
    vec![(
        "openai".to_string(),
        Provider {
            id: "openai".to_string(),
            name: "OpenAI".to_string(),
            env: vec!["OPENAI_API_KEY".to_string()],
            npm: "@ai-sdk/openai".to_string(),
            api: "https://api.openai.com/v1".to_string(),
            doc: "https://platform.openai.com/docs".to_string(),
            models: vec![("gpt-4o".to_string(), full_model())],
        },
    )]
}

fn key(code: KeyCode) -> Event {
    Event::Key(KeyPress { code, modifiers: 0, kind: KeyKind::Press })
}

#[test]
fn label_value_and_header_lines() {
    assert_eq!(
        texts(&label_value("ID", "x")),
        vec![("  ID: ".to_string(), Tone::Label), ("x".to_string(), Tone::Text)]
    );
    assert_eq!(texts(&section_header("Limits")), vec![("  ── Limits ──".to_string(), Tone::Heading)]);
    assert_eq!(texts(&blank_line()), vec![(String::new(), Tone::Plain)]);
}

#[test]
fn provider_detail_lines() {
    let data = sample();
    let lines = render_provider_detail(&data[0].1);
    let shown: Vec<String> = lines.iter().map(joined).collect();
    assert_eq!(
        shown,
        vec![
            "  OpenAI",
            "",
            "  ID: openai",
            "  API: https://api.openai.com/v1",
            "  Documentation: https://platform.openai.com/docs",
            "  NPM Package: @ai-sdk/openai",
            "  Models: 1",
            "",
            "  ── Environment Variables ──",
            "  • OPENAI_API_KEY",
        ]
    );
    let mut empty_env = Provider {
        id: "p".to_string(),
        name: "P".to_string(),
        env: vec![],
        npm: String::new(),
        api: String::new(),
        doc: String::new(),
        models: vec![],
    };
    let lines = render_provider_detail(&empty_env);
    assert_eq!(joined(lines.last().unwrap()), "  (none)");
    empty_env.env.push("A".to_string());
    assert_eq!(joined(render_provider_detail(&empty_env).last().unwrap()), "  • A");
}

#[test]
fn model_detail_lines() {
    let data = sample();
    let lines = render_model_detail(&full_model(), Some(&data[0].1), "openai");
    let shown: Vec<String> = lines.iter().map(joined).collect();
    assert_eq!(
        shown,
        vec![
            "  GPT-4o",
            "",
            "  ID: gpt-4o",
            "  Provider: OpenAI",
            "  Family: gpt",
            "",
            "  ── Capabilities ──",
            "  ✗ Reasoning",
            "  ✓ Tool Call",
            "  ✓ Attachment",
            "  ✓ Temperature",
            "  ✗ Open Weights",
            "",
            "  ── Modalities ──",
            "  Input: text, image",
            "  Output: text",
            "",
            "  ── Cost (per 1M tokens) ──",
            "  Input: $2.50",
            "  Output: $10.00",
            "  Cache Read: $1.25",
            "",
            "  ── Limits ──",
            "  Context: 128,000",
            "  Output: 16,384",
            "",
            "  ── Metadata ──",
            "  Knowledge: 2023-10",
            "  Last Updated: 2024-08-06",
        ]
    );
    assert_eq!(lines[7].spans[0].tone, Tone::Bad);
    assert_eq!(lines[8].spans[0].tone, Tone::Good);
}

#[test]
fn model_detail_without_provider_or_extras() {
    let mut m = full_model();
    m.family = None;
    m.open_weights = None;
    m.cost = Some(Cost {
        input: None,
        output: None,
        reasoning: Some("$3.00".to_string()),
        cache_read: None,
        cache_write: Some("$0.50".to_string()),
        input_audio: Some("$40.00".to_string()),
        output_audio: Some("$80.00".to_string()),
    });
    m.limit = Some(Limit { context: None, output: None });
    m.knowledge = None;
    m.last_updated = None;
    let lines = render_model_detail(&m, None, "openai");
    let shown: Vec<String> = lines.iter().map(joined).collect();
    assert_eq!(shown[3], "  Provider: openai");
    assert!(!shown.iter().any(|l| l.contains("Family")));
    assert!(!shown.iter().any(|l| l.contains("Open Weights")));
    assert!(!shown.iter().any(|l| l.contains("Metadata")));
    assert!(shown.contains(&"  Input: —".to_string()));
    assert!(shown.contains(&"  Reasoning: $3.00".to_string()));
    assert!(shown.contains(&"  Cache Write: $0.50".to_string()));
    assert!(shown.contains(&"  Input Audio: $40.00".to_string()));
    assert!(shown.contains(&"  Output Audio: $80.00".to_string()));
    assert_eq!(shown.last().unwrap(), "  ── Limits ──");
}

#[test]
fn titles_follow_the_view() {
    let mut app = App::new(sample());
    assert_eq!(title_text(&app), " models.dev");
    assert_eq!(search_title(&app), " Search providers & models");
    assert_eq!(list_title(&app), " Providers & Models (1)");
    assert_eq!(
        footer_text(&app.view),
        " ↑↓ Navigate │ Enter: Drill into provider │ Esc: Quit │ PgUp/PgDn: Scroll details │ q: Quit"
    );
    app.handle_event(&key(KeyCode::Enter));
    assert_eq!(title_text(&app), " models.dev > OpenAI");
    assert_eq!(search_title(&app), " Search models in OpenAI");
    assert_eq!(list_title(&app), " Models (1)");
    assert_eq!(
        footer_text(&app.view),
        " ↑↓ Navigate │ Enter: View model │ Esc: Back │ PgUp/PgDn: Scroll details │ q: Quit"
    );
    app.view = View::Level2 { provider_id: "gone".to_string() };
    assert_eq!(title_text(&app), " models.dev");
    assert_eq!(search_title(&app), " Search models");
}

#[test]
fn list_lines_tag_providers_and_models() {
    let mut app = App::new(sample());
    let lines = list_lines(&app);
    assert_eq!(
        texts(&lines[0]),
        vec![
            ("▸ ".to_string(), Tone::Accent),
            ("OpenAI".to_string(), Tone::AccentBold),
            (" [provider]".to_string(), Tone::Muted)
        ]
    );
    app.filtered_items = vec![ListItem::Model {
        provider_id: "openai".to_string(),
        provider_name: "OpenAI".to_string(),
        model_id: "gpt-4o".to_string(),
        model_name: "GPT-4o".to_string(),
    }];
    assert_eq!(joined(&list_lines(&app)[0]), "  GPT-4o (OpenAI)");
    app.view = View::Level2 { provider_id: "openai".to_string() };
    assert_eq!(joined(&list_lines(&app)[0]), "  GPT-4o");
}

#[test]
fn detail_lines_follow_the_selection() {
    let mut app = App::new(sample());
    assert_eq!(joined(&detail_lines(&app)[0]), "  OpenAI");
    app.handle_event(&key(KeyCode::Enter));
    assert_eq!(joined(&detail_lines(&app)[0]), "  GPT-4o");
    app.list_state.select(None);
    let lines = detail_lines(&app);
    assert_eq!(lines.len(), 1);
    assert_eq!(joined(&lines[0]), "");
    app.filtered_items = vec![ListItem::Provider { id: "gone".to_string(), name: "Gone".to_string() }];
    app.list_state.select(Some(0));
    assert_eq!(joined(&detail_lines(&app)[0]), "Provider not found");
    app.filtered_items = vec![ListItem::Model {
        provider_id: "openai".to_string(),
        provider_name: "OpenAI".to_string(),
        model_id: "gone".to_string(),
        model_name: "Gone".to_string(),
    }];
    assert_eq!(joined(&detail_lines(&app)[0]), "Model not found");
}

#[test]
fn layout_detail_counts_wrapped_rows_and_clamps() {
    let mut app = App::new(sample());
    app.detail_scroll = 40;
    let lines = app.layout_detail(12, 8);
    assert_eq!(app.detail_height, 6);
    let expected: u16 = lines
        .iter()
        .map(|l| {
            let w = line_width(l);
            (w.saturating_sub(1) / 10 + 1) as u16
        })
        .sum();
    assert_eq!(app.detail_content_height, expected);
    assert_eq!(app.detail_scroll, expected - 6);
    let scrollbar = app.scrollbar().unwrap();
    assert_eq!(scrollbar.0, expected as usize);
    assert_eq!(scrollbar.1, 6);
    assert_eq!(scrollbar.2, expected as usize - 1);
    app.layout_detail(200, 100);
    assert_eq!(app.detail_scroll, 0);
    assert!(app.scrollbar().is_none());
}

#[test]
fn wrapped_rows_of_simple_lines() {
    let lines = vec![label_value("ab", "cdef"), blank_line()];
    assert_eq!(line_width(&lines[0]), 10);
    assert_eq!(wrapped_rows(&lines, 4), 3 + 1);
    assert_eq!(wrapped_rows(&lines, 0), 2);
    assert_eq!(wrapped_rows(&lines, 10), 2);
}

#[test]
fn search_cursor_scrolls_with_long_text() {
    let mut app = App::new(vec![]);
    for c in "abcdefghij".chars() {
        app.handle_event(&key(KeyCode::Char(c)));
    }
    assert_eq!(search_scroll_and_cursor(&app, 30), (0, 10));
    assert_eq!(search_scroll_and_cursor(&app, 10), (4, 6));
}

#[test]
fn join_decimal_and_price() {
    assert_eq!(join(&vec![], ", "), "");
    assert_eq!(join(&vec!["a".to_string()], ", "), "a");
    assert_eq!(join(&vec!["a".to_string(), "b".to_string(), "c".to_string()], ", "), "a, b, c");
    assert_eq!(decimal_string(0), "0");
    assert_eq!(decimal_string(18446744073709551615), "18446744073709551615");
    assert_eq!(format_price(&Some("$0.15".to_string())), "$0.15");
    assert_eq!(format_price(&None), "—");
}
