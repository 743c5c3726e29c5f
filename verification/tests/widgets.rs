use pi_oven::grid::{Color, ATTR_BOLD, ATTR_DIM, ATTR_REVERSED};
use pi_oven::widgets::{
    build_tabs_line, header_title, input_line, legend_spans, status_bar_spans, truncate_to_width,
    AppState, StatusBar, StyledSpan, TabCell, TabStatus,
};

fn texts(spans: &[StyledSpan]) -> Vec<&str> {
    spans.iter().map(|s| s.content.as_str()).collect()
}

fn line(spans: &[StyledSpan]) -> String {
    spans.iter().map(|s| s.content.as_str()).collect()
}

fn width(spans: &[StyledSpan]) -> usize {
    spans.iter().map(|s| s.content.chars().count()).sum()
}

fn legend() -> Vec<(String, String)> {
    [("⏎", "send"), ("M-⏎", "queue"), ("M-tab", "next"), ("C-c", "copy"), ("C-q", "quit")]
        .iter()
        .map(|(k, a)| (k.to_string(), a.to_string()))
        .collect()
}

fn tab(project: &str, trigger: &str, status: TabStatus) -> TabCell {
    TabCell { project: project.to_string(), trigger: trigger.to_string(), status }
}

#[test]
fn truncate_keeps_short_text() {
    assert_eq!(truncate_to_width("hello", 5), "hello");
    assert_eq!(truncate_to_width("hello", 9), "hello");
}

#[test]
fn truncate_marks_cut_with_ellipsis() {
    assert_eq!(truncate_to_width("hello", 4), "hel…");
    assert_eq!(truncate_to_width("hello", 1), "…");
    assert_eq!(truncate_to_width("hello", 0), "");
    assert_eq!(truncate_to_width("ééééé", 3), "éé…");
}

#[test]
fn legend_fits_whole_when_wide() {
    let spans = legend_spans(&legend(), 200);
    assert_eq!(line(&spans), "⏎ send  M-⏎ queue  M-tab next  C-c copy  C-q quit");
    assert_eq!(spans[0].style.fg, Some(Color::Cyan));
    assert_eq!(spans[0].style.add_modifier, ATTR_BOLD);
    assert_eq!(spans[1].style.fg, None);
    assert_eq!(spans[2].content, "  ");
}

#[test]
fn legend_truncates_with_ellipsis() {
    let spans = legend_spans(&legend(), 30);
    assert_eq!(line(&spans), "⏎ send  M-⏎ queue  M-tab  …");
    assert!(width(&spans) <= 30);
    let spans = legend_spans(&legend(), 4);
    assert_eq!(texts(&spans), vec!["…"]);
}

#[test]
fn legend_empty_cases() {
    assert!(legend_spans(&legend(), 0).is_empty());
    assert!(legend_spans(&Vec::new(), 80).is_empty());
}

#[test]
fn tabs_join_with_status_separators() {
    let tabs = vec![
        tab("pi-oven", "#9", TabStatus::Active),
        tab("docs", "idle", TabStatus::Idle),
        tab("api", "ci", TabStatus::Attention),
    ];
    let spans = build_tabs_line(&tabs, 100);
    assert_eq!(line(&spans), "[pi-oven] (#9) - [docs] (idle) > [api] (ci)");
    assert_eq!(spans[0].style.add_modifier, ATTR_BOLD);
    assert_eq!(spans[3].content, "[docs]");
    assert_eq!(spans[3].style.add_modifier, 0);
}

#[test]
fn tab_strip_drops_rightmost_tabs_with_ellipsis() {
    let tabs: Vec<TabCell> = (0..20)
        .map(|i| {
            tab(
                &format!("project-with-long-name-{i}"),
                &format!("worktree-with-long-name-{i}"),
                TabStatus::Idle,
            )
        })
        .collect();
    let spans = build_tabs_line(&tabs, 70);
    let row = line(&spans);
    assert_eq!(row, "[project-with-long-name-0] (worktree-with-long-name-0) …");
    assert!(width(&spans) <= 70);
    let spans = build_tabs_line(&tabs, 10);
    assert_eq!(texts(&spans), vec!["…"]);
}

#[test]
fn status_bar_shows_model_context_pr_and_branch() {
    let status = StatusBar {
        model: "Sonnet 4.6".to_string(),
        ctx_pct: 48,
        pr: Some(9),
        branch: "fuz/apply-clipboard-support".to_string(),
    };
    let spans = status_bar_spans(&status, 100);
    assert_eq!(
        texts(&spans),
        vec!["Sonnet 4.6", " · ", "ctx:48%", " · ", "PR #9", " · ", "fuz/apply-clipboard-support"]
    );
    assert_eq!(spans[0].style.add_modifier, ATTR_BOLD);
    assert_eq!(spans[4].style.fg, Some(Color::Magenta));
    assert_eq!(spans[6].style.add_modifier, ATTR_DIM);
}

#[test]
fn status_bar_cuts_branch_to_remaining_width() {
    let status = StatusBar {
        model: "m".to_string(),
        ctx_pct: 5,
        pr: None,
        branch: "feature/branch".to_string(),
    };
    let spans = status_bar_spans(&status, 16);
    assert_eq!(texts(&spans), vec!["m", " · ", "ctx:5%", " · ", "fe…"]);
    assert_eq!(width(&spans), 16);
    let spans = status_bar_spans(&status, 5);
    assert_eq!(spans.last().unwrap().content, "");
}

#[test]
fn input_line_with_and_without_cursor() {
    let spans = input_line("hi", true);
    assert_eq!(texts(&spans), vec!["> hi", " "]);
    assert_eq!(spans[1].style.add_modifier, ATTR_REVERSED);
    let spans = input_line("hi", false);
    assert_eq!(texts(&spans), vec!["> hi"]);
}

#[test]
fn header_title_is_bold_and_cut() {
    let s = header_title("Apply clipboard support changes", 10);
    assert_eq!(s.content, "Apply cli…");
    assert_eq!(s.style.add_modifier, ATTR_BOLD);
}

#[test]
fn app_state_starts_empty_with_cursor_shown() {
    let st = AppState::default();
    assert_eq!(st.editor.text(), "");
    assert_eq!(st.editor.cursor_byte_pos(), 0);
    assert!(st.cursor_visible);
}
