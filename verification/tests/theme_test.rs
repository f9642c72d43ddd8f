//! Colors, badges and colored lines.

use hitpoint::tui::theme::{
    method_badge, method_color, spinner, status_badge, status_color, Color, Line, Style, ACCENT,
    FG, GREEN, RED, YELLOW,
};
use hitpoint::tui::theme::Ansi;
use hitpoint::tui::widgets::{
    colorize_json_line, draw_footer, draw_header, empty_state, json_lines, loading_line,
    method_style, status_style,
};
use hitpoint::tui::{editor_command, editor_outcome};

fn text(line: &Line) -> String {
    line.spans.iter().map(|s| s.text.as_str()).collect()
}

#[test]
fn coloring_keeps_the_text() {
    for line in [
        r#"  "name": "Neo","#,
        r#"  "age": 30"#,
        "  null,",
        "}",
        "",
        "plain words",
        r#"  "a \" b": [ "#,
    ] {
        assert_eq!(text(&colorize_json_line(line)), line);
    }
    let shown = json_lines("{\n  \"a\": 1\n}");
    assert_eq!(shown.len(), 3);
    assert_eq!(text(&shown[1]), "  \"a\": 1");
}

#[test]
fn badges_are_colored_by_kind() {
    assert_eq!(status_color(204), GREEN);
    assert_eq!(status_color(404), status_color(422));
    assert_eq!(status_color(503), RED);
    assert_ne!(method_color("GET"), method_color("DELETE"));
    assert!(method_badge("GET").text.contains("GET"));
    assert!(status_badge(201).text.contains("201"));
    assert_eq!(method_style("PATCH").fg, Some(Color::Terminal(Ansi::Magenta)));
    assert!(method_style("GET").bold);
    assert_eq!(status_style(302).fg, Some(Color::Terminal(Ansi::Cyan)));
    assert_eq!(status_style(700).fg, Some(Color::Terminal(Ansi::Red)));
    assert_eq!(Color::Fg, FG);
    assert!(FG.rgb().is_some());
    assert!(ACCENT.rgb() != YELLOW.rgb());
    assert_eq!(Style::on(FG), Style::on(Color::Fg));
}

#[test]
fn spinner_turns() {
    let first = spinner(0);
    assert_eq!(spinner(10), first);
    assert_ne!(spinner(1), first);
    assert!(text(&loading_line("spec", 3)).contains("spec"));
    assert!(text(&loading_line("spec", 3)).contains(spinner(3)));
}

#[test]
fn header_and_footer_show_what_they_are_given() {
    assert!(text(&draw_header("projects")).contains("projects"));
    let footer = draw_footer(&vec![("q", "quit"), ("/", "filter")], Some("saved"));
    let shown = text(&footer);
    assert!(shown.contains("quit") && shown.contains("filter") && shown.contains("saved"));
    let empty: String = empty_state("nothing", "add one").iter().map(text).collect();
    assert!(empty.contains("nothing") && empty.contains("add one"));
}

#[test]
fn editors_are_chosen_in_order() {
    assert_eq!(
        editor_command(Some("code --wait".into()), Some("vim".into())),
        vec!["code", "--wait"]
    );
    assert_eq!(editor_command(None, Some("vim".into())), vec!["vim"]);
    assert_eq!(editor_command(None, None), vec!["vi"]);
    assert_eq!(editor_outcome("seed", "seed".into()), None);
    assert_eq!(editor_outcome("seed", "other".into()).as_deref(), Some("other"));
}
