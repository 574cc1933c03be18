use blog::date::Date;
use blog::diag::{Diagnostic, Diagnostics};
use blog::links::{link_order, LinkEntry};
use blog::paths::{file_name, file_stem, find_last, join};
use blog::render::render_links;
use blog::watch::{next_phase, on_change, parse_mode, report_lines, Access, ChangeAction, Mode, Phase};

#[test]
fn modes_from_arguments() {
    assert_eq!(parse_mode(None), Some(Mode::Run));
    assert_eq!(parse_mode(Some("run")), Some(Mode::Run));
    assert_eq!(parse_mode(Some("watch")), Some(Mode::Watch));
    assert_eq!(parse_mode(Some("serve")), None);
}

#[test]
fn clean_pass_reports_success_marker() {
    let log = Diagnostics::new();
    assert_eq!(report_lines(&log), vec!["compiled".to_string()]);
}

#[test]
fn degraded_pass_reports_each_diagnostic() {
    let mut log = Diagnostics::new();
    Diagnostic::push_error(&mut log, "./output/index.html", "permission denied");
    Diagnostic::push_error(&mut log, "", "no articles directory");
    assert_eq!(
        report_lines(&log),
        vec![
            "Error in file index.html: permission denied\n".to_string(),
            "Error in file <unknown>: no articles directory\n".to_string(),
        ]
    );
    log.clear();
    assert!(log.is_empty());
}

#[test]
fn change_decisions() {
    assert_eq!(on_change(Access::Done, Access::Done), ChangeAction::Apply);
    assert_eq!(on_change(Access::NotFound, Access::Done), ChangeAction::Skip);
    assert_eq!(on_change(Access::Done, Access::NotFound), ChangeAction::Skip);
    assert_eq!(on_change(Access::Failed, Access::Done), ChangeAction::Stop);
    assert_eq!(on_change(Access::Done, Access::Failed), ChangeAction::Stop);
}

#[test]
fn watch_loop_phases() {
    let mut p = Phase::Idle;
    let expected = [Phase::Building, Phase::Reporting, Phase::WaitingForChange, Phase::Invalidating, Phase::Building];
    for e in expected {
        p = next_phase(p, false);
        assert_eq!(p, e);
    }
    assert_eq!(next_phase(Phase::WaitingForChange, true), Phase::Stopped);
}

#[test]
fn links_newest_first() {
    let link = |t: &str, y: i16| LinkEntry {
        title: t.to_string(),
        url: format!("https://{t}.example"),
        notes: String::new(),
        added: Date::new(y, 5, 1).unwrap(),
    };
    let links = vec![link("a", 2019), link("b", 2024), link("c", 2021)];
    assert_eq!(link_order(&links), vec![1, 2, 0]);
    let html = render_links(&vec![link("b", 2024)]);
    assert_eq!(html, "<h1>Links</h1>\n<ul>\n<li><a href=\"https://b.example\">b</a> </li>\n</ul>\n");
}

#[test]
fn path_pieces() {
    assert_eq!(file_name("/a/b/c.md"), Some("c.md".to_string()));
    assert_eq!(file_name("c.md"), Some("c.md".to_string()));
    assert_eq!(file_name("/a/b/"), None);
    assert_eq!(file_stem("archive.tar.gz"), "archive.tar");
    assert_eq!(file_stem(".hidden"), ".hidden");
    assert_eq!(find_last("a/b/c", '/'), Some(3));
    assert_eq!(join("out", "x.html"), "out/x.html");
}

#[test]
fn dates_are_checked() {
    assert!(Date::new(2024, 2, 29).is_some());
    assert!(Date::new(2023, 2, 29).is_none());
    assert!(Date::new(2023, 13, 1).is_none());
    assert!(Date::new(1900, 2, 29).is_none());
    assert!(Date::new(2000, 2, 29).is_some());
}
