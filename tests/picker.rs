use branch_picker::branch::{load_branch_set, Branch, RawBranch, MAX_BRANCHES};
use branch_picker::picker::{checkout_result, Action, App, Key};
use branch_picker::render::{age, age_text, filter_line, rows, Age, Tone};

const NOW: i64 = 1_700_000_000;

fn raw(name: &str, is_head: bool, commit_time: Option<i64>) -> RawBranch {
    RawBranch { name: Some(name.to_string()), is_head, commit_time }
}

fn sample_raws() -> Vec<RawBranch> {
    vec![
        raw("main", true, Some(NOW - 2 * 86400)),
        raw("feature-x", false, Some(NOW - 3600)),
        raw("feature-y", false, Some(NOW - 180)),
    ]
}

fn names(bs: &[Branch]) -> Vec<String> {
    bs.iter().map(|b| b.name.clone()).collect()
}

fn sample_app() -> App {
    App::new(load_branch_set(sample_raws(), NOW))
}

#[test]
fn sample_set_sorts_most_recent_first() {
    let set = load_branch_set(sample_raws(), NOW);
    assert_eq!(names(&set), vec!["feature-y", "feature-x", "main"]);
    assert!(set[2].is_current);
    assert!(!set[0].is_current);
}

#[test]
fn sample_rows_show_ages() {
    let app = sample_app();
    let rs = rows(&app, NOW);
    let ages: Vec<String> = rs.iter().map(|r| r.age.clone()).collect();
    assert_eq!(ages, vec![" (3m)", " (1h)", " (2d)"]);
    assert!(rs[0].selected);
    assert!(matches!(rs[0].tone, Tone::Selected));
    assert!(matches!(rs[1].tone, Tone::Muted));
    assert!(matches!(rs[2].tone, Tone::Current));
    assert!(rs[2].current);
}

#[test]
fn filter_fe_selects_features() {
    let mut app = sample_app();
    app.add_char('f');
    app.add_char('e');
    assert_eq!(app.filtered_indices(), &vec![0, 1]);
    assert_eq!(app.selected(), Some(0));
    assert_eq!(app.selected_branch().unwrap().name, "feature-y");
}

#[test]
fn filter_ignores_case() {
    let mut app = sample_app();
    app.add_char('F');
    app.add_char('E');
    app.add_char('A');
    assert_eq!(app.filtered_indices(), &vec![0, 1]);
    app.add_char('T');
    app.add_char('U');
    app.add_char('R');
    app.add_char('E');
    app.add_char('-');
    app.add_char('X');
    assert_eq!(app.filtered_indices(), &vec![1]);
    assert_eq!(app.selected(), Some(0));
}

#[test]
fn filter_without_match_clears_cursor() {
    let mut app = sample_app();
    app.add_char('z');
    assert!(app.filtered_indices().is_empty());
    assert_eq!(app.selected(), None);
    app.next();
    app.previous();
    assert_eq!(app.selected(), None);
    app.remove_char();
    assert_eq!(app.filtered_indices(), &vec![0, 1, 2]);
    assert_eq!(app.selected(), Some(0));
}

#[test]
fn remove_char_on_empty_filter_is_noop() {
    let mut app = sample_app();
    app.next();
    assert_eq!(app.selected(), Some(1));
    app.remove_char();
    assert_eq!(app.filter(), "");
    assert_eq!(app.filtered_indices(), &vec![0, 1, 2]);
    assert_eq!(app.selected(), Some(1));
    assert!(matches!(app.handle_key(Key::Backspace, true), Action::Continue));
    assert_eq!(app.selected(), Some(1));
}

#[test]
fn longer_filter_never_adds_matches() {
    let mut app = sample_app();
    let mut previous = app.filtered_indices().clone();
    for c in "feature-y".chars() {
        app.add_char(c);
        assert!(app.filtered_indices().iter().all(|k| previous.contains(k)));
        previous = app.filtered_indices().clone();
    }
    assert_eq!(previous, vec![0]);
}

#[test]
fn filter_change_resets_cursor() {
    let mut app = sample_app();
    app.next();
    app.next();
    assert_eq!(app.selected(), Some(2));
    app.add_char('a');
    assert_eq!(app.filtered_indices(), &vec![0, 1, 2]);
    assert_eq!(app.selected(), Some(0));
}

#[test]
fn down_at_last_wraps_to_first() {
    let mut app = sample_app();
    app.next();
    app.next();
    assert_eq!(app.selected(), Some(2));
    app.next();
    assert_eq!(app.selected(), Some(0));
}

#[test]
fn up_at_first_wraps_to_last() {
    let mut app = sample_app();
    app.previous();
    assert_eq!(app.selected(), Some(2));
    app.previous();
    assert_eq!(app.selected(), Some(1));
}

#[test]
fn next_len_times_returns_to_start() {
    let mut app = sample_app();
    app.next();
    for _ in 0..3 {
        app.next();
    }
    assert_eq!(app.selected(), Some(1));
}

#[test]
fn enter_on_current_quits_without_switch() {
    let mut app = sample_app();
    app.previous();
    assert!(app.selected_branch().unwrap().is_current);
    assert!(matches!(app.handle_key(Key::Enter, true), Action::Quit));
}

#[test]
fn enter_on_other_branch_switches() {
    let mut app = sample_app();
    match app.handle_key(Key::Enter, true) {
        Action::Switch(name) => assert_eq!(name, "feature-y"),
        _ => panic!("expected a switch"),
    }
}

#[test]
fn enter_with_nothing_selected_quits() {
    let mut app = App::new(Vec::new());
    assert_eq!(app.selected(), None);
    assert!(matches!(app.handle_key(Key::Enter, true), Action::Quit));
}

#[test]
fn key_mapping() {
    let mut app = sample_app();
    assert!(matches!(app.handle_key(Key::Char('q'), true), Action::Quit));
    assert!(matches!(app.handle_key(Key::Esc, true), Action::Quit));
    assert!(matches!(app.handle_key(Key::Char('j'), true), Action::Continue));
    assert_eq!(app.selected(), Some(1));
    assert!(matches!(app.handle_key(Key::Down, true), Action::Continue));
    assert_eq!(app.selected(), Some(2));
    assert!(matches!(app.handle_key(Key::Char('k'), true), Action::Continue));
    assert_eq!(app.selected(), Some(1));
    assert!(matches!(app.handle_key(Key::Up, true), Action::Continue));
    assert_eq!(app.selected(), Some(0));
    assert!(matches!(app.handle_key(Key::Char('m'), true), Action::Continue));
    assert_eq!(app.filter(), "m");
    assert_eq!(app.filtered_indices(), &vec![2]);
    assert!(matches!(app.handle_key(Key::Backspace, true), Action::Continue));
    assert_eq!(app.filter(), "");
    assert!(matches!(app.handle_key(Key::Other, true), Action::Continue));
}

#[test]
fn key_release_is_ignored() {
    let mut app = sample_app();
    assert!(matches!(app.handle_key(Key::Char('q'), false), Action::Continue));
    assert!(matches!(app.handle_key(Key::Down, false), Action::Continue));
    assert_eq!(app.selected(), Some(0));
    assert!(matches!(app.handle_key(Key::Char('x'), false), Action::Continue));
    assert_eq!(app.filter(), "");
}

#[test]
fn set_is_capped_at_ten() {
    let raws: Vec<RawBranch> = (0..15)
        .map(|i| raw(&format!("b{}", i), i == 0, Some(NOW - 60 * i as i64)))
        .collect();
    let set = load_branch_set(raws, NOW);
    assert_eq!(set.len(), MAX_BRANCHES);
    assert_eq!(set[0].name, "b0");
    assert_eq!(set[9].name, "b9");
    for w in set.windows(2) {
        assert!(w[0].last_activity >= w[1].last_activity);
    }
}

#[test]
fn equal_timestamps_keep_enumeration_order() {
    let raws = vec![
        raw("a", false, Some(NOW - 10)),
        raw("b", false, Some(NOW)),
        raw("c", false, Some(NOW - 10)),
        raw("d", false, Some(NOW)),
    ];
    let set = load_branch_set(raws, NOW);
    assert_eq!(names(&set), vec!["b", "d", "a", "c"]);
}

#[test]
fn unnamed_branches_are_skipped() {
    let raws = vec![
        RawBranch { name: None, is_head: false, commit_time: Some(NOW) },
        raw("kept", false, Some(NOW - 5)),
    ];
    let set = load_branch_set(raws, NOW);
    assert_eq!(names(&set), vec!["kept"]);
}

#[test]
fn unresolved_time_falls_back_to_now() {
    let raws = vec![
        raw("old", false, Some(NOW - 86400)),
        raw("unborn", false, None),
        raw("far", false, Some(i64::MAX)),
    ];
    let set = load_branch_set(raws, NOW);
    assert_eq!(names(&set), vec!["unborn", "far", "old"]);
    assert_eq!(set[0].last_activity, NOW);
    assert_eq!(set[1].last_activity, NOW);
    assert_eq!(set[2].last_activity, NOW - 86400);
}

#[test]
fn ages_pick_the_largest_unit() {
    assert!(matches!(age(NOW, NOW), Age::Minutes(1)));
    assert!(matches!(age(NOW, NOW + 500), Age::Minutes(1)));
    assert!(matches!(age(NOW, NOW - 59), Age::Minutes(1)));
    assert!(matches!(age(NOW, NOW - 179), Age::Minutes(2)));
    assert!(matches!(age(NOW, NOW - 3599), Age::Minutes(59)));
    assert!(matches!(age(NOW, NOW - 3600), Age::Hours(1)));
    assert!(matches!(age(NOW, NOW - 86399), Age::Hours(23)));
    assert!(matches!(age(NOW, NOW - 86400), Age::Days(1)));
    assert!(matches!(age(i64::MAX, i64::MIN), Age::Days(213503982334601)));
}

#[test]
fn age_texts() {
    assert_eq!(age_text(&Age::Days(2)), " (2d)");
    assert_eq!(age_text(&Age::Hours(15)), " (15h)");
    assert_eq!(age_text(&Age::Minutes(1)), " (1m)");
    assert_eq!(age_text(&Age::Days(1234567)), " (1234567d)");
}

#[test]
fn filter_line_only_with_text() {
    let mut app = sample_app();
    assert!(filter_line(&app).is_none());
    app.add_char('f');
    assert_eq!(filter_line(&app).unwrap(), "Filter: f");
}

#[test]
fn checkout_results() {
    assert!(checkout_result(true, String::new()).is_ok());
    match checkout_result(false, "error: pathspec".to_string()) {
        Err(e) => assert_eq!(e.diagnostic, "error: pathspec"),
        Ok(()) => panic!("expected an error"),
    }
}
