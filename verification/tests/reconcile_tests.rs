use rsync_git::changelog::{parse_record, render_record, ChangeLog};

fn strings(v: &[&str]) -> Vec<String> {
    v.iter().map(|s| s.to_string()).collect()
}

#[test]
fn reconcile_unions_previous_and_current() {
    let mut log = ChangeLog::from_record_text("a.txt\nb.txt");
    let out = log.reconcile(strings(&["b.txt", "c.txt"]));
    assert_eq!(out, strings(&["a.txt", "b.txt", "c.txt"]));
}

#[test]
fn reconcile_deduplicates_within_input() {
    let mut log = ChangeLog::from_record_text("a.txt");
    let out = log.reconcile(strings(&["b.txt", "a.txt", "b.txt"]));
    assert_eq!(out, strings(&["a.txt", "b.txt"]));
}

#[test]
fn reconcile_persists_exactly_current() {
    let mut log = ChangeLog::from_record_text("a.txt\nb.txt");
    let _ = log.reconcile(strings(&["b.txt", "c.txt"]));
    assert_eq!(log.render(), "b.txt\nc.txt");
    assert_eq!(log.paths(), &strings(&["b.txt", "c.txt"]));
}

#[test]
fn reconcile_empty_record_empty_current() {
    let mut log = ChangeLog::new();
    let out = log.reconcile(Vec::new());
    assert_eq!(out, Vec::<String>::new());
    assert_eq!(log.render(), "");
}

#[test]
fn reconcile_empty_current_returns_record_then_persists_empty() {
    let mut log = ChangeLog::from_record_text("a.txt");
    let out = log.reconcile(Vec::new());
    assert_eq!(out, strings(&["a.txt"]));
    assert_eq!(log.render(), "");
}

#[test]
fn record_round_trip() {
    let paths = strings(&["src/app/main.go", "z.txt", "deep/nested/dir/file.rs"]);
    let text = render_record(&paths);
    assert_eq!(parse_record(&text), paths);
}

#[test]
fn parse_record_discards_empty_lines() {
    assert_eq!(parse_record("a.txt\n\nb.txt\n"), strings(&["a.txt", "b.txt"]));
    assert_eq!(parse_record(""), Vec::<String>::new());
    assert_eq!(parse_record("\n\n"), Vec::<String>::new());
}

#[test]
fn render_record_joins_with_newlines() {
    assert_eq!(render_record(&strings(&["a", "b", "c"])), "a\nb\nc");
    assert_eq!(render_record(&strings(&["only"])), "only");
    assert_eq!(render_record(&Vec::new()), "");
}

#[test]
fn end_to_end_two_runs() {
    // First run: the record is initially absent, so it is created empty.
    let mut log = ChangeLog::new();
    let out1 = log.reconcile(strings(&["a.txt", "b.txt"]));
    assert_eq!(out1, strings(&["a.txt", "b.txt"]));
    let persisted1 = log.render();
    assert_eq!(persisted1, "a.txt\nb.txt");

    // Second run: the live diff moved on; the union still covers a.txt once
    // more, and only the new diff is persisted.
    let mut log2 = ChangeLog::from_record_text(&persisted1);
    let out2 = log2.reconcile(strings(&["b.txt", "c.txt"]));
    assert_eq!(out2, strings(&["a.txt", "b.txt", "c.txt"]));
    assert_eq!(log2.render(), "b.txt\nc.txt");
}
