use rsync_git::resolver::{get_dir, resolve_remote_dir};
use rsync_git::status::parse_status;
use rsync_git::transport::{build_sync_command, is_dry_run};
use rsync_git::SyncError;

fn strings(v: &[&str]) -> Vec<String> {
    v.iter().map(|s| s.to_string()).collect()
}

#[test]
fn parse_status_takes_last_token() {
    let report = "M  src/main.rs\n?? notes.txt\nR  old.txt -> new.txt\n";
    assert_eq!(
        parse_status(report),
        strings(&["src/main.rs", "notes.txt", "new.txt"])
    );
}

#[test]
fn parse_status_discards_blank_and_malformed_lines() {
    assert_eq!(parse_status(""), Vec::<String>::new());
    assert_eq!(parse_status("\n\n"), Vec::<String>::new());
    assert_eq!(parse_status("M file.txt\n  \n"), strings(&["file.txt"]));
}

#[test]
fn get_dir_returns_parent() {
    assert_eq!(get_dir("src/app/main.go".to_string()), "src/app");
    assert_eq!(get_dir("u@h:/srv/proj/a.txt".to_string()), "u@h:/srv/proj");
    assert_eq!(get_dir("a/b".to_string()), "a");
}

#[test]
fn resolve_remote_dir_strips_last_segment() {
    assert_eq!(
        resolve_remote_dir("src/app/main.go", "u@h", "/srv/proj"),
        Ok("u@h:/srv/proj/src/app".to_string())
    );
}

#[test]
fn resolve_remote_dir_rejects_no_separator() {
    assert_eq!(
        resolve_remote_dir("README.md", "u@h", "/srv/proj"),
        Err(SyncError::MalformedPathError)
    );
}

#[test]
fn build_sync_command_fields() {
    let cmd = build_sync_command("src/lib.rs", "/home/me/proj", "u@h", "/srv/proj", "n").unwrap();
    assert_eq!(cmd.flags, "-avn");
    assert_eq!(cmd.source, "/home/me/proj/src/lib.rs");
    assert_eq!(cmd.dest, "u@h:/srv/proj/src");
}

#[test]
fn build_sync_command_empty_extra_flags() {
    let cmd = build_sync_command("a/b.txt", ".", "user@host", "/remote", "").unwrap();
    assert_eq!(cmd.flags, "-av");
    assert_eq!(cmd.source, "./a/b.txt");
    assert_eq!(cmd.dest, "user@host:/remote/a");
}

#[test]
fn build_sync_command_rejects_no_separator() {
    assert_eq!(
        build_sync_command("README.md", ".", "u@h", "/srv", "").err(),
        Some(SyncError::MalformedPathError)
    );
}

#[test]
fn is_dry_run_is_an_exact_match() {
    assert!(is_dry_run("n"));
    assert!(!is_dry_run(""));
    assert!(!is_dry_run("nv"));
    assert!(!is_dry_run("an"));
}
