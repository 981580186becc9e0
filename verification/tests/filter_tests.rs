use arachne_incremental::changes::{ChangeOp, FileEvent};
use arachne_incremental::filter::{EventFilter, FilterError, GlobPattern};

fn event(op: ChangeOp, path: &str) -> FileEvent {
    FileEvent { op, path: path.to_string(), old_path: None, frn: 1, usn: 1, timestamp: None }
}

fn strings(v: &[&str]) -> Option<Vec<String>> {
    Some(v.iter().map(|s| s.to_string()).collect())
}

#[test]
fn no_criteria_accepts_everything() {
    let f = EventFilter::new(None, None, None).unwrap();
    assert!(f.matches(&event(ChangeOp::Deleted, "r/x")));
    assert!(f.matches(&event(ChangeOp::Renamed, "r/y")));
}

#[test]
fn ops_are_compared_ignoring_case() {
    let f = EventFilter::new(strings(&["CREATED", "Deleted"]), None, None).unwrap();
    assert!(f.matches(&event(ChangeOp::Created, "r/a")));
    assert!(f.matches(&event(ChangeOp::Deleted, "r/a")));
    assert!(!f.matches(&event(ChangeOp::Modified, "r/a")));
    assert!(!f.matches(&event(ChangeOp::Renamed, "r/a")));
}

#[test]
fn inclusion_by_path_or_file_name() {
    let f = EventFilter::new(None, strings(&["*.txt"]), None).unwrap();
    assert!(f.matches(&event(ChangeOp::Modified, "r/notes.txt")));
    assert!(!f.matches(&event(ChangeOp::Modified, "r/notes.md")));
    let g = EventFilter::new(None, strings(&["notes.?d"]), None).unwrap();
    assert!(g.matches(&event(ChangeOp::Modified, "r/sub/notes.md")));
    assert!(!g.matches(&event(ChangeOp::Modified, "r/sub/other.md")));
}

#[test]
fn exclusion_outweighs_inclusion() {
    let f = EventFilter::new(None, strings(&["*.txt"]), strings(&["secret*"])).unwrap();
    assert!(f.matches(&event(ChangeOp::Modified, "r/a.txt")));
    assert!(!f.matches(&event(ChangeOp::Modified, "r/secret.txt")));
}

#[test]
fn ops_and_patterns_combine() {
    let f = EventFilter::new(strings(&["modified"]), strings(&["*.log"]), None).unwrap();
    assert!(f.matches(&event(ChangeOp::Modified, "r/app.log")));
    assert!(!f.matches(&event(ChangeOp::Created, "r/app.log")));
    assert!(!f.matches(&event(ChangeOp::Modified, "r/app.txt")));
}

#[test]
fn invalid_inclusion_pattern_is_refused() {
    match EventFilter::new(None, strings(&["ok*", "[bad", "***"]), strings(&["[worse"])) {
        Err(FilterError::InvalidInclude { pattern }) => assert_eq!(pattern, "[bad"),
        _ => panic!("expected an invalid inclusion pattern"),
    }
}

#[test]
fn invalid_exclusion_pattern_is_refused() {
    match EventFilter::new(None, strings(&["*.txt"]), strings(&["a", "***"])) {
        Err(FilterError::InvalidExclude { pattern }) => assert_eq!(pattern, "***"),
        _ => panic!("expected an invalid exclusion pattern"),
    }
}

#[test]
fn glob_pattern_keeps_its_text() {
    let p = GlobPattern::new("d*g").unwrap();
    assert_eq!(p.as_str(), "d*g");
    assert!(GlobPattern::new("[").is_none());
}

#[test]
fn drive_paths_are_filtered_by_file_name() {
    let f = EventFilter::new(None, strings(&["*.txt"]), strings(&["secret*"])).unwrap();
    assert!(!f.matches(&event(ChangeOp::Modified, "C:/data/secret.txt")));
    assert!(f.matches(&event(ChangeOp::Modified, "C:/data/notes.txt")));
    assert!(!f.matches(&event(ChangeOp::Modified, "C:/data/notes.md")));
}

#[test]
fn verdict_with_a_given_file_name() {
    let f = EventFilter::new(None, strings(&["*.txt"]), strings(&["secret*"])).unwrap();
    let e = event(ChangeOp::Modified, r"\\?\C:\data\secret.txt");
    assert!(!f.matches_named(&e, "secret.txt"));
    let e = event(ChangeOp::Modified, r"\\?\C:\data\notes.txt");
    assert!(f.matches_named(&e, "notes.txt"));
    let e = event(ChangeOp::Modified, r"\\?\C:\data\notes.md");
    assert!(!f.matches_named(&e, "notes.md"));
    let g = EventFilter::new(strings(&["deleted"]), None, None).unwrap();
    assert!(!g.matches_named(&e, "notes.md"));
}

#[test]
fn empty_lists() {
    let e = event(ChangeOp::Created, "r/a.txt");
    assert!(!EventFilter::new(strings(&[]), None, None).unwrap().matches(&e));
    assert!(!EventFilter::new(None, strings(&[]), None).unwrap().matches(&e));
    assert!(EventFilter::new(None, None, strings(&[])).unwrap().matches(&e));
}

#[test]
fn widening_keeps_reports() {
    let e = event(ChangeOp::Created, "r/a.txt");
    let narrow = EventFilter::new(strings(&["created"]), strings(&["*.txt"]), strings(&["a*"]))
        .unwrap();
    let wide = EventFilter::new(strings(&["created", "deleted"]), strings(&["*.txt", "*.md"]), None)
        .unwrap();
    assert!(!narrow.matches(&e));
    assert!(wide.matches(&e));
    let e = event(ChangeOp::Created, "r/b.txt");
    assert!(narrow.matches(&e) && wide.matches(&e));
}

#[test]
fn backslash_patterns_without_double_star_compile() {
    assert!(GlobPattern::new(r"data\*.txt").is_some());
    assert!(EventFilter::new(None, strings(&[r"C:\data\*"]), None).is_ok());
}
