use voxara_scan::filter::{build_filter_config, decide_dir, decide_file, normalize_extensions, normalize_list, should_include_file, should_skip_dir, FilterError, ScanFilters};
use voxara_scan::largest::{LargestFiles, ScanFile};
use voxara_scan::policy::{build_scan_config, resolve_parallelism, ScanOptions, ScanPriorityMode, ScanThrottleLevel, WalkParallelism};
use voxara_scan::registry::CancelRegistry;
use voxara_scan::session::{ScanAction, ScanPhase, ScanSession, WalkEvent};
use voxara_scan::snapshot::{ScanNode, ScanSummary};
use voxara_scan::tree::{EntryKind, WalkEntry};

fn no_filters() -> ScanFilters {
    ScanFilters {
        include_extensions: vec![],
        exclude_extensions: vec![],
        include_names: vec![],
        exclude_names: vec![],
        min_size_bytes: None,
        max_size_bytes: None,
        include_regex: None,
        exclude_regex: None,
        include_paths: vec![],
        exclude_paths: vec![],
    }
}

fn strings(v: &[&str]) -> Vec<String> {
    v.iter().map(|s| s.to_string()).collect()
}

fn entry(path: &str, depth: usize, kind: EntryKind, size: u64) -> WalkEntry {
    let name = path.rsplit('/').next().unwrap().to_string();
    let extension = match name.rfind('.') {
        Some(i) if i > 0 && kind == EntryKind::File => Some(name[i + 1..].to_string()),
        _ => None,
    };
    WalkEntry { path: path.to_string(), name, extension, depth, kind, size_bytes: size }
}

fn sample_tree() -> Vec<WalkEntry> {
    vec![
        entry("/r", 0, EntryKind::Dir, 0),
        entry("/r/a.txt", 1, EntryKind::File, 100),
        entry("/r/b.log", 1, EntryKind::File, 50),
        entry("/r/sub", 1, EntryKind::Dir, 0),
        entry("/r/sub/c.txt", 2, EntryKind::File, 10),
    ]
}

fn options(filters: ScanFilters) -> ScanOptions {
    ScanOptions { priority_mode: ScanPriorityMode::Balanced, throttle_level: ScanThrottleLevel::Off, filters }
}

fn run(filters: ScanFilters, entries: Vec<WalkEntry>) -> ScanSummary {
    let config = match build_scan_config(&options(filters), 4) {
        Ok(c) => c,
        Err(_) => panic!("filters rejected"),
    };
    let mut session = ScanSession::new("/r".to_string(), "r".to_string(), config);
    for e in entries {
        match session.step(WalkEvent::Entry(e), false, 0, 0) {
            ScanAction::Continue { .. } => {}
            _ => panic!("unexpected action"),
        }
    }
    match session.step(WalkEvent::Finished, false, 0, 7) {
        ScanAction::Complete(s) => s,
        _ => panic!("scan did not complete"),
    }
}

fn child<'a>(node: &'a ScanNode, name: &str) -> &'a ScanNode {
    node.children.iter().find(|c| c.name == name).unwrap()
}

#[test]
fn unfiltered_scan_totals() {
    let s = run(no_filters(), sample_tree());
    assert_eq!(s.total_bytes, 160);
    assert_eq!(s.file_count, 3);
    assert_eq!(s.dir_count, 1);
    assert_eq!(s.root.children.len(), 1);
    assert_eq!(s.root.children[0].name, "sub");
    assert_eq!(s.root.children[0].size_bytes, 10);
    assert_eq!(s.root.files.len(), 2);
    assert_eq!(s.duration_ms, 7);
    let sizes: Vec<u64> = s.largest_files.iter().map(|f| f.size_bytes).collect();
    assert_eq!(sizes, vec![100, 50, 10]);
}

#[test]
fn excluded_extension_is_omitted() {
    let mut f = no_filters();
    f.exclude_extensions = strings(&["log"]);
    let s = run(f, sample_tree());
    assert_eq!(s.total_bytes, 110);
    assert_eq!(s.file_count, 2);
    assert_eq!(child(&s.root, "sub").size_bytes, 10);
    assert_eq!(child(&s.root, "sub").file_count, 1);
}

#[test]
fn minimum_size_keeps_only_large_file() {
    let mut f = no_filters();
    f.min_size_bytes = Some(60);
    let s = run(f, sample_tree());
    assert_eq!(s.total_bytes, 100);
    assert_eq!(s.file_count, 1);
}

#[test]
fn include_extension_drops_unmatched_files() {
    let mut f = no_filters();
    f.include_extensions = strings(&["txt"]);
    let s = run(f, sample_tree());
    assert_eq!(s.total_bytes, 110);
    assert_eq!(s.file_count, 2);
}

#[test]
fn inverted_size_bounds_are_rejected() {
    let mut f = no_filters();
    f.min_size_bytes = Some(100);
    f.max_size_bytes = Some(50);
    assert!(matches!(build_filter_config(&f), Err(FilterError::InvalidSizeBounds)));
    assert!(matches!(build_scan_config(&options(f), 2), Err(FilterError::InvalidSizeBounds)));
}

#[test]
fn invalid_pattern_is_rejected() {
    let mut f = no_filters();
    f.exclude_regex = Some("(".to_string());
    assert!(matches!(build_filter_config(&f), Err(FilterError::InvalidPattern(_))));
}

#[test]
fn excluded_directory_prunes_its_subtree() {
    let mut f = no_filters();
    f.exclude_names = strings(&["SUB"]);
    let mut entries = sample_tree();
    entries.push(entry("/r/sub/deeper", 2, EntryKind::Dir, 0));
    entries.push(entry("/r/sub/deeper/d.txt", 3, EntryKind::File, 5));
    entries.push(entry("/r/e.txt", 1, EntryKind::File, 1));
    let s = run(f, entries);
    assert_eq!(s.total_bytes, 151);
    assert_eq!(s.file_count, 3);
    assert_eq!(s.dir_count, 0);
    assert!(s.root.children.is_empty());
}

#[test]
fn children_sorted_and_aggregated() {
    let entries = vec![
        entry("/r", 0, EntryKind::Dir, 0),
        entry("/r/small", 1, EntryKind::Dir, 0),
        entry("/r/small/x.bin", 2, EntryKind::File, 3),
        entry("/r/big", 1, EntryKind::Dir, 0),
        entry("/r/big/inner", 2, EntryKind::Dir, 0),
        entry("/r/big/inner/y.bin", 3, EntryKind::File, 40),
        entry("/r/big/z.bin", 2, EntryKind::File, 2),
    ];
    let s = run(no_filters(), entries);
    let names: Vec<&str> = s.root.children.iter().map(|c| c.name.as_str()).collect();
    assert_eq!(names, vec!["big", "small"]);
    assert_eq!(s.total_bytes, 45);
    assert_eq!(s.dir_count, 3);
    let big = child(&s.root, "big");
    assert_eq!(big.size_bytes, 42);
    assert_eq!(big.dir_count, 1);
    assert_eq!(big.file_count, 2);
    fn check(n: &ScanNode) {
        let own: u64 = n.files.iter().map(|f| f.size_bytes).sum();
        let kids: u64 = n.children.iter().map(|c| c.size_bytes).sum();
        assert_eq!(n.size_bytes, own + kids);
        let kid_dirs: u64 = n.children.iter().map(|c| c.dir_count).sum();
        assert_eq!(n.dir_count, n.children.len() as u64 + kid_dirs);
        n.children.iter().for_each(check);
    }
    check(&s.root);
}

#[test]
fn largest_files_bounded_and_sorted() {
    let mut set = LargestFiles::new();
    for size in [5u64, 0, 12, 7, 30, 1, 2, 3, 4, 6, 8, 9, 11] {
        set.update_largest_files(ScanFile { path: format!("/f{}", size), name: format!("f{}", size), size_bytes: size });
    }
    let sizes: Vec<u64> = set.files().iter().map(|f| f.size_bytes).collect();
    assert_eq!(sizes, vec![30, 12, 11, 9, 8, 7, 6, 5, 4, 3]);
    set.update_largest_files(ScanFile { path: "/small".into(), name: "small".into(), size_bytes: 3 });
    assert_eq!(set.files().len(), 10);
    assert!(set.files().iter().all(|f| f.name != "small"));
    set.update_largest_files(ScanFile { path: "/mid".into(), name: "mid".into(), size_bytes: 10 });
    let sizes: Vec<u64> = set.files().iter().map(|f| f.size_bytes).collect();
    assert_eq!(sizes, vec![30, 12, 11, 10, 9, 8, 7, 6, 5, 4]);
}

#[test]
fn cancellation_stops_the_session() {
    let config = build_scan_config(&options(no_filters()), 1).ok().unwrap();
    let mut session = ScanSession::new("/r".to_string(), "r".to_string(), config);
    let mut it = sample_tree().into_iter();
    assert!(matches!(session.step(WalkEvent::Entry(it.next().unwrap()), false, 0, 0), ScanAction::Continue { .. }));
    assert!(matches!(session.step(WalkEvent::Entry(it.next().unwrap()), true, 0, 0), ScanAction::Cancelled));
    assert_eq!(session.current_phase(), ScanPhase::Cancelled);
    assert!(matches!(session.step(WalkEvent::Entry(it.next().unwrap()), false, 0, 0), ScanAction::Idle));
    assert!(matches!(session.step(WalkEvent::Finished, false, 0, 0), ScanAction::Idle));
}

#[test]
fn registry_restart_after_cancel() {
    let mut reg = CancelRegistry::new();
    let key = "main".to_string();
    let first = reg.begin(&key).unwrap();
    assert!(!reg.is_cancelled(first));
    reg.cancel(&key);
    assert!(reg.is_cancelled(first));
    let second = reg.begin(&key).unwrap();
    assert_ne!(first, second);
    assert!(!reg.is_cancelled(second));
    assert!(reg.is_cancelled(first));
    reg.cancel(&"other".to_string());
    assert!(!reg.is_cancelled(second));
    reg.retire(second);
    assert!(reg.is_cancelled(second));
}

#[test]
fn starting_again_cancels_previous_scan() {
    let mut reg = CancelRegistry::new();
    let key = "w".to_string();
    let a = reg.begin(&key).unwrap();
    let b = reg.begin(&key).unwrap();
    assert!(reg.is_cancelled(a));
    assert!(!reg.is_cancelled(b));
}

#[test]
fn progress_cadence_by_count() {
    let config = build_scan_config(&ScanOptions { priority_mode: ScanPriorityMode::Performance, throttle_level: ScanThrottleLevel::High, filters: no_filters() }, 8).ok().unwrap();
    assert_eq!(config.emit_every, 1200);
    assert_eq!(config.emit_interval_ms, 160);
    assert_eq!(config.throttle.map(|t| (t.every_entries, t.sleep_ms)), Some((250, 6)));
    let mut session = ScanSession::new("/r".to_string(), "r".to_string(), config);
    let mut progress = 0;
    let mut pauses = 0;
    for i in 0..2400u64 {
        let e = if i == 0 { entry("/r", 0, EntryKind::Dir, 0) } else { entry(&format!("/r/f{}.dat", i), 1, EntryKind::File, 1) };
        match session.step(WalkEvent::Entry(e), false, 0, 0) {
            ScanAction::Continue { pause_ms, progress: p } => {
                if p.is_some() { progress += 1; }
                if pause_ms > 0 { assert_eq!(pause_ms, 6); pauses += 1; }
            }
            _ => panic!("unexpected"),
        }
    }
    assert_eq!(progress, 2);
    assert_eq!(pauses, 9);
}

#[test]
fn progress_cadence_by_time() {
    let config = build_scan_config(&options(no_filters()), 8).ok().unwrap();
    let mut session = ScanSession::new("/r".to_string(), "r".to_string(), config);
    match session.step(WalkEvent::Entry(entry("/r", 0, EntryKind::Dir, 0)), false, 250, 0) {
        ScanAction::Continue { progress, .. } => assert!(progress.is_some()),
        _ => panic!("unexpected"),
    }
    match session.step(WalkEvent::Entry(entry("/r/a", 1, EntryKind::File, 1)), false, 249, 0) {
        ScanAction::Continue { progress, .. } => assert!(progress.is_none()),
        _ => panic!("unexpected"),
    }
}

#[test]
fn parallelism_by_priority() {
    assert_eq!(resolve_parallelism(ScanPriorityMode::Performance, 8), WalkParallelism::Pool(8));
    assert_eq!(resolve_parallelism(ScanPriorityMode::Balanced, 7), WalkParallelism::Pool(4));
    assert_eq!(resolve_parallelism(ScanPriorityMode::Balanced, 2), WalkParallelism::Serial);
    assert_eq!(resolve_parallelism(ScanPriorityMode::Low, 16), WalkParallelism::Serial);
    assert_eq!(resolve_parallelism(ScanPriorityMode::Performance, 1), WalkParallelism::Serial);
}

#[test]
fn normalization_cleans_and_dedups() {
    assert_eq!(normalize_extensions(&strings(&[" .LOG ", "log", "..Txt", "", " . "])), strings(&["log", "txt"]));
    assert_eq!(normalize_list(&strings(&[" Cache ", "cache", "Tmp", "  "])), strings(&["cache", "tmp"]));
}

#[test]
fn matching_is_case_insensitive() {
    let mut f = no_filters();
    f.include_names = strings(&["REPORT"]);
    let c = build_filter_config(&f).ok().unwrap();
    assert!(should_include_file(&"/x/Report.PDF".to_string(), &"Report.PDF".to_string(), &Some("PDF".to_string()), 3, &c));
    assert!(!should_include_file(&"/x/other.pdf".to_string(), &"other.pdf".to_string(), &Some("pdf".to_string()), 3, &c));
}

#[test]
fn regex_rules_match_lowercased_path() {
    let mut f = no_filters();
    f.include_regex = Some(r"\.txt$".to_string());
    f.exclude_paths = strings(&["/Skip/"]);
    let c = build_filter_config(&f).ok().unwrap();
    assert!(should_include_file(&"/A/B.TXT".to_string(), &"B.TXT".to_string(), &None, 1, &c));
    assert!(!should_include_file(&"/a/b.log".to_string(), &"b.log".to_string(), &None, 1, &c));
    assert!(!should_include_file(&"/skip/b.txt".to_string(), &"b.txt".to_string(), &None, 1, &c));
    assert!(should_skip_dir(false, &"/r/SKIP/".to_string(), &"SKIP".to_string(), &c));
    assert!(!should_skip_dir(true, &"/r/SKIP/".to_string(), &"SKIP".to_string(), &c));
}

#[test]
fn compiling_twice_classifies_alike() {
    let mut f = no_filters();
    f.exclude_extensions = strings(&["tmp"]);
    f.include_paths = strings(&["docs"]);
    let a = build_filter_config(&f).ok().unwrap();
    let b = build_filter_config(&f).ok().unwrap();
    for (p, n, e) in [("/docs/a.md", "a.md", "md"), ("/docs/b.tmp", "b.tmp", "tmp"), ("/x/c.md", "c.md", "md")] {
        let ext = Some(e.to_string());
        assert_eq!(
            should_include_file(&p.to_string(), &n.to_string(), &ext, 1, &a),
            should_include_file(&p.to_string(), &n.to_string(), &ext, 1, &b)
        );
    }
}

#[test]
fn pruned_subtree_stays_out_of_largest_files() {
    let mut f = no_filters();
    f.exclude_names = strings(&["skip"]);
    let entries = vec![
        entry("/r", 0, EntryKind::Dir, 0),
        entry("/r/skip", 1, EntryKind::Dir, 0),
        entry("/r/skip/big.bin", 2, EntryKind::File, 500),
        entry("/r/keep", 1, EntryKind::Dir, 0),
        entry("/r/keep/small.bin", 2, EntryKind::File, 5),
    ];
    let s = run(f, entries);
    assert_eq!(s.total_bytes, 5);
    assert_eq!(s.largest_files.len(), 1);
    assert_eq!(s.largest_files[0].name, "small.bin");
    assert_eq!(s.root.children.len(), 1);
    assert_eq!(s.root.children[0].name, "keep");
    assert_eq!(s.root.children[0].files.len(), 1);
}

#[test]
fn equal_sized_children_keep_discovery_order() {
    let entries = vec![
        entry("/r", 0, EntryKind::Dir, 0),
        entry("/r/first", 1, EntryKind::Dir, 0),
        entry("/r/first/a", 2, EntryKind::File, 4),
        entry("/r/second", 1, EntryKind::Dir, 0),
        entry("/r/second/b", 2, EntryKind::File, 4),
        entry("/r/third", 1, EntryKind::Dir, 0),
        entry("/r/third/c", 2, EntryKind::File, 9),
    ];
    let s = run(no_filters(), entries);
    let names: Vec<&str> = s.root.children.iter().map(|c| c.name.as_str()).collect();
    assert_eq!(names, vec!["third", "first", "second"]);
}

#[test]
fn unreadable_entries_change_nothing() {
    let config = build_scan_config(&options(no_filters()), 1).ok().unwrap();
    let mut session = ScanSession::new("/r".to_string(), "r".to_string(), config);
    for e in sample_tree() {
        assert!(matches!(session.step(WalkEvent::Unreadable, false, 0, 0), ScanAction::Continue { pause_ms: 0, progress: None }));
        assert!(matches!(session.step(WalkEvent::Entry(e), false, 0, 0), ScanAction::Continue { .. }));
    }
    match session.step(WalkEvent::Finished, false, 0, 0) {
        ScanAction::Complete(s) => {
            assert_eq!(s.total_bytes, 160);
            assert_eq!(s.file_count, 3);
        }
        _ => panic!("scan did not complete"),
    }
}

#[test]
fn error_messages() {
    assert_eq!(FilterError::InvalidSizeBounds.message(), "Min size cannot exceed max size");
    assert_eq!(FilterError::InvalidPattern("bad".to_string()).message(), "bad");
}

#[test]
fn decisions_on_lowered_values() {
    let mut f = no_filters();
    f.exclude_extensions = strings(&["LOG"]);
    f.exclude_paths = strings(&["/tmp/"]);
    f.min_size_bytes = Some(2);
    let c = build_filter_config(&f).ok().unwrap();
    assert!(decide_file(&"/r/a.txt".to_string(), &"a.txt".to_string(), &Some("txt".to_string()), 5, &c));
    assert!(!decide_file(&"/r/b.log".to_string(), &"b.log".to_string(), &Some("log".to_string()), 5, &c));
    assert!(!decide_file(&"/r/a.txt".to_string(), &"a.txt".to_string(), &Some("txt".to_string()), 1, &c));
    assert!(decide_dir(&"/r/tmp/".to_string(), &"tmp".to_string(), &c));
    assert!(!decide_dir(&"/r/keep".to_string(), &"keep".to_string(), &c));
}
