use jolajoamemo::scan::{
    build_folder_tree, format_size, get_file_type, FolderRecord, ScanState,
};

#[test]
fn file_types_classify_by_lowered_extension() {
    assert_eq!(get_file_type("JPG"), "🖼️ 이미지");
    assert_eq!(get_file_type("mp4"), "🎬 동영상");
    assert_eq!(get_file_type("Zip"), "📦 압축파일");
    assert_eq!(get_file_type("rs"), "💻 코드");
    assert_eq!(get_file_type("weird"), "📎 기타");
    assert_eq!(get_file_type(""), "📎 기타");
}

#[test]
fn sizes_format_with_two_decimals_of_the_reached_unit() {
    assert_eq!(format_size(0), "0 B");
    assert_eq!(format_size(999), "999 B");
    assert_eq!(format_size(1024), "1.00 KB");
    assert_eq!(format_size(1536), "1.50 KB");
    assert_eq!(format_size(1048576), "1.00 MB");
    assert_eq!(format_size(5 * 1073741824), "5.00 GB");
}

fn record_file(state: &mut ScanState, name: &str, size: u64, ext: &str, modified: &str) {
    state.record_file(
        format!("/root/{}", name),
        name.to_string(),
        size,
        ext.to_string(),
        modified.to_string(),
    );
}

#[test]
fn a_scan_records_and_reports_totals() {
    let mut state = ScanState::start("/root");
    let (dir, depth) = state.next_dir().expect("the root is pending");
    assert_eq!(dir, "/root");
    assert_eq!(depth, 0);
    state.record_dir("/root/sub".to_string(), "sub", depth);
    record_file(&mut state, "a.jpg", 1000, "jpg", "2026-01-01");
    record_file(&mut state, ".hidden", 999, "", "2026-01-01");
    record_file(&mut state, "b.mp4", 5000, "mp4", "2026-01-01");
    let (sub, d2) = state.next_dir().expect("the subdirectory is pending");
    assert_eq!(sub, "/root/sub");
    assert_eq!(d2, 1);
    let result = state.finish("2025-01-01");
    assert_eq!(result.total_scanned, 2);
    assert_eq!(result.total_size, 6000);
    assert_eq!(result.total_folders, 1);
    assert!(!result.cancelled);
    assert_eq!(result.type_summary.len(), 2);
    assert_eq!(result.type_summary[0].0, "🖼️ 이미지");
    assert_eq!(result.type_summary[0].1.count, 1);
    assert_eq!(result.type_summary[0].1.total_size, 1000);
    // one sixth of the bytes, in basis points
    assert_eq!(result.type_summary[0].1.share_bp, 1666);
    assert_eq!(result.large_files.len(), 2);
    assert_eq!(result.large_files[0].name, "b.mp4");
    assert_eq!(result.videos.len(), 1);
}

#[test]
fn cancellation_halts_traversal_and_keeps_a_partial_result() {
    let mut state = ScanState::start("/root");
    let (_, depth) = state.next_dir().unwrap();
    record_file(&mut state, "before.txt", 100, "txt", "2026-01-01");
    state.record_dir("/root/sub".to_string(), "sub", depth);

    state.cancel();
    assert!(state.is_cancelled());

    // nothing offered after cancellation changes the recording
    record_file(&mut state, "after.txt", 900, "txt", "2026-01-01");
    state.record_dir("/root/late".to_string(), "late", depth);
    // and no further directory is handed out
    assert!(state.next_dir().is_none());

    let result = state.finish("2025-01-01");
    assert!(result.cancelled);
    assert_eq!(result.total_scanned, 1);
    assert_eq!(result.total_size, 100);
    assert_eq!(result.total_folders, 1);
}

#[test]
fn the_depth_limit_stops_queuing_not_counting() {
    let mut state = ScanState::start("/root");
    let _ = state.next_dir();
    state.record_dir("/root/deep".to_string(), "deep", 10);
    // counted as a folder, but never queued for reading
    assert!(state.next_dir().is_none());
    let result = state.finish("2025-01-01");
    assert_eq!(result.total_folders, 1);
}

#[test]
fn duplicates_group_large_files_by_size() {
    let mut state = ScanState::start("/root");
    let _ = state.next_dir();
    record_file(&mut state, "x1.bin", 2_000_000, "bin", "2026-01-01");
    record_file(&mut state, "x2.bin", 2_000_000, "bin", "2026-01-01");
    record_file(&mut state, "small1", 10, "", "2026-01-01");
    record_file(&mut state, "small2", 10, "", "2026-01-01");
    record_file(&mut state, "alone.bin", 3_000_000, "bin", "2026-01-01");
    let result = state.finish("2025-01-01");
    assert_eq!(result.duplicates.len(), 1);
    assert_eq!(result.duplicates[0].size, 2_000_000);
    assert_eq!(result.duplicates[0].files.len(), 2);
    assert_eq!(result.advice.duplicate_groups, 1);
    assert_eq!(result.advice.duplicate_saving, 2_000_000);
}

#[test]
fn old_large_files_are_reported_up_to_twenty() {
    let mut state = ScanState::start("/root");
    let _ = state.next_dir();
    record_file(&mut state, "old.big", 20_000_000, "bin", "2024-06-30");
    record_file(&mut state, "old.small", 10, "bin", "2024-06-30");
    record_file(&mut state, "new.big", 20_000_000, "bin", "2026-06-30");
    let result = state.finish("2025-07-01");
    assert_eq!(result.old_files.len(), 1);
    assert_eq!(result.old_files[0].name, "old.big");
    assert_eq!(result.advice.old_count, 1);
    assert_eq!(result.advice.old_total, 20_000_000);
}

fn folder(path: &str, name: &str, parent: Option<&str>, size: u64) -> FolderRecord {
    FolderRecord {
        path: path.to_string(),
        name: name.to_string(),
        parent: parent.map(|p| p.to_string()),
        file_count: 1,
        size,
        status: "complete".to_string(),
    }
}

#[test]
fn the_folder_tree_nests_children_largest_first() {
    let records = vec![
        folder("/r/a", "a", Some("/r"), 10),
        folder("/r/b", "b", Some("/r"), 30),
        folder("/r/a/c", "c", Some("/r/a"), 5),
        folder("/x", "x", None, 99),
    ];
    let tree = build_folder_tree(&records, "/r", 0, 3);
    assert_eq!(tree.len(), 2);
    assert_eq!(tree[0].name, "b");
    assert_eq!(tree[1].name, "a");
    assert_eq!(tree[1].children.len(), 1);
    assert_eq!(tree[1].children[0].name, "c");
    // the depth limit empties the children below it
    let shallow = build_folder_tree(&records, "/r", 0, 1);
    assert_eq!(shallow.len(), 2);
    assert!(shallow[0].children.is_empty());
}
