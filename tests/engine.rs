use layers::content::{check_displayable, is_binary_content};
use layers::diff::{compare_hashes, FileHash};
use layers::error::EngineError;
use layers::fingerprint::{directory_fingerprint, file_digest, file_fingerprint, read_plan, ReadPlan};
use layers::layer_ref::{layer_dir_name, parse_layer_number, resolve_layer};
use layers::lex::compare_paths;
use layers::progress::{ComparisonProgress, Stage};
use layers::records::file_item_of;
use layers::staging::{ExportStart, StagingRegistry};
use layers::text::{push_decimal, push_hex};
use layers::toc::{parse_line, scan_listing, ArchiveEntry};
use layers::tree::{DirectoryNode, LayerTree};
use std::cmp::Ordering;

fn fp(path: &str, hash: &str, size: u64) -> FileHash {
    FileHash { path: path.to_string(), hash: hash.to_string(), is_dir: false, size }
}

fn strings(v: &[&str]) -> Vec<String> {
    v.iter().map(|s| s.to_string()).collect()
}

fn listing(v: &[&str]) -> Vec<String> {
    strings(v)
}

fn summary(entries: &[ArchiveEntry]) -> Vec<(String, bool)> {
    entries.iter().map(|e| (e.path.clone(), e.is_dir)).collect()
}

#[test]
fn diff_scenario_added_modified_unchanged() {
    let a = vec![fp("etc/passwd", "fp1", 10), fp("bin/sh", "fp2", 20)];
    let b = vec![fp("etc/passwd", "fp1", 10), fp("bin/sh", "fp3", 20), fp("usr/lib", "fp4", 0)];
    let d = compare_hashes(a, b);
    assert_eq!(d.added, strings(&["usr/lib"]));
    assert!(d.removed.is_empty());
    assert_eq!(d.modified, strings(&["bin/sh"]));
    assert_eq!(d.unchanged, strings(&["etc/passwd"]));
}

#[test]
fn diff_partitions_union_of_paths() {
    let a = vec![fp("a", "1", 1), fp("b", "2", 2), fp("c", "3", 3)];
    let b = vec![fp("b", "2", 2), fp("c", "x", 3), fp("d", "4", 4)];
    let d = compare_hashes(a, b);
    let mut all: Vec<String> = Vec::new();
    all.extend(d.added.iter().cloned());
    all.extend(d.removed.iter().cloned());
    all.extend(d.modified.iter().cloned());
    all.extend(d.unchanged.iter().cloned());
    all.sort();
    assert_eq!(all, strings(&["a", "b", "c", "d"]));
    assert_eq!(d.added, strings(&["d"]));
    assert_eq!(d.removed, strings(&["a"]));
    assert_eq!(d.modified, strings(&["c"]));
    assert_eq!(d.unchanged, strings(&["b"]));
}

#[test]
fn diff_with_itself_is_all_unchanged() {
    let s = vec![fp("z", "1", 1), fp("a/b", "2", 2), fp("a", "directory", 0)];
    let d = compare_hashes(s.iter().map(|h| fp(&h.path, &h.hash, h.size)).collect(), s);
    assert!(d.added.is_empty());
    assert!(d.removed.is_empty());
    assert!(d.modified.is_empty());
    assert_eq!(d.unchanged, strings(&["a", "a/b", "z"]));
}

#[test]
fn diff_same_digest_different_size_is_modified() {
    let d = compare_hashes(vec![fp("f", "same", 1)], vec![fp("f", "same", 2)]);
    assert_eq!(d.modified, strings(&["f"]));
    assert!(d.unchanged.is_empty());
}

#[test]
fn diff_empty_snapshots() {
    let d = compare_hashes(Vec::new(), Vec::new());
    assert!(d.added.is_empty() && d.removed.is_empty() && d.modified.is_empty() && d.unchanged.is_empty());
    let d = compare_hashes(Vec::new(), vec![fp("x", "1", 1)]);
    assert_eq!(d.added, strings(&["x"]));
    let d = compare_hashes(vec![fp("x", "1", 1)], Vec::new());
    assert_eq!(d.removed, strings(&["x"]));
}

#[test]
fn diff_later_record_of_a_path_wins() {
    let a = vec![fp("f", "old", 1), fp("f", "new", 1)];
    let b = vec![fp("f", "new", 1)];
    let d = compare_hashes(a, b);
    assert_eq!(d.unchanged, strings(&["f"]));
    assert!(d.modified.is_empty());
}

#[test]
fn diff_output_is_sorted() {
    let b = vec![fp("zeta", "1", 1), fp("alpha", "1", 1), fp("mid/x", "1", 1), fp("Mid", "1", 1)];
    let d = compare_hashes(Vec::new(), b);
    assert_eq!(d.added, strings(&["Mid", "alpha", "mid/x", "zeta"]));
}

#[test]
fn compare_paths_orders_like_str() {
    assert_eq!(compare_paths("a", "b"), Ordering::Less);
    assert_eq!(compare_paths("ab", "a"), Ordering::Greater);
    assert_eq!(compare_paths("same", "same"), Ordering::Equal);
    assert_eq!(compare_paths("é", "z"), "é".cmp("z"));
}

#[test]
fn parse_line_rules() {
    assert_eq!(parse_line("etc/"), Some(("etc".to_string(), true)));
    assert_eq!(parse_line("  etc/passwd \r"), Some(("etc/passwd".to_string(), false)));
    assert_eq!(parse_line("./"), None);
    assert_eq!(parse_line("."), None);
    assert_eq!(parse_line("   "), None);
    assert_eq!(parse_line("usr//"), Some(("usr".to_string(), true)));
}

#[test]
fn scan_synthesizes_missing_ancestors() {
    let e = scan_listing(&listing(&["./", "a/b/c.txt", "etc/", "etc/hosts"]));
    assert_eq!(
        summary(&e),
        vec![
            ("a".to_string(), true),
            ("a/b".to_string(), true),
            ("a/b/c.txt".to_string(), false),
            ("etc".to_string(), true),
            ("etc/hosts".to_string(), false),
        ]
    );
}

#[test]
fn scan_deduplicates_paths() {
    let e = scan_listing(&listing(&["bin/", "bin/sh", "bin/", "bin/sh"]));
    assert_eq!(summary(&e), vec![("bin".to_string(), true), ("bin/sh".to_string(), false)]);
}

#[test]
fn scan_twice_gives_same_entries() {
    let lines = listing(&["x/y/z", "q", "x/"]);
    assert_eq!(summary(&scan_listing(&lines)), summary(&scan_listing(&lines)));
}

#[test]
fn scan_of_its_own_output_is_unchanged() {
    let first = scan_listing(&listing(&["a/b/c", "d/e", "f"]));
    let rendered: Vec<String> = first
        .iter()
        .map(|e| if e.is_dir { format!("{}/", e.path) } else { e.path.clone() })
        .collect();
    let second = scan_listing(&rendered);
    assert_eq!(summary(&first), summary(&second));
}

#[test]
fn scan_of_empty_listing_is_empty() {
    assert!(scan_listing(&Vec::new()).is_empty());
}

fn names(nodes: &[DirectoryNode]) -> Vec<String> {
    nodes.iter().map(|n| n.relative_path.clone()).collect()
}

fn sample_tree() -> LayerTree {
    LayerTree::from_listing(&listing(&["etc/", "etc/passwd", "etc/ssl/certs/ca.pem", "bin/sh", "usr/lib/x.so", "README"]))
}

#[test]
fn list_top_level_from_table_of_contents() {
    let t = sample_tree();
    let top = t.list_children("").unwrap();
    assert_eq!(names(&top), strings(&["README", "bin", "etc", "usr"]));
    let etc = top.iter().find(|n| n.relative_path == "etc").unwrap();
    assert!(etc.is_directory);
    assert_eq!(etc.child_count, 2);
    assert!(etc.pending);
    assert!(!etc.extracted);
    let readme = top.iter().find(|n| n.relative_path == "README").unwrap();
    assert!(!readme.is_directory);
    assert_eq!(readme.child_count, 0);
}

#[test]
fn list_children_of_nested_directory() {
    let t = sample_tree();
    let etc = t.list_children("etc").unwrap();
    assert_eq!(names(&etc), strings(&["etc/passwd", "etc/ssl"]));
    assert!(matches!(t.list_children("nope"), Err(EngineError::SubtreeNotFound)));
}

#[test]
fn extraction_marks_ancestors() {
    let mut t = sample_tree();
    assert!(t.extract_subtree("etc/ssl/certs").is_ok());
    assert!(t.is_extracted("etc"));
    assert!(t.is_extracted("etc/ssl"));
    assert!(t.is_extracted("etc/ssl/certs"));
    assert!(t.is_extracted("etc/ssl/certs/ca.pem"));
    assert!(!t.is_extracted("etc/passwd"));
    assert!(!t.is_extracted("bin"));
}

#[test]
fn extraction_is_idempotent() {
    let mut t = sample_tree();
    t.extract_subtree("usr").unwrap();
    let once: Vec<(String, bool, bool)> = t
        .list_children("usr")
        .unwrap()
        .iter()
        .map(|n| (n.relative_path.clone(), n.extracted, n.pending))
        .collect();
    assert!(t.extract_subtree("usr").is_ok());
    let twice: Vec<(String, bool, bool)> = t
        .list_children("usr")
        .unwrap()
        .iter()
        .map(|n| (n.relative_path.clone(), n.extracted, n.pending))
        .collect();
    assert_eq!(once, twice);
    assert!(t.is_extracted("usr/lib/x.so"));
}

#[test]
fn extraction_of_unknown_path_fails() {
    let mut t = sample_tree();
    assert!(matches!(t.extract_subtree("var"), Err(EngineError::SubtreeNotFound)));
    assert!(!t.is_extracted("var"));
}

#[test]
fn pending_clears_under_extracted_parent() {
    let mut t = sample_tree();
    t.extract_subtree("etc").unwrap();
    let etc = t.list_children("etc").unwrap();
    assert!(etc.iter().all(|n| !n.pending));
    let top = t.list_children("").unwrap();
    let bin = top.iter().find(|n| n.relative_path == "bin").unwrap();
    assert!(bin.pending);
}

#[test]
fn extract_all_marks_everything() {
    let mut t = sample_tree();
    t.extract_all();
    for p in ["README", "bin", "bin/sh", "etc/ssl/certs/ca.pem", "usr/lib"] {
        assert!(t.is_extracted(p));
    }
}

#[test]
fn read_plan_small_file_reads_at_most_once() {
    assert!(matches!(read_plan(100), ReadPlan::Head { len: 100 }));
    assert!(matches!(read_plan(0), ReadPlan::Head { len: 0 }));
    assert!(matches!(read_plan(8192), ReadPlan::Head { len: 4096 }));
}

#[test]
fn read_plan_medium_file_reads_head_and_tail() {
    assert!(matches!(
        read_plan(8193),
        ReadPlan::HeadAndTail { head_len: 4096, tail_offset: 4097, tail_len: 4096 }
    ));
    assert!(matches!(read_plan(10485760), ReadPlan::HeadAndTail { .. }));
}

#[test]
fn read_plan_large_file_reads_nothing() {
    assert!(matches!(read_plan(10485761), ReadPlan::SizeOnly));
}

#[test]
fn digest_of_large_file_is_its_size() {
    assert_eq!(file_digest(10485761, &[], &[]), "size:10485761");
}

#[test]
fn digest_of_small_file_is_hex_and_content_sensitive() {
    let a = file_digest(3, b"abc", &[]);
    let b = file_digest(3, b"abd", &[]);
    assert!(!a.is_empty());
    assert!(a.chars().all(|c| c.is_ascii_hexdigit() && !c.is_ascii_uppercase()));
    assert_eq!(a, file_digest(3, b"abc", &[]));
    assert_ne!(a, b);
    assert_ne!(a, "3");
}

#[test]
fn fingerprints_of_files_and_directories() {
    let d = directory_fingerprint("etc".to_string());
    assert_eq!(d.hash, "directory");
    assert_eq!(d.size, 0);
    assert!(d.is_dir);
    let f = file_fingerprint("big".to_string(), 20000000, &[], &[]);
    assert_eq!(f.hash, "size:20000000");
    assert_eq!(f.size, 20000000);
    assert!(!f.is_dir);
}

#[test]
fn binary_content_detection() {
    assert!(!is_binary_content(b""));
    assert!(!is_binary_content(b"plain text\n"));
    assert!(is_binary_content(b"ab\0cd"));
    let mut thirty = vec![b'a'; 700];
    thirty.extend(vec![0xC3u8; 300]);
    assert!(!is_binary_content(&thirty));
    let mut over = vec![b'a'; 699];
    over.extend(vec![0xC3u8; 301]);
    assert!(is_binary_content(&over));
    let mut late = vec![b'a'; 1000];
    late.extend(vec![0xC3u8; 5000]);
    assert!(!is_binary_content(&late));
}

#[test]
fn layer_numbers() {
    assert_eq!(parse_layer_number("layer_12"), Some(12));
    assert_eq!(parse_layer_number("layer_0"), Some(0));
    assert_eq!(parse_layer_number("layer_"), None);
    assert_eq!(parse_layer_number("layer_1x"), None);
    assert_eq!(parse_layer_number("Layer_1"), None);
    assert_eq!(parse_layer_number("layer_99999999999999999999999"), None);
    assert_eq!(layer_dir_name(3), "layer_3");
}

#[test]
fn resolve_layer_range() {
    assert_eq!(resolve_layer("layer_1", 3).unwrap(), 1);
    assert_eq!(resolve_layer("layer_3", 3).unwrap(), 3);
    assert!(matches!(resolve_layer("layer_0", 3), Err(EngineError::InvalidLayerReference)));
    assert!(matches!(resolve_layer("layer_4", 3), Err(EngineError::InvalidLayerReference)));
    assert!(matches!(resolve_layer("abc", 3), Err(EngineError::InvalidLayerReference)));
}

#[test]
fn browse_before_and_after_export() {
    let mut reg = StagingRegistry::new();
    assert!(matches!(reg.browse("layer_2", ""), Err(EngineError::InvalidLayerReference)));
    assert_eq!(reg.begin_export(2, false).unwrap(), ExportStart::Started);
    assert!(matches!(reg.browse("layer_2", ""), Err(EngineError::InvalidLayerReference)));
    reg.finish_export(2, &listing(&["bin/sh", "etc/"])).unwrap();
    let top = reg.browse("layer_2", "").unwrap();
    assert_eq!(names(&top), strings(&["bin", "etc"]));
    assert!(matches!(reg.browse("layer_x", ""), Err(EngineError::InvalidLayerReference)));
}

#[test]
fn concurrent_export_is_rejected() {
    let mut reg = StagingRegistry::new();
    assert_eq!(reg.begin_export(1, false).unwrap(), ExportStart::Started);
    assert!(matches!(reg.begin_export(1, false), Err(EngineError::ExportInProgress)));
    assert!(matches!(reg.begin_export(1, true), Err(EngineError::ExportInProgress)));
    reg.finish_export(1, &listing(&["a"])).unwrap();
    assert_eq!(reg.begin_export(1, false).unwrap(), ExportStart::Reused);
    assert_eq!(reg.begin_export(1, true).unwrap(), ExportStart::Started);
    assert!(matches!(reg.finish_export(7, &listing(&["a"])), Err(EngineError::InvalidLayerReference)));
}

#[test]
fn abandoned_export_starts_afresh() {
    let mut reg = StagingRegistry::new();
    reg.begin_export(4, false).unwrap();
    reg.abandon_export(4);
    assert_eq!(reg.begin_export(4, false).unwrap(), ExportStart::Started);
}

#[test]
fn extract_through_registry() {
    let mut reg = StagingRegistry::new();
    assert!(matches!(reg.extract("layer_1", "etc"), Err(EngineError::InvalidLayerReference)));
    reg.begin_export(1, false).unwrap();
    reg.finish_export(1, &listing(&["etc/passwd"])).unwrap();
    assert!(reg.extract("layer_1", "etc").is_ok());
    let etc = reg.browse("layer_1", "etc").unwrap();
    assert!(etc[0].extracted);
    assert!(matches!(reg.extract("layer_1", "var"), Err(EngineError::SubtreeNotFound)));
}

#[test]
fn progress_is_monotone_through_the_pipeline() {
    let mut p = ComparisonProgress::new();
    let mut seen = vec![p.permille];
    for _ in 0..8 {
        let r = p.advance();
        seen.push(r.permille);
    }
    assert_eq!(seen, vec![0, 0, 250, 500, 600, 700, 800, 900, 1000]);
    assert_eq!(p.stage, Stage::Complete);
    let r = p.advance();
    assert!(r.is_complete);
    assert_eq!(r.permille, 1000);
}

#[test]
fn progress_failure_is_terminal() {
    let mut p = ComparisonProgress::new();
    p.advance();
    p.advance();
    let r = p.fail("tar failed".to_string());
    assert!(r.is_complete);
    assert_eq!(r.permille, 250);
    assert_eq!(r.error.as_deref(), Some("tar failed"));
    assert_eq!(p.stage, Stage::Failed);
    let r = p.advance();
    assert_eq!(p.stage, Stage::Failed);
    assert_eq!(r.permille, 250);
}

#[test]
fn decimal_and_hex_text() {
    let mut s = String::new();
    push_decimal(&mut s, 0);
    assert_eq!(s, "0");
    let mut s = String::from("n=");
    push_decimal(&mut s, 1234567890);
    assert_eq!(s, "n=1234567890");
    let mut s = String::new();
    push_hex(&mut s, 255);
    assert_eq!(s, "ff");
    let mut s = String::new();
    push_hex(&mut s, u64::MAX);
    assert_eq!(s, "ffffffffffffffff");
}

#[test]
fn file_items_of_nodes() {
    let t = sample_tree();
    let etc = t.list_children("etc").unwrap();
    let passwd = etc.iter().find(|n| n.relative_path == "etc/passwd").unwrap();
    let item = file_item_of(passwd, "/tmp/layers/layer_1/fs", Some("12B".to_string()));
    assert_eq!(item.name, "passwd");
    assert_eq!(item.file_type, "file");
    assert_eq!(item.path, "/tmp/layers/layer_1/fs/etc/passwd");
    assert_eq!(item.size.as_deref(), Some("pending"));
    let mut t = sample_tree();
    t.extract_subtree("etc").unwrap();
    let etc = t.list_children("etc").unwrap();
    let passwd = etc.iter().find(|n| n.relative_path == "etc/passwd").unwrap();
    let item = file_item_of(passwd, "/r", Some("12B".to_string()));
    assert_eq!(item.size.as_deref(), Some("12B"));
    let ssl = etc.iter().find(|n| n.relative_path == "etc/ssl").unwrap();
    let item = file_item_of(ssl, "/r", Some("1B".to_string()));
    assert_eq!(item.file_type, "directory");
    assert_eq!(item.size, None);
    assert_eq!(item.name, "ssl");
}

#[test]
fn overview_is_depth_limited() {
    let t = sample_tree();
    let o = t.overview(2);
    let rows: Vec<(String, usize, bool)> = o.iter().map(|e| (e.path.clone(), e.depth, e.more_available)).collect();
    assert_eq!(
        rows,
        vec![
            ("README".to_string(), 0, false),
            ("bin".to_string(), 0, false),
            ("bin/sh".to_string(), 1, false),
            ("etc".to_string(), 0, false),
            ("etc/passwd".to_string(), 1, false),
            ("etc/ssl".to_string(), 1, true),
            ("usr".to_string(), 0, false),
            ("usr/lib".to_string(), 1, true),
        ]
    );
    assert!(t.overview(0).is_empty());
    assert_eq!(t.overview(1).len(), 4);
    assert!(t.overview(1).iter().filter(|e| e.is_directory).all(|e| e.more_available));
}

#[test]
fn displayable_content() {
    assert!(check_displayable(5, b"hello").is_ok());
    assert!(matches!(check_displayable(5, b"he\0lo"), Err(EngineError::BinaryContentRejected)));
    assert!(matches!(check_displayable(10485761, b"text"), Err(EngineError::BinaryContentRejected)));
    assert!(check_displayable(10485760, b"text").is_ok());
}
