use h_analyzer_web::explorer::{Explorer, ExplorerTab};
use h_analyzer_web::error::RemoteError;
use h_analyzer_web::fs::{FsCache, Listing};
use h_analyzer_web::paths::get_filename;
use h_analyzer_web::series::{ElementKind, Sample, SeriesDelta, SeriesFeed, SeriesMeta, SeriesRegistry};
use h_analyzer_web::world::{WorldCatalog, WorldMeta};

fn points(n: u64) -> Vec<Sample> {
    (0..n).map(|i| Sample::Point { x: i, y: i }).collect()
}

fn meta(id: &str, kind: ElementKind) -> SeriesMeta {
    SeriesMeta { id: id.to_string(), kind }
}

#[test]
fn series_row_counts_follow_merge_policy() {
    let mut reg = SeriesRegistry::new();
    reg.register(&vec![meta("odom", ElementKind::Point)]);
    let mut counts = Vec::new();
    for d in [
        SeriesDelta::Append(points(5)),
        SeriesDelta::Append(points(3)),
        SeriesDelta::Reset,
        SeriesDelta::Append(points(2)),
    ] {
        reg.apply(0, d);
        counts.push(reg.buffer_at(0).rows.len());
    }
    assert_eq!(counts, vec![5, 8, 0, 2]);
}

#[test]
fn rows_of_another_kind_are_refused() {
    let mut reg = SeriesRegistry::new();
    reg.register(&vec![meta("pose", ElementKind::Pose)]);
    reg.apply(0, SeriesDelta::Append(vec![Sample::Pose { x: 1, y: 2, theta: 3 }]));
    reg.apply(0, SeriesDelta::Append(vec![Sample::Pose { x: 1, y: 2, theta: 3 }, Sample::Point { x: 0, y: 0 }]));
    assert_eq!(reg.buffer_at(0).rows.len(), 1);
}

#[test]
fn registration_creates_each_series_once() {
    let mut reg = SeriesRegistry::new();
    let added = reg.register(&vec![meta("a", ElementKind::Point), meta("b", ElementKind::Pose), meta("a", ElementKind::Pose)]);
    assert_eq!(added, 2);
    assert_eq!(reg.register(&vec![meta("b", ElementKind::Point)]), 0);
    assert_eq!(reg.len(), 2);
    let a = reg.series_buffer(&"a".to_string()).unwrap();
    assert_eq!(a.kind, ElementKind::Point);
    assert!(a.rows.is_empty());
    assert_eq!(reg.series_buffer(&"b".to_string()).unwrap().kind, ElementKind::Pose);
    assert!(reg.series_buffer(&"c".to_string()).is_none());
}

#[test]
fn feed_keeps_one_request_per_series() {
    let mut feed = SeriesFeed::new();
    assert!(feed.list_due());
    assert!(!feed.list_due());
    assert_eq!(feed.on_list(Ok(vec![meta("a", ElementKind::Point), meta("b", ElementKind::Point)])), 2);
    assert_eq!(feed.polls_due(), vec![0, 1]);
    assert_eq!(feed.polls_due(), Vec::<usize>::new());
    assert!(feed.list_due());
    assert_eq!(feed.on_list(Ok(vec![meta("a", ElementKind::Point), meta("c", ElementKind::Pose)])), 1);
    assert_eq!(feed.polls_due(), vec![2]);
    feed.on_delta(0, Ok(SeriesDelta::Append(points(4))));
    feed.on_delta(1, Err(RemoteError::Transport));
    assert_eq!(feed.registry().series_buffer(&"a".to_string()).unwrap().rows.len(), 4);
    assert_eq!(feed.registry().series_buffer(&"b".to_string()).unwrap().rows.len(), 0);
    assert_eq!(feed.polls_due(), vec![0, 1]);
    assert!(feed.list_due());
    assert_eq!(feed.on_list(Err(RemoteError::Transport)), 0);
    assert_eq!(feed.registry().len(), 3);
    assert!(feed.list_due());
}

fn listing(path: &str, dirs: &[&str], files: &[&str]) -> Listing {
    Listing {
        path: path.to_string(),
        directories: dirs.iter().map(|s| s.to_string()).collect(),
        files: files.iter().map(|s| s.to_string()).collect(),
    }
}

#[test]
fn default_path_replaces_root_and_is_listed() {
    let mut fs = FsCache::new("/".to_string());
    fs.on_default_path(Ok("/data".to_string()));
    assert_eq!(fs.current_path(), "/data");
    assert_eq!(fs.default_path(), "/data");
    assert_eq!(fs.listing_due(), Some("/data".to_string()));
    assert_eq!(fs.listing_due(), None);
    fs.on_listing(Ok(listing("", &["d"], &["f.csv"])));
    let l = fs.current_listing().unwrap();
    assert_eq!(l.path, "/data");
    assert_eq!(l.files, vec!["f.csv".to_string()]);
}

#[test]
fn failed_default_path_keeps_root() {
    let mut fs = FsCache::new("/".to_string());
    fs.on_default_path(Err(RemoteError::Transport));
    assert_eq!(fs.current_path(), "/");
    assert_eq!(fs.listing_due(), Some("/".to_string()));
}

#[test]
fn listing_for_left_path_is_dropped_and_failures_retry() {
    let mut fs = FsCache::new("/".to_string());
    assert_eq!(fs.listing_due(), Some("/".to_string()));
    fs.request_listing("/other".to_string());
    assert_eq!(fs.listing_due(), None);
    fs.on_listing(Ok(listing("/", &[], &[])));
    assert!(fs.current_listing().is_none());
    assert_eq!(fs.listing_due(), Some("/other".to_string()));
    fs.on_listing(Err(RemoteError::Transport));
    assert!(fs.current_listing().is_none());
    assert_eq!(fs.listing_due(), Some("/other".to_string()));
    fs.on_listing(Ok(listing("", &[], &["x"])));
    assert_eq!(fs.current_listing().unwrap().path, "/other");
}

#[test]
fn explorer_boxes_follow_listing() {
    let mut e = Explorer::default();
    assert_eq!(e.tab(), ExplorerTab::Filesystem);
    e.select_tab(ExplorerTab::Dataframe);
    assert_eq!(e.tab(), ExplorerTab::Dataframe);
    let l = listing("/data", &["run1", "run2"], &["a.csv"]);
    e.sync_with_listing(Some(&l));
    assert!(!e.is_checked(&"run1".to_string()));
    assert!(e.set_checked(&"run2".to_string(), true));
    assert!(!e.set_checked(&"missing".to_string(), true));
    e.sync_with_listing(Some(&l));
    assert!(e.is_checked(&"run2".to_string()));
    assert_eq!(e.selected_directory(&"/data".to_string(), &l), Some("/data/run2".to_string()));
    e.set_checked(&"run1".to_string(), true);
    assert_eq!(e.selected_directory(&"/data".to_string(), &l), None);
    e.sync_with_listing(None);
    assert!(!e.is_checked(&"run2".to_string()));
    assert_eq!(e.selected_directory(&"/data".to_string(), &l), None);
}

#[test]
fn explorer_paths() {
    assert_eq!(Explorer::go_up(&"/a/b".to_string()), Some("/a".to_string()));
    assert_eq!(Explorer::go_up(&"/".to_string()), None);
    assert_eq!(Explorer::enter(&"/a".to_string(), &"b".to_string()), "/a/b");
    assert_eq!(Explorer::open_file(&"/a".to_string(), &"x.csv".to_string()).filepath, "/a/x.csv");
    assert_eq!(get_filename("/a/b.csv"), Some("b.csv".to_string()));
    assert_eq!(get_filename("/"), None);
}

#[test]
fn world_catalog_refreshes_wholesale() {
    let mut cat = WorldCatalog::new();
    assert!(cat.update_world_list());
    assert!(!cat.update_world_list());
    cat.on_world_list(Ok(vec![WorldMeta { id: "slam".to_string(), total_frame_num: 3 }]));
    assert_eq!(cat.get_world_list().len(), 1);
    assert!(cat.update_world_list());
    cat.on_world_list(Err(RemoteError::Transport));
    assert_eq!(cat.get_world_list().len(), 1);
    assert!(cat.update_world_list());
    cat.on_world_list(Ok(Vec::new()));
    assert_eq!(cat.get_world_list().len(), 0);
}

#[test]
fn listing_settles_once_answered() {
    let mut fs = FsCache::new("/".to_string());
    assert!(!fs.listing_settled());
    assert!(fs.listing_due().is_some());
    assert!(!fs.listing_settled());
    fs.on_listing(Ok(listing("", &["d"], &[])));
    assert!(fs.listing_settled());
    fs.request_listing("/d".to_string());
    assert!(!fs.listing_settled());
}

#[test]
fn files_are_shown_in_ascending_order() {
    let l = listing("/d", &["z"], &["b.csv", "a.csv", "B.csv", "ab", "a"]);
    assert_eq!(
        Explorer::sorted_files(&l),
        vec!["B.csv".to_string(), "a".to_string(), "a.csv".to_string(), "ab".to_string(), "b.csv".to_string()]
    );
    assert!(Explorer::sorted_files(&listing("/", &[], &[])).is_empty());
}
