use mockd::app_state::ResponseFileType;
use mockd::cache::Cache;
use mockd::file_reader::{ConfigFormat, ScanEntry};
use mockd::file_watcher::{apply_reload, batch_qualifies, Debouncer, FsEventKind};
use mockd::json::JsonValue;
use mockd::request::{Response, RouteConfiguration};
use mockd::request_handler::{create_route_map, find_route};

fn entry(url: &str, path: &str) -> ScanEntry {
    ScanEntry {
        path: String::from(path),
        format: ConfigFormat::Json,
        config: Some(RouteConfiguration::new(
            None,
            None,
            String::from(url),
            None,
            Response::new(None, JsonValue::Null, None, None),
        )),
    }
}

#[test]
fn only_create_modify_remove_qualify() {
    assert!(batch_qualifies(&vec![FsEventKind::Create]));
    assert!(batch_qualifies(&vec![FsEventKind::Access, FsEventKind::Modify]));
    assert!(batch_qualifies(&vec![FsEventKind::Remove]));
    assert!(!batch_qualifies(&vec![]));
    assert!(!batch_qualifies(&vec![FsEventKind::Access, FsEventKind::Other]));
}

#[test]
fn debouncer_fires_once_after_the_quiet_window() {
    let mut d = Debouncer::new(2000);
    assert!(!d.poll(0));
    d.note_event(FsEventKind::Create, 1000);
    assert!(!d.poll(2999));
    assert!(d.poll(3000));
    assert!(!d.poll(3001));
}

#[test]
fn debouncer_batches_a_burst_into_one_decision() {
    let mut d = Debouncer::new(2000);
    d.note_event(FsEventKind::Create, 1000);
    d.note_event(FsEventKind::Modify, 1500);
    d.note_event(FsEventKind::Access, 2000);
    assert!(!d.poll(3400));
    assert!(d.poll(4000));
    assert!(!d.poll(9999));
}

#[test]
fn access_only_bursts_do_not_reload() {
    let mut d = Debouncer::new(100);
    d.note_event(FsEventKind::Access, 50);
    assert!(!d.poll(150));
    assert!(!d.poll(151));
}

#[test]
fn deadline_saturates_at_the_clock_maximum() {
    let mut d = Debouncer::new(u64::MAX);
    d.note_event(FsEventKind::Remove, 10);
    assert!(!d.poll(u64::MAX - 1));
    assert!(d.poll(u64::MAX));
}

#[test]
fn reload_makes_new_route_resolvable_and_empties_cache() {
    let mut table = create_route_map(vec![entry("old", "old.json")]);
    let mut cache = Cache::new(4);
    cache.insert(
        String::from("old"),
        RouteConfiguration::new(
            None,
            None,
            String::from("old"),
            None,
            Response::new(None, JsonValue::Null, None, None),
        ),
    );

    let scanned = create_route_map(vec![entry("fresh", "fresh.json"), entry("old", "old2.json")]);
    apply_reload(&mut table, &mut cache, scanned);

    let idx = find_route(&table, "fresh").expect("the new route resolves");
    assert_eq!(table.key_at(idx), "fresh");
    let old_idx = find_route(&table, "old").expect("the old route is kept");
    assert!(matches!(
        table.locator_at(old_idx).response_file_type,
        ResponseFileType::Json(ref p) if p == "old2.json"
    ));
    assert_eq!(cache.len(), 0);
    assert!(cache.get(String::from("old")).is_none());
}
