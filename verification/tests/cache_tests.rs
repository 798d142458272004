use mockd::cache::Cache;
use mockd::json::JsonValue;
use mockd::request::{Response, RouteConfiguration};

fn config(url: &str, status: u16) -> RouteConfiguration {
    RouteConfiguration::new(
        None,
        None,
        String::from(url),
        None,
        Response::new(None, JsonValue::Null, Some(status), None),
    )
}

#[test]
fn get_returns_previously_stored_config() {
    let mut cache = Cache::new(2);
    cache.insert(String::from("a"), config("a", 201));
    let hit = cache.get(String::from("a")).unwrap();
    assert_eq!(hit.response.status_code, Some(201));
    assert!(cache.get(String::from("b")).is_none());
}

#[test]
fn capacity_plus_one_distinct_inserts_evict_lru() {
    let mut cache = Cache::new(2);
    cache.insert(String::from("a"), config("a", 200));
    cache.insert(String::from("b"), config("b", 200));
    cache.insert(String::from("c"), config("c", 200));
    assert!(cache.get(String::from("a")).is_none());
    assert!(cache.get(String::from("b")).is_some());
    assert!(cache.get(String::from("c")).is_some());
    assert_eq!(cache.len(), 2);
}

#[test]
fn get_refreshes_recency() {
    let mut cache = Cache::new(2);
    cache.insert(String::from("a"), config("a", 200));
    cache.insert(String::from("b"), config("b", 200));
    assert!(cache.get(String::from("a")).is_some());
    cache.insert(String::from("c"), config("c", 200));
    assert!(cache.get(String::from("b")).is_none());
    assert!(cache.get(String::from("a")).is_some());
    assert!(cache.get(String::from("c")).is_some());
}

#[test]
fn insert_existing_key_updates_without_eviction() {
    let mut cache = Cache::new(2);
    cache.insert(String::from("a"), config("a", 200));
    cache.insert(String::from("b"), config("b", 200));
    cache.insert(String::from("a"), config("a", 418));
    assert_eq!(cache.len(), 2);
    assert_eq!(
        cache.get(String::from("a")).unwrap().response.status_code,
        Some(418)
    );
    assert!(cache.get(String::from("b")).is_some());
}

#[test]
fn capacity_one_keeps_only_the_latest() {
    let mut cache = Cache::new(1);
    cache.insert(String::from("a"), config("a", 200));
    cache.insert(String::from("b"), config("b", 200));
    assert!(cache.get(String::from("a")).is_none());
    assert!(cache.get(String::from("b")).is_some());
    assert_eq!(cache.len(), 1);
}

#[test]
fn invalidate_clears_everything() {
    let mut cache = Cache::new(3);
    cache.insert(String::from("a"), config("a", 200));
    cache.insert(String::from("b"), config("b", 200));
    cache.invalidate();
    assert_eq!(cache.len(), 0);
    assert!(cache.get(String::from("a")).is_none());
    assert!(cache.get(String::from("b")).is_none());
}
