use mockd::cache::Cache;
use mockd::file_reader::{ConfigFormat, ScanEntry};
use mockd::json::JsonValue;
use mockd::request::{MethodConstraint, Response, RouteConfiguration};
use mockd::request_handler::{
    create_route_map, get_http_response_from_incoming_request, handle_request,
    insert_json_request_into_map, respond_after_load, DispatchError, HandleOutcome, LoadError,
};
use mockd::app_state::{ResponseFileType, RouteTable};

fn ping_config() -> RouteConfiguration {
    RouteConfiguration::new(
        None,
        None,
        String::from("ping"),
        None,
        Response::new(
            None,
            JsonValue::Obj(vec![(String::from("ok"), JsonValue::Bool(true))]),
            Some(200),
            None,
        ),
    )
}

fn ping_entry() -> ScanEntry {
    ScanEntry {
        path: String::from("ping.json"),
        format: ConfigFormat::Json,
        config: Some(ping_config()),
    }
}

#[test]
fn header_check_is_presence_only() {
    let config = RouteConfiguration::new(
        None,
        None,
        String::from("ping"),
        Some(vec![(String::from("X-Key"), String::from("secret"))]),
        Response::new(None, JsonValue::Null, None, None),
    );

    let no_headers: Vec<(String, String)> = vec![];
    let rejected =
        get_http_response_from_incoming_request(&config, "GET", &no_headers, "ping", "ping");
    match rejected {
        Err(DispatchError::MissingHeaders(msg)) => {
            assert_eq!(
                msg,
                "The request for URL ping is missing required headers: \
                 '{\"X-Key\": \"secret\"}'. The request had {} headers only"
            );
        }
        _ => panic!("expected a missing-headers rejection"),
    }

    let any_value = vec![(String::from("X-Key"), String::from("other"))];
    let accepted =
        get_http_response_from_incoming_request(&config, "GET", &any_value, "ping", "ping");
    assert!(accepted.is_ok());
}

#[test]
fn method_set_accepts_listed_and_rejects_others() {
    let config = RouteConfiguration::new(
        None,
        Some(MethodConstraint::Many(vec![
            String::from("GET"),
            String::from("POST"),
        ])),
        String::from("ping"),
        None,
        Response::new(None, JsonValue::Null, None, None),
    );
    let headers: Vec<(String, String)> = vec![];

    assert!(get_http_response_from_incoming_request(&config, "GET", &headers, "ping", "ping").is_ok());
    assert!(get_http_response_from_incoming_request(&config, "POST", &headers, "ping", "ping").is_ok());
    match get_http_response_from_incoming_request(&config, "DELETE", &headers, "ping", "ping") {
        Err(DispatchError::MethodNotAllowed(msg)) => {
            assert_eq!(msg, "DELETE method is not implemented for path: 'ping'");
        }
        _ => panic!("expected a method rejection"),
    }
}

#[test]
fn method_comparison_ignores_case() {
    let config = RouteConfiguration::new(
        None,
        Some(MethodConstraint::One(String::from("get"))),
        String::from("ping"),
        None,
        Response::new(None, JsonValue::Null, None, None),
    );
    let headers: Vec<(String, String)> = vec![];
    assert!(get_http_response_from_incoming_request(&config, "GET", &headers, "ping", "ping").is_ok());
    assert!(get_http_response_from_incoming_request(&config, "PUT", &headers, "ping", "ping").is_err());
}

#[test]
fn scan_of_one_file_yields_exactly_its_route() {
    let table = create_route_map(vec![ScanEntry {
        path: String::from("cfg/ping.json"),
        format: ConfigFormat::Json,
        config: Some(RouteConfiguration::new(
            None,
            None,
            String::from("/ping/"),
            None,
            Response::new(None, JsonValue::Null, None, None),
        )),
    }]);
    assert_eq!(table.len(), 1);
    assert_eq!(table.key_at(0), "ping");
    assert!(matches!(
        table.locator_at(0).response_file_type,
        ResponseFileType::Json(ref p) if p == "cfg/ping.json"
    ));
}

#[test]
fn scanning_unchanged_entries_twice_is_identical() {
    let entries = || {
        vec![
            ping_entry(),
            ScanEntry {
                path: String::from("broken.yaml"),
                format: ConfigFormat::Yaml,
                config: None,
            },
        ]
    };
    let a = create_route_map(entries());
    let b = create_route_map(entries());
    assert_eq!(a.len(), b.len());
    for i in 0..a.len() {
        assert_eq!(a.key_at(i), b.key_at(i));
    }
}

#[test]
fn failing_files_are_skipped_and_last_declaration_wins() {
    let table = create_route_map(vec![
        ScanEntry {
            path: String::from("bad.json"),
            format: ConfigFormat::Json,
            config: None,
        },
        ScanEntry {
            path: String::from("first.json"),
            format: ConfigFormat::Json,
            config: Some(ping_config()),
        },
        ScanEntry {
            path: String::from("second.yaml"),
            format: ConfigFormat::Yaml,
            config: Some(ping_config()),
        },
    ]);
    assert_eq!(table.len(), 1);
    assert_eq!(table.key_at(0), "ping");
    assert!(matches!(
        table.locator_at(0).response_file_type,
        ResponseFileType::Yaml(ref p) if p == "second.yaml"
    ));
}

#[test]
fn insert_json_request_normalizes_the_declared_url() {
    let mut table = RouteTable::new();
    let config = RouteConfiguration::new(
        None,
        None,
        String::from("//account/v1/user/{id}/"),
        None,
        Response::new(None, JsonValue::Null, None, None),
    );
    insert_json_request_into_map(config, String::from("u.json"), &mut table);
    assert_eq!(table.len(), 1);
    assert_eq!(table.key_at(0), "account/v1/user/{id}");
}

#[test]
fn end_to_end_ping_and_missing() {
    let table = create_route_map(vec![ping_entry()]);
    let mut cache = Cache::new(4);
    let headers: Vec<(String, String)> = vec![];

    // First request: the route resolves, but its configuration must be
    // loaded from disk.
    let outcome = handle_request(&table, &mut cache, "GET", &headers, "/ping");
    let (route, _idx) = match outcome {
        HandleOutcome::NeedsLoad(route, idx) => (route, idx),
        _ => panic!("expected a load request"),
    };
    assert_eq!(route, "ping");
    let d = respond_after_load(
        &mut cache,
        route,
        Ok(ping_config()),
        "ping.json",
        "GET",
        &headers,
        "ping",
    );
    assert_eq!(d.status_code, 200);
    assert_eq!(d.body, "{\"ok\":true}");
    assert!(d.headers.is_empty());
    assert_eq!(d.delay_ms, None);

    // Second request: served from the cache.
    match handle_request(&table, &mut cache, "GET", &headers, "/ping") {
        HandleOutcome::Done(d2) => {
            assert_eq!(d2.status_code, 200);
            assert_eq!(d2.body, "{\"ok\":true}");
        }
        _ => panic!("expected a cached response"),
    }

    // A path no route matches gets the diagnostic.
    match handle_request(&table, &mut cache, "GET", &headers, "/missing") {
        HandleOutcome::Done(d3) => {
            assert_eq!(d3.status_code, 501);
            assert_eq!(d3.body, "Unable to find route for path: 'missing'");
        }
        _ => panic!("expected the no-route diagnostic"),
    }
}

#[test]
fn root_url_resolves_the_empty_pattern() {
    let table = create_route_map(vec![ScanEntry {
        path: String::from("root.json"),
        format: ConfigFormat::Json,
        config: Some(RouteConfiguration::new(
            None,
            None,
            String::from("/"),
            None,
            Response::new(None, JsonValue::Str(String::from("home")), None, None),
        )),
    }]);
    assert_eq!(table.key_at(0), "");
    let mut cache = Cache::new(2);
    let headers: Vec<(String, String)> = vec![];
    match handle_request(&table, &mut cache, "GET", &headers, "/") {
        HandleOutcome::NeedsLoad(route, idx) => {
            assert_eq!(route, "");
            assert_eq!(idx, 0);
        }
        _ => panic!("expected a load request for the root route"),
    }
}

#[test]
fn load_failures_yield_their_diagnostics() {
    let mut cache = Cache::new(2);
    let headers: Vec<(String, String)> = vec![];

    let io = respond_after_load(
        &mut cache,
        String::from("ping"),
        Err(LoadError::Io),
        "ping.json",
        "GET",
        &headers,
        "ping",
    );
    assert_eq!(io.status_code, 500);
    assert_eq!(io.body, "Unable to read file ping.json, for path: 'ping'");

    let parse = respond_after_load(
        &mut cache,
        String::from("ping"),
        Err(LoadError::Parse),
        "ping.json",
        "GET",
        &headers,
        "ping",
    );
    assert_eq!(parse.status_code, 500);
    assert_eq!(
        parse.body,
        "Unable to open file for read ping.json, for path: 'ping'"
    );
    assert_eq!(cache.len(), 0);
}

#[test]
fn response_declared_fields_are_kept() {
    let config = RouteConfiguration::new(
        Some(String::from("named")),
        None,
        String::from("thing"),
        None,
        Response::new(
            Some(vec![(String::from("X-Extra"), String::from("yes"))]),
            JsonValue::Arr(vec![JsonValue::Int(1), JsonValue::Int(2)]),
            Some(418),
            Some(250),
        ),
    );
    let headers: Vec<(String, String)> = vec![];
    let d = get_http_response_from_incoming_request(&config, "GET", &headers, "thing", "thing")
        .unwrap();
    assert_eq!(d.status_code, 418);
    assert_eq!(d.body, "[1,2]");
    assert_eq!(
        d.headers,
        vec![(String::from("X-Extra"), String::from("yes"))]
    );
    assert_eq!(d.delay_ms, Some(250));
}
