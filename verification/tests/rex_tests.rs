use mockd::rex::{generate_regex_from_route, normalize_path, route_regex_source, Matcher};

#[test]
fn test_generate_regex_from_route() {
    let routes = vec![
        ("account/v1/user/{id}", "^account/v1/user/(\\w+)$"),
        (
            "account/v1/user/{id}/balance",
            "^account/v1/user/(\\w+)/balance$",
        ),
        ("product/v2/main/{id}", "^product/v2/main/(\\w+)$"),
    ];

    for (route, expected_regex) in routes {
        let regex_pattern = generate_regex_from_route(route).unwrap();
        assert_eq!(regex_pattern.as_str(), expected_regex);
    }
}

#[test]
fn test_routes_regex() {
    let routes = vec![
        ("account/v1/user/12345", "account/v1/user/{id}"),
        (
            "account/v1/user/harsh/balance",
            "account/v1/user/{id}/balance",
        ),
        ("product/v2/main/earphone", "product/v2/main/{id}"),
    ];

    for (url, route) in routes {
        let regex_pattern = generate_regex_from_route(route).unwrap();

        assert!(regex_pattern.is_match(url));
    }
}

#[test]
fn regex_source_agrees_with_engine() {
    let source = route_regex_source("account/v1/user/{id}");
    assert_eq!(source, "^account/v1/user/(\\w+)$");
    let re = regex::Regex::new(&source).unwrap();
    assert!(re.is_match("account/v1/user/42"));
    assert!(!re.is_match("account/v1/user/42/extra"));
}

#[test]
fn matcher_captures_one_per_placeholder() {
    let m = Matcher::compile("account/v1/user/{id}");
    let caps = m.matches("account/v1/user/12345").unwrap();
    assert_eq!(caps, vec!["12345".to_string()]);
    assert!(m.matches("account/v1/user/12345/extra").is_none());
    assert!(m.matches("account/v1/user/").is_none());

    let m2 = Matcher::compile("a/{x}/b/{y}");
    let caps2 = m2.matches("a/1/b/two_2").unwrap();
    assert_eq!(caps2, vec!["1".to_string(), "two_2".to_string()]);
}

#[test]
fn matcher_literals_are_verbatim_and_case_sensitive() {
    let m = Matcher::compile("health/check");
    assert!(m.matches("health/check").unwrap().is_empty());
    assert!(m.matches("health/Check").is_none());
    assert!(m.matches("health").is_none());
}

#[test]
fn placeholder_rejects_non_word_characters() {
    let m = Matcher::compile("user/{id}");
    assert!(m.matches("user/a-b").is_none());
    assert!(m.matches("user/a.b").is_none());
    assert!(m.matches("user/a_b").is_some());
    assert!(m.matches("user/AB9").is_some());
}

#[test]
fn normalize_strips_leading_and_trailing_slashes() {
    assert_eq!(normalize_path("/ping/"), "ping");
    assert_eq!(normalize_path("///a/b///"), "a/b");
    assert_eq!(normalize_path(""), "");
    assert_eq!(normalize_path("////"), "");
    assert_eq!(normalize_path("no/slash"), "no/slash");
}
