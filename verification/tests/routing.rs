use minihttp::connection::default_routes;
use minihttp::http::HttpMethod;
use minihttp::router::HandlerKind;
use minihttp::router::Router;
use minihttp::router::pattern_matches;

#[test]
fn default_routes_resolve_each_endpoint() {
    let routes = default_routes();
    assert_eq!(
        routes.resolve(b"/", HttpMethod::Get),
        Some(HandlerKind::Root)
    );
    assert_eq!(
        routes.resolve(b"/echo/abc", HttpMethod::Get),
        Some(HandlerKind::Echo)
    );
    assert_eq!(
        routes.resolve(b"/user-agent", HttpMethod::Get),
        Some(HandlerKind::UserAgent)
    );
    assert_eq!(
        routes.resolve(b"/files/a1_b", HttpMethod::Get),
        Some(HandlerKind::FilesGet)
    );
    assert_eq!(
        routes.resolve(b"/files/a1_b", HttpMethod::Post),
        Some(HandlerKind::FilesPost)
    );
}

#[test]
fn unregistered_paths_and_methods_miss() {
    let routes = default_routes();
    assert_eq!(routes.resolve(b"/unregistered-path", HttpMethod::Get), None);
    assert_eq!(routes.resolve(b"/unregistered-path", HttpMethod::Post), None);
    assert_eq!(routes.resolve(b"/echo/abc", HttpMethod::Post), None);
    assert_eq!(routes.resolve(b"/", HttpMethod::Post), None);
    assert_eq!(routes.resolve(b"/", HttpMethod::Invalid), None);
}

#[test]
fn wildcard_matches_one_word_segment() {
    assert!(pattern_matches(b"/echo/[str]", b"/echo/hello"));
    assert!(pattern_matches(b"/echo/[str]", b"/echo/a_1B"));
    assert!(!pattern_matches(b"/echo/[str]", b"/echo/"));
    assert!(!pattern_matches(b"/echo/[str]", b"/echo"));
    assert!(!pattern_matches(b"/echo/[str]", b"/echo/a/b"));
    assert!(!pattern_matches(b"/echo/[str]", b"/echo/a-b"));
    assert!(!pattern_matches(b"/echo/[str]", b"xx/echo/ab"));
}

#[test]
fn literal_patterns_match_exactly() {
    assert!(pattern_matches(b"/user-agent", b"/user-agent"));
    assert!(!pattern_matches(b"/user-agent", b"/user-agent/"));
    assert!(!pattern_matches(b"/user-agent", b"/user-agentx"));
    assert!(!pattern_matches(b"/user-agent", b"/USER-AGENT"));
}

#[test]
fn first_registered_pattern_wins() {
    let routes = Router::new()
        .register(b"/a/[str]", HttpMethod::Get, HandlerKind::Echo)
        .register(b"/a/b", HttpMethod::Get, HandlerKind::Root);
    assert_eq!(
        routes.resolve(b"/a/b", HttpMethod::Get),
        Some(HandlerKind::Echo)
    );

    let flipped = Router::new()
        .register(b"/a/b", HttpMethod::Get, HandlerKind::Root)
        .register(b"/a/[str]", HttpMethod::Get, HandlerKind::Echo);
    assert_eq!(
        flipped.resolve(b"/a/b", HttpMethod::Get),
        Some(HandlerKind::Root)
    );
}

#[test]
fn method_miss_keeps_scanning_later_entries() {
    let routes = Router::new()
        .register(b"/a/[str]", HttpMethod::Post, HandlerKind::FilesPost)
        .register(b"/a/b", HttpMethod::Get, HandlerKind::Root);
    assert_eq!(
        routes.resolve(b"/a/b", HttpMethod::Get),
        Some(HandlerKind::Root)
    );
    assert_eq!(
        routes.resolve(b"/a/b", HttpMethod::Post),
        Some(HandlerKind::FilesPost)
    );
}

#[test]
fn registering_same_pattern_merges_methods() {
    let routes = Router::new()
        .register(b"/files/[str]", HttpMethod::Get, HandlerKind::FilesGet)
        .register(b"/files/[str]", HttpMethod::Post, HandlerKind::FilesPost);
    assert_eq!(routes.entries.len(), 1);
    assert_eq!(
        routes.resolve(b"/files/x", HttpMethod::Get),
        Some(HandlerKind::FilesGet)
    );
    assert_eq!(
        routes.resolve(b"/files/x", HttpMethod::Post),
        Some(HandlerKind::FilesPost)
    );
}
