use http_server::dispatch::{prepare, Outcome};
use http_server::http::{HttpMethod, StatusCodes};
use http_server::router::Router;

fn table() -> Router<&'static str> {
    let mut router = Router::new();
    router.add_route(HttpMethod::Get, String::from("/"), "root");
    router.add_route(HttpMethod::Get, String::from("/user-agent"), "agent");
    router.add_route(HttpMethod::Get, String::from("/echo/:value"), "echo");
    router.add_route(HttpMethod::Get, String::from("/files/:filename"), "get-file");
    router.add_route(HttpMethod::Post, String::from("/files/:filename"), "post-file");
    router
}

fn key(m: &str, p: &str) -> (String, String) {
    (String::from(m), String::from(p))
}

#[test]
fn literal_routes_resolve_exactly_without_parameters() {
    let router = table();
    for (path, name) in [("/", "root"), ("/user-agent", "agent")] {
        let found = router.resolve(&String::from("GET"), &String::from(path)).unwrap();
        assert_eq!(found.route_key, key("GET", path));
        assert!(found.params.is_empty());
        assert_eq!(router.get_handler_by_endpoint(found.route_key), Some(&name));
    }
}

#[test]
fn trailing_capture_is_greedy() {
    let router = table();
    let found = router
        .parse_path_params(String::from("GET"), String::from("/echo/hello/world"))
        .unwrap();
    assert_eq!(found.route_key, key("GET", "/echo/:value"));
    assert_eq!(found.params, vec![(String::from("value"), String::from("hello/world"))]);
}

#[test]
fn capture_binds_one_segment() {
    let router = table();
    let found = router
        .parse_path_params(String::from("POST"), String::from("/files/report"))
        .unwrap();
    assert_eq!(found.route_key, key("POST", "/files/:filename"));
    assert_eq!(found.params, vec![(String::from("filename"), String::from("report"))]);
}

#[test]
fn unmatched_file_path_is_not_found() {
    let router = table();
    assert!(router
        .parse_path_params(String::from("GET"), String::from("/files"))
        .is_none());
    match prepare(&router, b"GET /files HTTP/1.1\r\n\r\n") {
        Outcome::Reply(resp) => {
            assert_eq!(resp.status_code, StatusCodes::NotFound);
            assert_eq!(resp.build(), b"HTTP/1.1 404 Not Found\r\n\r\n".to_vec());
        }
        Outcome::Invoke { .. } => panic!("expected a 404"),
    }
}

#[test]
fn method_must_match_exactly() {
    let router = table();
    assert!(router
        .parse_path_params(String::from("PUT"), String::from("/files/a"))
        .is_none());
    assert!(router
        .parse_path_params(String::from("get"), String::from("/echo/a"))
        .is_none());
}

#[test]
fn slashes_do_not_make_segments() {
    let router = table();
    let found = router
        .parse_path_params(String::from("GET"), String::from("//echo///a/"))
        .unwrap();
    assert_eq!(found.params, vec![(String::from("value"), String::from("a"))]);
}

#[test]
fn registering_twice_keeps_one_entry_with_the_second_handler() {
    let mut router: Router<&'static str> = Router::new();
    router.add_route(HttpMethod::Get, String::from("/echo/:value"), "first");
    router.add_route(HttpMethod::Get, String::from("/other"), "other");
    router.add_route(HttpMethod::Get, String::from("/echo/:value"), "second");
    assert_eq!(
        router.get_handler_by_endpoint(key("GET", "/echo/:value")),
        Some(&"second")
    );
    let found = router
        .parse_path_params(String::from("GET"), String::from("/echo/x"))
        .unwrap();
    assert_eq!(found.route_key, key("GET", "/echo/:value"));
    assert_eq!(router.get_handler_by_endpoint(key("GET", "/other")), Some(&"other"));
}

#[test]
fn first_registered_match_wins() {
    let mut router: Router<u32> = Router::new();
    router.add_route(HttpMethod::Get, String::from("/a/:x"), 1);
    router.add_route(HttpMethod::Get, String::from("/a/:y"), 2);
    let found = router
        .parse_path_params(String::from("GET"), String::from("/a/b"))
        .unwrap();
    assert_eq!(found.route_key, key("GET", "/a/:x"));
}

#[test]
fn unknown_key_has_no_handler() {
    let router = table();
    assert_eq!(router.get_handler_by_endpoint(key("GET", "/nowhere")), None);
}

#[test]
fn method_tokens() {
    assert_eq!(HttpMethod::Post.to_string(), "POST");
    assert_eq!(HttpMethod::Delete.to_string(), "DELETE");
    assert_eq!(HttpMethod::from("PUT"), HttpMethod::Put);
    assert_eq!(HttpMethod::from("PATCH"), HttpMethod::Get);
}
