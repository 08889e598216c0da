use http_decode::method::Method;
use http_decode::website_handler::{Route, WebsiteHandler};

fn file(r: Route) -> Option<String> {
    match r {
        Route::File(f) => Some(f),
        _ => None,
    }
}

#[test]
fn handler_keeps_public_path() {
    let h = WebsiteHandler::new("/srv/public".to_string());
    assert_eq!(h.public_path(), "/srv/public");
}

#[test]
fn file_location_joins_with_slash() {
    let h = WebsiteHandler::new("/srv/public".to_string());
    assert_eq!(h.file_location("index.html"), "/srv/public/index.html");
    assert_eq!(h.file_location("/style.css"), "/srv/public//style.css");
}

#[test]
fn canonical_path_must_lie_inside_public_directory() {
    let h = WebsiteHandler::new("/srv/public".to_string());
    assert!(h.is_inside("/srv/public/index.html"));
    assert!(h.is_inside("/srv/public"));
    assert!(!h.is_inside("/srv/publicity/index.html"));
    assert!(!h.is_inside("/etc/passwd"));
}

#[test]
fn routes_of_get_requests() {
    let h = WebsiteHandler::new("/srv/public".to_string());
    assert_eq!(file(h.route(Method::GET, "/")).as_deref(), Some("index.html"));
    assert_eq!(file(h.route(Method::GET, "/hello")).as_deref(), Some("hello.html"));
    assert_eq!(file(h.route(Method::GET, "/style.css")).as_deref(), Some("/style.css"));
    match h.route(Method::GET, "/test") {
        Route::Page(p) => assert_eq!(p, "<h1>Test page</h1>"),
        other => panic!("unexpected route {:?}", other),
    }
}

#[test]
fn other_methods_are_not_found() {
    let h = WebsiteHandler::new("/srv/public".to_string());
    assert!(matches!(h.route(Method::POST, "/"), Route::NotFound));
    assert!(matches!(h.route(Method::DELETE, "/hello"), Route::NotFound));
}
