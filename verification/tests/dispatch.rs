use hyper_async_router::{Outcome, PatternError, Router, RouterError, Step};

fn handled<'a>(outcome: &'a Outcome<'a, &'static str>) -> (&'static str, Vec<(String, String)>, String) {
    match outcome {
        Outcome::Handle { handler, params, path } => (
            **handler,
            params.iter().map(|(k, v)| (k.to_string(), v.to_string())).collect(),
            path.clone(),
        ),
        Outcome::MethodNotAllowed => panic!("method not allowed"),
        Outcome::NotFound => panic!("not found"),
        Outcome::RewriteError => panic!("rewrite error"),
    }
}

fn pair(k: &str, v: &str) -> (String, String) {
    (k.to_string(), v.to_string())
}

#[test]
fn new_router_is_empty() {
    let router: Router<&str> = Router::new();
    assert_eq!(router.table().len(), 0);
    assert_eq!(router.mount_count(), 0);
    assert!(router.mount(0).is_none());
}

#[test]
fn static_route_reaches_its_handler() {
    let mut router: Router<&str> = Router::new();
    router.any("/", "index").unwrap();
    router.any("/users", "users").unwrap();
    router.any("/users/all", "all").unwrap();
    for method in ["GET", "POST", "BREW"] {
        assert_eq!(handled(&router.dispatch("/", method)), ("index", vec![], "/".to_string()));
        assert_eq!(handled(&router.dispatch("/users", method)), ("users", vec![], "/users".to_string()));
        assert_eq!(
            handled(&router.dispatch("/users/all", method)),
            ("all", vec![], "/users/all".to_string())
        );
    }
}

#[test]
fn static_route_is_shadowed_by_an_earlier_capture() {
    let mut router: Router<&str> = Router::new();
    router.any("/:anything", "capture").unwrap();
    router.any("/users", "users").unwrap();
    assert_eq!(
        handled(&router.dispatch("/users", "GET")),
        ("capture", vec![pair("anything", "users")], "/users".to_string())
    );
}

#[test]
fn named_capture_is_passed_to_the_handler() {
    let mut router: Router<&str> = Router::new();
    router.any("/users/:id", "user").unwrap();
    assert_eq!(
        handled(&router.dispatch("/users/42", "GET")),
        ("user", vec![pair("id", "42")], "/users/42".to_string())
    );
}

#[test]
fn wildcard_capture_is_passed_to_the_handler() {
    let mut router: Router<&str> = Router::new();
    router.any("/files/*rest", "files").unwrap();
    assert_eq!(
        handled(&router.dispatch("/files/a/b/c", "GET")),
        ("files", vec![pair("rest", "a/b/c")], "/files/a/b/c".to_string())
    );
}

#[test]
fn method_policy_is_enforced() {
    let mut router: Router<&str> = Router::new();
    router.add_with_methods("/widgets", "widgets", vec!["GET".to_string()]).unwrap();
    assert_eq!(handled(&router.dispatch("/widgets", "GET")).0, "widgets");
    let outcome = router.dispatch("/widgets", "POST");
    assert!(matches!(outcome, Outcome::MethodNotAllowed));
    assert_eq!(outcome.status(), Some(405));
    assert!(matches!(router.route("/widgets", "POST"), Step::MethodNotAllowed));
}

#[test]
fn method_not_allowed_does_not_fall_through_to_mounts() {
    let mut child: Router<&str> = Router::new();
    child.any("/", "child").unwrap();
    let mut router: Router<&str> = Router::new();
    router.get("/widgets", "widgets").unwrap();
    router.add_router("/widgets", child).unwrap();
    assert!(matches!(router.dispatch("/widgets", "POST"), Outcome::MethodNotAllowed));
}

#[test]
fn method_tokens_are_case_sensitive() {
    let mut router: Router<&str> = Router::new();
    router.get("/a", "a").unwrap();
    assert!(matches!(router.dispatch("/a", "get"), Outcome::MethodNotAllowed));
    assert_eq!(handled(&router.dispatch("/a", "GET")).0, "a");
}

#[test]
fn each_method_shorthand_allows_its_method_only() {
    let all = ["GET", "POST", "PUT", "OPTIONS", "HEAD", "DELETE", "CONNECT", "PATCH", "TRACE"];
    let mut router: Router<&str> = Router::new();
    router.get("/get", "GET").unwrap();
    router.post("/post", "POST").unwrap();
    router.put("/put", "PUT").unwrap();
    router.options("/options", "OPTIONS").unwrap();
    router.head("/head", "HEAD").unwrap();
    router.delete("/delete", "DELETE").unwrap();
    router.connect("/connect", "CONNECT").unwrap();
    router.patch("/patch", "PATCH").unwrap();
    router.trace("/trace", "TRACE").unwrap();
    for route in all {
        let path = format!("/{}", route.to_lowercase());
        for method in all {
            let outcome = router.dispatch(&path, method);
            if method == route {
                assert_eq!(handled(&outcome).0, route);
            } else {
                assert!(matches!(outcome, Outcome::MethodNotAllowed));
            }
        }
    }
}

#[test]
fn add_with_methods_allows_each_listed_method() {
    let mut router: Router<&str> = Router::new();
    router.add_with_methods("/x", "x", vec!["GET".to_string(), "PURGE".to_string()]).unwrap();
    assert_eq!(handled(&router.dispatch("/x", "GET")).0, "x");
    assert_eq!(handled(&router.dispatch("/x", "PURGE")).0, "x");
    assert!(matches!(router.dispatch("/x", "POST"), Outcome::MethodNotAllowed));
}

#[test]
fn add_reports_invalid_patterns() {
    let mut router: Router<&str> = Router::new();
    assert_eq!(router.any("", "x"), Err(RouterError::InvalidPattern(PatternError::Empty)));
    assert_eq!(router.get("/a//b", "x"), Err(RouterError::InvalidPattern(PatternError::EmptySegment)));
    assert_eq!(
        router.post("/*a/b", "x"),
        Err(RouterError::InvalidPattern(PatternError::WildcardNotLast))
    );
    assert_eq!(
        router.add_with_methods("/:a/:a", "x", vec!["GET".to_string()]),
        Err(RouterError::InvalidPattern(PatternError::DuplicateName))
    );
    assert_eq!(router.table().len(), 0);
}

#[test]
fn add_reports_duplicate_routes() {
    let mut router: Router<&str> = Router::new();
    assert_eq!(router.any("/a", "first"), Ok(()));
    assert_eq!(router.any("/a", "second"), Err(RouterError::DuplicateRoute));
    assert_eq!(router.get("/a", "third"), Err(RouterError::DuplicateRoute));
    assert_eq!(router.table().len(), 1);
    assert_eq!(handled(&router.dispatch("/a", "GET")).0, "first");
}

#[test]
fn add_reports_empty_method_set() {
    let mut router: Router<&str> = Router::new();
    assert_eq!(router.add_with_methods("/a", "x", vec![]), Err(RouterError::EmptyMethodSet));
    assert_eq!(
        router.add_with_methods("", "x", vec![]),
        Err(RouterError::InvalidPattern(PatternError::Empty))
    );
    assert_eq!(router.table().len(), 0);
}

#[test]
fn mount_reports_empty_prefix() {
    let mut router: Router<&str> = Router::new();
    assert_eq!(router.add_router("", Router::new()), Err(RouterError::EmptyPrefix));
    assert_eq!(router.mount_count(), 0);
}

#[test]
fn mount_reports_duplicate_prefix() {
    let mut first: Router<&str> = Router::new();
    first.any("/", "first").unwrap();
    let mut second: Router<&str> = Router::new();
    second.any("/", "second").unwrap();
    let mut router: Router<&str> = Router::new();
    assert_eq!(router.add_router("/api", first), Ok(()));
    assert!(router.has_prefix("/api"));
    assert!(!router.has_prefix("/ap"));
    assert_eq!(router.add_router("/api", second), Err(RouterError::DuplicateMount));
    assert_eq!(router.mount_count(), 1);
    assert_eq!(handled(&router.dispatch("/api", "GET")).0, "first");
}

#[test]
fn mounts_are_kept_in_order() {
    let mut a: Router<&str> = Router::new();
    a.any("/", "a").unwrap();
    let mut router: Router<&str> = Router::new();
    router.add_router("/a", a).unwrap();
    router.add_router("/b", Router::new()).unwrap();
    assert_eq!(router.mount_count(), 2);
    let (prefix, child) = router.mount(0).unwrap();
    assert_eq!(prefix, "/a");
    assert_eq!(child.table().len(), 1);
    let (prefix, child) = router.mount(1).unwrap();
    assert_eq!(prefix, "/b");
    assert_eq!(child.table().len(), 0);
    assert!(router.mount(2).is_none());
}

#[test]
fn mounted_router_sees_the_path_without_the_prefix() {
    let mut child: Router<&str> = Router::new();
    child.any("/ping", "ping").unwrap();
    child.any("/", "root").unwrap();
    let mut router: Router<&str> = Router::new();
    router.add_router("/api", child).unwrap();

    match router.route("/api/ping", "GET") {
        Step::Forward { mount, path } => {
            assert_eq!(mount, 0);
            assert_eq!(path, "/ping");
        }
        _ => panic!("not forwarded"),
    }
    assert_eq!(handled(&router.dispatch("/api/ping", "GET")), ("ping", vec![], "/ping".to_string()));

    match router.route("/api", "GET") {
        Step::Forward { mount, path } => {
            assert_eq!(mount, 0);
            assert_eq!(path, "/");
        }
        _ => panic!("not forwarded"),
    }
    assert_eq!(handled(&router.dispatch("/api", "GET")), ("root", vec![], "/".to_string()));
}

#[test]
fn prefix_is_taken_off_once() {
    let mut child: Router<&str> = Router::new();
    child.any("/api/ping", "inner").unwrap();
    child.any("/ping", "ping").unwrap();
    let mut router: Router<&str> = Router::new();
    router.add_router("/api", child).unwrap();
    assert_eq!(
        handled(&router.dispatch("/api/api/ping", "GET")),
        ("inner", vec![], "/api/ping".to_string())
    );
}

#[test]
fn own_routes_come_before_mounts() {
    let mut child: Router<&str> = Router::new();
    child.any("/ping", "child").unwrap();
    let mut router: Router<&str> = Router::new();
    router.add_router("/api", child).unwrap();
    router.any("/api/ping", "own").unwrap();
    assert_eq!(handled(&router.dispatch("/api/ping", "GET")).0, "own");
}

#[test]
fn longest_prefix_wins_whatever_the_order() {
    let mut a: Router<&str> = Router::new();
    a.any("/bc", "under /a").unwrap();
    let mut ab: Router<&str> = Router::new();
    ab.any("/c", "under /ab").unwrap();
    let mut router: Router<&str> = Router::new();
    router.add_router("/a", a).unwrap();
    router.add_router("/ab", ab).unwrap();
    match router.route("/abc", "GET") {
        Step::Forward { mount, path } => {
            assert_eq!(mount, 1);
            assert_eq!(path, "c");
        }
        _ => panic!("not forwarded"),
    }
    assert_eq!(handled(&router.dispatch("/abc", "GET")), ("under /ab", vec![], "c".to_string()));

    let mut a: Router<&str> = Router::new();
    a.any("/bc", "under /a").unwrap();
    let mut ab: Router<&str> = Router::new();
    ab.any("/c", "under /ab").unwrap();
    let mut router: Router<&str> = Router::new();
    router.add_router("/ab", ab).unwrap();
    router.add_router("/a", a).unwrap();
    match router.route("/abc", "GET") {
        Step::Forward { mount, path } => {
            assert_eq!(mount, 0);
            assert_eq!(path, "c");
        }
        _ => panic!("not forwarded"),
    }
    assert_eq!(handled(&router.dispatch("/abc", "GET")), ("under /ab", vec![], "c".to_string()));
    assert_eq!(handled(&router.dispatch("/a/bc", "GET")), ("under /a", vec![], "/bc".to_string()));
}

#[test]
fn longest_prefix_is_not_given_up_for_a_shorter_one() {
    let mut a: Router<&str> = Router::new();
    a.any("/bc", "under /a").unwrap();
    let mut router: Router<&str> = Router::new();
    router.add_router("/a", a).unwrap();
    router.add_router("/ab", Router::new()).unwrap();
    assert!(matches!(router.dispatch("/abc", "GET"), Outcome::NotFound));
}

#[test]
fn nested_mounts_rewrite_at_each_level() {
    let mut inner: Router<&str> = Router::new();
    inner.any("/:id/foobar/:bar", "inner").unwrap();
    let mut middle: Router<&str> = Router::new();
    middle.add_router("/v1", inner).unwrap();
    let mut router: Router<&str> = Router::new();
    router.add_router("/api", middle).unwrap();
    assert_eq!(
        handled(&router.dispatch("/api/v1/7/foobar/x", "GET")),
        ("inner", vec![pair("bar", "x"), pair("id", "7")], "/7/foobar/x".to_string())
    );
}

#[test]
fn unmatched_path_is_not_found() {
    let router: Router<&str> = Router::new();
    let outcome = router.dispatch("/nothing", "GET");
    assert!(matches!(outcome, Outcome::NotFound));
    assert_eq!(outcome.status(), Some(404));
    assert!(matches!(router.route("/nothing", "GET"), Step::NotFound));
    assert!(matches!(router.dispatch("", "GET"), Outcome::NotFound));
}

#[test]
fn unmatched_path_is_not_found_at_any_depth() {
    let mut inner: Router<&str> = Router::new();
    inner.any("/here", "inner").unwrap();
    let mut middle: Router<&str> = Router::new();
    middle.any("/there", "middle").unwrap();
    middle.add_router("/v1", inner).unwrap();
    let mut router: Router<&str> = Router::new();
    router.any("/top", "top").unwrap();
    router.add_router("/api", middle).unwrap();
    assert!(matches!(router.dispatch("/other", "GET"), Outcome::NotFound));
    assert!(matches!(router.dispatch("/api/other", "GET"), Outcome::NotFound));
    assert!(matches!(router.dispatch("/api/v1/other", "GET"), Outcome::NotFound));
    assert!(matches!(router.dispatch("/api/v1", "GET"), Outcome::NotFound));
    assert!(matches!(router.dispatch("/api/v1/here/more", "GET"), Outcome::NotFound));
    assert_eq!(handled(&router.dispatch("/api/v1/here", "GET")).0, "inner");
    assert_eq!(handled(&router.dispatch("/api/there", "GET")).0, "middle");
}

#[test]
fn malformed_rewritten_path_is_an_internal_error() {
    let mut child: Router<&str> = Router::new();
    child.any("/", "root").unwrap();
    let mut router: Router<&str> = Router::new();
    router.add_router("/api", child).unwrap();
    match router.route("/apix/y", "GET") {
        Step::Forward { mount, path } => {
            assert_eq!(mount, 0);
            assert_eq!(path, "x/y");
        }
        _ => panic!("not forwarded"),
    }
    let outcome = router.dispatch("/apix/y", "GET");
    assert!(matches!(outcome, Outcome::RewriteError));
    assert_eq!(outcome.status(), Some(500));
    assert!(matches!(router.dispatch("/api?x", "GET"), Outcome::RewriteError));
}

#[test]
fn well_formed_rewritten_path_goes_on() {
    let mut child: Router<&str> = Router::new();
    child.any("/:name", "named").unwrap();
    let mut router: Router<&str> = Router::new();
    router.add_router("/api", child).unwrap();
    assert_eq!(
        handled(&router.dispatch("/api/x?y", "GET")),
        ("named", vec![pair("name", "x?y")], "/x?y".to_string())
    );
    assert_eq!(
        handled(&router.dispatch("/apix", "GET")),
        ("named", vec![pair("name", "x")], "x".to_string())
    );
}

#[test]
fn handler_outcome_has_no_status() {
    let mut router: Router<&str> = Router::new();
    router.any("/", "index").unwrap();
    assert_eq!(router.dispatch("/", "GET").status(), None);
}
