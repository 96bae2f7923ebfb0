use hyper_async_router::{MethodPolicy, RoutePattern, RouteTable, RouterError};

fn pattern(route: &str) -> RoutePattern {
    RoutePattern::compile(route).unwrap()
}

fn only(tokens: &[&str]) -> MethodPolicy {
    MethodPolicy::AllowOnly(tokens.iter().map(|t| t.to_string()).collect())
}

#[test]
fn policy_allow_any_allows_everything() {
    assert!(MethodPolicy::AllowAny.allows("GET"));
    assert!(MethodPolicy::AllowAny.allows("BREW"));
    assert!(MethodPolicy::AllowAny.allows(""));
}

#[test]
fn policy_allow_only_allows_the_listed() {
    let policy = only(&["GET", "HEAD"]);
    assert!(policy.allows("GET"));
    assert!(policy.allows("HEAD"));
    assert!(!policy.allows("POST"));
    assert!(!policy.allows("get"));
    assert!(!policy.allows("GE"));
}

#[test]
fn policy_well_formedness() {
    assert!(MethodPolicy::AllowAny.is_wf());
    assert!(only(&["GET"]).is_wf());
    assert!(!only(&[]).is_wf());
}

#[test]
fn register_appends_in_order() {
    let mut table: RouteTable<u32> = RouteTable::new();
    assert_eq!(table.len(), 0);
    assert_eq!(table.register(pattern("/a"), 1, MethodPolicy::AllowAny), Ok(()));
    assert_eq!(table.register(pattern("/b"), 2, only(&["GET"])), Ok(()));
    assert_eq!(table.len(), 2);
    assert_eq!(table.entry(0).unwrap().pattern().route(), "/a");
    assert_eq!(*table.entry(0).unwrap().handler(), 1);
    assert_eq!(table.entry(0).unwrap().policy(), &MethodPolicy::AllowAny);
    assert_eq!(table.entry(1).unwrap().pattern().route(), "/b");
    assert_eq!(*table.entry(1).unwrap().handler(), 2);
    assert_eq!(table.entry(1).unwrap().policy(), &only(&["GET"]));
    assert!(table.entry(2).is_none());
}

#[test]
fn register_rejects_duplicate_template() {
    let mut table: RouteTable<u32> = RouteTable::new();
    assert_eq!(table.register(pattern("/users/:id"), 1, MethodPolicy::AllowAny), Ok(()));
    assert_eq!(
        table.register(pattern("/users/:id"), 2, only(&["GET"])),
        Err(RouterError::DuplicateRoute)
    );
    assert_eq!(table.len(), 1);
    assert_eq!(*table.entry(0).unwrap().handler(), 1);
    assert!(table.contains_route(&"/users/:id".to_string()));
    assert!(!table.contains_route(&"/users/:name".to_string()));
}

#[test]
fn register_takes_templates_as_written() {
    let mut table: RouteTable<u32> = RouteTable::new();
    assert_eq!(table.register(pattern("/users"), 1, MethodPolicy::AllowAny), Ok(()));
    assert_eq!(table.register(pattern("users"), 2, MethodPolicy::AllowAny), Ok(()));
    assert_eq!(table.register(pattern("/users/:id"), 3, MethodPolicy::AllowAny), Ok(()));
    assert_eq!(table.register(pattern("/users/:name"), 4, MethodPolicy::AllowAny), Ok(()));
    assert_eq!(table.len(), 4);
}

#[test]
fn register_rejects_empty_method_set() {
    let mut table: RouteTable<u32> = RouteTable::new();
    assert_eq!(table.register(pattern("/a"), 1, only(&[])), Err(RouterError::EmptyMethodSet));
    assert_eq!(table.len(), 0);
}

#[test]
fn register_empty_method_set_comes_before_duplicate() {
    let mut table: RouteTable<u32> = RouteTable::new();
    assert_eq!(table.register(pattern("/a"), 1, MethodPolicy::AllowAny), Ok(()));
    assert_eq!(table.register(pattern("/a"), 2, only(&[])), Err(RouterError::EmptyMethodSet));
}

#[test]
fn recognize_returns_first_registered() {
    let mut table: RouteTable<&str> = RouteTable::new();
    table.register(pattern("/posts/:id"), "by id", MethodPolicy::AllowAny).unwrap();
    table.register(pattern("/posts/new"), "new", MethodPolicy::AllowAny).unwrap();
    let found = table.recognize("/posts/new").unwrap();
    assert_eq!(found.index, 0);
    assert_eq!(*found.entry.handler(), "by id");
    assert_eq!(found.params.find("id"), Some("new"));
}

#[test]
fn recognize_specific_before_general() {
    let mut table: RouteTable<&str> = RouteTable::new();
    table.register(pattern("/posts/new"), "new", MethodPolicy::AllowAny).unwrap();
    table.register(pattern("/posts/:id"), "by id", MethodPolicy::AllowAny).unwrap();
    let found = table.recognize("/posts/new").unwrap();
    assert_eq!(found.index, 0);
    assert_eq!(*found.entry.handler(), "new");
    assert_eq!(found.params.iter().count(), 0);
    let found = table.recognize("/posts/7").unwrap();
    assert_eq!(found.index, 1);
    assert_eq!(*found.entry.handler(), "by id");
    assert_eq!(found.params.find("id"), Some("7"));
}

#[test]
fn recognize_none_when_nothing_accepts() {
    let mut table: RouteTable<&str> = RouteTable::new();
    assert!(table.recognize("/").is_none());
    table.register(pattern("/posts/:id"), "by id", MethodPolicy::AllowAny).unwrap();
    assert!(table.recognize("/posts").is_none());
    assert!(table.recognize("/posts/1/2").is_none());
    assert!(table.recognize("/").is_none());
}

#[test]
fn recognize_ignores_the_method_policy() {
    let mut table: RouteTable<&str> = RouteTable::new();
    table.register(pattern("/a"), "get", only(&["GET"])).unwrap();
    table.register(pattern("a"), "any", MethodPolicy::AllowAny).unwrap();
    let found = table.recognize("/a").unwrap();
    assert_eq!(found.index, 0);
    assert_eq!(*found.entry.handler(), "get");
}
