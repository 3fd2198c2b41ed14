use uhttp::router::{not_found, Dispatch, Method, Next, RouteTable, Router, Step, Target};
use uhttp::response::{Response, ResponseBody};

fn table() -> (Router, RouteTable) {
    let mut table = RouteTable::new();
    let app = Router::new_without_context();
    app.get(&mut table, "/foo", 0);
    app.post(&mut table, "/bar", 1);
    app.get(&mut table, "/fizz/:buzz", 2);
    app.any(&mut table, "/*", 3);
    (app, table)
}

fn pairs(d: &Dispatch) -> Vec<(String, String)> {
    d.params.clone()
}

#[test]
fn static_route_is_found_for_its_method() {
    let (_, t) = table();
    let d = t.dispatch(&vec![], &Method::Get, "/foo");
    assert_eq!(d.target, Target::Handler(0));
    assert!(d.params.is_empty());
}

#[test]
fn route_parameters_are_percent_decoded() {
    let (_, t) = table();
    let d = t.dispatch(&vec![], &Method::Get, "/fizz/hello%20w%C3%B6rld");
    assert_eq!(d.target, Target::Handler(2));
    assert_eq!(pairs(&d), vec![("buzz".to_string(), "hello wörld".to_string())]);
}

#[test]
fn invalid_percent_escapes_are_replaced() {
    let (_, t) = table();
    let d = t.dispatch(&vec![], &Method::Get, "/fizz/%FF%zz");
    assert_eq!(pairs(&d), vec![("buzz".to_string(), "\u{FFFD}%zz".to_string())]);
}

#[test]
fn other_methods_use_the_any_routes() {
    let (_, t) = table();
    let d = t.dispatch(&vec![], &Method::Options, "/foo");
    assert_eq!(d.target, Target::Handler(3));
    let d = t.dispatch(&vec![], &Method::Other("PURGE".to_string()), "/anything");
    assert_eq!(d.target, Target::Handler(3));
}

#[test]
fn any_routes_serve_every_routed_method_too() {
    let (_, t) = table();
    for m in [Method::Get, Method::Post, Method::Put, Method::Patch, Method::Delete] {
        let d = t.dispatch(&vec![], &m, "/somewhere/else");
        assert_eq!(d.target, Target::Handler(3));
    }
}

#[test]
fn a_route_for_one_method_does_not_serve_another() {
    let mut table = RouteTable::new();
    let app = Router::new();
    app.post(&mut table, "/bar", 1);
    let d = table.dispatch(&vec![7], &Method::Get, "/bar");
    assert_eq!(d.target, Target::NotFound);
    assert_eq!(d.middleware, vec![7]);
    let d = table.dispatch(&vec![7], &Method::Post, "/bar");
    assert_eq!(d.target, Target::Handler(1));
    assert_eq!(d.middleware, Vec::<usize>::new());
}

#[test]
fn base_paths_prefix_routes() {
    let mut table = RouteTable::new();
    let app = Router::new();
    let api = Router::extend(&app, "/api");
    assert_eq!(api.route("/"), "/api");
    assert_eq!(api.route("/users"), "/api/users");
    assert_eq!(app.route("/"), "/");
    api.get(&mut table, "/", 4);
    api.get(&mut table, "/users", 5);
    assert_eq!(table.dispatch(&vec![], &Method::Get, "/api").target, Target::Handler(4));
    assert_eq!(table.dispatch(&vec![], &Method::Get, "/api/users").target, Target::Handler(5));
    assert_eq!(table.dispatch(&vec![], &Method::Get, "/users").target, Target::NotFound);
}

#[test]
fn middleware_is_captured_when_a_route_is_registered() {
    let mut table = RouteTable::new();
    let mut app = Router::new();
    app.get(&mut table, "/open", 0);
    let guarded = app.with(10).with(11);
    guarded.get(&mut table, "/closed", 1);
    app.get(&mut table, "/later", 2);
    assert_eq!(table.dispatch(&vec![], &Method::Get, "/open").middleware, Vec::<usize>::new());
    assert_eq!(table.dispatch(&vec![], &Method::Get, "/closed").middleware, vec![10, 11]);
    assert_eq!(table.dispatch(&vec![], &Method::Get, "/later").middleware, vec![10]);
}

#[test]
fn with_applies_to_the_router_it_is_called_on() {
    let mut table = RouteTable::new();
    let mut app = Router::new();
    app.with(7);
    app.get(&mut table, "/", 0);
    let d = table.dispatch(&vec![], &Method::Get, "/");
    assert_eq!(d.middleware, vec![7]);
    assert_eq!(d.target, Target::Handler(0));
    assert_eq!(app.middleware_ids(), &vec![7]);
}

#[test]
fn a_method_without_routes_is_not_found() {
    let mut table = RouteTable::new();
    let app = Router::new();
    app.get(&mut table, "/foo", 0);
    let d = table.dispatch(&vec![3], &Method::Head, "/foo");
    assert_eq!(d.target, Target::NotFound);
    assert_eq!(d.middleware, vec![3]);
}

#[test]
fn registering_a_route_again_replaces_it() {
    let mut table = RouteTable::new();
    let app = Router::new();
    app.get(&mut table, "/x", 0);
    app.get(&mut table, "/x", 1);
    assert_eq!(table.dispatch(&vec![], &Method::Get, "/x").target, Target::Handler(1));
}

#[test]
fn a_snapshot_does_not_see_later_routes() {
    let mut table = RouteTable::new();
    let app = Router::new();
    app.get(&mut table, "/x", 0);
    let frozen = table.snapshot();
    app.get(&mut table, "/y", 1);
    assert_eq!(frozen.dispatch(&vec![], &Method::Get, "/x").target, Target::Handler(0));
    assert_eq!(frozen.dispatch(&vec![], &Method::Get, "/y").target, Target::NotFound);
    assert_eq!(table.dispatch(&vec![], &Method::Get, "/y").target, Target::Handler(1));
}

#[test]
fn the_chain_runs_middleware_in_order_then_the_target() {
    let mut next = Next::new(vec![3, 1, 2], Target::Handler(9));
    let mut steps = Vec::new();
    for _ in 0..5 {
        let (step, rest) = next.run();
        steps.push(step);
        next = rest;
    }
    assert_eq!(
        steps,
        vec![
            Step::Middleware(3),
            Step::Middleware(1),
            Step::Middleware(2),
            Step::Run(Target::Handler(9)),
            Step::Run(Target::Handler(9)),
        ]
    );
}

#[test]
fn a_dispatch_becomes_a_chain() {
    let (_, t) = table();
    let d = t.dispatch(&vec![5], &Method::Get, "/nowhere-at-all");
    let next = Next::from_dispatch(&d);
    let (step, _) = next.run();
    assert_eq!(step, Step::Run(d.target));
}

#[test]
fn not_found_is_404_with_an_empty_body() {
    let r = not_found(Response::new().header("x-a", "1")).unwrap();
    assert_eq!(r.status, 404);
    assert_eq!(r.headers.len(), 1);
    assert!(matches!(r.body, ResponseBody::Bytes(ref b) if b.is_empty()));
}
