use hidouki::message::Method;
use hidouki::router::Router;

#[test]
fn registered_route_resolves_to_its_handler() {
    let mut router: Router<u32> = Router::new();
    router.route(String::from("/hello"), Method::Get, 1);
    router.route(String::from("/bye"), Method::Post, 2);
    assert_eq!(router.lookup(&String::from("/hello"), Method::Get), Some(&1));
    assert_eq!(router.lookup(&String::from("/bye"), Method::Post), Some(&2));
}

#[test]
fn re_registration_replaces_the_prior_handler() {
    let mut router: Router<u32> = Router::new();
    router.route(String::from("/hello"), Method::Get, 1);
    router.route(String::from("/hello"), Method::Get, 7);
    assert_eq!(router.lookup(&String::from("/hello"), Method::Get), Some(&7));
}

#[test]
fn unknown_path_does_not_resolve() {
    let mut router: Router<u32> = Router::new();
    router.route(String::from("/hello"), Method::Get, 1);
    assert_eq!(router.lookup(&String::from("/nope"), Method::Get), None);
}

#[test]
fn known_path_under_other_method_does_not_resolve() {
    let mut router: Router<u32> = Router::new();
    router.route(String::from("/hello"), Method::Get, 1);
    assert_eq!(router.lookup(&String::from("/hello"), Method::Post), None);
}

#[test]
fn empty_router_resolves_nothing() {
    let router: Router<u32> = Router::new();
    assert_eq!(router.lookup(&String::from("/"), Method::Get), None);
}

#[test]
fn shadowing_leaves_other_routes_alone() {
    let mut router: Router<u32> = Router::new();
    router.route(String::from("/a"), Method::Get, 1);
    router.route(String::from("/a"), Method::Post, 2);
    router.route(String::from("/b"), Method::Get, 3);
    router.route(String::from("/a"), Method::Get, 4);
    assert_eq!(router.lookup(&String::from("/a"), Method::Get), Some(&4));
    assert_eq!(router.lookup(&String::from("/a"), Method::Post), Some(&2));
    assert_eq!(router.lookup(&String::from("/b"), Method::Get), Some(&3));
}
