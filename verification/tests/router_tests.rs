use httpcore::{Method, MethodSet, RouteError, Router};

fn get_only() -> MethodSet {
    let mut ms = MethodSet::new();
    ms.insert(Method::GET);
    ms
}

#[test]
fn methodset_bits_are_independent() {
    let all = [
        Method::GET,
        Method::POST,
        Method::PUT,
        Method::DELETE,
        Method::PATCH,
        Method::HEAD,
        Method::OPTIONS,
        Method::TRACE,
        Method::CONNECT,
    ];
    for inserted in all {
        let mut ms = MethodSet::new();
        ms.insert(inserted);
        for other in all {
            assert_eq!(ms.contains(other), other == inserted);
        }
        ms.remove(inserted);
        for other in all {
            assert!(!ms.contains(other));
        }
    }
}

#[test]
fn methodset_remove_leaves_others() {
    let mut ms = MethodSet::new();
    ms.insert(Method::GET);
    ms.insert(Method::POST);
    ms.insert(Method::CONNECT);
    ms.remove(Method::POST);
    assert!(ms.contains(Method::GET));
    assert!(!ms.contains(Method::POST));
    assert!(ms.contains(Method::CONNECT));
}

#[test]
fn register_rejects_bad_template() {
    let mut router = Router::new();
    assert!(!router.register(b"/a/{d}{}", get_only()));
    assert_eq!(router.routes.len(), 0);
    assert!(router.register(b"/a/{d}", get_only()));
    assert_eq!(router.routes.len(), 1);
}

#[test]
fn first_registered_route_wins() {
    let mut router = Router::new();
    assert!(router.register(b"/hello/{}", get_only()));
    assert!(router.register(b"/hello/{p}", get_only()));
    let (idx, caps) = router.handle(Method::GET, b"/hello/world").unwrap();
    assert_eq!(idx, 0);
    assert_eq!(caps, vec![b"world".to_vec()]);
}

#[test]
fn routing_misses() {
    let mut router = Router::new();
    assert!(router.register(b"/hello/{}", get_only()));
    assert_eq!(router.handle(Method::GET, b"/bye/world").unwrap_err(), RouteError::NotFound);
    assert_eq!(
        router.handle(Method::POST, b"/hello/world").unwrap_err(),
        RouteError::MethodNotAllowed
    );
}

#[test]
fn method_gate_skips_to_later_route() {
    let mut router = Router::new();
    let mut post_only = MethodSet::new();
    post_only.insert(Method::POST);
    assert!(router.register(b"/x/{}", post_only));
    assert!(router.register(b"/x/{}", get_only()));
    let (idx, caps) = router.handle(Method::GET, b"/x/1").unwrap();
    assert_eq!(idx, 1);
    assert_eq!(caps, vec![b"1".to_vec()]);
}
