use minihttp::method::Method;
use minihttp::params::param_get;
use minihttp::routing::{Endpoint, RouteTable};

fn table_with(routes: &[(Method, &str)]) -> RouteTable {
    let mut t = RouteTable::new();
    for (m, p) in routes {
        t.register(*m, p);
    }
    t
}

fn pairs(ps: &[(&str, &str)]) -> Vec<(Vec<u8>, Vec<u8>)> {
    ps.iter().map(|(k, v)| (k.as_bytes().to_vec(), v.as_bytes().to_vec())).collect()
}

#[test]
fn literal_route_resolves_to_itself_with_no_params() {
    let t = table_with(&[(Method::GET, "/hello"), (Method::GET, "/items/{id}")]);
    let (ep, params) = t.resolve(Method::GET, &b"/hello".to_vec());
    assert!(ep == Some(Endpoint::new(Method::GET, "/hello")));
    assert_eq!(params, pairs(&[]));
}

#[test]
fn placeholder_route_binds_the_segment() {
    let t = table_with(&[(Method::GET, "/items/{id}")]);
    let (ep, params) = t.resolve(Method::GET, &b"/items/42".to_vec());
    assert!(ep == Some(Endpoint::new(Method::GET, "/items/{id}")));
    assert_eq!(params, pairs(&[("id", "42")]));
}

#[test]
fn query_params_merge_with_path_params() {
    let t = table_with(&[(Method::GET, "/items/{id}")]);
    let (ep, params) = t.resolve(Method::GET, &b"/items/42?sort=asc".to_vec());
    assert!(ep == Some(Endpoint::new(Method::GET, "/items/{id}")));
    assert_eq!(params, pairs(&[("id", "42"), ("sort", "asc")]));
    assert_eq!(param_get(&params, b"id"), Some(&b"42".to_vec()));
    assert_eq!(param_get(&params, b"sort"), Some(&b"asc".to_vec()));
}

#[test]
fn later_query_pair_wins_a_lookup() {
    let t = table_with(&[(Method::GET, "/items/{id}")]);
    let (_, params) = t.resolve(Method::GET, &b"/items/42?sort=asc&sort=desc".to_vec());
    assert_eq!(params, pairs(&[("id", "42"), ("sort", "asc"), ("sort", "desc")]));
    assert_eq!(param_get(&params, b"sort"), Some(&b"desc".to_vec()));
}

#[test]
fn query_pair_overrides_placeholder_of_same_name() {
    let t = table_with(&[(Method::GET, "/items/{id}")]);
    let (_, params) = t.resolve(Method::GET, &b"/items/42?id=7".to_vec());
    assert_eq!(param_get(&params, b"id"), Some(&b"7".to_vec()));
}

#[test]
fn segment_count_mismatch_is_no_match() {
    let t = table_with(&[(Method::GET, "/items/{id}")]);
    let (ep, params) = t.resolve(Method::GET, &b"/one".to_vec());
    assert!(ep.is_none());
    assert!(params.is_empty());
    let (ep2, _) = t.resolve(Method::GET, &b"/a/b/c/d".to_vec());
    assert!(ep2.is_none());
}

#[test]
fn method_must_match() {
    let t = table_with(&[(Method::GET, "/hello")]);
    let (ep, _) = t.resolve(Method::POST, &b"/hello".to_vec());
    assert!(ep.is_none());
}

#[test]
fn literal_segment_mismatch_disqualifies_entirely() {
    let t = table_with(&[(Method::GET, "/a/b")]);
    let (ep, _) = t.resolve(Method::GET, &b"/x/b".to_vec());
    assert!(ep.is_none());
}

#[test]
fn trailing_slash_is_normalized_away() {
    let t = table_with(&[(Method::GET, "/hello")]);
    let (ep, _) = t.resolve(Method::GET, &b"/hello/".to_vec());
    assert!(ep == Some(Endpoint::new(Method::GET, "/hello")));
}

#[test]
fn root_path_matches_root_template() {
    let t = table_with(&[(Method::GET, "/")]);
    let (ep, params) = t.resolve(Method::GET, &b"/".to_vec());
    assert!(ep == Some(Endpoint::new(Method::GET, "/")));
    assert!(params.is_empty());
}

#[test]
fn resolving_twice_gives_identical_results() {
    let t = table_with(&[(Method::GET, "/items/{id}"), (Method::POST, "/items")]);
    let (e1, p1) = t.resolve(Method::GET, &b"/items/9?a=1".to_vec());
    let (e2, p2) = t.resolve(Method::GET, &b"/items/9?a=1".to_vec());
    assert!(e1 == e2);
    assert_eq!(p1, p2);
}

#[test]
fn last_registered_match_wins() {
    let t = table_with(&[(Method::GET, "/items/{id}"), (Method::GET, "/items/{name}")]);
    let (ep, params) = t.resolve(Method::GET, &b"/items/42".to_vec());
    assert!(ep == Some(Endpoint::new(Method::GET, "/items/{name}")));
    assert_eq!(params, pairs(&[("name", "42")]));
}

#[test]
fn uppercase_in_braces_is_not_a_placeholder() {
    let t = table_with(&[(Method::GET, "/items/{ID}")]);
    let (ep, _) = t.resolve(Method::GET, &b"/items/42".to_vec());
    assert!(ep.is_none());
    let (ep2, _) = t.resolve(Method::GET, &b"/items/{ID}".to_vec());
    assert!(ep2 == Some(Endpoint::new(Method::GET, "/items/{ID}")));
}

#[test]
fn placeholder_name_strips_every_brace() {
    let t = table_with(&[(Method::GET, "/x/{a}{b}")]);
    let (_, params) = t.resolve(Method::GET, &b"/x/7".to_vec());
    assert_eq!(params, pairs(&[("ab", "7")]));
}

#[test]
fn braces_inside_a_segment_still_make_a_placeholder() {
    let t = table_with(&[(Method::GET, "/p/a{x}b")]);
    let (ep, params) = t.resolve(Method::GET, &b"/p/zzz".to_vec());
    assert!(ep == Some(Endpoint::new(Method::GET, "/p/a{x}b")));
    assert_eq!(params, pairs(&[("axb", "zzz")]));
}

#[test]
fn query_pair_without_equals_contributes_nothing() {
    let t = table_with(&[(Method::GET, "/hello")]);
    let (_, params) = t.resolve(Method::GET, &b"/hello?flag&a=1".to_vec());
    assert_eq!(params, pairs(&[("a", "1")]));
}

#[test]
fn param_get_of_absent_key_is_none() {
    let t = table_with(&[(Method::GET, "/items/{id}")]);
    let (_, params) = t.resolve(Method::GET, &b"/items/42".to_vec());
    assert_eq!(param_get(&params, b"missing"), None);
}

#[test]
fn endpoints_compare_by_method_and_segments() {
    assert!(Endpoint::new(Method::GET, "/a/b") == Endpoint::new(Method::GET, "/a/b"));
    assert!(Endpoint::new(Method::GET, "/a/b") != Endpoint::new(Method::POST, "/a/b"));
    assert!(Endpoint::new(Method::GET, "/a/b") != Endpoint::new(Method::GET, "/a/c"));
    assert!(Endpoint::new(Method::GET, "/a/b/") == Endpoint::new(Method::GET, "/a/b"));
}
