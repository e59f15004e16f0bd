use parse_link_header::{parse, parse_with_rel, Error, ErrorKind, Link, ParamMap};

fn pairs_are(m: &ParamMap, expected: &[(&str, &str)]) {
    assert_eq!(m.len(), expected.len());
    for (k, v) in expected {
        assert_eq!(m.get(&k.to_string()), Some(&v.to_string()));
    }
}

fn link_is(link: &Link, raw: &str, queries: &[(&str, &str)], params: &[(&str, &str)]) {
    assert_eq!(link.uri, raw.parse::<http::Uri>().unwrap());
    assert_eq!(link.raw_uri, raw);
    pairs_are(&link.queries, queries);
    pairs_are(&link.params, params);
}

const GITHUB: &str = r#"<https://api.github.com/repositories/41986369/contributors?page=2>; rel="next", <https://api.github.com/repositories/41986369/contributors?page=14>; rel="last""#;

#[test]
fn parse_link_header_works() {
    let parsed = parse(GITHUB).unwrap();
    assert_eq!(parsed.len(), 2);
    link_is(
        parsed.get(&Some("next".to_string())).unwrap(),
        "https://api.github.com/repositories/41986369/contributors?page=2",
        &[("page", "2")],
        &[("rel", "next")],
    );
    link_is(
        parsed.get(&Some("last".to_string())).unwrap(),
        "https://api.github.com/repositories/41986369/contributors?page=14",
        &[("page", "14")],
        &[("rel", "last")],
    );

    let rel_link_parsed = parse(r#"</foo/bar>; rel="foo/bar""#).unwrap();
    assert_eq!(rel_link_parsed.len(), 1);
    link_is(
        rel_link_parsed.get(&Some("foo/bar".to_string())).unwrap(),
        "/foo/bar",
        &[],
        &[("rel", "foo/bar")],
    );
}

#[test]
fn parse_with_rel_works() {
    let parsed = parse_with_rel(GITHUB).unwrap();
    assert_eq!(parsed.len(), 2);
    link_is(
        parsed.get(&"next".to_string()).unwrap(),
        "https://api.github.com/repositories/41986369/contributors?page=2",
        &[("page", "2")],
        &[("rel", "next")],
    );
    link_is(
        parsed.get(&"last".to_string()).unwrap(),
        "https://api.github.com/repositories/41986369/contributors?page=14",
        &[("page", "14")],
        &[("rel", "last")],
    );

    let rel_link_parsed = parse_with_rel(r#"</foo/bar>; rel="foo/bar""#).unwrap();
    assert_eq!(rel_link_parsed.len(), 1);
    link_is(
        rel_link_parsed.get(&"foo/bar".to_string()).unwrap(),
        "/foo/bar",
        &[],
        &[("rel", "foo/bar")],
    );
}

#[test]
fn parse_link_header_should_err() {
    assert_eq!(parse("<>").err(), Some(Error(ErrorKind::InvalidURI)));
}

#[test]
fn parse_with_rel_should_err() {
    assert_eq!(
        parse_with_rel(r#"<http://local.host/foo/bar>; type="foo/bar""#).err(),
        Some(Error(ErrorKind::MissingRel))
    );
}

#[test]
fn sentry_paginating_results() {
    let link_header = r#"<https://sentry.io/api/0/projects/1/groups/?&cursor=1420837590:0:1>; rel="previous"; results="false", <https://sentry.io/api/0/projects/1/groups/?&cursor=1420837533:0:0>; rel="next"; results="true""#;
    let parsed = parse(link_header).unwrap();
    assert_eq!(parsed.len(), 2);
    link_is(
        parsed.get(&Some("previous".to_string())).unwrap(),
        "https://sentry.io/api/0/projects/1/groups/?&cursor=1420837590:0:1",
        &[("cursor", "1420837590:0:1")],
        &[("rel", "previous"), ("results", "false")],
    );
    link_is(
        parsed.get(&Some("next".to_string())).unwrap(),
        "https://sentry.io/api/0/projects/1/groups/?&cursor=1420837533:0:0",
        &[("cursor", "1420837533:0:0")],
        &[("rel", "next"), ("results", "true")],
    );
}

#[test]
fn test_error_display() {
    assert_eq!(Error(ErrorKind::InternalError).message(), "internal parser error");
    assert_eq!(Error(ErrorKind::InvalidURI).message(), "unable to parse URI component");
    assert_eq!(Error(ErrorKind::MalformedParam).message(), "malformed parameter list");
    assert_eq!(Error(ErrorKind::MalformedQuery).message(), "malformed URI query");
    assert_eq!(Error(ErrorKind::MissingRel).message(), "missing 'rel' parameter");
}

#[test]
fn test_error_from() {
    let e1 = Error(ErrorKind::InternalError);
    let e2 = Error::from(&e1);

    assert_eq!(e1, e2);
}
