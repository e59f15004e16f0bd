use parse_link_header::{
    parse, parse_with_rel, remove_noise, same_text, split_fields, split_once_at, Error,
    ErrorKind,
};

#[test]
fn two_entries_give_two_relations() {
    let parsed = parse(r#"<http://h/one>; rel="a", <http://h/two>; rel="b""#).unwrap();
    assert_eq!(parsed.len(), 2);
    assert_eq!(parsed.get(&Some("a".to_string())).unwrap().raw_uri, "http://h/one");
    assert_eq!(parsed.get(&Some("b".to_string())).unwrap().raw_uri, "http://h/two");
}

#[test]
fn query_is_decomposed() {
    let parsed = parse(r#"<https://x/y?page=2>; rel="next""#).unwrap();
    let link = parsed.get(&Some("next".to_string())).unwrap();
    assert_eq!(link.queries.len(), 1);
    assert_eq!(link.queries.get(&"page".to_string()), Some(&"2".to_string()));
}

#[test]
fn leading_ampersand_is_skipped() {
    let parsed = parse(r#"<https://x/y?&cursor=1:0:1>; rel="next""#).unwrap();
    let link = parsed.get(&Some("next".to_string())).unwrap();
    assert_eq!(link.queries.len(), 1);
    assert_eq!(link.queries.get(&"cursor".to_string()), Some(&"1:0:1".to_string()));
    assert_eq!(link.queries.get(&"".to_string()), None);
}

#[test]
fn slash_in_relation_is_kept() {
    let parsed = parse_with_rel(r#"</foo/bar>; rel="foo/bar""#).unwrap();
    assert!(parsed.get(&"foo/bar".to_string()).is_some());
    assert!(parsed.get(&"foo".to_string()).is_none());
}

#[test]
fn missing_rel_only_matters_when_required() {
    let header = r#"<http://local.host/foo/bar>; type="foo/bar""#;
    assert_eq!(parse_with_rel(header).err(), Some(Error(ErrorKind::MissingRel)));
    let parsed = parse(header).unwrap();
    assert_eq!(parsed.len(), 1);
    let link = parsed.get(&None).unwrap();
    assert_eq!(link.params.get(&"type".to_string()), Some(&"foo/bar".to_string()));
    assert_eq!(link.params.get(&"rel".to_string()), None);
}

#[test]
fn parsing_twice_gives_equal_results() {
    let a = parse(r#"<https://x/y?p=1&q=2>; rel="next"; title="t""#).unwrap();
    let b = parse(r#"<https://x/y?p=1&q=2>; rel="next"; title="t""#).unwrap();
    let la = a.get(&Some("next".to_string())).unwrap();
    let lb = b.get(&Some("next".to_string())).unwrap();
    assert_eq!(la.uri, lb.uri);
    assert_eq!(la.raw_uri, lb.raw_uri);
    assert_eq!(la.queries.len(), 2);
    assert_eq!(lb.queries.len(), 2);
    assert_eq!(la.queries.get(&"q".to_string()), lb.queries.get(&"q".to_string()));
    assert_eq!(la.params.get(&"title".to_string()), lb.params.get(&"title".to_string()));
}

#[test]
fn raw_reference_parses_again() {
    let parsed = parse(r#"<https://x/y?p=1>; rel="next", </rel/path>; rel="up""#).unwrap();
    for key in ["next", "up"] {
        let link = parsed.get(&Some(key.to_string())).unwrap();
        assert_eq!(link.raw_uri.parse::<http::Uri>().unwrap(), link.uri);
    }
}

#[test]
fn empty_header_is_an_invalid_reference() {
    assert_eq!(parse("").err(), Some(Error(ErrorKind::InvalidURI)));
}

#[test]
fn parameter_without_equals_is_malformed() {
    assert_eq!(parse("</a>; rel").err(), Some(Error(ErrorKind::MalformedParam)));
}

#[test]
fn query_pair_without_equals_is_malformed() {
    assert_eq!(
        parse(r#"<http://x/y?page>; rel="next""#).err(),
        Some(Error(ErrorKind::MalformedQuery))
    );
}

#[test]
fn first_failing_entry_decides_the_error() {
    assert_eq!(
        parse_with_rel(r#"</a>; title="x", </b>; rel"#).err(),
        Some(Error(ErrorKind::MissingRel))
    );
    assert_eq!(
        parse_with_rel(r#"</b>; rel, </a>; title="x""#).err(),
        Some(Error(ErrorKind::MalformedParam))
    );
}

#[test]
fn later_entry_with_same_relation_wins() {
    let parsed = parse(r#"</first>; rel="next", </second>; rel="next""#).unwrap();
    assert_eq!(parsed.len(), 1);
    assert_eq!(parsed.get(&Some("next".to_string())).unwrap().raw_uri, "/second");
}

#[test]
fn later_parameter_with_same_key_wins() {
    let parsed = parse(r#"</a>; rel="x"; rel="y""#).unwrap();
    assert_eq!(parsed.len(), 1);
    let link = parsed.get(&Some("y".to_string())).unwrap();
    assert_eq!(link.params.len(), 1);
}

#[test]
fn value_keeps_its_later_equals_signs() {
    let parsed = parse(r#"<http://x/y?a=b=c>; rel="n"; t="u=v""#).unwrap();
    let link = parsed.get(&Some("n".to_string())).unwrap();
    assert_eq!(link.queries.get(&"a".to_string()), Some(&"b=c".to_string()));
    assert_eq!(link.params.get(&"t".to_string()), Some(&"u=v".to_string()));
}

#[test]
fn empty_relation_differs_from_none() {
    let parsed = parse(r#"</a>; rel="""#).unwrap();
    assert!(parsed.get(&Some("".to_string())).is_some());
    assert!(parsed.get(&None).is_none());
}

#[test]
fn empty_query_has_no_pairs() {
    let parsed = parse(r#"<http://x/y?>; rel="n""#).unwrap();
    assert_eq!(parsed.get(&Some("n".to_string())).unwrap().queries.len(), 0);
}

#[test]
fn noise_is_removed() {
    assert_eq!(remove_noise("<a> ;\t\"b\"\u{3000}"), "a;b".to_string());
    assert_eq!(remove_noise("plain"), "plain".to_string());
}

#[test]
fn fields_split_on_every_separator() {
    assert_eq!(split_fields("a;;b", ';'), vec!["a".to_string(), "".to_string(), "b".to_string()]);
    assert_eq!(split_fields("", ','), vec!["".to_string()]);
}

#[test]
fn split_once_cuts_at_first_separator() {
    assert_eq!(split_once_at("k=v=w", '='), Some(("k".to_string(), "v=w".to_string())));
    assert_eq!(split_once_at("kv", '='), None);
}

#[test]
fn same_text_compares_characters() {
    assert!(same_text("rel", "rel"));
    assert!(!same_text("rel", "re"));
    assert!(!same_text("rel", "ret"));
}

#[test]
fn malformed_parameter_is_found_before_the_reference() {
    assert_eq!(parse("<>; x").err(), Some(Error(ErrorKind::MalformedParam)));
    assert_eq!(
        parse(r#"<http://x/y?page>; rel"#).err(),
        Some(Error(ErrorKind::MalformedParam))
    );
}

#[test]
fn absent_and_empty_relations_are_kept_apart() {
    let parsed = parse(r#"<http://x/a>, <http://x/b>; rel="""#).unwrap();
    assert_eq!(parsed.len(), 2);
    assert_eq!(parsed.get(&None).unwrap().raw_uri, "http://x/a");
    assert_eq!(parsed.get(&Some("".to_string())).unwrap().raw_uri, "http://x/b");
}

#[test]
fn results_compare_as_maps() {
    let a = parse(r#"</a>; rel="x"; t="1", </b>; rel="y""#).unwrap();
    let b = parse(r#"</b>; rel="y", </a>; t="1"; rel="x""#).unwrap();
    let c = parse(r#"</b>; rel="y", </a>; t="2"; rel="x""#).unwrap();
    assert!(a == b);
    assert!(a != c);
    let first = a.get(&Some("x".to_string())).unwrap();
    let second = b.get(&Some("x".to_string())).unwrap();
    assert!(first == second);
}

#[test]
fn entries_can_be_walked() {
    let parsed = parse(r#"</a>; rel="x", </b>; rel="y", </c>; rel="x""#).unwrap();
    let walked: Vec<(Option<String>, String)> = parsed
        .entries()
        .iter()
        .map(|(k, l)| (k.clone(), l.raw_uri.clone()))
        .collect();
    assert_eq!(
        walked,
        vec![
            (Some("x".to_string()), "/c".to_string()),
            (Some("y".to_string()), "/b".to_string()),
        ]
    );
}
