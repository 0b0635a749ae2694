use wikidata_filter::{
    direct_property, entity, handle, ignored_subject, is_acceptable, label, line_set, lines,
    maybe_count_statement, maybe_write_label, maybe_write_line, parse, Counts, LineError, Object,
    Statement, Subject, Tables, DIRECT_PROPERTY_IRI_PREFIX, ENTITY_IRI_PREFIX,
};

fn empty_tables() -> Tables {
    Tables::new("", "", "", "")
}

fn sample_tables() -> Tables {
    Tables::new(
        "http://schema.org/version\nhttp://schema.org/dateModified\n",
        "214\n",
        "en\nde\n",
        "http://schema.org/name\nhttp://www.w3.org/2000/01/rdf-schema#label\n",
    )
}

#[test]
fn test_statement_count() {
    let tables = empty_tables();
    let a = format!("{}a", ENTITY_IRI_PREFIX);
    let b = format!("{}b", ENTITY_IRI_PREFIX);

    let first_predicate = format!("{}first", DIRECT_PROPERTY_IRI_PREFIX);
    let second_predicate = "second";
    let third_predicate = format!("{}third", DIRECT_PROPERTY_IRI_PREFIX);

    let first = Statement {
        subject: Subject::IRI(a.as_str()),
        predicate: first_predicate.as_str(),
        object: Object::IRI(""),
    };
    let second = Statement {
        subject: Subject::IRI(b.as_str()),
        predicate: second_predicate,
        object: Object::IRI(""),
    };
    let third = Statement {
        subject: Subject::IRI(a.as_str()),
        predicate: third_predicate.as_str(),
        object: Object::IRI(""),
    };
    let mut counter = Some(Counts::new());
    maybe_count_statement(&tables, &mut counter, "a", first);
    maybe_count_statement(&tables, &mut counter, "b", second);
    maybe_count_statement(&tables, &mut counter, "a", third);
    let counter = counter.unwrap();
    assert_eq!(counter.len(), 1);
    assert_eq!(counter.get("a"), Some(2));
    assert_eq!(counter.get("b"), None);
}

#[test]
fn test_geo_literals() {
    let tables = empty_tables();
    assert!(is_acceptable(
        &tables,
        parse(
            1,
            r#"<foo> <bar> "Point(4.6681 50.6411)"^^<http://www.opengis.net/ont/geosparql#wktLiteral> ."#,
        )
        .unwrap()
    ));
    assert!(!is_acceptable(
        &tables,
        parse(
            1,
            r#"<foo> <bar> "<http://www.wikidata.org/entity/Q405> Point(-141.6 42.6)"^^<http://www.opengis.net/ont/geosparql#wktLiteral> ."#,
        )
        .unwrap()
    ));
}

#[test]
fn counting_is_off_without_a_counter() {
    let tables = empty_tables();
    let predicate = format!("{}P31", DIRECT_PROPERTY_IRI_PREFIX);
    let st = Statement { subject: Subject::IRI("x"), predicate: predicate.as_str(), object: Object::IRI("") };
    let mut counter: Option<Counts> = None;
    maybe_count_statement(&tables, &mut counter, "a", st);
    assert!(counter.is_none());
}

#[test]
fn blank_subject_is_always_rejected() {
    let tables = empty_tables();
    assert!(!is_acceptable(&tables, parse(1, "_:foo <bar> <baz>").unwrap()));
    assert!(!is_acceptable(&tables, parse(1, "_:foo <bar> \"x\"").unwrap()));
}

#[test]
fn acceptance_rules() {
    let tables = sample_tables();
    let keep = |line: &str| is_acceptable(&tables, parse(1, line).unwrap());
    assert!(keep("<http://www.wikidata.org/entity/Q1> <http://schema.org/about> <x> ."));
    assert!(!keep("<http://www.wikidata.org/entity/Q1> <http://schema.org/version> \"3\" ."));
    assert!(!keep("<http://www.wikidata.org/entity/Q1> <http://www.wikidata.org/prop/direct/P214> \"3\" ."));
    assert!(!keep("<http://www.wikidata.org/entity/Q1> <http://www.wikidata.org/prop/direct-normalized/P214> <x> ."));
    assert!(keep("<http://www.wikidata.org/entity/Q1> <http://www.wikidata.org/prop/direct/P2140> \"3\" ."));
    assert!(!keep("<https://www.wikidata.org/wiki/Special:EntityData/Q1> <p> <o> ."));
    assert!(!keep("<http://www.wikidata.org/entity/Q1> <p> _:b1 ."));
    assert!(keep("<http://www.wikidata.org/entity/Q1> <p> \"Haus\"@de ."));
    assert!(!keep("<http://www.wikidata.org/entity/Q1> <p> \"maison\"@fr ."));
    assert!(keep("<http://www.wikidata.org/entity/Q1> <p> \"<x>\"^^<http://example.org/other> ."));
}

#[test]
fn tables_expand_identifier_ids_into_two_iris() {
    let tables = sample_tables();
    assert!(tables.excluded_identifiers.contains("http://www.wikidata.org/prop/direct/P214"));
    assert!(tables.excluded_identifiers.contains("http://www.wikidata.org/prop/direct-normalized/P214"));
    assert_eq!(tables.excluded_identifiers.len(), 2);
    assert_eq!(tables.languages.len(), 2);
}

#[test]
fn lines_split_like_text_lines() {
    assert_eq!(lines("a\r\nb\nc"), vec!["a", "b", "c"]);
    assert_eq!(lines("a\n\nb\n"), vec!["a", "", "b"]);
    assert_eq!(lines("x\ry"), vec!["x\ry"]);
    assert!(lines("").is_empty());
    let set = line_set("en\nde\nen\n");
    assert_eq!(set.len(), 2);
    assert!(set.contains("de"));
    assert!(!set.contains("fr"));
}

#[test]
fn entity_and_direct_property_strip_their_prefixes() {
    assert_eq!(entity(Subject::IRI("http://www.wikidata.org/entity/Q42")), Some("42"));
    assert_eq!(entity(Subject::IRI("http://www.wikidata.org/entity/P42")), None);
    assert_eq!(entity(Subject::Blank("http://www.wikidata.org/entity/Q42")), None);
    assert_eq!(direct_property("http://www.wikidata.org/prop/direct/P31"), Some("P31"));
    assert_eq!(direct_property("http://www.wikidata.org/prop/P31"), None);
    assert!(ignored_subject("https://www.wikidata.org/wiki/Special:EntityData/Q1"));
    assert!(!ignored_subject("http://www.wikidata.org/entity/Q1"));
}

#[test]
fn label_is_unescaped_and_language_filtered() {
    let tables = sample_tables();
    let st = parse(1, r#"<http://www.wikidata.org/entity/Q1> <http://schema.org/name> "a\tb\u00e9"@en ."#).unwrap();
    assert_eq!(label(&tables, st).unwrap(), Some(String::from("a\tb\u{e9}")));
    let st = parse(1, r#"<http://www.wikidata.org/entity/Q1> <http://schema.org/name> "x"@fr ."#).unwrap();
    assert_eq!(label(&tables, st).unwrap(), None);
    let st = parse(1, r#"<http://www.wikidata.org/entity/Q1> <http://schema.org/other> "x"@en ."#).unwrap();
    assert_eq!(label(&tables, st).unwrap(), None);
    let st = parse(1, r#"<http://www.wikidata.org/entity/Q1> <http://schema.org/name> "bad\q"@en ."#).unwrap();
    let err = label(&tables, st).unwrap_err();
    assert_eq!(err.index, 3);
    assert_eq!(err.input, "bad\\q");
}

#[test]
fn writers_append_what_is_kept() {
    let tables = sample_tables();
    let line = "<http://www.wikidata.org/entity/Q177> <http://schema.org/name> \"pizza\"@en .\n";
    let st = parse(1, line).unwrap();
    let mut out = String::from("prev\n");
    maybe_write_line(&tables, &mut out, line, st);
    assert_eq!(out, format!("prev\n{}", line));
    let mut labels = Some(String::new());
    maybe_write_label(&tables, &mut labels, "177", st).unwrap();
    assert_eq!(labels, Some(String::from("177 pizza\n")));
    let mut none: Option<String> = None;
    maybe_write_label(&tables, &mut none, "177", st).unwrap();
    assert_eq!(none, None);
    let dropped = "_:b <http://schema.org/name> \"pizza\"@en .\n";
    let mut out = String::new();
    maybe_write_line(&tables, &mut out, dropped, parse(1, dropped).unwrap());
    assert_eq!(out, "");
}

#[test]
fn handle_writes_counts_and_labels() {
    let tables = sample_tables();
    let mut out = String::new();
    let mut labels = Some(String::new());
    let mut counts = Some(Counts::new());
    let input = [
        "<http://www.wikidata.org/entity/Q177> <http://schema.org/name> \"pizza\"@en .\n",
        "<http://www.wikidata.org/entity/Q177> <http://www.wikidata.org/prop/direct/P31> <http://www.wikidata.org/entity/Q2095> .\n",
        "<http://www.wikidata.org/entity/Q177> <http://www.wikidata.org/prop/direct/P214> \"123\" .\n",
        "<http://example.org/x> <http://www.wikidata.org/prop/direct/P31> <y> .\n",
    ];
    for (i, line) in input.iter().enumerate() {
        handle(&tables, &mut out, &mut labels, &mut counts, i as u64 + 1, line.to_string()).unwrap();
    }
    assert_eq!(out, format!("{}{}{}", input[0], input[1], input[3]));
    assert_eq!(labels, Some(String::from("177 pizza\n")));
    let counts = counts.unwrap();
    assert_eq!(counts.len(), 1);
    assert_eq!(counts.get("177"), Some(2));
}

#[test]
fn handle_reports_bad_lines_and_bad_escapes() {
    let tables = sample_tables();
    let mut out = String::new();
    let mut labels = Some(String::new());
    let mut counts = None;
    match handle(&tables, &mut out, &mut labels, &mut counts, 7, String::from("garbage")) {
        Err(LineError::Parse(e)) => {
            assert_eq!(e.line, 7);
            assert_eq!(e.text, "garbage");
        }
        _ => panic!("expected a parse error"),
    }
    let bad = "<http://www.wikidata.org/entity/Q1> <http://schema.org/name> \"x\\\"@en .";
    match handle(&tables, &mut out, &mut labels, &mut counts, 8, String::from(bad)) {
        Err(LineError::Escape(e)) => assert_eq!(e.index, 1),
        _ => panic!("expected an escape error"),
    }
}
