use wikidata_filter::{parse, Extra, Object, Statement, Subject};

#[test]
fn test_literal_with_type() {
    let line = r#"<http://www.wikidata.org/entity/Q1644> <http://www.wikidata.org/prop/direct/P2043> "+1094.26"^^<http://www.w3.org/2001/XMLSchema#decimal> ."#;
    assert_eq!(
        parse(1, line).unwrap(),
        Statement {
            subject: Subject::IRI("http://www.wikidata.org/entity/Q1644"),
            predicate: "http://www.wikidata.org/prop/direct/P2043",
            object: Object::Literal(
                "+1094.26",
                Extra::Type("http://www.w3.org/2001/XMLSchema#decimal")
            )
        }
    );
}

#[test]
fn test_literal_with_lang() {
    let line = r#"<http://www.wikidata.org/entity/Q177> <http://schema.org/name> "pizza"@en ."#;
    assert_eq!(
        parse(1, line).unwrap(),
        Statement {
            subject: Subject::IRI("http://www.wikidata.org/entity/Q177"),
            predicate: "http://schema.org/name",
            object: Object::Literal("pizza", Extra::Lang("en"))
        }
    );
}

#[test]
fn test_literal() {
    let line = r#"<http://www.wikidata.org/entity/Q177> <http://www.wikidata.org/prop/direct/P373> "Pizzas" ."#;
    assert_eq!(
        parse(1, line).unwrap(),
        Statement {
            subject: Subject::IRI("http://www.wikidata.org/entity/Q177"),
            predicate: "http://www.wikidata.org/prop/direct/P373",
            object: Object::Literal("Pizzas", Extra::Plain)
        }
    );
}

#[test]
fn test_blank_subject() {
    let line = r#"_:foo <bar> <baz>"#;
    assert_eq!(
        parse(1, line).unwrap(),
        Statement {
            subject: Subject::Blank("foo"),
            predicate: "bar",
            object: Object::IRI("baz")
        }
    );
}

#[test]
fn test_blank_object() {
    let line = r#"<foo> <bar> _:baz"#;
    assert_eq!(
        parse(1, line).unwrap(),
        Statement {
            subject: Subject::IRI("foo"),
            predicate: "bar",
            object: Object::Blank("baz")
        }
    );
}

#[test]
fn parse_rejects_malformed_line_with_its_number() {
    let err = parse(42, "not a statement").unwrap_err();
    assert_eq!(err.line, 42);
    assert_eq!(err.text, "not a statement");
    assert!(parse(1, "").is_err());
    assert!(parse(1, "<a> <b>").is_err());
    assert!(parse(1, "<a> <b> \"open").is_err());
    assert!(parse(1, "<a <b> <c>").is_err());
}

#[test]
fn parse_same_line_gives_same_statement() {
    let line = "<http://www.wikidata.org/entity/Q1> <p> \"x\"@de .";
    let copy = String::from(line);
    assert_eq!(parse(1, line).unwrap(), parse(99, &copy).unwrap());
}

#[test]
fn parse_whitespace_between_tokens() {
    let line = " \t<s>\t<p>   <o> .\n";
    assert_eq!(
        parse(1, line).unwrap(),
        Statement { subject: Subject::IRI("s"), predicate: "p", object: Object::IRI("o") }
    );
    let tight = "<s><p>\"v\"";
    assert_eq!(
        parse(1, tight).unwrap(),
        Statement { subject: Subject::IRI("s"), predicate: "p", object: Object::Literal("v", Extra::Plain) }
    );
}

#[test]
fn parse_language_tag_forms() {
    let st = parse(1, "<s> <p> \"v\"@en-GB-oxendict .").unwrap();
    assert_eq!(st.object, Object::Literal("v", Extra::Lang("en-GB-oxendict")));
    // digits only after a hyphen, and a trailing hyphen is not part of the tag
    let st = parse(1, "<s> <p> \"v\"@en1 .").unwrap();
    assert_eq!(st.object, Object::Literal("v", Extra::Lang("en")));
    let st = parse(1, "<s> <p> \"v\"@de- .").unwrap();
    assert_eq!(st.object, Object::Literal("v", Extra::Lang("de")));
    // an @ without a letter, or an unclosed datatype, leaves a plain literal
    let st = parse(1, "<s> <p> \"v\"@1 .").unwrap();
    assert_eq!(st.object, Object::Literal("v", Extra::Plain));
    let st = parse(1, "<s> <p> \"v\"^^<open").unwrap();
    assert_eq!(st.object, Object::Literal("v", Extra::Plain));
}

#[test]
fn parse_blank_subject_gives_back_characters_to_the_predicate() {
    let st = parse(1, "_:ab<c> <d>").unwrap();
    assert_eq!(
        st,
        Statement { subject: Subject::Blank("ab"), predicate: "c", object: Object::IRI("d") }
    );
    let st = parse(1, "_:x<y> <p> <o>").unwrap();
    assert_eq!(
        st,
        Statement { subject: Subject::Blank("x<y>"), predicate: "p", object: Object::IRI("o") }
    );
}

#[test]
fn parse_keeps_non_ascii_text() {
    let st = parse(1, "<s> <p> \"Zürich ☃\"@de").unwrap();
    assert_eq!(st.object, Object::Literal("Zürich ☃", Extra::Lang("de")));
}
