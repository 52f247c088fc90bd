use parsegen::parser::{grammar, identifier, lhs, production, rhs, terminal, Error};
use parsegen::{Grammar, Identifier, Lhs, Production, Rhs, Terminal};

fn id(s: &str) -> Identifier {
    Identifier(s.to_owned())
}

fn rhs_id(s: &str) -> Box<Rhs> {
    Box::new(Rhs::Identifier(id(s)))
}

fn rhs_term(s: &str) -> Box<Rhs> {
    Box::new(Rhs::Terminal(Terminal(s.to_owned())))
}

#[test]
fn lossless_rhs() {
    let tests = vec![
        Rhs::Exception(rhs_term("hello"), rhs_id("world")),
        Rhs::Alternation(
            rhs_id("a"),
            Box::new(Rhs::Alternation(
                rhs_id("b"),
                Box::new(Rhs::Concatenation(rhs_term("c"), rhs_term("d"))),
            )),
        ),
    ];

    for test in tests {
        let s = test.to_string();
        let parsed = Rhs::from_str(&s).unwrap();
        assert_eq!(test, parsed, "To string:\n{}\n", s);
    }
}

#[test]
fn lossless_rule() {
    let rule = Production { lhs: Lhs(id("a")), rhs: Rhs::Identifier(id("b")) };
    let s = rule.to_string();
    assert_eq!(Production::from_str(&s).unwrap(), rule, "To string:\n{}\n", s);
}

#[test]
fn lossless_grammar() {
    let g = Grammar {
        rules: vec![
            Production { lhs: Lhs(id("a")), rhs: Rhs::Identifier(id("b")) },
            Production { lhs: Lhs(id("c")), rhs: Rhs::Identifier(id("d")) },
        ],
    };
    let s = g.to_string();
    assert_eq!(Grammar::from_str(&s).unwrap(), g, "To string:\n{}\n", s);
}

#[test]
fn parser_parse_terminal() {
    assert_eq!(terminal("\"hello\""), Ok(("", Terminal("hello".to_owned()))));
    assert_eq!(terminal("\"hello\" world"), Ok((" world", Terminal("hello".to_owned()))));
    assert_eq!(terminal("'hello' world"), Ok((" world", Terminal("hello".to_owned()))));
    assert!(terminal("'hello\" world").is_err());
}

#[test]
fn parser_parse_identifier() {
    assert_eq!(identifier("hello"), Ok(("", id("hello"))));
    assert_eq!(identifier("hello world"), Ok((" world", id("hello"))));
    assert_eq!(identifier("hello=world"), Ok(("=world", id("hello"))));
    assert!(identifier("=world").is_err());
}

#[test]
fn parser_parse_rhs() {
    let tests = vec![
        ("[ test ]", Rhs::Optional(rhs_id("test"))),
        ("{ test }", Rhs::Repeat(rhs_id("test"))),
        ("( test )", Rhs::Group(rhs_id("test"))),
        ("hello | world", Rhs::Alternation(rhs_id("hello"), rhs_id("world"))),
        (
            "a | b | c",
            Rhs::Alternation(rhs_id("a"), Box::new(Rhs::Alternation(rhs_id("b"), rhs_id("c")))),
        ),
        ("hello , world", Rhs::Concatenation(rhs_id("hello"), rhs_id("world"))),
        ("hello - 'world'", Rhs::Exception(rhs_id("hello"), rhs_term("world"))),
        (
            "hello | ( \"hello\" | world )",
            Rhs::Alternation(
                rhs_id("hello"),
                Box::new(Rhs::Group(Box::new(Rhs::Alternation(rhs_term("hello"), rhs_id("world"))))),
            ),
        ),
    ];
    for (input, expected) in tests {
        assert_eq!(rhs(input), Ok(("", expected)));
    }
}

#[test]
fn parser_parse_rule() {
    assert_eq!(
        production("a = b;"),
        Ok(("", Production { lhs: Lhs(id("a")), rhs: Rhs::Identifier(id("b")) }))
    );
    assert_eq!(
        production("rule = lhs , \"=\" , rhs ;"),
        Ok((
            "",
            Production {
                lhs: Lhs(id("rule")),
                rhs: Rhs::Concatenation(
                    rhs_id("lhs"),
                    Box::new(Rhs::Concatenation(rhs_term("="), rhs_id("rhs"))),
                ),
            }
        ))
    );
    assert_eq!(
        production("a = b; c = d;"),
        Ok((" c = d;", Production { lhs: Lhs(id("a")), rhs: Rhs::Identifier(id("b")) }))
    );
}

#[test]
fn parser_parse_grammar() {
    let ab = || Production { lhs: Lhs(id("a")), rhs: Rhs::Identifier(id("b")) };
    let cd = || Production { lhs: Lhs(id("c")), rhs: Rhs::Identifier(id("d")) };
    assert_eq!(grammar("a = b;"), Ok(("", Grammar { rules: vec![ab()] })));
    assert_eq!(grammar("a = b; c = d;"), Ok(("", Grammar { rules: vec![ab(), cd()] })));
    assert_eq!(
        grammar("a = b;\n (* This is a comment *)\n c = d;"),
        Ok(("", Grammar { rules: vec![ab(), cd()] }))
    );
    assert_eq!(grammar("a = b;\n\n c = d;"), Ok(("", Grammar { rules: vec![ab(), cd()] })));
}

#[test]
fn grammar_stops_at_first_malformed_production() {
    let (rest, g) = grammar("a = b;\n 1x = c;").unwrap();
    assert_eq!(rest, "1x = c;");
    assert_eq!(g.rules.len(), 1);
    let (rest, g) = grammar("  ").unwrap();
    assert_eq!(rest, "  ");
    assert_eq!(g.rules.len(), 0);
}

#[test]
fn lhs_reads_identifier() {
    assert_eq!(lhs("rule_1 = x"), Ok((" = x", Lhs(id("rule_1")))));
    assert!(lhs("1rule").is_err());
}

#[test]
fn rhs_rejects_malformed_text() {
    assert!(rhs("").is_err());
    assert!(rhs("a b").is_err());
    assert!(rhs("a |").is_err());
    assert!(rhs("( a").is_err());
    match rhs("@") {
        Err(Error::ParseError(detail)) => assert!(!detail.is_empty()),
        other => panic!("unexpected: {:?}", other),
    }
}

#[test]
fn nested_brackets_are_balanced() {
    assert_eq!(
        rhs("{ [ a ] , b }"),
        Ok((
            "",
            Rhs::Repeat(Box::new(Rhs::Concatenation(Box::new(Rhs::Optional(rhs_id("a"))), rhs_id("b"))))
        ))
    );
    assert_eq!(
        rhs("( a ) | b"),
        Ok(("", Rhs::Alternation(Box::new(Rhs::Group(rhs_id("a"))), rhs_id("b"))))
    );
}

#[test]
fn literal_may_hold_operators() {
    assert_eq!(
        rhs("\"|\" , ';'"),
        Ok(("", Rhs::Concatenation(rhs_term("|"), rhs_term(";"))))
    );
    assert_eq!(
        production("semi = ';' ;"),
        Ok(("", Production { lhs: Lhs(id("semi")), rhs: Rhs::Terminal(Terminal(";".to_owned())) }))
    );
}

#[test]
fn round_trip_two_productions() {
    let g = Grammar::from_str("a = \"b\" ;\nc = \"d\" ;").unwrap();
    let printed = g.to_string();
    assert_eq!(printed, "a = \"b\" ;\nc = \"d\" ;\n");
    assert_eq!(Grammar::from_str(&printed).unwrap(), g);
}

#[test]
fn printing_of_each_form() {
    assert_eq!(Terminal("x".to_owned()).to_string(), "\"x\"");
    assert_eq!(id("x").to_string(), "x");
    assert_eq!(Lhs(id("x")).to_string(), "x");
    assert_eq!(Rhs::Optional(rhs_id("a")).to_string(), "[ a ]");
    assert_eq!(Rhs::Repeat(rhs_id("a")).to_string(), "{ a }");
    assert_eq!(Rhs::Group(rhs_id("a")).to_string(), "( a )");
    assert_eq!(Rhs::Exception(rhs_id("a"), rhs_id("b")).to_string(), "a - b");
    assert_eq!(Rhs::Alternation(rhs_id("a"), rhs_id("b")).to_string(), "a | b");
    assert_eq!(Rhs::Concatenation(rhs_id("a"), rhs_id("b")).to_string(), "a , b");
    assert_eq!(
        Production { lhs: Lhs(id("a")), rhs: Rhs::Identifier(id("b")) }.to_string(),
        "a = b ;"
    );
}

#[test]
fn error_message() {
    assert_eq!(Error::ParseError("x".to_owned()).to_string(), "failed to parse: x");
}

#[test]
fn conversions_from_str() {
    let t: Terminal = "x y".into();
    assert_eq!(t, Terminal("x y".to_owned()));
    let i: Identifier = "abc".into();
    assert_eq!(i, id("abc"));
    let l: Lhs = "abc".into();
    assert_eq!(l, Lhs(id("abc")));
}

#[test]
fn csv_grammar_reads_in_order() {
    let text = "csv = { record } ;\nrecord = fields , \"\\n\" ;\nfields = field , [ \",\" , fields ] ;\nfield = digit , { digit } ;\ndigit = \"0\" | \"1\" | \"2\" | \"3\" | \"4\" | \"5\" | \"6\" | \"7\" | \"8\" | \"9\" ;\n";
    let g = Grammar::from_str(text).unwrap();
    let names: Vec<String> = g.rules.iter().map(|p| p.lhs.to_string()).collect();
    assert_eq!(names, vec!["csv", "record", "fields", "field", "digit"]);
    assert_eq!(g.to_string(), text);
}
