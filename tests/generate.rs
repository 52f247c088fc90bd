use parsegen::lower::{generate, parser_impl, rhs_expression, rule_enum, rule_function, validate, GenerateError};
use parsegen::source::{grammar_source, DeriveError, GrammarSource};
use parsegen::{Grammar, Identifier, Lhs, Production, Rhs, Terminal};

fn attr(name: &str, value: &str) -> (String, Option<String>) {
    (name.to_owned(), Some(value.to_owned()))
}

#[test]
fn load_simple_inline_grammar() {
    let attrs = vec![attr("derive", "Parser"), attr("grammar_inline", "a = b ;")];
    let text = match grammar_source(&attrs).unwrap() {
        GrammarSource::Inline(t) => t,
        other => panic!("unexpected source: {:?}", other),
    };
    let got = Grammar::from_str(&text).unwrap();
    let expected = Grammar {
        rules: vec![Production {
            lhs: Lhs(Identifier("a".to_owned())),
            rhs: Rhs::Identifier(Identifier("b".to_owned())),
        }],
    };
    assert_eq!(got, expected);
}

#[test]
fn missing_grammar_source() {
    let err = grammar_source(&vec![]).unwrap_err();
    assert_eq!(err, DeriveError::MissingGrammarSource);
    let err = grammar_source(&vec![attr("doc", "x")]).unwrap_err();
    assert_eq!(err, DeriveError::MissingGrammarSource);
}

#[test]
fn multiple_grammar_sources() {
    let attrs = vec![attr("grammar_inline", "a = b ;"), attr("grammar_file", "g.ebnf")];
    assert_eq!(grammar_source(&attrs).unwrap_err(), DeriveError::MultipleGrammarSources);
}

#[test]
fn file_grammar_source() {
    let attrs = vec![attr("grammar_file", "g.ebnf")];
    assert_eq!(grammar_source(&attrs).unwrap(), GrammarSource::File("g.ebnf".to_owned()));
    let attrs = vec![("grammar_file".to_owned(), None)];
    assert!(matches!(grammar_source(&attrs), Err(DeriveError::Other(_))));
}

#[test]
fn derive_error_messages() {
    assert_eq!(DeriveError::MissingGrammarSource.to_string(), "No grammar source provided");
    assert_eq!(
        DeriveError::MultipleGrammarSources.to_string(),
        "At most one grammar source can be provided"
    );
    assert_eq!(DeriveError::Other("x".to_owned()).to_string(), "Derive error: x");
}

#[test]
fn simple_rules_enum() {
    let g = Grammar::from_str("a = 'b' ; c = 'd' ;").unwrap();
    let expected = "#[allow(non_camel_case_types)]\n#[derive(Copy, Clone, Debug, PartialEq, Eq)]\npub enum Rule {\n    a,\n    c,\n}\n";
    assert_eq!(rule_enum(&g), expected);
}

#[test]
fn generate_print() {
    let g = Grammar::from_str("a = 'b' ;").unwrap();
    let code = parser_impl("Dummy", &g);
    println!("Generated:\n{}", code);
    assert!(code.starts_with("impl parsegen::Parser<Rule> for Dummy {"));
    assert!(code.contains("Rule::a => rule_impls::a(state),"));
}

#[test]
fn lowering_of_each_form() {
    let id = |s: &str| Box::new(Rhs::Identifier(Identifier(s.to_owned())));
    assert_eq!(rhs_expression(&Rhs::Identifier(Identifier("x".to_owned()))), "x(state)");
    assert_eq!(
        rhs_expression(&Rhs::Terminal(Terminal("a\"b".to_owned()))),
        "state.match_str(\"a\\\"b\")"
    );
    assert_eq!(rhs_expression(&Rhs::Optional(id("x"))), "state.optional(|state| x(state))");
    assert_eq!(rhs_expression(&Rhs::Repeat(id("x"))), "state.repeat(|state| x(state))");
    assert_eq!(rhs_expression(&Rhs::Group(id("x"))), "state.apply(|state| x(state))");
    assert_eq!(
        rhs_expression(&Rhs::Alternation(id("x"), id("y"))),
        "x(state).or_else(|state| y(state))"
    );
    assert_eq!(
        rhs_expression(&Rhs::Concatenation(id("x"), id("y"))),
        "x(state).and_then(|state| y(state))"
    );
}

#[test]
fn rule_function_text() {
    let p = Production::from_str("digit = \"0\" | \"1\" ;").unwrap();
    assert_eq!(
        rule_function(&p),
        "pub fn digit(state: parsegen::State<'_, super::Rule>) -> parsegen::StateResult<parsegen::State<'_, super::Rule>> { state.tokenize(super::Rule::digit, |state| state.match_str(\"0\").or_else(|state| state.match_str(\"1\"))) }\n"
    );
}

#[test]
fn validation_errors() {
    let dup = Grammar::from_str("a = 'x' ; a = 'y' ;").unwrap();
    assert_eq!(validate(&dup), Err(GenerateError::DuplicateProduction("a".to_owned())));
    let exc = Grammar::from_str("a = b - 'x' ; b = 'y' ;").unwrap();
    assert_eq!(validate(&exc), Err(GenerateError::UnsupportedConstruct));
    let unres = Grammar::from_str("a = b , c ; b = 'y' ;").unwrap();
    assert_eq!(validate(&unres), Err(GenerateError::UnresolvedReference("c".to_owned())));
    let ok = Grammar::from_str("a = b , 'x' ; b = 'y' ;").unwrap();
    assert_eq!(validate(&ok), Ok(()));
}

#[test]
fn generate_whole_parser() {
    let g = Grammar::from_str("a = \"a\" ; ab = a , b ; b = \"b\" ;").unwrap();
    let code = generate("AbParser", &g).unwrap();
    assert!(code.starts_with("#[allow(non_camel_case_types)]"));
    assert!(code.contains("pub fn ab(state"));
    assert!(code.contains("a(state).and_then(|state| b(state))"));
    let bad = Grammar::from_str("a = x ;").unwrap();
    assert_eq!(generate("P", &bad), Err(GenerateError::UnresolvedReference("x".to_owned())));
}

#[test]
fn lowering_keeps_declaration_order() {
    let g = Grammar::from_str("b = 'x' ; a = b ;").unwrap();
    let code = generate("P", &g).unwrap();
    let enum_at = code.find("pub enum Rule {\n    b,\n    a,\n}").unwrap();
    let fb = code.find("pub fn b(").unwrap();
    let fa = code.find("pub fn a(").unwrap();
    assert!(enum_at < fb && fb < fa);
    assert!(code.contains("Rule::b => rule_impls::b(state),\nRule::a => rule_impls::a(state),"));
}
