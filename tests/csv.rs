//! A very simple csv parser that acts only on numbers.

use parsegen::{ParseFailed, Parser, State, StateResult, Token};

/// A simplified set of parsing rules for our simple csv parser.
#[allow(non_camel_case_types)]
#[derive(Copy, Debug, Eq, Clone, PartialEq)]
enum Rule {
    /// csv = { record };
    csv,
    /// record = fields , "\n";
    record,
    /// fields = field , [ "," , fields ];
    fields,
    /// field = digit , { digit };
    field,
    /// digit = "0" | "1" | "2" | "3" | "4" | "5" | "6" | "7" | "8" | "9";
    digit,
}

struct CsvParser;

fn digit_rule(state: State<Rule>) -> StateResult<State<Rule>> {
    state.tokenize(Rule::digit, |s| {
        s.match_str("0")
            .or_else(|s| s.match_str("1"))
            .or_else(|s| s.match_str("2"))
            .or_else(|s| s.match_str("3"))
            .or_else(|s| s.match_str("4"))
            .or_else(|s| s.match_str("5"))
            .or_else(|s| s.match_str("6"))
            .or_else(|s| s.match_str("7"))
            .or_else(|s| s.match_str("8"))
            .or_else(|s| s.match_str("9"))
    })
}

fn field_rule(state: State<Rule>) -> StateResult<State<Rule>> {
    state.tokenize(Rule::field, |s| s.apply(digit_rule).and_then(|s| s.repeat(digit_rule)))
}

fn fields_rule(state: State<Rule>) -> StateResult<State<Rule>> {
    state.tokenize(Rule::fields, |s| {
        s.apply(field_rule)
            .and_then(|s| s.optional(|s| s.repeat(|s| s.match_str(",").and_then(|s| field_rule(s)))))
    })
}

fn record_rule(state: State<Rule>) -> StateResult<State<Rule>> {
    state.tokenize(Rule::record, |s| s.apply(fields_rule).and_then(|s| s.match_str("\n")))
}

fn csv_rule(state: State<Rule>) -> StateResult<State<Rule>> {
    state.tokenize(Rule::csv, |s| s.repeat(record_rule))
}

impl Parser<Rule> for CsvParser {
    fn parse<'a>(rule: Rule, input: &'a str) -> Result<Vec<Token<'a, Rule>>, ParseFailed> {
        let state = State::new(input);
        let res = match rule {
            Rule::digit => digit_rule(state),
            Rule::field => field_rule(state),
            Rule::fields => fields_rule(state),
            Rule::record => record_rule(state),
            Rule::csv => csv_rule(state),
        };
        match res {
            Ok(end) => Ok(end.tokens()),
            Err(_) => Err(ParseFailed),
        }
    }
}

#[test]
fn digit() {
    let input = "7";
    let toks = CsvParser::parse(Rule::digit, input).unwrap();

    assert_eq!(toks.len(), 1, "unexpected number of tokens: {:?}", toks);
    assert_eq!(toks[0].rule(), Rule::digit);
    assert_eq!(toks[0].as_str(), input);
}

#[test]
fn field() {
    let input = "789";
    let toks = CsvParser::parse(Rule::field, input).unwrap();

    let field_toks: Vec<Token<Rule>> = toks.into_iter().filter(|t| t.rule() == Rule::field).collect();
    assert_eq!(field_toks.len(), 1, "unexpected number of tokens: {:?}", field_toks);
    assert_eq!(field_toks[0].as_str(), input);
}

#[test]
fn fields() {
    let input = "123,789";
    let toks = CsvParser::parse(Rule::fields, input).unwrap();

    let field_toks: Vec<&Token<Rule>> = toks.iter().filter(|t| t.rule() == Rule::field).collect();
    assert_eq!(field_toks[0].as_str(), "123");
    assert_eq!(field_toks[1].as_str(), "789");

    let fields_toks: Vec<&Token<Rule>> = toks.iter().filter(|t| t.rule() == Rule::fields).collect();
    assert_eq!(fields_toks.len(), 1);
}

#[test]
fn record() {
    let input = "123,789\n";
    let toks = CsvParser::parse(Rule::record, input).unwrap();

    let record_toks: Vec<&Token<Rule>> = toks.iter().filter(|t| t.rule() == Rule::record).collect();
    assert_eq!(record_toks.len(), 1);
}

#[test]
fn csv() {
    let input = "184,754\n33,22222\n";
    let toks = CsvParser::parse(Rule::csv, input).unwrap();

    let record_toks: Vec<&Token<Rule>> = toks.iter().filter(|t| t.rule() == Rule::record).collect();
    assert_eq!(record_toks.len(), 2, "tokens: {:?}", toks);
}

#[test]
fn csv_fields_and_whole_span() {
    let input = "184,754\n33,22222\n";
    let toks = CsvParser::parse(Rule::csv, input).unwrap();
    assert_eq!(toks[0].rule(), Rule::csv);
    assert_eq!(toks[0].as_str(), input);
    let field_texts: Vec<&str> =
        toks.iter().filter(|t| t.rule() == Rule::field).map(|t| t.as_str()).collect();
    assert_eq!(field_texts, vec!["184", "754", "33", "22222"]);
}

#[test]
fn csv_record_without_newline_fails() {
    assert_eq!(CsvParser::parse(Rule::record, "12,3").unwrap_err(), ParseFailed);
}
