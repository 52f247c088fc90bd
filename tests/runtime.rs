use parsegen::position::PositionError;
use parsegen::span::SpanError;
use parsegen::{Position, RelativeLocation, ReserveVec, Span, State, StateResult};

#[test]
fn position_match_str_simple() {
    let tests = vec![
        ("", 0, "", true),
        ("hello", 0, "world", false),
        ("hello", 0, "hello", true),
        ("hello", 0, "ello", false),
        ("hello", 1, "ello", true),
    ];
    for test in tests {
        let mut c = Position::new(test.0, test.1).unwrap();
        let got = c.match_str(test.2);
        assert_eq!(got, test.3, "test case: {:?}", test);
    }
}

#[test]
fn position_match_str_idx_multiple() {
    let mut c = Position::new("hello", 0).unwrap();
    let got1 = c.match_str("he");
    let got2 = c.match_str("llo");
    assert!(got1);
    assert!(got2, "cursor: {:?}", c);
}

#[test]
fn cursor_match_str_simple() {
    let tests = vec![
        ("", 0, "", true),
        ("hello", 0, "world", false),
        ("hello", 0, "hello", true),
        ("hello", 0, "ello", false),
        ("hello", 1, "ello", true),
    ];
    for test in tests {
        let mut c = Position::new(test.0, test.1).unwrap();
        let got = c.match_str(test.2);
        assert_eq!(got, test.3, "test case: {:?}", test);
    }
}

#[test]
fn cursor_match_str_idx_multiple() {
    let mut c = Position::new("hello", 0).unwrap();
    let got1 = c.match_str("he");
    let got2 = c.match_str("llo");
    assert!(got1);
    assert!(got2, "cursor: {:?}", c);
}

#[test]
fn position_bounds() {
    assert!(Position::new("abc", 3).is_ok());
    assert_eq!(Position::new("abc", 4).unwrap_err(), PositionError::OutOfRange { start: 4, len: 3 });
    assert!(Position::new("", 0).is_ok());
    assert!(Position::new("", 1).is_err());
}

#[test]
fn position_match_failure_keeps_cursor() {
    let mut c = Position::new("hello", 1).unwrap();
    assert!(!c.match_str("elx"));
    assert_eq!(c.idx(), 1);
    assert!(c.match_str("ell"));
    assert_eq!(c.idx(), 4);
    assert!(!c.match_str("oo"));
    assert_eq!(c.idx(), 4);
}

#[test]
fn position_match_is_bytewise() {
    let mut c = Position::new("héllo", 0).unwrap();
    assert!(c.match_str("hé"));
    assert_eq!(c.idx(), 3);
}

#[test]
fn no_reservations() {
    let mut r = ReserveVec::new();
    r.push(1);
    r.push(2);
    r.push(3);
    let v: Vec<_> = r.into();
    assert_eq!(v, vec![1, 2, 3]);
}

#[test]
fn reservation_at_beginning() {
    let mut r = ReserveVec::new();
    let pos = r.reserve_next();
    r.push(1);
    r.push(2);
    r.insert_at_reserved(pos, 3);
    let v: Vec<_> = r.into();
    assert_eq!(v, vec![3, 1, 2]);
}

#[test]
fn multiple_reservations() {
    let mut r = ReserveVec::new();
    let slot1 = r.reserve_next();
    r.push(1);
    let slot2 = r.reserve_next();
    let slot3 = r.reserve_next();
    r.push(2);
    let slot4 = r.reserve_next();
    r.insert_at_reserved(slot1, 3);
    r.insert_at_reserved(slot2, 4);
    r.insert_at_reserved(slot3, 5);
    r.insert_at_reserved(slot4, 6);
    let v: Vec<_> = r.into();
    assert_eq!(v, vec![3, 1, 4, 5, 2, 6]);
}

#[test]
fn reserve_ordering_two_reservations() {
    let mut r = ReserveVec::new();
    r.push('a');
    let r1 = r.reserve_next();
    r.push('b');
    let r2 = r.reserve_next();
    r.insert_at_reserved(r2, 'd');
    r.insert_at_reserved(r1, 'c');
    assert_eq!(r.into_vec(), vec!['a', 'c', 'b', 'd']);
}

#[test]
fn reserve_unfilled_slot_is_dropped() {
    let mut r = ReserveVec::new();
    r.push(1);
    let _slot = r.reserve_next();
    r.push(2);
    assert_eq!(r.len(), 3);
    assert_eq!(r.into_vec(), vec![1, 2]);
}

fn span<'a>(input: &'a str, start: usize, end: usize) -> Span<'a> {
    let a = Position::new(input, start).unwrap();
    let b = Position::new(input, end).unwrap();
    Span::from_positions(&a, &b).unwrap()
}

#[test]
fn span_relative_location() {
    let input = "hello world";
    // "hello"
    let a = span(input, 0, 5);
    // " world"
    let b = span(input, 5, 11);
    // "hello world"
    let c = span(input, 0, 11);

    assert_eq!(RelativeLocation::Before, a.relative_location(&b).unwrap());
    assert_eq!(RelativeLocation::After, b.relative_location(&a).unwrap());
    assert_eq!(RelativeLocation::Within, a.relative_location(&c).unwrap());
    assert_eq!(RelativeLocation::Within, b.relative_location(&c).unwrap());
    assert_eq!(RelativeLocation::Encompasses, c.relative_location(&a).unwrap());
    assert_eq!(RelativeLocation::Encompasses, c.relative_location(&b).unwrap());
}

#[test]
fn span_partial_overlap_and_other_input() {
    let input = "hello world";
    let a = span(input, 0, 6);
    let b = span(input, 3, 9);
    assert_eq!(a.relative_location(&b), Err(SpanError::PartialOverlap));
    assert_eq!(b.relative_location(&a), Err(SpanError::PartialOverlap));
    let other = String::from("HELLO WORLD");
    let o = span(other.as_str(), 0, 5);
    assert_eq!(a.relative_location(&o), Err(SpanError::DifferentInputs));
    assert_eq!(a.contains(&o), Err(SpanError::DifferentInputs));
}

#[test]
fn span_from_positions_errors() {
    let a = Position::new("abc", 2).unwrap();
    let b = Position::new("abc", 1).unwrap();
    assert_eq!(Span::from_positions(&a, &b).unwrap_err(), SpanError::Reversed);
    let c = Position::new("xyz", 2).unwrap();
    assert_eq!(Span::from_positions(&b, &c).unwrap_err(), SpanError::DifferentInputs);
}

#[test]
fn span_text_contains_and_equality() {
    let input = "abcabc";
    let a = span(input, 0, 3);
    let b = span(input, 3, 6);
    let whole = span(input, 0, 6);
    assert_eq!(a.as_str(), "abc");
    assert_eq!(whole.as_str(), "abcabc");
    assert_eq!(span(input, 2, 2).as_str(), "");
    assert!(a == b);
    assert!(a != whole);
    assert_eq!(whole.contains(&b), Ok(true));
    assert_eq!(b.contains(&whole), Ok(false));
    assert_eq!(a.start(), 0);
    assert_eq!(b.end(), 6);
}

#[test]
fn span_encompasses_iff_within() {
    let input = "0123456789";
    let pairs = vec![(0, 10, 2, 5), (2, 2, 0, 4), (3, 7, 3, 5), (1, 4, 6, 8)];
    for (s1, e1, s2, e2) in pairs {
        let x = span(input, s1, e1);
        let y = span(input, s2, e2);
        let xe = x.relative_location(&y) == Ok(RelativeLocation::Encompasses);
        let yw = y.relative_location(&x) == Ok(RelativeLocation::Within);
        assert_eq!(xe, yw);
    }
}

#[allow(non_camel_case_types)]
#[derive(Copy, Clone, Debug, PartialEq, Eq)]
enum AbRule {
    a,
    b,
    ab,
    ababa,
}

fn rule_a(state: State<AbRule>) -> StateResult<State<AbRule>> {
    state.tokenize(AbRule::a, |s| s.match_str("a"))
}

fn rule_b(state: State<AbRule>) -> StateResult<State<AbRule>> {
    state.tokenize(AbRule::b, |s| s.match_str("b"))
}

fn rule_ab(state: State<AbRule>) -> StateResult<State<AbRule>> {
    state.tokenize(AbRule::ab, |s| rule_a(s).and_then(rule_b))
}

fn rule_ababa(state: State<AbRule>) -> StateResult<State<AbRule>> {
    state.tokenize(AbRule::ababa, |s| rule_ab(s).and_then(rule_ab).and_then(rule_a))
}

#[test]
fn tokens_in_pre_order() {
    let state = State::new("ababa");
    let toks = rule_ababa(state).unwrap().tokens();
    let rules: Vec<AbRule> = toks.iter().map(|t| t.rule()).collect();
    assert_eq!(
        rules,
        vec![
            AbRule::ababa,
            AbRule::ab,
            AbRule::a,
            AbRule::b,
            AbRule::ab,
            AbRule::a,
            AbRule::b,
            AbRule::a
        ]
    );
    let spans: Vec<(usize, usize)> = toks.iter().map(|t| (t.span.start(), t.span.end())).collect();
    assert_eq!(spans, vec![(0, 5), (0, 2), (0, 1), (1, 2), (2, 4), (2, 3), (3, 4), (4, 5)]);
}

#[test]
fn failed_rule_leaves_no_tokens() {
    let state = State::new("abx");
    let state = match rule_ababa(state) {
        Ok(_) => panic!("the input does not match"),
        Err(s) => s,
    };
    assert_eq!(state.idx(), 0);
    assert_eq!(state.tokens().len(), 0);
}

fn digit_rule(state: State<AbRule>) -> StateResult<State<AbRule>> {
    state.tokenize(AbRule::a, |s| {
        s.match_str("0")
            .or_else(|s| s.match_str("1"))
            .or_else(|s| s.match_str("2"))
            .or_else(|s| s.match_str("3"))
            .or_else(|s| s.match_str("4"))
            .or_else(|s| s.match_str("5"))
            .or_else(|s| s.match_str("6"))
            .or_else(|s| s.match_str("7"))
            .or_else(|s| s.match_str("8"))
            .or_else(|s| s.match_str("9"))
    })
}

#[test]
fn repeat_until_failure() {
    let state = State::new("789X");
    let end = state.repeat(digit_rule).unwrap();
    assert_eq!(end.idx(), 3);
    let toks = end.tokens();
    assert_eq!(toks.len(), 3);
    assert_eq!(toks[2].as_str(), "9");
}

#[test]
fn repeat_stops_without_progress() {
    let state: State<AbRule> = State::new("xyz");
    let end = state.repeat(|s| s.optional(|s| s.match_str("a"))).unwrap();
    assert_eq!(end.idx(), 0);
}

#[test]
fn optional_never_fails() {
    let state: State<AbRule> = State::new("ab");
    let s = state.optional(|s| s.match_str("x")).unwrap();
    assert_eq!(s.idx(), 0);
    let s = s.optional(|s| s.match_str("a")).unwrap();
    assert_eq!(s.idx(), 1);
}

#[test]
fn match_str_and_apply() {
    let state: State<AbRule> = State::new("ab");
    let s = state.match_str("b").unwrap_err();
    assert_eq!(s.idx(), 0);
    let s = s.apply(|s| s.match_str("a")).unwrap();
    assert_eq!(s.idx(), 1);
}
