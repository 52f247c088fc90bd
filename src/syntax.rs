use vstd::prelude::*;

use crate::ast::{ProductionModel, RhsModel};

verus! {

pub open spec fn is_ws(c: char) -> bool {
    c == ' ' || c == '\t' || c == '\r' || c == '\n'
}

pub open spec fn is_letter(c: char) -> bool {
    ('a' <= c && c <= 'z') || ('A' <= c && c <= 'Z')
}

pub open spec fn is_digit(c: char) -> bool {
    '0' <= c && c <= '9'
}

pub open spec fn is_ident_start(c: char) -> bool {
    is_letter(c) || c == '_'
}

pub open spec fn is_ident_char(c: char) -> bool {
    is_letter(c) || is_digit(c) || c == '_'
}

/// A letter or underscore followed by letters, digits and underscores.
pub open spec fn is_identifier(s: Seq<char>) -> bool {
    &&& s.len() > 0
    &&& is_ident_start(s[0])
    &&& forall|i: int| 0 < i < s.len() ==> is_ident_char(#[trigger] s[i])
}

/// The nesting depth of brackets, and the quote that is open, if any.
pub struct Nesting {
    pub depth: nat,
    pub quote: Option<char>,
}

pub open spec fn top() -> Nesting {
    Nesting { depth: 0, quote: None }
}

pub open spec fn is_open_bracket(c: char) -> bool {
    c == '(' || c == '[' || c == '{'
}

pub open spec fn is_close_bracket(c: char) -> bool {
    c == ')' || c == ']' || c == '}'
}

pub open spec fn is_quote(c: char) -> bool {
    c == '"' || c == '\''
}

/// The nesting after reading `c`. Inside quotes only the closing quote counts;
/// a closing bracket at depth zero is ignored.
pub open spec fn step(st: Nesting, c: char) -> Nesting {
    match st.quote {
        Some(q) => if c == q {
            Nesting { depth: st.depth, quote: None }
        } else {
            st
        },
        None => if is_quote(c) {
            Nesting { depth: st.depth, quote: Some(c) }
        } else if is_open_bracket(c) {
            Nesting { depth: st.depth + 1, quote: None }
        } else if is_close_bracket(c) && st.depth > 0 {
            Nesting { depth: (st.depth - 1) as nat, quote: None }
        } else {
            st
        },
    }
}

/// The nesting after reading `s` from `st`.
pub open spec fn run(st: Nesting, s: Seq<char>) -> Nesting
    decreases s.len(),
{
    if s.len() == 0 {
        st
    } else {
        run(step(st, s[0]), s.drop_first())
    }
}

/// Offset `i` of `s` lies outside every bracket and quote.
pub open spec fn at_top(s: Seq<char>, i: int) -> bool {
    run(top(), s.take(i)) == top()
}

/// The first offset from `i` on where `op` stands outside every bracket and quote.
pub open spec fn find_top(s: Seq<char>, op: char, i: int) -> Option<int>
    decreases s.len() - i,
{
    if i < 0 || i >= s.len() {
        None
    } else if at_top(s, i) && s[i] == op {
        Some(i)
    } else {
        find_top(s, op, i + 1)
    }
}

/// `s` is one bracketed region from `open` to `close`, with its brackets
/// balanced and no offset inside it at the top level.
pub open spec fn bracketed(s: Seq<char>, open: char, close: char) -> bool {
    &&& s.len() >= 2
    &&& s[0] == open
    &&& s.last() == close
    &&& at_top(s, s.len() as int)
    &&& forall|i: int| 0 < i < s.len() ==> !at_top(s, i)
}

/// `s` is a literal: a quote, characters other than that quote, the same quote.
pub open spec fn quoted(s: Seq<char>) -> bool {
    &&& s.len() >= 2
    &&& is_quote(s[0])
    &&& s.last() == s[0]
    &&& forall|i: int| 0 < i < s.len() - 1 ==> #[trigger] s[i] != s[0]
}

/// The first offset from `i` on that holds no whitespace.
pub open spec fn skip_ws(s: Seq<char>, i: int) -> int
    decreases s.len() - i,
{
    if 0 <= i < s.len() && is_ws(s[i]) {
        skip_ws(s, i + 1)
    } else {
        i
    }
}

/// The end of `s[lo..j]` once trailing whitespace is dropped.
pub open spec fn back_ws(s: Seq<char>, lo: int, j: int) -> int
    decreases j - lo,
{
    if lo < j && j <= s.len() && is_ws(s[j - 1]) {
        back_ws(s, lo, j - 1)
    } else {
        j
    }
}

/// `s` without leading and trailing whitespace.
pub open spec fn trim(s: Seq<char>) -> Seq<char> {
    let lo = skip_ws(s, 0);
    s.subrange(lo, back_ws(s, lo, s.len() as int))
}

pub proof fn lemma_skip_ws_bounds(s: Seq<char>, i: int)
    requires
        0 <= i <= s.len(),
    ensures
        i <= skip_ws(s, i) <= s.len(),
    decreases s.len() - i,
{
    if i < s.len() && is_ws(s[i]) {
        lemma_skip_ws_bounds(s, i + 1);
    }
}

pub proof fn lemma_back_ws_bounds(s: Seq<char>, lo: int, j: int)
    requires
        0 <= lo <= j <= s.len(),
    ensures
        lo <= back_ws(s, lo, j) <= j,
    decreases j - lo,
{
    if lo < j && is_ws(s[j - 1]) {
        lemma_back_ws_bounds(s, lo, j - 1);
    }
}

pub proof fn lemma_trim_len(s: Seq<char>)
    ensures
        trim(s).len() <= s.len(),
{
    lemma_skip_ws_bounds(s, 0);
    lemma_back_ws_bounds(s, skip_ws(s, 0), s.len() as int);
}

pub proof fn lemma_find_top_bounds(s: Seq<char>, op: char, i: int)
    ensures
        find_top(s, op, i) matches Some(j) ==> i <= j < s.len() && s[j] == op,
    decreases s.len() - i,
{
    if 0 <= i < s.len() && !(at_top(s, i) && s[i] == op) {
        lemma_find_top_bounds(s, op, i + 1);
    }
}

/// Splits `t` at `op`: the model built by `make` from both sides, when both parse.
pub open spec fn split_parse(t: Seq<char>, i: int, kind: int) -> Option<RhsModel>
    decreases t.len(), 0int,
{
    if 0 <= i < t.len() {
        match (rhs_text(t.take(i)), rhs_text(t.skip(i + 1))) {
            (Some(a), Some(b)) => Some(
                if kind == 0 {
                    RhsModel::Alternation(Box::new(a), Box::new(b))
                } else if kind == 1 {
                    RhsModel::Concatenation(Box::new(a), Box::new(b))
                } else {
                    RhsModel::Exception(Box::new(a), Box::new(b))
                },
            ),
            _ => None,
        }
    } else {
        None
    }
}

/// What a right-hand side text denotes. Surrounding whitespace is dropped. A
/// text wholly in brackets is a group, repetition or option; otherwise the
/// text is split at its first top-level `|`, else `,`, else `-`, and both
/// sides are parsed; otherwise it must be a literal or an identifier.
pub open spec fn rhs_text(s: Seq<char>) -> Option<RhsModel>
    decreases s.len(), 1int,
{
    let t = trim(s);
    if t.len() > s.len() {
        None
    } else if bracketed(t, '(', ')') {
        match rhs_text(t.subrange(1, t.len() - 1)) {
            Some(a) => Some(RhsModel::Group(Box::new(a))),
            None => None,
        }
    } else if bracketed(t, '{', '}') {
        match rhs_text(t.subrange(1, t.len() - 1)) {
            Some(a) => Some(RhsModel::Repeat(Box::new(a))),
            None => None,
        }
    } else if bracketed(t, '[', ']') {
        match rhs_text(t.subrange(1, t.len() - 1)) {
            Some(a) => Some(RhsModel::Optional(Box::new(a))),
            None => None,
        }
    } else if let Some(i) = find_top(t, '|', 0) {
        split_parse(t, i, 0)
    } else if let Some(i) = find_top(t, ',', 0) {
        split_parse(t, i, 1)
    } else if let Some(i) = find_top(t, '-', 0) {
        split_parse(t, i, 2)
    } else if quoted(t) {
        Some(RhsModel::Terminal(t.subrange(1, t.len() - 1)))
    } else if is_identifier(t) {
        Some(RhsModel::Identifier(t))
    } else {
        None
    }
}

/// The end of the run of identifier characters that starts at `i`.
pub open spec fn ident_end(s: Seq<char>, i: int) -> int
    decreases s.len() - i,
{
    if 0 <= i < s.len() && is_ident_char(s[i]) {
        ident_end(s, i + 1)
    } else {
        i
    }
}

/// The identifier at the start of `s` and its length: a letter or underscore,
/// then every identifier character that follows.
pub open spec fn identifier_prefix(s: Seq<char>) -> Option<nat> {
    if s.len() > 0 && is_ident_start(s[0]) {
        Some(ident_end(s, 1) as nat)
    } else {
        None
    }
}

pub proof fn lemma_find_char_bounds(s: Seq<char>, c: char, i: int)
    ensures
        find_char(s, c, i) matches Some(j) ==> i <= j < s.len() && s[j] == c,
    decreases s.len() - i,
{
    if 0 <= i < s.len() && s[i] != c {
        lemma_find_char_bounds(s, c, i + 1);
    }
}

/// The first offset from `i` on that holds `c`.
pub open spec fn find_char(s: Seq<char>, c: char, i: int) -> Option<int>
    decreases s.len() - i,
{
    if i < 0 || i >= s.len() {
        None
    } else if s[i] == c {
        Some(i)
    } else {
        find_char(s, c, i + 1)
    }
}

/// The literal at the start of `s`: the offset of its closing quote, the first
/// occurrence of its opening quote after it.
pub open spec fn terminal_prefix(s: Seq<char>) -> Option<int> {
    if s.len() > 0 && is_quote(s[0]) {
        find_char(s, s[0], 1)
    } else {
        None
    }
}

/// `s` holds `*)` at offset `i`.
pub open spec fn comment_close_at(s: Seq<char>, i: int) -> bool {
    0 <= i && i + 1 < s.len() && s[i] == '*' && s[i + 1] == ')'
}

/// The first offset from `i` on where `*)` starts.
pub open spec fn find_comment_close(s: Seq<char>, i: int) -> Option<int>
    decreases s.len() - i,
{
    if i < 0 || i + 1 >= s.len() {
        None
    } else if comment_close_at(s, i) {
        Some(i)
    } else {
        find_comment_close(s, i + 1)
    }
}

/// The first offset from `i` on that is neither whitespace nor inside a
/// comment `(* ... *)`.
pub open spec fn skip_trivia(s: Seq<char>, i: int) -> int
    decreases s.len() - i,
{
    if 0 <= i < s.len() && is_ws(s[i]) {
        skip_trivia(s, i + 1)
    } else if 0 <= i && i + 1 < s.len() && s[i] == '(' && s[i + 1] == '*' {
        match find_comment_close(s, i + 2) {
            Some(m) => if m >= i && m + 2 <= s.len() {
                skip_trivia(s, m + 2)
            } else {
                i
            },
            None => i,
        }
    } else {
        i
    }
}

/// The production at the start of `s` and its length: an identifier up to the
/// first `=`, then a right-hand side up to the first top-level `;`, which ends it.
pub open spec fn production_text(s: Seq<char>) -> Option<(ProductionModel, nat)> {
    match find_char(s, '=', 0) {
        None => None,
        Some(e) => {
            let name = trim(s.take(e));
            if 0 <= e < s.len() && is_identifier(name) {
                match find_top(s.skip(e + 1), ';', 0) {
                    None => None,
                    Some(k) => match rhs_text(s.subrange(e + 1, e + 1 + k)) {
                        Some(r) => Some((ProductionModel { lhs: name, rhs: r }, (e + k + 2) as nat)),
                        None => None,
                    },
                }
            } else {
                None
            }
        },
    }
}

/// The productions read from offset `i` of `s` on, each after whitespace and
/// comments, and the offset where reading stopped: after the trailing
/// whitespace and comments of the last production, or `i` if there was none.
pub open spec fn grammar_text(s: Seq<char>, i: int) -> (Seq<ProductionModel>, int)
    decreases s.len() - i,
{
    let j = skip_trivia(s, i);
    match production_text(s.skip(j)) {
        Some((p, k)) => {
            let next = skip_trivia(s, j + k);
            if i < next <= s.len() {
                let rest = grammar_text(s, next);
                (seq![p] + rest.0, rest.1)
            } else {
                (seq![p], next)
            }
        },
        None => (Seq::empty(), i),
    }
}

} // verus!
