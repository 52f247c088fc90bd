use vstd::prelude::*;

use crate::ast::{Grammar, Identifier, Lhs, Production, ProductionModel, Rhs, Rule, Terminal};
use crate::syntax::{
    at_top, back_ws, bracketed, find_char, find_comment_close, find_top, grammar_text, ident_end,
    identifier_prefix, is_ident_char, is_ident_start, is_identifier, is_quote, is_ws,
    lemma_find_char_bounds, lemma_find_top_bounds, lemma_trim_len, production_text, quoted,
    rhs_text, run, skip_trivia, skip_ws, split_parse, step, terminal_prefix, top, trim, Nesting,
};
use crate::text::{chars_of, string_of};
use vstd::string::StrSliceExecFns;

verus! {

/// Why EBNF text could not be read.
#[derive(Debug, PartialEq, Eq)]
pub enum Error {
    ParseError(String),
}

impl Error {
    /// A description of the failure.
    pub fn to_string(&self) -> (r: String)
        ensures
            match self {
                Error::ParseError(d) => r@ == "failed to parse: "@ + d@,
            },
    {
        match self {
            Error::ParseError(d) => {
                let mut out: Vec<char> = Vec::new();
                crate::text::push_str(&mut out, "failed to parse: ");
                crate::text::push_str(&mut out, d.as_str());
                string_of(out.as_slice())
            },
        }
    }
}

fn fail(detail: &str) -> (r: Error) {
    Error::ParseError(detail.to_owned())
}

/// The running nesting of a scan.
struct Scan {
    depth: usize,
    quote: Option<char>,
}

impl View for Scan {
    type V = Nesting;

    closed spec fn view(&self) -> Nesting {
        Nesting { depth: self.depth as nat, quote: self.quote }
    }
}

fn start_scan() -> (r: Scan)
    ensures
        r@ == top(),
        r.depth == 0,
{
    Scan { depth: 0, quote: None }
}

fn is_quote_char(c: char) -> (r: bool)
    ensures
        r == is_quote(c),
{
    c == '"' || c == '\''
}

fn is_ws_char(c: char) -> (r: bool)
    ensures
        r == is_ws(c),
{
    c == ' ' || c == '\t' || c == '\r' || c == '\n'
}

fn is_ident_start_char(c: char) -> (r: bool)
    ensures
        r == is_ident_start(c),
{
    ('a' <= c && c <= 'z') || ('A' <= c && c <= 'Z') || c == '_'
}

fn is_ident_char_exec(c: char) -> (r: bool)
    ensures
        r == is_ident_char(c),
{
    ('a' <= c && c <= 'z') || ('A' <= c && c <= 'Z') || ('0' <= c && c <= '9') || c == '_'
}

fn advance(st: &mut Scan, c: char)
    requires
        old(st).depth < usize::MAX,
    ensures
        final(st)@ == step(old(st)@, c),
        final(st).depth <= old(st).depth + 1,
{
    match st.quote {
        Some(q) => {
            if c == q {
                st.quote = None;
            }
        },
        None => {
            if is_quote_char(c) {
                st.quote = Some(c);
            } else if c == '(' || c == '[' || c == '{' {
                st.depth = st.depth + 1;
            } else if (c == ')' || c == ']' || c == '}') && st.depth > 0 {
                st.depth = st.depth - 1;
            }
        },
    }
}

fn scan_at_top(st: &Scan) -> (r: bool)
    ensures
        r == (st@ == top()),
{
    st.depth == 0 && st.quote.is_none()
}

pub proof fn lemma_run_push(st: Nesting, x: Seq<char>, c: char)
    ensures
        run(st, x.push(c)) == step(run(st, x), c),
    decreases x.len(),
{
    if x.len() == 0 {
        assert(x.push(c).drop_first() =~= Seq::<char>::empty());
        assert(x.push(c)[0] == c);
        assert(run(step(st, c), Seq::<char>::empty()) == step(st, c));
        assert(run(st, x) == st);
    } else {
        assert(x.push(c).drop_first() =~= x.drop_first().push(c));
        assert(x.push(c)[0] == x[0]);
        lemma_run_push(step(st, x[0]), x.drop_first(), c);
    }
}

proof fn lemma_take_push(s: Seq<char>, k: int)
    requires
        0 <= k < s.len(),
    ensures
        s.take(k + 1) == s.take(k).push(s[k]),
{
    assert(s.take(k + 1) =~= s.take(k).push(s[k]));
}

/// The bounds of `c[lo..hi]` without its leading and trailing whitespace.
fn trim_region(c: &Vec<char>, lo: usize, hi: usize) -> (r: (usize, usize))
    requires
        lo <= hi <= c@.len(),
    ensures
        lo <= r.0 <= r.1 <= hi,
        c@.subrange(r.0 as int, r.1 as int) == trim(c@.subrange(lo as int, hi as int)),
{
    let ghost s = c@.subrange(lo as int, hi as int);
    let mut i = lo;
    while i < hi && is_ws_char(c[i])
        invariant
            lo <= i <= hi <= c@.len(),
            s == c@.subrange(lo as int, hi as int),
            skip_ws(s, (i - lo) as int) == skip_ws(s, 0),
        decreases hi - i,
    {
        i = i + 1;
    }
    let mut j = hi;
    while j > i && is_ws_char(c[j - 1])
        invariant
            lo <= i <= j <= hi <= c@.len(),
            s == c@.subrange(lo as int, hi as int),
            skip_ws(s, (i - lo) as int) == (i - lo) as int,
            skip_ws(s, 0) == (i - lo) as int,
            back_ws(s, (i - lo) as int, (j - lo) as int) == back_ws(s, (i - lo) as int, s.len() as int),
        decreases j - i,
    {
        j = j - 1;
    }
    assert(back_ws(s, (i - lo) as int, (j - lo) as int) == (j - lo) as int);
    assert(c@.subrange(i as int, j as int) =~= s.subrange((i - lo) as int, (j - lo) as int));
    (i, j)
}

/// The first offset of `c[lo..hi]` where `op` stands at the top level.
fn find_top_region(c: &Vec<char>, lo: usize, hi: usize, op: char) -> (r: Option<usize>)
    requires
        lo <= hi <= c@.len(),
    ensures
        match find_top(c@.subrange(lo as int, hi as int), op, 0) {
            Some(k) => r is Some && r->Some_0 == lo + k,
            None => r is None,
        },
{
    let ghost s = c@.subrange(lo as int, hi as int);
    let mut st = start_scan();
    let mut i = lo;
    proof {
        assert(s.take(0) =~= Seq::<char>::empty());
    }
    while i < hi
        invariant
            lo <= i <= hi <= c@.len(),
            s == c@.subrange(lo as int, hi as int),
            st@ == run(top(), s.take((i - lo) as int)),
            st.depth <= i - lo,
            find_top(s, op, (i - lo) as int) == find_top(s, op, 0),
        decreases hi - i,
    {
        if scan_at_top(&st) && c[i] == op {
            return Some(i);
        }
        let ghost k = (i - lo) as int;
        advance(&mut st, c[i]);
        proof {
            lemma_take_push(s, k);
            lemma_run_push(top(), s.take(k), s[k]);
        }
        i = i + 1;
    }
    None
}

/// Whether `c[lo..hi]` is one region bracketed by `open` and `close`.
fn bracketed_region(c: &Vec<char>, lo: usize, hi: usize, open: char, close: char) -> (r: bool)
    requires
        lo <= hi <= c@.len(),
    ensures
        r == bracketed(c@.subrange(lo as int, hi as int), open, close),
{
    let ghost s = c@.subrange(lo as int, hi as int);
    if hi - lo < 2 || c[lo] != open || c[hi - 1] != close {
        assert(s.len() >= 2 ==> s[0] == c@[lo as int] && s.last() == c@[hi - 1]);
        return false;
    }
    let mut st = start_scan();
    proof {
        assert(s.take(0) =~= Seq::<char>::empty());
    }
    let mut i = lo;
    while i < hi
        invariant
            lo < hi <= c@.len(),
            lo <= i <= hi,
            s == c@.subrange(lo as int, hi as int),
            st@ == run(top(), s.take((i - lo) as int)),
            st.depth <= i - lo,
            forall|k: int| 0 < k < i - lo ==> !at_top(s, k),
        decreases hi - i,
    {
        if i > lo && scan_at_top(&st) {
            assert(at_top(s, (i - lo) as int));
            return false;
        }
        let ghost k = (i - lo) as int;
        advance(&mut st, c[i]);
        proof {
            lemma_take_push(s, k);
            lemma_run_push(top(), s.take(k), s[k]);
        }
        i = i + 1;
    }
    proof {
        assert(s.take(s.len() as int) =~= s);
    }
    scan_at_top(&st)
}

/// Whether `c[lo..hi]` is a quoted literal.
fn quoted_region(c: &Vec<char>, lo: usize, hi: usize) -> (r: bool)
    requires
        lo <= hi <= c@.len(),
    ensures
        r == quoted(c@.subrange(lo as int, hi as int)),
{
    let ghost s = c@.subrange(lo as int, hi as int);
    if hi - lo < 2 || !is_quote_char(c[lo]) || c[hi - 1] != c[lo] {
        return false;
    }
    let q = c[lo];
    let mut i = lo + 1;
    while i < hi - 1
        invariant
            lo < i <= hi - 1,
            hi <= c@.len(),
            q == s[0],
            s == c@.subrange(lo as int, hi as int),
            forall|k: int| 0 < k < i - lo ==> #[trigger] s[k] != s[0],
        decreases hi - 1 - i,
    {
        if c[i] == q {
            assert(s[(i - lo) as int] == s[0]);
            return false;
        }
        i = i + 1;
    }
    true
}

/// Whether `c[lo..hi]` is an identifier.
fn identifier_region(c: &Vec<char>, lo: usize, hi: usize) -> (r: bool)
    requires
        lo <= hi <= c@.len(),
    ensures
        r == is_identifier(c@.subrange(lo as int, hi as int)),
{
    let ghost s = c@.subrange(lo as int, hi as int);
    if hi == lo || !is_ident_start_char(c[lo]) {
        return false;
    }
    let mut i = lo + 1;
    while i < hi
        invariant
            lo < i <= hi <= c@.len(),
            s == c@.subrange(lo as int, hi as int),
            forall|k: int| 0 < k < i - lo ==> is_ident_char(#[trigger] s[k]),
        decreases hi - i,
    {
        if !is_ident_char_exec(c[i]) {
            assert(!is_ident_char(s[(i - lo) as int]));
            return false;
        }
        i = i + 1;
    }
    true
}

/// The string of the characters `c[lo..hi]`.
fn region_string(c: &Vec<char>, lo: usize, hi: usize) -> (r: String)
    requires
        lo <= hi <= c@.len(),
    ensures
        r@ == c@.subrange(lo as int, hi as int),
{
    let mut out: Vec<char> = Vec::new();
    let mut i = lo;
    while i < hi
        invariant
            lo <= i <= hi <= c@.len(),
            out@ == c@.subrange(lo as int, i as int),
        decreases hi - i,
    {
        out.push(c[i]);
        i = i + 1;
        assert(out@ =~= c@.subrange(lo as int, i as int));
    }
    string_of(out.as_slice())
}

/// Parses `c[lo..hi]` as a whole right-hand side.
fn rhs_region(c: &Vec<char>, lo: usize, hi: usize) -> (r: Result<Rhs, Error>)
    requires
        lo <= hi <= c@.len(),
    ensures
        match rhs_text(c@.subrange(lo as int, hi as int)) {
            Some(m) => r is Ok && r->Ok_0@ == m,
            None => r is Err,
        },
    decreases hi - lo,
{
    let ghost s = c@.subrange(lo as int, hi as int);
    let (a, b) = trim_region(c, lo, hi);
    let ghost t = c@.subrange(a as int, b as int);
    proof {
        lemma_trim_len(s);
        assert(t.len() <= s.len());
    }
    if bracketed_region(c, a, b, '(', ')') {
        proof {
            assert(c@.subrange(a + 1, b - 1) =~= t.subrange(1, t.len() - 1));
        }
        let inner = rhs_region(c, a + 1, b - 1)?;
        return Ok(Rhs::Group(Box::new(inner)));
    }
    if bracketed_region(c, a, b, '{', '}') {
        proof {
            assert(c@.subrange(a + 1, b - 1) =~= t.subrange(1, t.len() - 1));
        }
        let inner = rhs_region(c, a + 1, b - 1)?;
        return Ok(Rhs::Repeat(Box::new(inner)));
    }
    if bracketed_region(c, a, b, '[', ']') {
        proof {
            assert(c@.subrange(a + 1, b - 1) =~= t.subrange(1, t.len() - 1));
        }
        let inner = rhs_region(c, a + 1, b - 1)?;
        return Ok(Rhs::Optional(Box::new(inner)));
    }
    proof {
        assert(!bracketed(t, '(', ')') && !bracketed(t, '{', '}') && !bracketed(t, '[', ']'));
        lemma_find_top_bounds(t, '|', 0);
        lemma_find_top_bounds(t, ',', 0);
        lemma_find_top_bounds(t, '-', 0);
    }
    let (split, kind) = match find_top_region(c, a, b, '|') {
        Some(i) => (Some(i), 0u8),
        None => match find_top_region(c, a, b, ',') {
            Some(i) => (Some(i), 1u8),
            None => (find_top_region(c, a, b, '-'), 2u8),
        },
    };
    match split {
        Some(i) => {
            proof {
                let k = (i - a) as int;
                assert(rhs_text(s) == split_parse(t, k, kind as int));
                assert(c@.subrange(a as int, i as int) =~= t.take(k));
                assert(c@.subrange(i + 1, b as int) =~= t.skip(k + 1));
            }
            let left = rhs_region(c, a, i);
            let right = rhs_region(c, i + 1, b);
            match (left, right) {
                (Ok(l), Ok(rr)) => {
                    if kind == 0 {
                        Ok(Rhs::Alternation(Box::new(l), Box::new(rr)))
                    } else if kind == 1 {
                        Ok(Rhs::Concatenation(Box::new(l), Box::new(rr)))
                    } else {
                        Ok(Rhs::Exception(Box::new(l), Box::new(rr)))
                    }
                },
                _ => Err(fail("an operand of an operator is malformed")),
            }
        },
        None => {
            assert(find_top(t, '|', 0) is None && find_top(t, ',', 0) is None && find_top(t, '-', 0) is None);
            if quoted_region(c, a, b) {
                proof {
                    assert(c@.subrange(a + 1, b - 1) =~= t.subrange(1, t.len() - 1));
                }
                Ok(Rhs::Terminal(Terminal(region_string(c, a + 1, b - 1))))
            } else if identifier_region(c, a, b) {
                Ok(Rhs::Identifier(Identifier(region_string(c, a, b))))
            } else {
                Err(fail("expected a group, an operator, a literal or an identifier"))
            }
        },
    }
}

/// The first offset from `from` on in `c[lo..hi]` that holds `ch`.
fn find_char_region(c: &Vec<char>, lo: usize, hi: usize, ch: char, from: usize) -> (r: Option<usize>)
    requires
        lo <= from <= hi <= c@.len(),
    ensures
        match find_char(c@.subrange(lo as int, hi as int), ch, from - lo) {
            Some(k) => r is Some && r->Some_0 == lo + k,
            None => r is None,
        },
        r matches Some(x) ==> from <= x < hi,
{
    let ghost s = c@.subrange(lo as int, hi as int);
    proof {
        lemma_find_char_bounds(s, ch, from - lo);
    }
    let mut i = from;
    while i < hi
        invariant
            lo <= from <= i <= hi <= c@.len(),
            s == c@.subrange(lo as int, hi as int),
            find_char(s, ch, (i - lo) as int) == find_char(s, ch, from - lo),
        decreases hi - i,
    {
        if c[i] == ch {
            return Some(i);
        }
        i = i + 1;
    }
    None
}

/// The first offset from `i` on where `*)` starts.
fn find_comment_close_exec(c: &Vec<char>, i: usize) -> (r: Option<usize>)
    requires
        i <= c@.len(),
    ensures
        match find_comment_close(c@, i as int) {
            Some(m) => r == Some(m as usize) && i <= m && m + 2 <= c@.len(),
            None => r is None,
        },
{
    let mut j = i;
    while c.len() > 0 && j < c.len() - 1
        invariant
            i <= j <= c@.len(),
            find_comment_close(c@, j as int) == find_comment_close(c@, i as int),
        decreases c@.len() - j,
    {
        if c[j] == '*' && c[j + 1] == ')' {
            return Some(j);
        }
        j = j + 1;
    }
    None
}

/// The first offset from `i` on that is neither whitespace nor in a comment.
fn skip_trivia_exec(c: &Vec<char>, i: usize) -> (r: usize)
    requires
        i <= c@.len(),
    ensures
        r == skip_trivia(c@, i as int),
        i <= r <= c@.len(),
{
    let mut j = i;
    loop
        invariant
            i <= j <= c@.len(),
            skip_trivia(c@, j as int) == skip_trivia(c@, i as int),
        decreases c@.len() - j,
    {
        if j < c.len() && is_ws_char(c[j]) {
            j = j + 1;
        } else if c.len() > 0 && j < c.len() - 1 && c[j] == '(' && c[j + 1] == '*' {
            match find_comment_close_exec(c, j + 2) {
                Some(m) => {
                    j = m + 2;
                },
                None => {
                    return j;
                },
            }
        } else {
            return j;
        }
    }
}

/// The production that starts at offset `i` of `c`, and its length.
fn production_at(c: &Vec<char>, i: usize) -> (r: Option<(Production, usize)>)
    requires
        i <= c@.len(),
    ensures
        match production_text(c@.skip(i as int)) {
            Some((p, k)) => r is Some && r->Some_0.0@ == p && r->Some_0.1 == k && i + k <= c@.len(),
            None => r is None,
        },
{
    let n = c.len();
    let ghost s = c@.skip(i as int);
    proof {
        assert(s =~= c@.subrange(i as int, n as int));
    }
    let e = match find_char_region(c, i, n, '=', i) {
        Some(e) => e,
        None => return None,
    };
    let ghost ee = (e - i) as int;
    proof {
        assert(find_char(s, '=', 0) == Some(ee));
        assert(c@.subrange(i as int, e as int) =~= s.take(ee));
    }
    let (a, b) = trim_region(c, i, e);
    let ghost name = c@.subrange(a as int, b as int);
    proof {
        assert(name == trim(s.take(ee)));
    }
    if !identifier_region(c, a, b) {
        return None;
    }
    proof {
        assert(c@.subrange(e + 1, n as int) =~= s.skip(ee + 1));
    }
    let k = match find_top_region(c, e + 1, n, ';') {
        Some(k) => k,
        None => return None,
    };
    proof {
        lemma_find_top_bounds(s.skip(ee + 1), ';', 0);
        assert(c@.subrange(e + 1, k as int) =~= s.subrange(ee + 1, ee + 1 + (k - e - 1)));
    }
    let ghost kk = (k - e - 1) as int;
    proof {
        assert(find_top(s.skip(ee + 1), ';', 0) == Some(kk));
    }
    match rhs_region(c, e + 1, k) {
        Ok(rhs) => {
            let text = region_string(c, a, b);
            let p = Production { lhs: Lhs(Identifier(text)), rhs };
            proof {
                assert(rhs_text(s.subrange(ee + 1, ee + 1 + kk)) == Some(rhs@));
                assert(p@ == ProductionModel { lhs: name, rhs: rhs@ });
                assert(production_text(s) == Some((p@, (ee + kk + 2) as nat)));
            }
            Some((p, k + 1 - i))
        },
        Err(_) => None,
    }
}

/// Reads an identifier at the start of `input`: a letter or underscore, then
/// letters, digits and underscores. Returns the rest of the input with it.
pub fn identifier<'a>(input: &'a str) -> (r: Result<(&'a str, Identifier), Error>)
    ensures
        match identifier_prefix(input@) {
            Some(k) => r is Ok && r->Ok_0.0@ == input@.skip(k as int) && r->Ok_0.1.0@
                == input@.take(k as int),
            None => r is Err,
        },
{
    let c = chars_of(input);
    let n = c.len();
    if n == 0 || !is_ident_start_char(c[0]) {
        return Err(fail("expected an identifier"));
    }
    let mut i: usize = 1;
    while i < n && is_ident_char_exec(c[i])
        invariant
            1 <= i <= n,
            n == c@.len(),
            c@ == input@,
            ident_end(c@, i as int) == ident_end(c@, 1),
        decreases n - i,
    {
        i = i + 1;
    }
    let name = region_string(&c, 0, i);
    proof {
        assert(c@.subrange(0, i as int) =~= input@.take(i as int));
    }
    Ok((input.substring_char(i, n), Identifier(name)))
}

/// Reads a literal at the start of `input`, in double or single quotes, up to
/// the next occurrence of the opening quote. Returns the rest of the input with it.
pub fn terminal<'a>(input: &'a str) -> (r: Result<(&'a str, Terminal), Error>)
    ensures
        match terminal_prefix(input@) {
            Some(q) => r is Ok && r->Ok_0.0@ == input@.skip(q + 1) && r->Ok_0.1.0@
                == input@.subrange(1, q),
            None => r is Err,
        },
{
    let c = chars_of(input);
    let n = c.len();
    if n == 0 || !is_quote_char(c[0]) {
        return Err(fail("expected a quoted literal"));
    }
    proof {
        assert(c@.subrange(0, n as int) =~= input@);
    }
    match find_char_region(&c, 0, n, c[0], 1) {
        Some(q) => {
            let text = region_string(&c, 1, q);
            proof {
                assert(input@.skip(q + 1) =~= input@.subrange(q + 1, n as int));
            }
            Ok((input.substring_char(q + 1, n), Terminal(text)))
        },
        None => Err(fail("unterminated literal")),
    }
}

/// Reads the left-hand side of a production: an identifier.
pub fn lhs<'a>(input: &'a str) -> (r: Result<(&'a str, Lhs), Error>)
    ensures
        match identifier_prefix(input@) {
            Some(k) => r is Ok && r->Ok_0.0@ == input@.skip(k as int) && r->Ok_0.1.0.0@
                == input@.take(k as int),
            None => r is Err,
        },
{
    let (rest, name) = identifier(input)?;
    Ok((rest, Lhs(name)))
}

/// Reads the whole of `input` as a right-hand side.
pub fn rhs<'a>(input: &'a str) -> (r: Result<(&'a str, Rhs), Error>)
    ensures
        match rhs_text(input@) {
            Some(m) => r is Ok && r->Ok_0.0@ == Seq::<char>::empty() && r->Ok_0.1@ == m,
            None => r is Err,
        },
{
    let c = chars_of(input);
    let n = c.len();
    proof {
        assert(c@.subrange(0, n as int) =~= input@);
    }
    let value = rhs_region(&c, 0, n)?;
    Ok((input.substring_char(n, n), value))
}

/// Reads a production at the start of `input`, through its closing `;`.
/// Returns the rest of the input with it.
pub fn production<'a>(input: &'a str) -> (r: Result<(&'a str, Production), Error>)
    ensures
        match production_text(input@) {
            Some((p, k)) => r is Ok && r->Ok_0.0@ == input@.skip(k as int) && r->Ok_0.1@ == p,
            None => r is Err,
        },
{
    let c = chars_of(input);
    let n = c.len();
    proof {
        assert(c@.skip(0) =~= input@);
    }
    match production_at(&c, 0) {
        Some((p, k)) => Ok((input.substring_char(k, n), p)),
        None => Err(fail("expected a production `name = rhs ;`")),
    }
}

/// Reads a rule at the start of `input`: the same as `production`.
pub fn rule<'a>(input: &'a str) -> (r: Result<(&'a str, Rule), Error>)
    ensures
        match production_text(input@) {
            Some((p, k)) => r is Ok && r->Ok_0.0@ == input@.skip(k as int) && r->Ok_0.1@ == p,
            None => r is Err,
        },
{
    production(input)
}

/// Reads productions from the start of `input` for as long as they come,
/// skipping whitespace and comments around them. Returns the rest of the input
/// with the grammar; it never fails, and may hold no production.
pub fn grammar<'a>(input: &'a str) -> (r: Result<(&'a str, Grammar), Error>)
    ensures
        r is Ok,
        r->Ok_0.1@ == grammar_text(input@, 0).0,
        r->Ok_0.0@ == input@.skip(grammar_text(input@, 0).1),
        0 <= grammar_text(input@, 0).1 <= input@.len(),
{
    let c = chars_of(input);
    let n = c.len();
    let ghost total = grammar_text(c@, 0);
    let mut rules: Vec<Production> = Vec::new();
    let mut i: usize = 0;
    let mut end: usize = 0;
    loop
        invariant_except_break
            rules@.map_values(|p: Production| p@) + grammar_text(c@, i as int).0 == total.0,
            grammar_text(c@, i as int).1 == total.1,
        invariant
            n == c@.len(),
            c@ == input@,
            i <= n,
            total == grammar_text(c@, 0),
        ensures
            rules@.map_values(|p: Production| p@) == total.0,
            end == total.1,
            end <= n,
        decreases n - i,
    {
        let j = skip_trivia_exec(&c, i);
        match production_at(&c, j) {
            Some((p, k)) => {
                let next = skip_trivia_exec(&c, j + k);
                let ghost before = rules@;
                let ghost pm = p@;
                rules.push(p);
                proof {
                    assert(rules@.map_values(|p: Production| p@) =~= before.map_values(
                        |p: Production| p@,
                    ).push(pm));
                }
                if next > i {
                    proof {
                        let rest = grammar_text(c@, next as int);
                        assert(grammar_text(c@, i as int).0 == seq![pm] + rest.0);
                        assert(before.map_values(|p: Production| p@).push(pm) + rest.0
                            =~= before.map_values(|p: Production| p@) + (seq![pm] + rest.0));
                    }
                    i = next;
                } else {
                    proof {
                        assert(grammar_text(c@, i as int).0 =~= seq![pm]);
                        assert(before.map_values(|p: Production| p@).push(pm) =~= before.map_values(
                            |p: Production| p@,
                        ) + seq![pm]);
                    }
                    end = next;
                    break;
                }
            },
            None => {
                proof {
                    assert(grammar_text(c@, i as int).0 =~= Seq::<ProductionModel>::empty());
                    assert(rules@.map_values(|p: Production| p@) =~= total.0);
                }
                end = i;
                break;
            },
        }
    }
    let g = Grammar { rules };
    proof {
        assert(g@ =~= total.0);
    }
    Ok((input.substring_char(end, n), g))
}

impl Rhs {
    /// Reads the whole of `s` as a right-hand side.
    pub fn from_str(s: &str) -> (r: Result<Rhs, Error>)
        ensures
            match rhs_text(s@) {
                Some(m) => r is Ok && r->Ok_0@ == m,
                None => r is Err,
            },
    {
        let (_, value) = rhs(s)?;
        Ok(value)
    }
}

impl Production {
    /// Reads the production at the start of `s`; what follows it is ignored.
    pub fn from_str(s: &str) -> (r: Result<Production, Error>)
        ensures
            match production_text(s@) {
                Some((p, k)) => r is Ok && r->Ok_0@ == p,
                None => r is Err,
            },
    {
        let (_, value) = production(s)?;
        Ok(value)
    }
}

impl Grammar {
    /// Reads the productions at the start of `s`; what follows them is ignored.
    pub fn from_str(s: &str) -> (r: Result<Grammar, Error>)
        ensures
            r is Ok,
            r->Ok_0@ == grammar_text(s@, 0).0,
    {
        let (_, value) = grammar(s)?;
        Ok(value)
    }
}

} // verus!
