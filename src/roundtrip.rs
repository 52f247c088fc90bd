use vstd::prelude::*;

use crate::ast::{print_grammar, print_production, print_rhs, ProductionModel, RhsModel};
use crate::syntax::{
    at_top, back_ws, bracketed, find_char, find_top, grammar_text, is_close_bracket, is_ident_char,
    is_ident_start, is_identifier, is_open_bracket, is_quote, is_ws, lemma_trim_len,
    production_text, rhs_text, run, skip_trivia, skip_ws, split_parse, step, top, trim, Nesting,
};

verus! {

/// The nesting at depth `d`, outside quotes.
pub open spec fn level(d: nat) -> Nesting {
    Nesting { depth: d, quote: None }
}

/// The printed text of `m` shows `op` outside every bracket and quote.
pub open spec fn exposes(m: RhsModel, op: char) -> bool
    decreases m,
{
    match m {
        RhsModel::Alternation(a, b) => op == '|' || exposes(*a, op) || exposes(*b, op),
        RhsModel::Concatenation(a, b) => op == ',' || exposes(*a, op) || exposes(*b, op),
        RhsModel::Exception(a, b) => op == '-' || exposes(*a, op) || exposes(*b, op),
        _ => false,
    }
}

/// A literal that prints between double quotes unchanged.
pub open spec fn literal_ok(t: Seq<char>) -> bool {
    forall|i: int| 0 <= i < t.len() ==> #[trigger] t[i] != '"'
}

/// `m` prints to text that reads back as `m`: its names are identifiers, its
/// literals hold no double quote, and wherever an operand of `|`, `,` or `-`
/// shows an operator of the same or a weaker kind outside brackets, that
/// operand is the right one of a `|`, or of an operator of its own kind.
pub open spec fn printable(m: RhsModel) -> bool
    decreases m,
{
    match m {
        RhsModel::Identifier(s) => is_identifier(s),
        RhsModel::Terminal(t) => literal_ok(t),
        RhsModel::Optional(a) => printable(*a),
        RhsModel::Repeat(a) => printable(*a),
        RhsModel::Group(a) => printable(*a),
        RhsModel::Alternation(a, b) => printable(*a) && printable(*b) && !exposes(*a, '|'),
        RhsModel::Concatenation(a, b) => printable(*a) && printable(*b) && !exposes(*a, '|')
            && !exposes(*b, '|') && !exposes(*a, ','),
        RhsModel::Exception(a, b) => printable(*a) && printable(*b) && !exposes(*a, '|')
            && !exposes(*b, '|') && !exposes(*a, ',') && !exposes(*b, ',') && !exposes(*a, '-'),
    }
}

/// No quote or bracket in `s`.
pub open spec fn plain(s: Seq<char>) -> bool {
    forall|i: int|
        0 <= i < s.len() ==> !is_quote(#[trigger] s[i]) && !is_open_bracket(s[i])
            && !is_close_bracket(s[i])
}

pub proof fn lemma_run_concat(st: Nesting, x: Seq<char>, y: Seq<char>)
    ensures
        run(st, x + y) == run(run(st, x), y),
    decreases x.len(),
{
    if x.len() == 0 {
        assert(x + y =~= y);
    } else {
        assert((x + y)[0] == x[0]);
        assert((x + y).drop_first() =~= x.drop_first() + y);
        lemma_run_concat(step(st, x[0]), x.drop_first(), y);
    }
}

pub proof fn lemma_run_plain(d: nat, s: Seq<char>)
    requires
        plain(s),
    ensures
        run(level(d), s) == level(d),
    decreases s.len(),
{
    if s.len() > 0 {
        assert(!is_quote(s[0]) && !is_open_bracket(s[0]) && !is_close_bracket(s[0]));
        assert(plain(s.drop_first())) by {
            assert forall|i: int| 0 <= i < s.drop_first().len() implies !is_quote(
                #[trigger] s.drop_first()[i],
            ) && !is_open_bracket(s.drop_first()[i]) && !is_close_bracket(s.drop_first()[i]) by {
                assert(s.drop_first()[i] == s[i + 1]);
            }
        }
        lemma_run_plain(d, s.drop_first());
    }
}

pub proof fn lemma_run_quoted(d: nat, q: char, s: Seq<char>)
    requires
        forall|i: int| 0 <= i < s.len() ==> #[trigger] s[i] != q,
    ensures
        run(Nesting { depth: d, quote: Some(q) }, s) == (Nesting { depth: d, quote: Some(q) }),
    decreases s.len(),
{
    if s.len() > 0 {
        assert(s[0] != q);
        assert forall|i: int| 0 <= i < s.drop_first().len() implies #[trigger] s.drop_first()[i]
            != q by {
            assert(s.drop_first()[i] == s[i + 1]);
        }
        lemma_run_quoted(d, q, s.drop_first());
    }
}

pub proof fn lemma_identifier_plain(s: Seq<char>)
    requires
        is_identifier(s),
    ensures
        plain(s),
        forall|i: int| 0 <= i < s.len() ==> !is_ws(#[trigger] s[i]),
        forall|i: int| 0 <= i < s.len() ==> #[trigger] s[i] != '|' && s[i] != ',' && s[i] != '-'
            && s[i] != ';' && s[i] != '=',
{
    assert forall|i: int| 0 <= i < s.len() implies is_ident_char(#[trigger] s[i]) by {
        if i > 0 {
            assert(is_ident_char(s[i]));
        }
    }
}

pub proof fn lemma_plain_take(s: Seq<char>, k: int)
    requires
        plain(s),
        0 <= k <= s.len(),
    ensures
        plain(s.take(k)),
{
    assert forall|i: int| 0 <= i < s.take(k).len() implies !is_quote(#[trigger] s.take(k)[i])
        && !is_open_bracket(s.take(k)[i]) && !is_close_bracket(s.take(k)[i]) by {
        assert(s.take(k)[i] == s[i]);
    }
}

/// The printed text of `m` leaves every depth as it found it, and never goes
/// below it.
pub proof fn lemma_nesting(m: RhsModel, d: nat)
    requires
        printable(m),
    ensures
        run(level(d), print_rhs(m)) == level(d),
        forall|k: int|
            0 <= k <= print_rhs(m).len() ==> #[trigger] run(level(d), print_rhs(m).take(k)).depth
                >= d,
    decreases m,
{
    let p = print_rhs(m);
    match m {
        RhsModel::Identifier(s) => {
            lemma_identifier_plain(s);
            lemma_run_plain(d, s);
            assert forall|k: int| 0 <= k <= p.len() implies #[trigger] run(level(d), p.take(k)).depth
                >= d by {
                lemma_plain_take(s, k);
                lemma_run_plain(d, s.take(k));
            }
        },
        RhsModel::Terminal(t) => {
            let qs = Nesting { depth: d, quote: Some('"') };
            assert(p =~= seq!['"'] + t + seq!['"']);
            lemma_run_concat(level(d), seq!['"'], t + seq!['"']);
            assert(run(level(d), seq!['"']) == qs) by {
                assert(seq!['"'].drop_first() =~= Seq::<char>::empty());
                assert(seq!['"'][0] == '"');
                assert(step(level(d), '"') == qs);
                assert(run(qs, Seq::<char>::empty()) == qs);
            }
            lemma_run_quoted(d, '"', t);
            lemma_run_concat(qs, t, seq!['"']);
            assert(run(qs, seq!['"']) == level(d)) by {
                assert(seq!['"'].drop_first() =~= Seq::<char>::empty());
                assert(seq!['"'][0] == '"');
                assert(step(qs, '"') == level(d));
                assert(run(level(d), Seq::<char>::empty()) == level(d));
            }
            assert(p =~= seq!['"'] + (t + seq!['"']));
            assert forall|k: int| 0 <= k <= p.len() implies #[trigger] run(level(d), p.take(k)).depth
                >= d by {
                if k == 0 {
                    assert(p.take(k) =~= Seq::<char>::empty());
                } else if k <= t.len() + 1 {
                    assert(p.take(k) =~= seq!['"'] + t.take(k - 1));
                    lemma_run_concat(level(d), seq!['"'], t.take(k - 1));
                    assert forall|i: int| 0 <= i < t.take(k - 1).len() implies #[trigger] t.take(
                        k - 1,
                    )[i] != '"' by {
                        assert(t.take(k - 1)[i] == t[i]);
                    }
                    lemma_run_quoted(d, '"', t.take(k - 1));
                } else {
                    assert(p.take(k) =~= p);
                }
            }
        },
        RhsModel::Optional(a) => {
            lemma_nesting(*a, d + 1);
            lemma_bracket_nesting(*a, d, '[', ']');
        },
        RhsModel::Repeat(a) => {
            lemma_nesting(*a, d + 1);
            lemma_bracket_nesting(*a, d, '{', '}');
        },
        RhsModel::Group(a) => {
            lemma_nesting(*a, d + 1);
            lemma_bracket_nesting(*a, d, '(', ')');
        },
        RhsModel::Exception(a, b) => {
            lemma_nesting(*a, d);
            lemma_nesting(*b, d);
            lemma_binary_nesting(*a, *b, d, '-');
        },
        RhsModel::Alternation(a, b) => {
            lemma_nesting(*a, d);
            lemma_nesting(*b, d);
            lemma_binary_nesting(*a, *b, d, '|');
        },
        RhsModel::Concatenation(a, b) => {
            lemma_nesting(*a, d);
            lemma_nesting(*b, d);
            lemma_binary_nesting(*a, *b, d, ',');
        },
    }
}

proof fn lemma_bracket_nesting(a: RhsModel, d: nat, open: char, close: char)
    requires
        run(level(d + 1), print_rhs(a)) == level(d + 1),
        forall|k: int|
            0 <= k <= print_rhs(a).len() ==> #[trigger] run(level(d + 1), print_rhs(a).take(k)).depth
                >= d + 1,
        is_open_bracket(open),
        is_close_bracket(close),
    ensures
        ({
            let p = seq![open, ' '] + print_rhs(a) + seq![' ', close];
            &&& run(level(d), p) == level(d)
            &&& forall|k: int| 0 <= k <= p.len() ==> #[trigger] run(level(d), p.take(k)).depth >= d
        }),
{
    let pa = print_rhs(a);
    let p = seq![open, ' '] + pa + seq![' ', close];
    let head = seq![open, ' '];
    let tail = seq![' ', close];
    assert(run(level(d), head) == level(d + 1)) by {
        assert(head.drop_first() =~= seq![' ']);
        assert(head[0] == open);
        assert(step(level(d), open) == level(d + 1));
        assert(seq![' '].drop_first() =~= Seq::<char>::empty());
        assert(seq![' '][0] == ' ');
        assert(step(level(d + 1), ' ') == level(d + 1));
        assert(run(level(d + 1), Seq::<char>::empty()) == level(d + 1));
        assert(run(level(d + 1), seq![' ']) == level(d + 1));
    }
    assert(run(level(d + 1), tail) == level(d)) by {
        assert(tail.drop_first() =~= seq![close]);
        assert(tail[0] == ' ');
        assert(step(level(d + 1), ' ') == level(d + 1));
        assert(seq![close].drop_first() =~= Seq::<char>::empty());
        assert(seq![close][0] == close);
        assert(step(level(d + 1), close) == level(d));
        assert(run(level(d), Seq::<char>::empty()) == level(d));
        assert(run(level(d + 1), seq![close]) == level(d));
    }
    lemma_run_concat(level(d), head, pa);
    lemma_run_concat(level(d), head + pa, tail);
    assert forall|k: int| 0 <= k <= p.len() implies #[trigger] run(level(d), p.take(k)).depth >= d by {
        if k == 0 {
            assert(p.take(k) =~= Seq::<char>::empty());
        } else if k == 1 {
            assert(p.take(k) =~= seq![open]);
            assert(seq![open].drop_first() =~= Seq::<char>::empty());
        } else if k <= pa.len() + 2 {
            assert(p.take(k) =~= head + pa.take(k - 2));
            lemma_run_concat(level(d), head, pa.take(k - 2));
        } else if k == pa.len() + 3 {
            assert(p.take(k) =~= (head + pa) + seq![' ']);
            lemma_run_concat(level(d), head + pa, seq![' ']);
            assert(seq![' '].drop_first() =~= Seq::<char>::empty());
        } else {
            assert(p.take(k) =~= p);
        }
    }
}

proof fn lemma_binary_nesting(a: RhsModel, b: RhsModel, d: nat, op: char)
    requires
        run(level(d), print_rhs(a)) == level(d),
        forall|k: int|
            0 <= k <= print_rhs(a).len() ==> #[trigger] run(level(d), print_rhs(a).take(k)).depth
                >= d,
        run(level(d), print_rhs(b)) == level(d),
        forall|k: int|
            0 <= k <= print_rhs(b).len() ==> #[trigger] run(level(d), print_rhs(b).take(k)).depth
                >= d,
        op == '|' || op == ',' || op == '-',
    ensures
        ({
            let p = print_rhs(a) + seq![' ', op, ' '] + print_rhs(b);
            &&& run(level(d), p) == level(d)
            &&& forall|k: int| 0 <= k <= p.len() ==> #[trigger] run(level(d), p.take(k)).depth >= d
        }),
{
    let pa = print_rhs(a);
    let pb = print_rhs(b);
    let sep = seq![' ', op, ' '];
    let p = pa + sep + pb;
    assert(plain(sep));
    lemma_run_plain(d, sep);
    lemma_run_concat(level(d), pa, sep);
    lemma_run_concat(level(d), pa + sep, pb);
    assert forall|k: int| 0 <= k <= p.len() implies #[trigger] run(level(d), p.take(k)).depth >= d by {
        if k <= pa.len() {
            assert(p.take(k) =~= pa.take(k));
        } else if k <= pa.len() + 3 {
            assert(p.take(k) =~= pa + sep.take(k - pa.len()));
            lemma_run_concat(level(d), pa, sep.take(k - pa.len()));
            lemma_plain_take(sep, k - pa.len());
            lemma_run_plain(d, sep.take(k - pa.len()));
        } else {
            assert(p.take(k) =~= (pa + sep) + pb.take(k - pa.len() - 3));
            lemma_run_concat(level(d), pa + sep, pb.take(k - pa.len() - 3));
        }
    }
}

/// A character that separates operands or ends a production.
pub open spec fn is_separator(c: char) -> bool {
    c == '|' || c == ',' || c == '-' || c == ';'
}

/// A separator outside every bracket and quote in the printed text of `m` is
/// one of the operators `m` exposes.
pub proof fn lemma_exposure(m: RhsModel)
    requires
        printable(m),
    ensures
        forall|i: int|
            0 <= i < print_rhs(m).len() && at_top(print_rhs(m), i) && is_separator(
                #[trigger] print_rhs(m)[i],
            ) ==> exposes(m, print_rhs(m)[i]),
    decreases m,
{
    let p = print_rhs(m);
    match m {
        RhsModel::Identifier(s) => {
            lemma_identifier_plain(s);
            assert(p == s);
            assert forall|i: int| 0 <= i < p.len() implies !is_separator(#[trigger] p[i]) by {
                assert(s[i] != '|' && s[i] != ',' && s[i] != '-' && s[i] != ';');
            }
        },
        RhsModel::Terminal(t) => {
            assert forall|i: int|
                0 <= i < p.len() && at_top(p, i) && is_separator(#[trigger] p[i]) implies exposes(
                m,
                p[i],
            ) by {
                assert(p =~= seq!['"'] + t + seq!['"']);
                if 0 < i < p.len() - 1 {
                    let qs = Nesting { depth: 0, quote: Some('"') };
                    assert(p.take(i) =~= seq!['"'] + t.take(i - 1));
                    lemma_run_concat(top(), seq!['"'], t.take(i - 1));
                    assert(run(top(), seq!['"']) == qs) by {
                        assert(seq!['"'].drop_first() =~= Seq::<char>::empty());
                        assert(seq!['"'][0] == '"');
                        assert(step(top(), '"') == qs);
                        assert(run(qs, Seq::<char>::empty()) == qs);
                    }
                    assert forall|j: int| 0 <= j < t.take(i - 1).len() implies #[trigger] t.take(
                        i - 1,
                    )[j] != '"' by {
                        assert(t.take(i - 1)[j] == t[j]);
                    }
                    lemma_run_quoted(0, '"', t.take(i - 1));
                }
            }
        },
        RhsModel::Optional(a) => {
            lemma_nesting(*a, 1);
            lemma_bracket_exposure(*a, '[', ']');
            assert(p =~= seq!['[', ' '] + print_rhs(*a) + seq![' ', ']']);
            assert forall|i: int| 0 <= i < p.len() implies !(at_top(p, i) && is_separator(#[trigger] p[i])) by {
                if i == 0 {
                    assert(p[0] == '[');
                } else if i == p.len() - 1 {
                    assert(p[i] == ']');
                }
            }
        },
        RhsModel::Repeat(a) => {
            lemma_nesting(*a, 1);
            lemma_bracket_exposure(*a, '{', '}');
            assert(p =~= seq!['{', ' '] + print_rhs(*a) + seq![' ', '}']);
            assert forall|i: int| 0 <= i < p.len() implies !(at_top(p, i) && is_separator(#[trigger] p[i])) by {
                if i == 0 {
                    assert(p[0] == '{');
                } else if i == p.len() - 1 {
                    assert(p[i] == '}');
                }
            }
        },
        RhsModel::Group(a) => {
            lemma_nesting(*a, 1);
            lemma_bracket_exposure(*a, '(', ')');
            assert(p =~= seq!['(', ' '] + print_rhs(*a) + seq![' ', ')']);
            assert forall|i: int| 0 <= i < p.len() implies !(at_top(p, i) && is_separator(#[trigger] p[i])) by {
                if i == 0 {
                    assert(p[0] == '(');
                } else if i == p.len() - 1 {
                    assert(p[i] == ')');
                }
            }
        },
        RhsModel::Exception(a, b) => {
            lemma_exposure(*a);
            lemma_exposure(*b);
            lemma_nesting(*a, 0);
            lemma_binary_exposure(*a, *b, '-');
            assert(p =~= print_rhs(*a) + seq![' ', '-', ' '] + print_rhs(*b));
        },
        RhsModel::Alternation(a, b) => {
            lemma_exposure(*a);
            lemma_exposure(*b);
            lemma_nesting(*a, 0);
            lemma_binary_exposure(*a, *b, '|');
            assert(p =~= print_rhs(*a) + seq![' ', '|', ' '] + print_rhs(*b));
        },
        RhsModel::Concatenation(a, b) => {
            lemma_exposure(*a);
            lemma_exposure(*b);
            lemma_nesting(*a, 0);
            lemma_binary_exposure(*a, *b, ',');
            assert(p =~= print_rhs(*a) + seq![' ', ',', ' '] + print_rhs(*b));
        },
    }
}

proof fn lemma_bracket_exposure(a: RhsModel, open: char, close: char)
    requires
        is_open_bracket(open),
        is_close_bracket(close),
        forall|k: int|
            0 <= k <= print_rhs(a).len() ==> #[trigger] run(level(1), print_rhs(a).take(k)).depth
                >= 1,
    ensures
        ({
            let p = seq![open, ' '] + print_rhs(a) + seq![' ', close];
            forall|i: int| 0 < i < p.len() ==> !at_top(p, i)
        }),
{
    let pa = print_rhs(a);
    let head = seq![open, ' '];
    let p = head + pa + seq![' ', close];
    assert forall|i: int| 0 < i < p.len() implies !at_top(p, i) by {
        if i == 1 {
            assert(p.take(i) =~= seq![open]);
            assert(seq![open].drop_first() =~= Seq::<char>::empty());
            assert(seq![open][0] == open);
            assert(run(top(), seq![open]) == run(level(1), Seq::<char>::empty()));
        } else if i <= pa.len() + 2 {
            assert(p.take(i) =~= head + pa.take(i - 2));
            lemma_run_concat(top(), head, pa.take(i - 2));
            assert(run(top(), head) == level(1)) by {
                assert(head.drop_first() =~= seq![' ']);
                assert(head[0] == open);
                assert(seq![' '].drop_first() =~= Seq::<char>::empty());
                assert(seq![' '][0] == ' ');
                assert(run(level(1), seq![' ']) == run(level(1), Seq::<char>::empty()));
            }
        } else {
            assert(p.take(i) =~= (head + pa) + seq![' ']);
            lemma_run_concat(top(), head, pa);
            lemma_run_concat(top(), head + pa, seq![' ']);
            assert(run(top(), head) == level(1)) by {
                assert(head.drop_first() =~= seq![' ']);
                assert(head[0] == open);
                assert(seq![' '].drop_first() =~= Seq::<char>::empty());
                assert(seq![' '][0] == ' ');
                assert(run(level(1), seq![' ']) == run(level(1), Seq::<char>::empty()));
            }
            assert(pa.take(pa.len() as int) =~= pa);
            let st = run(level(1), pa);
            assert(st.depth >= 1);
            assert(seq![' '].drop_first() =~= Seq::<char>::empty());
            assert(seq![' '][0] == ' ');
            assert(run(st, seq![' ']) == run(step(st, ' '), Seq::<char>::empty()));
        }
    }
}

proof fn lemma_binary_exposure(a: RhsModel, b: RhsModel, op: char)
    requires
        op == '|' || op == ',' || op == '-',
        run(top(), print_rhs(a)) == top(),
        forall|i: int|
            0 <= i < print_rhs(a).len() && at_top(print_rhs(a), i) && is_separator(
                #[trigger] print_rhs(a)[i],
            ) ==> exposes(a, print_rhs(a)[i]),
        forall|i: int|
            0 <= i < print_rhs(b).len() && at_top(print_rhs(b), i) && is_separator(
                #[trigger] print_rhs(b)[i],
            ) ==> exposes(b, print_rhs(b)[i]),
    ensures
        ({
            let p = print_rhs(a) + seq![' ', op, ' '] + print_rhs(b);
            forall|i: int|
                0 <= i < p.len() && at_top(p, i) && is_separator(#[trigger] p[i]) ==> p[i] == op
                    || exposes(a, p[i]) || exposes(b, p[i])
        }),
{
    let pa = print_rhs(a);
    let pb = print_rhs(b);
    let sep = seq![' ', op, ' '];
    let p = pa + sep + pb;
    assert(plain(sep));
    lemma_run_plain(0, sep);
    lemma_run_concat(top(), pa, sep);
    assert forall|i: int| 0 <= i < p.len() && at_top(p, i) && is_separator(#[trigger] p[i]) implies p[i]
        == op || exposes(a, p[i]) || exposes(b, p[i]) by {
        if i < pa.len() {
            assert(p.take(i) =~= pa.take(i));
            assert(p[i] == pa[i]);
            assert(at_top(pa, i));
        } else if i < pa.len() + 3 {
        } else {
            let j = i - pa.len() - 3;
            assert(p.take(i) =~= (pa + sep) + pb.take(j));
            lemma_run_concat(top(), pa + sep, pb.take(j));
            assert(p[i] == pb[j]);
            assert(at_top(pb, j));
        }
    }
}

proof fn lemma_find_top_at(s: Seq<char>, op: char, i: int, k: int)
    requires
        0 <= i <= k < s.len(),
        at_top(s, k),
        s[k] == op,
        forall|j: int| i <= j < k ==> !(at_top(s, j) && #[trigger] s[j] == op),
    ensures
        find_top(s, op, i) == Some(k),
    decreases k - i,
{
    if i < k {
        lemma_find_top_at(s, op, i + 1, k);
    }
}

proof fn lemma_find_top_absent(s: Seq<char>, op: char, i: int)
    requires
        0 <= i,
        forall|j: int| i <= j < s.len() ==> !(at_top(s, j) && #[trigger] s[j] == op),
    ensures
        find_top(s, op, i) is None,
    decreases s.len() - i,
{
    if i < s.len() {
        lemma_find_top_absent(s, op, i + 1);
    }
}

proof fn lemma_skip_ws_to(s: Seq<char>, i: int, j: int)
    requires
        0 <= i <= j <= s.len(),
        forall|k: int| i <= k < j ==> is_ws(#[trigger] s[k]),
        j == s.len() || !is_ws(s[j]),
    ensures
        skip_ws(s, i) == j,
    decreases j - i,
{
    if i < j {
        lemma_skip_ws_to(s, i + 1, j);
    }
}

proof fn lemma_back_ws_to(s: Seq<char>, lo: int, j: int, k: int)
    requires
        0 <= lo <= k <= j <= s.len(),
        forall|m: int| k <= m < j ==> is_ws(#[trigger] s[m]),
        k == lo || !is_ws(s[k - 1]),
    ensures
        back_ws(s, lo, j) == k,
    decreases j - k,
{
    if k < j {
        lemma_back_ws_to(s, lo, j - 1, k);
    }
}

/// Whitespace around a text with no whitespace at its ends is trimmed away.
proof fn lemma_trim_padded(w1: Seq<char>, x: Seq<char>, w2: Seq<char>)
    requires
        x.len() > 0,
        !is_ws(x[0]),
        !is_ws(x.last()),
        forall|k: int| 0 <= k < w1.len() ==> is_ws(#[trigger] w1[k]),
        forall|k: int| 0 <= k < w2.len() ==> is_ws(#[trigger] w2[k]),
    ensures
        trim(w1 + x + w2) == x,
{
    let s = w1 + x + w2;
    let lo = w1.len() as int;
    let hi = lo + x.len();
    assert forall|k: int| 0 <= k < lo implies is_ws(#[trigger] s[k]) by {
        assert(s[k] == w1[k]);
    }
    assert(s[lo] == x[0]);
    lemma_skip_ws_to(s, 0, lo);
    assert forall|m: int| hi <= m < s.len() implies is_ws(#[trigger] s[m]) by {
        assert(s[m] == w2[m - hi]);
    }
    assert(s[hi - 1] == x.last());
    lemma_back_ws_to(s, lo, s.len() as int, hi);
    assert(s.subrange(lo, hi) =~= x);
}

/// The printed text of `m` is not empty, and neither starts nor ends with
/// whitespace.
proof fn lemma_ends(m: RhsModel)
    requires
        printable(m),
    ensures
        print_rhs(m).len() > 0,
        !is_ws(print_rhs(m)[0]),
        !is_ws(print_rhs(m).last()),
        m is Identifier ==> is_ident_start(print_rhs(m)[0]),
    decreases m,
{
    match m {
        RhsModel::Identifier(x) => {
            lemma_identifier_plain(x);
        },
        RhsModel::Exception(a, b) => {
            lemma_ends(*a);
            lemma_ends(*b);
        },
        RhsModel::Alternation(a, b) => {
            lemma_ends(*a);
            lemma_ends(*b);
        },
        RhsModel::Concatenation(a, b) => {
            lemma_ends(*a);
            lemma_ends(*b);
        },
        _ => {},
    }
}

/// Facts about the printed text `pa op pb` of a binary node.
proof fn lemma_binary_text(a: RhsModel, b: RhsModel, op: char)
    requires
        printable(a),
        printable(b),
        op == '|' || op == ',' || op == '-',
    ensures
        ({
            let pa = print_rhs(a);
            let pb = print_rhs(b);
            let t = pa + seq![' ', op, ' '] + pb;
            &&& 0 < pa.len() < t.len()
            &&& at_top(t, pa.len() as int)
            &&& at_top(t, pa.len() + 1 as int)
            &&& t[pa.len() + 1 as int] == op
            &&& forall|j: int|
                0 <= j < pa.len() && at_top(t, j) && is_separator(#[trigger] t[j]) ==> exposes(
                    a,
                    t[j],
                )
            &&& forall|j: int|
                0 <= j < t.len() && at_top(t, j) && is_separator(#[trigger] t[j]) ==> t[j] == op
                    || exposes(a, t[j]) || exposes(b, t[j])
            &&& t.take(pa.len() + 1 as int) == pa + seq![' ']
            &&& t.skip(pa.len() + 2 as int) == seq![' '] + pb
        }),
{
    let pa = print_rhs(a);
    let pb = print_rhs(b);
    let sep = seq![' ', op, ' '];
    let t = pa + sep + pb;
    lemma_ends(a);
    lemma_ends(b);
    lemma_nesting(a, 0);
    lemma_exposure(a);
    lemma_exposure(b);
    lemma_binary_exposure(a, b, op);
    assert(t.take(pa.len() as int) =~= pa);
    assert(t.take(pa.len() + 1 as int) =~= pa + seq![' ']);
    lemma_run_concat(top(), pa, seq![' ']);
    assert(seq![' '].drop_first() =~= Seq::<char>::empty());
    assert(seq![' '][0] == ' ');
    assert(run(top(), seq![' ']) == run(top(), Seq::<char>::empty()));
    assert(t.skip(pa.len() + 2 as int) =~= seq![' '] + pb);
    assert forall|j: int|
        0 <= j < pa.len() && at_top(t, j) && is_separator(#[trigger] t[j]) implies exposes(
        a,
        t[j],
    ) by {
        assert(t.take(j) =~= pa.take(j));
        assert(t[j] == pa[j]);
        assert(at_top(pa, j));
    }
}

/// Every text that trims to the printed text of a printable `m` reads as `m`.
proof fn lemma_rhs_text_of(m: RhsModel, s: Seq<char>)
    requires
        printable(m),
        trim(s) == print_rhs(m),
    ensures
        rhs_text(s) == Some(m),
    decreases m,
{
    let t = print_rhs(m);
    lemma_trim_len(s);
    lemma_ends(m);
    lemma_exposure(m);
    lemma_nesting(m, 0);
    match m {
        RhsModel::Identifier(x) => {
            lemma_identifier_plain(x);
            lemma_find_top_absent(t, '|', 0);
            lemma_find_top_absent(t, ',', 0);
            lemma_find_top_absent(t, '-', 0);
            assert(rhs_text(s) == Some(m));
        },
        RhsModel::Terminal(x) => {
            lemma_find_top_absent(t, '|', 0);
            lemma_find_top_absent(t, ',', 0);
            lemma_find_top_absent(t, '-', 0);
            assert(t =~= seq!['"'] + x + seq!['"']);
            assert forall|i: int| 0 < i < t.len() - 1 implies #[trigger] t[i] != t[0] by {
                assert(t[i] == x[i - 1]);
            }
            assert(t.subrange(1, t.len() - 1) =~= x);
            assert(rhs_text(s) == Some(m));
        },
        RhsModel::Optional(a) => {
            lemma_bracket_round_trip(*a, '[', ']');
            lemma_rhs_text_of(*a, t.subrange(1, t.len() - 1));
            assert(rhs_text(s) == Some(m));
        },
        RhsModel::Repeat(a) => {
            lemma_bracket_round_trip(*a, '{', '}');
            lemma_rhs_text_of(*a, t.subrange(1, t.len() - 1));
            assert(rhs_text(s) == Some(m));
        },
        RhsModel::Group(a) => {
            lemma_bracket_round_trip(*a, '(', ')');
            lemma_rhs_text_of(*a, t.subrange(1, t.len() - 1));
            assert(rhs_text(s) == Some(m));
        },
        RhsModel::Exception(a, b) => {
            lemma_binary_text(*a, *b, '-');
            let k = print_rhs(*a).len() as int;
            lemma_find_top_absent(t, '|', 0);
            lemma_find_top_absent(t, ',', 0);
            lemma_find_top_at(t, '-', 0, k + 1);
            lemma_ends(*a);
            lemma_ends(*b);
            lemma_trim_padded(Seq::empty(), print_rhs(*a), seq![' ']);
            lemma_trim_padded(seq![' '], print_rhs(*b), Seq::empty());
            assert(Seq::<char>::empty() + print_rhs(*a) + seq![' '] =~= t.take(k + 1));
            assert(seq![' '] + print_rhs(*b) + Seq::<char>::empty() =~= t.skip(k + 2));
            lemma_rhs_text_of(*a, t.take(k + 1));
            lemma_rhs_text_of(*b, t.skip(k + 2));
            assert(!bracketed(t, '(', ')') && !bracketed(t, '{', '}') && !bracketed(t, '[', ']'));
            assert(find_top(t, '-', 0) == Some(k + 1));
            assert(split_parse(t, k + 1, 2) == Some(m));
            assert(rhs_text(s) == Some(m));
        },
        RhsModel::Alternation(a, b) => {
            lemma_binary_text(*a, *b, '|');
            let k = print_rhs(*a).len() as int;
            lemma_find_top_at(t, '|', 0, k + 1);
            lemma_ends(*a);
            lemma_ends(*b);
            lemma_trim_padded(Seq::empty(), print_rhs(*a), seq![' ']);
            lemma_trim_padded(seq![' '], print_rhs(*b), Seq::empty());
            assert(Seq::<char>::empty() + print_rhs(*a) + seq![' '] =~= t.take(k + 1));
            assert(seq![' '] + print_rhs(*b) + Seq::<char>::empty() =~= t.skip(k + 2));
            lemma_rhs_text_of(*a, t.take(k + 1));
            lemma_rhs_text_of(*b, t.skip(k + 2));
            assert(!bracketed(t, '(', ')') && !bracketed(t, '{', '}') && !bracketed(t, '[', ']'));
            assert(find_top(t, '|', 0) == Some(k + 1));
            assert(split_parse(t, k + 1, 0) == Some(m));
            assert(rhs_text(s) == Some(m));
        },
        RhsModel::Concatenation(a, b) => {
            lemma_binary_text(*a, *b, ',');
            let k = print_rhs(*a).len() as int;
            lemma_find_top_absent(t, '|', 0);
            lemma_find_top_at(t, ',', 0, k + 1);
            lemma_ends(*a);
            lemma_ends(*b);
            lemma_trim_padded(Seq::empty(), print_rhs(*a), seq![' ']);
            lemma_trim_padded(seq![' '], print_rhs(*b), Seq::empty());
            assert(Seq::<char>::empty() + print_rhs(*a) + seq![' '] =~= t.take(k + 1));
            assert(seq![' '] + print_rhs(*b) + Seq::<char>::empty() =~= t.skip(k + 2));
            lemma_rhs_text_of(*a, t.take(k + 1));
            lemma_rhs_text_of(*b, t.skip(k + 2));
            assert(!bracketed(t, '(', ')') && !bracketed(t, '{', '}') && !bracketed(t, '[', ']'));
            assert(find_top(t, ',', 0) == Some(k + 1));
            assert(split_parse(t, k + 1, 1) == Some(m));
            assert(rhs_text(s) == Some(m));
        },
    }
}

/// Facts about the printed text `open pa close` of a bracketed node.
proof fn lemma_bracket_round_trip(a: RhsModel, open: char, close: char)
    requires
        printable(a),
        is_open_bracket(open),
        is_close_bracket(close),
    ensures
        ({
            let t = seq![open, ' '] + print_rhs(a) + seq![' ', close];
            &&& bracketed(t, open, close)
            &&& trim(t.subrange(1, t.len() - 1)) == print_rhs(a)
            &&& forall|o: char, c: char| o != open ==> !bracketed(t, o, c)
        }),
{
    let pa = print_rhs(a);
    let t = seq![open, ' '] + pa + seq![' ', close];
    lemma_nesting(a, 1);
    lemma_nesting(a, 0);
    lemma_bracket_nesting(a, 0, open, close);
    lemma_bracket_exposure(a, open, close);
    assert(t.take(t.len() as int) =~= t);
    lemma_ends(a);
    assert(t.subrange(1, t.len() - 1) =~= seq![' '] + pa + seq![' ']);
    lemma_trim_padded(seq![' '], pa, seq![' ']);
}

/// Printing a printable right-hand side and reading the text back gives the
/// same right-hand side.
pub proof fn lemma_rhs_round_trip(m: RhsModel)
    requires
        printable(m),
    ensures
        rhs_text(print_rhs(m)) == Some(m),
{
    let p = print_rhs(m);
    lemma_ends(m);
    lemma_trim_padded(Seq::empty(), p, Seq::empty());
    assert(Seq::<char>::empty() + p + Seq::<char>::empty() =~= p);
    lemma_rhs_text_of(m, p);
}

/// A production that prints to text that reads back as itself.
pub open spec fn printable_production(p: ProductionModel) -> bool {
    is_identifier(p.lhs) && printable(p.rhs)
}

/// A grammar that prints to text that reads back as itself.
pub open spec fn printable_grammar(g: Seq<ProductionModel>) -> bool {
    forall|i: int| 0 <= i < g.len() ==> printable_production(#[trigger] g[i])
}

proof fn lemma_exposes_operator(m: RhsModel, c: char)
    ensures
        exposes(m, c) ==> c == '|' || c == ',' || c == '-',
    decreases m,
{
    match m {
        RhsModel::Exception(a, b) => {
            lemma_exposes_operator(*a, c);
            lemma_exposes_operator(*b, c);
        },
        RhsModel::Alternation(a, b) => {
            lemma_exposes_operator(*a, c);
            lemma_exposes_operator(*b, c);
        },
        RhsModel::Concatenation(a, b) => {
            lemma_exposes_operator(*a, c);
            lemma_exposes_operator(*b, c);
        },
        _ => {},
    }
}

proof fn lemma_find_char_at(s: Seq<char>, c: char, i: int, k: int)
    requires
        0 <= i <= k < s.len(),
        s[k] == c,
        forall|j: int| i <= j < k ==> #[trigger] s[j] != c,
    ensures
        find_char(s, c, i) == Some(k),
    decreases k - i,
{
    if i < k {
        lemma_find_char_at(s, c, i + 1, k);
    }
}

/// A printed production reads back as itself, whatever follows it.
proof fn lemma_production_prefix(p: ProductionModel, rest: Seq<char>)
    requires
        printable_production(p),
    ensures
        production_text(print_production(p) + rest) == Some((p, print_production(p).len())),
{
    let name = p.lhs;
    let pr = print_rhs(p.rhs);
    let s = print_production(p) + rest;
    let n = name.len() as int;
    lemma_identifier_plain(name);
    assert(s =~= name + (seq![' ', '=', ' '] + pr + seq![' ', ';'] + rest));
    assert forall|j: int| 0 <= j < n + 1 implies #[trigger] s[j] != '=' by {
        if j < n {
            assert(s[j] == name[j]);
        }
    }
    assert(s[n + 1] == '=');
    lemma_find_char_at(s, '=', 0, n + 1);
    let e = n + 1;
    assert(s.take(e) =~= Seq::<char>::empty() + name + seq![' ']);
    lemma_trim_padded(Seq::empty(), name, seq![' ']);
    let u = s.skip(e + 1);
    assert(u =~= seq![' '] + pr + seq![' ', ';'] + rest);
    let k = pr.len() + 2int;
    lemma_nesting(p.rhs, 0);
    lemma_exposure(p.rhs);
    lemma_ends(p.rhs);
    let sp = seq![' '];
    assert(plain(sp));
    lemma_run_plain(0, sp);
    assert(run(top(), sp) == top());
    assert(u.take(k) =~= (sp + pr) + sp);
    lemma_run_concat(top(), sp, pr);
    lemma_run_concat(top(), sp + pr, sp);
    assert(u[k] == ';');
    assert forall|j: int| 0 <= j < k implies !(at_top(u, j) && #[trigger] u[j] == ';') by {
        if 1 <= j <= pr.len() {
            assert(u.take(j) =~= sp + pr.take(j - 1));
            lemma_run_concat(top(), sp, pr.take(j - 1));
            assert(u[j] == pr[j - 1]);
            if at_top(u, j) && u[j] == ';' {
                assert(at_top(pr, j - 1));
                assert(is_separator(pr[j - 1]));
                lemma_exposes_operator(p.rhs, ';');
            }
        }
    }
    lemma_find_top_at(u, ';', 0, k);
    let region = s.subrange(e + 1, e + 1 + k);
    assert(region =~= sp + pr + sp);
    lemma_trim_padded(sp, pr, sp);
    lemma_rhs_text_of(p.rhs, region);
    assert(e + k + 2 == print_production(p).len());
}

proof fn lemma_print_grammar_concat(x: Seq<ProductionModel>, y: Seq<ProductionModel>)
    ensures
        print_grammar(x + y) == print_grammar(x) + print_grammar(y),
    decreases y.len(),
{
    if y.len() == 0 {
        assert(x + y =~= x);
        assert(print_grammar(x) + Seq::<char>::empty() =~= print_grammar(x));
    } else {
        assert((x + y).drop_last() =~= x + y.drop_last());
        assert((x + y).last() == y.last());
        lemma_print_grammar_concat(x, y.drop_last());
        assert(print_grammar(x) + print_grammar(y) =~= print_grammar(x) + print_grammar(
            y.drop_last(),
        ) + print_production(y.last()) + seq!['\n']);
    }
}

proof fn lemma_print_grammar_single(p: ProductionModel)
    ensures
        print_grammar(seq![p]) == print_production(p) + seq!['\n'],
{
    assert(seq![p].drop_last() =~= Seq::<ProductionModel>::empty());
    assert(seq![p].last() == p);
    assert(print_grammar(Seq::<ProductionModel>::empty()) == Seq::<char>::empty());
    assert(Seq::<char>::empty() + print_production(p) + seq!['\n'] =~= print_production(p) + seq![
        '\n',
    ]);
}

/// Reading the printed text of `g` from the start of its `k`-th production on
/// gives the productions from the `k`-th on, and stops at the end.
proof fn lemma_grammar_text_from(g: Seq<ProductionModel>, k: int)
    requires
        printable_grammar(g),
        0 <= k <= g.len(),
    ensures
        grammar_text(print_grammar(g), print_grammar(g.take(k)).len() as int) == (
        g.skip(k),
        print_grammar(g).len() as int,
        ),
    decreases g.len() - k,
{
    let s = print_grammar(g);
    let off = print_grammar(g.take(k)).len() as int;
    assert(g =~= g.take(k) + g.skip(k));
    lemma_print_grammar_concat(g.take(k), g.skip(k));
    if k == g.len() {
        assert(g.skip(k) =~= Seq::<ProductionModel>::empty());
        assert(off == s.len());
        assert(s.skip(off) =~= Seq::<char>::empty());
    } else {
        let p = g[k];
        assert(printable_production(p));
        let pp = print_production(p);
        let tail = print_grammar(g.skip(k + 1));
        assert(g.skip(k) =~= seq![p] + g.skip(k + 1));
        lemma_print_grammar_concat(seq![p], g.skip(k + 1));
        lemma_print_grammar_single(p);
        assert(s.skip(off) =~= pp + (seq!['\n'] + tail));
        lemma_identifier_plain(p.lhs);
        assert(s[off] == p.lhs[0]);
        assert(skip_trivia(s, off) == off);
        lemma_production_prefix(p, seq!['\n'] + tail);
        let j = off + pp.len();
        assert(s[j] == '\n');
        assert(g.take(k + 1) =~= g.take(k) + seq![p]);
        lemma_print_grammar_concat(g.take(k), seq![p]);
        let next = off + pp.len() + 1;
        assert(print_grammar(g.take(k + 1)).len() == next);
        if k + 1 < g.len() {
            assert(printable_production(g[k + 1]));
            lemma_identifier_plain(g[k + 1].lhs);
            assert(g.skip(k + 1) =~= seq![g[k + 1]] + g.skip(k + 2));
            lemma_print_grammar_concat(seq![g[k + 1]], g.skip(k + 2));
            lemma_print_grammar_single(g[k + 1]);
            assert(s[next] == g[k + 1].lhs[0]);
        }
        assert(skip_trivia(s, next) == next);
        assert(skip_trivia(s, j) == next);
        lemma_grammar_text_from(g, k + 1);
        assert(g.skip(k) =~= seq![p] + g.skip(k + 1));
    }
}

/// Printing a printable grammar and reading the text back gives the same
/// grammar, and reading stops at the end of the text.
pub proof fn lemma_grammar_round_trip(g: Seq<ProductionModel>)
    requires
        printable_grammar(g),
    ensures
        grammar_text(print_grammar(g), 0) == (g, print_grammar(g).len() as int),
{
    lemma_grammar_text_from(g, 0);
    assert(g.take(0) =~= Seq::<ProductionModel>::empty());
    assert(g.skip(0) =~= g);
}

/// Printing a printable production and reading the text back gives the same
/// production, and all of the text is read.
pub proof fn lemma_production_round_trip(p: ProductionModel)
    requires
        printable_production(p),
    ensures
        production_text(print_production(p)) == Some((p, print_production(p).len())),
{
    lemma_production_prefix(p, Seq::empty());
    assert(print_production(p) + Seq::<char>::empty() =~= print_production(p));
}

} // verus!
