use vstd::prelude::*;

use crate::ast::{Grammar, Production, ProductionModel, Rhs, RhsModel};
use crate::text::{push_str, string_of};

verus! {

/// Why a grammar cannot be turned into a parser.
#[derive(Debug, PartialEq, Eq)]
pub enum GenerateError {
    /// Two productions define this name.
    DuplicateProduction(String),
    /// A right-hand side names this rule, which no production defines.
    UnresolvedReference(String),
    /// A right-hand side uses an exception `a - b`, which has no lowering.
    UnsupportedConstruct,
}

/// Some production of `g` defines `name`.
pub open spec fn defines(g: Seq<ProductionModel>, name: Seq<char>) -> bool {
    exists|i: int| 0 <= i < g.len() && (#[trigger] g[i]).lhs == name
}

/// Two productions of `g` define the same name.
pub open spec fn has_duplicate(g: Seq<ProductionModel>) -> bool {
    exists|i: int, j: int| 0 <= i < j < g.len() && (#[trigger] g[i]).lhs == (#[trigger] g[j]).lhs
}

pub open spec fn uses_exception(m: RhsModel) -> bool
    decreases m,
{
    match m {
        RhsModel::Identifier(_) => false,
        RhsModel::Terminal(_) => false,
        RhsModel::Optional(a) => uses_exception(*a),
        RhsModel::Repeat(a) => uses_exception(*a),
        RhsModel::Group(a) => uses_exception(*a),
        RhsModel::Exception(_, _) => true,
        RhsModel::Alternation(a, b) => uses_exception(*a) || uses_exception(*b),
        RhsModel::Concatenation(a, b) => uses_exception(*a) || uses_exception(*b),
    }
}

/// `m` names `name`.
pub open spec fn mentions(m: RhsModel, name: Seq<char>) -> bool
    decreases m,
{
    match m {
        RhsModel::Identifier(x) => x == name,
        RhsModel::Terminal(_) => false,
        RhsModel::Optional(a) => mentions(*a, name),
        RhsModel::Repeat(a) => mentions(*a, name),
        RhsModel::Group(a) => mentions(*a, name),
        RhsModel::Exception(a, b) => mentions(*a, name) || mentions(*b, name),
        RhsModel::Alternation(a, b) => mentions(*a, name) || mentions(*b, name),
        RhsModel::Concatenation(a, b) => mentions(*a, name) || mentions(*b, name),
    }
}

/// Some production of `g` uses an exception.
pub open spec fn grammar_uses_exception(g: Seq<ProductionModel>) -> bool {
    exists|i: int| 0 <= i < g.len() && uses_exception((#[trigger] g[i]).rhs)
}

/// Some right-hand side of `g` names `name`, which `g` does not define.
pub open spec fn unresolved(g: Seq<ProductionModel>, name: Seq<char>) -> bool {
    &&& exists|i: int| 0 <= i < g.len() && mentions((#[trigger] g[i]).rhs, name)
    &&& !defines(g, name)
}

/// `g` can be turned into a parser.
pub open spec fn lowerable(g: Seq<ProductionModel>) -> bool {
    &&& !has_duplicate(g)
    &&& !grammar_uses_exception(g)
    &&& forall|name: Seq<char>| !unresolved(g, name)
}

/// What `validate` reports for a grammar that cannot be lowered.
pub open spec fn validate_result(g: Seq<ProductionModel>, e: GenerateError) -> bool {
    match e {
        GenerateError::DuplicateProduction(n) => has_duplicate(g) && exists|i: int, j: int|
            0 <= i < j < g.len() && (#[trigger] g[i]).lhs == n@ && (#[trigger] g[j]).lhs == n@,
        GenerateError::UnsupportedConstruct => !has_duplicate(g) && grammar_uses_exception(g),
        GenerateError::UnresolvedReference(n) => !has_duplicate(g) && !grammar_uses_exception(g)
            && unresolved(g, n@),
    }
}

/// The code that runs a right-hand side on `state`, built from the
/// combinators of `State`. A literal is emitted between double quotes with its
/// double quotes escaped; its other characters stand as written, so escape
/// sequences in it read as Rust's.
pub open spec fn lowered(m: RhsModel) -> Seq<char>
    decreases m,
{
    match m {
        RhsModel::Identifier(x) => x + "(state)"@,
        RhsModel::Terminal(t) => "state.match_str(\""@ + escaped(t) + "\")"@,
        RhsModel::Optional(a) => "state.optional(|state| "@ + lowered(*a) + ")"@,
        RhsModel::Repeat(a) => "state.repeat(|state| "@ + lowered(*a) + ")"@,
        RhsModel::Group(a) => "state.apply(|state| "@ + lowered(*a) + ")"@,
        RhsModel::Exception(_, _) => Seq::empty(),
        RhsModel::Alternation(a, b) => lowered(*a) + ".or_else(|state| "@ + lowered(*b) + ")"@,
        RhsModel::Concatenation(a, b) => lowered(*a) + ".and_then(|state| "@ + lowered(*b)
            + ")"@,
    }
}

/// `t` with a backslash before each double quote.
pub open spec fn escaped(t: Seq<char>) -> Seq<char>
    decreases t.len(),
{
    if t.len() == 0 {
        Seq::empty()
    } else {
        escaped(t.drop_last()) + if t.last() == '"' {
            seq!['\\', '"']
        } else {
            seq![t.last()]
        }
    }
}

/// The function for one production: it runs the lowered right-hand side as
/// the body of the production's token.
pub open spec fn rule_function_text(p: ProductionModel) -> Seq<char> {
    "pub fn "@ + p.lhs
        + "(state: parsegen::State<'_, super::Rule>) -> parsegen::StateResult<parsegen::State<'_, super::Rule>> { state.tokenize(super::Rule::"@
        + p.lhs + ", |state| "@ + lowered(p.rhs) + ") }\n"@
}

/// The rule identifiers: one variant per production, in order.
pub open spec fn rule_enum_text(g: Seq<ProductionModel>) -> Seq<char> {
    "#[allow(non_camel_case_types)]\n#[derive(Copy, Clone, Debug, PartialEq, Eq)]\npub enum Rule {\n"@
        + variants_text(g) + "}\n"@
}

pub open spec fn variants_text(g: Seq<ProductionModel>) -> Seq<char>
    decreases g.len(),
{
    if g.len() == 0 {
        Seq::empty()
    } else {
        variants_text(g.drop_last()) + "    "@ + g.last().lhs + ",\n"@
    }
}

pub open spec fn functions_text(g: Seq<ProductionModel>) -> Seq<char>
    decreases g.len(),
{
    if g.len() == 0 {
        Seq::empty()
    } else {
        functions_text(g.drop_last()) + rule_function_text(g.last())
    }
}

pub open spec fn arms_text(g: Seq<ProductionModel>) -> Seq<char>
    decreases g.len(),
{
    if g.len() == 0 {
        Seq::empty()
    } else {
        arms_text(g.drop_last()) + "Rule::"@ + g.last().lhs + " => rule_impls::"@ + g.last().lhs
            + "(state),\n"@
    }
}

/// The parser for type `name`: the rule functions in a module of their own,
/// and a dispatcher that runs the rule asked for on a fresh state.
pub open spec fn parser_impl_text(name: Seq<char>, g: Seq<ProductionModel>) -> Seq<char> {
    "impl parsegen::Parser<Rule> for "@ + name
        + " {\nfn parse<'a>(rule: Rule, input: &'a str) -> Result<Vec<parsegen::Token<'a, Rule>>, parsegen::ParseFailed> {\nmod rule_impls {\n"@
        + functions_text(g)
        + "}\nlet state = parsegen::State::new(input);\nlet res = match rule {\n"@ + arms_text(g)
        + "};\nmatch res {\nOk(end) => Ok(end.tokens()),\nErr(_) => Err(parsegen::ParseFailed),\n}\n}\n}\n"@
}

fn push_string(out: &mut Vec<char>, s: &String)
    ensures
        final(out)@ == old(out)@ + s@,
{
    push_str(out, s.as_str());
}

fn push_escaped(out: &mut Vec<char>, t: &String)
    ensures
        final(out)@ == old(out)@ + escaped(t@),
{
    let cs = crate::text::chars_of(t.as_str());
    let mut i: usize = 0;
    while i < cs.len()
        invariant
            cs@ == t@,
            i <= cs@.len(),
            out@ == old(out)@ + escaped(cs@.take(i as int)),
        decreases cs@.len() - i,
    {
        let ghost before = out@;
        if cs[i] == '"' {
            out.push('\\');
            out.push('"');
        } else {
            out.push(cs[i]);
        }
        proof {
            assert(cs@.take(i + 1).drop_last() =~= cs@.take(i as int));
        }
        i = i + 1;
        assert(out@ =~= old(out)@ + escaped(cs@.take(i as int)));
    }
    assert(cs@.take(i as int) =~= cs@);
}

fn write_lowered(r: &Rhs, out: &mut Vec<char>)
    requires
        !uses_exception(r@),
    ensures
        final(out)@ == old(out)@ + lowered(r@),
    decreases r,
{
    let ghost start = out@;
    match r {
        Rhs::Identifier(x) => {
            push_string(out, &x.0);
            push_str(out, "(state)");
        },
        Rhs::Terminal(t) => {
            push_str(out, "state.match_str(\"");
            push_escaped(out, &t.0);
            push_str(out, "\")");
        },
        Rhs::Optional(a) => {
            push_str(out, "state.optional(|state| ");
            write_lowered(a, out);
            push_str(out, ")");
        },
        Rhs::Repeat(a) => {
            push_str(out, "state.repeat(|state| ");
            write_lowered(a, out);
            push_str(out, ")");
        },
        Rhs::Group(a) => {
            push_str(out, "state.apply(|state| ");
            write_lowered(a, out);
            push_str(out, ")");
        },
        Rhs::Exception(_, _) => {},
        Rhs::Alternation(a, b) => {
            write_lowered(a, out);
            push_str(out, ".or_else(|state| ");
            write_lowered(b, out);
            push_str(out, ")");
        },
        Rhs::Concatenation(a, b) => {
            write_lowered(a, out);
            push_str(out, ".and_then(|state| ");
            write_lowered(b, out);
            push_str(out, ")");
        },
    }
    assert(out@ =~= start + lowered(r@));
}

fn has_exception(r: &Rhs) -> (b: bool)
    ensures
        b == uses_exception(r@),
    decreases r,
{
    match r {
        Rhs::Identifier(_) => false,
        Rhs::Terminal(_) => false,
        Rhs::Optional(a) => has_exception(a),
        Rhs::Repeat(a) => has_exception(a),
        Rhs::Group(a) => has_exception(a),
        Rhs::Exception(_, _) => true,
        Rhs::Alternation(a, b) => has_exception(a) || has_exception(b),
        Rhs::Concatenation(a, b) => has_exception(a) || has_exception(b),
    }
}

fn is_defined(g: &Grammar, name: &String) -> (b: bool)
    ensures
        b == defines(g@, name@),
{
    let mut i: usize = 0;
    while i < g.rules.len()
        invariant
            i <= g.rules@.len(),
            forall|k: int| 0 <= k < i ==> (#[trigger] g@[k]).lhs != name@,
        decreases g.rules@.len() - i,
    {
        if g.rules[i].lhs.0.0 == *name {
            assert(g@[i as int].lhs == name@);
            return true;
        }
        i = i + 1;
    }
    false
}

/// A name that `r` mentions and `g` does not define, if there is one.
fn find_unresolved(r: &Rhs, g: &Grammar) -> (u: Option<String>)
    ensures
        u matches Some(n) ==> mentions(r@, n@) && !defines(g@, n@),
        u is None ==> forall|name: Seq<char>| #[trigger] mentions(r@, name) ==> defines(g@, name),
    decreases r,
{
    match r {
        Rhs::Identifier(x) => {
            if is_defined(g, &x.0) {
                assert forall|name: Seq<char>| #[trigger] mentions(r@, name) implies defines(
                    g@,
                    name,
                ) by {
                    assert(name == x.0@);
                }
                None
            } else {
                Some(x.0.clone())
            }
        },
        Rhs::Terminal(_) => {
            assert forall|name: Seq<char>| #[trigger] mentions(r@, name) implies defines(g@, name) by {
            }
            None
        },
        Rhs::Optional(a) => {
            let u = find_unresolved(a, g);
            assert(u is None ==> forall|name: Seq<char>| #[trigger] mentions(r@, name) ==> defines(g@, name)) by {
                if u is None {
                    assert forall|name: Seq<char>| #[trigger] mentions(r@, name) implies defines(g@, name) by {
                        assert(mentions(a@, name));
                    }
                }
            }
            u
        },
        Rhs::Repeat(a) => {
            let u = find_unresolved(a, g);
            assert(u is None ==> forall|name: Seq<char>| #[trigger] mentions(r@, name) ==> defines(g@, name)) by {
                if u is None {
                    assert forall|name: Seq<char>| #[trigger] mentions(r@, name) implies defines(g@, name) by {
                        assert(mentions(a@, name));
                    }
                }
            }
            u
        },
        Rhs::Group(a) => {
            let u = find_unresolved(a, g);
            assert(u is None ==> forall|name: Seq<char>| #[trigger] mentions(r@, name) ==> defines(g@, name)) by {
                if u is None {
                    assert forall|name: Seq<char>| #[trigger] mentions(r@, name) implies defines(g@, name) by {
                        assert(mentions(a@, name));
                    }
                }
            }
            u
        },
        Rhs::Exception(a, b) => {
            match find_unresolved(a, g) {
                Some(n) => Some(n),
                None => {
                    let u = find_unresolved(b, g);
                    assert(u is None ==> forall|name: Seq<char>| #[trigger] mentions(r@, name) ==> defines(g@, name)) by {
                        if u is None {
                            assert forall|name: Seq<char>| #[trigger] mentions(r@, name) implies defines(g@, name) by {
                                assert(mentions(a@, name) || mentions(b@, name));
                            }
                        }
                    }
                    u
                },
            }
        },
        Rhs::Alternation(a, b) => {
            match find_unresolved(a, g) {
                Some(n) => Some(n),
                None => {
                    let u = find_unresolved(b, g);
                    assert(u is None ==> forall|name: Seq<char>| #[trigger] mentions(r@, name) ==> defines(g@, name)) by {
                        if u is None {
                            assert forall|name: Seq<char>| #[trigger] mentions(r@, name) implies defines(g@, name) by {
                                assert(mentions(a@, name) || mentions(b@, name));
                            }
                        }
                    }
                    u
                },
            }
        },
        Rhs::Concatenation(a, b) => {
            match find_unresolved(a, g) {
                Some(n) => Some(n),
                None => {
                    let u = find_unresolved(b, g);
                    assert(u is None ==> forall|name: Seq<char>| #[trigger] mentions(r@, name) ==> defines(g@, name)) by {
                        if u is None {
                            assert forall|name: Seq<char>| #[trigger] mentions(r@, name) implies defines(g@, name) by {
                                assert(mentions(a@, name) || mentions(b@, name));
                            }
                        }
                    }
                    u
                },
            }
        },
    }
}

/// Checks that `g` can be turned into a parser. Duplicate definitions are
/// reported first, then exceptions, then names that nothing defines.
pub fn validate(g: &Grammar) -> (r: Result<(), GenerateError>)
    ensures
        r is Ok <==> lowerable(g@),
        (r matches Err(GenerateError::DuplicateProduction(_))) <==> has_duplicate(g@),
        r matches Err(GenerateError::DuplicateProduction(n)) ==> exists|i: int, j: int|
            0 <= i < j < g@.len() && (#[trigger] g@[i]).lhs == n@ && (#[trigger] g@[j]).lhs == n@,
        (r matches Err(GenerateError::UnsupportedConstruct)) <==> !has_duplicate(g@)
            && grammar_uses_exception(g@),
        (r matches Err(GenerateError::UnresolvedReference(_))) <==> !has_duplicate(g@)
            && !grammar_uses_exception(g@) && exists|name: Seq<char>| unresolved(g@, name),
        r matches Err(GenerateError::UnresolvedReference(n)) ==> unresolved(g@, n@),
{
    let n = g.rules.len();
    let mut i: usize = 0;
    while i < n
        invariant
            n == g.rules@.len(),
            i <= n,
            forall|a: int, b: int| 0 <= a < b < n && a < i ==> (#[trigger] g@[a]).lhs != (#[trigger] g@[b]).lhs,
        decreases n - i,
    {
        let mut j: usize = i + 1;
        while j < n
            invariant
                n == g.rules@.len(),
                i < n,
                i + 1 <= j <= n,
                forall|a: int, b: int| 0 <= a < b < n && a < i ==> (#[trigger] g@[a]).lhs != (#[trigger] g@[b]).lhs,
                forall|b: int| i < b < j ==> g@[i as int].lhs != (#[trigger] g@[b]).lhs,
            decreases n - j,
        {
            if g.rules[i].lhs.0.0 == g.rules[j].lhs.0.0 {
                assert(g@[i as int].lhs == g@[j as int].lhs);
                return Err(GenerateError::DuplicateProduction(g.rules[i].lhs.0.0.clone()));
            }
            j = j + 1;
        }
        i = i + 1;
    }
    assert(!has_duplicate(g@));
    let mut k: usize = 0;
    while k < n
        invariant
            n == g.rules@.len(),
            k <= n,
            !has_duplicate(g@),
            forall|a: int| 0 <= a < k ==> !uses_exception((#[trigger] g@[a]).rhs),
        decreases n - k,
    {
        if has_exception(&g.rules[k].rhs) {
            assert(uses_exception(g@[k as int].rhs));
            return Err(GenerateError::UnsupportedConstruct);
        }
        k = k + 1;
    }
    let mut m: usize = 0;
    while m < n
        invariant
            n == g.rules@.len(),
            m <= n,
            !has_duplicate(g@),
            !grammar_uses_exception(g@),
            forall|a: int, name: Seq<char>|
                0 <= a < m && #[trigger] mentions(g@[a].rhs, name) ==> defines(g@, name),
        decreases n - m,
    {
        match find_unresolved(&g.rules[m].rhs, g) {
            Some(name) => {
                assert(unresolved(g@, name@)) by {
                    assert(mentions(g@[m as int].rhs, name@));
                }
                return Err(GenerateError::UnresolvedReference(name));
            },
            None => {},
        }
        m = m + 1;
    }
    assert forall|name: Seq<char>| !unresolved(g@, name) by {
        if exists|i: int| 0 <= i < g@.len() && mentions((#[trigger] g@[i]).rhs, name) {
            let i = choose|i: int| 0 <= i < g@.len() && mentions((#[trigger] g@[i]).rhs, name);
            assert(defines(g@, name));
        }
    }
    Ok(())
}

/// The code for the parser of type `name` over grammar `g`: the rule
/// identifiers, then the implementation. Fails when `g` cannot be turned
/// into a parser.
pub fn generate(name: &str, g: &Grammar) -> (r: Result<String, GenerateError>)
    ensures
        r is Ok <==> lowerable(g@),
        r matches Ok(code) ==> code@ == rule_enum_text(g@) + parser_impl_text(name@, g@),
        r matches Err(e) ==> validate_result(g@, e),
{
    match validate(g) {
        Ok(()) => {
            let mut out: Vec<char> = Vec::new();
            let head = rule_enum(g);
            push_string(&mut out, &head);
            let body = parser_impl(name, g);
            push_string(&mut out, &body);
            assert(out@ =~= rule_enum_text(g@) + parser_impl_text(name@, g@));
            Ok(string_of(out.as_slice()))
        },
        Err(e) => Err(e),
    }
}

/// The code that runs `rhs` on a variable `state`.
pub fn rhs_expression(rhs: &Rhs) -> (r: String)
    requires
        !uses_exception(rhs@),
    ensures
        r@ == lowered(rhs@),
{
    let mut out: Vec<char> = Vec::new();
    write_lowered(rhs, &mut out);
    assert(out@ =~= lowered(rhs@));
    string_of(out.as_slice())
}

fn write_rule_function(p: &Production, out: &mut Vec<char>)
    requires
        !uses_exception(p.rhs@),
    ensures
        final(out)@ == old(out)@ + rule_function_text(p@),
{
    let ghost start = out@;
    push_str(out, "pub fn ");
    push_string(out, &p.lhs.0.0);
    push_str(
        out,
        "(state: parsegen::State<'_, super::Rule>) -> parsegen::StateResult<parsegen::State<'_, super::Rule>> { state.tokenize(super::Rule::",
    );
    push_string(out, &p.lhs.0.0);
    push_str(out, ", |state| ");
    write_lowered(&p.rhs, out);
    push_str(out, ") }\n");
    assert(out@ =~= start + rule_function_text(p@));
}

/// The function for production `p`.
pub fn rule_function(p: &Production) -> (r: String)
    requires
        !uses_exception(p.rhs@),
    ensures
        r@ == rule_function_text(p@),
{
    let mut out: Vec<char> = Vec::new();
    write_rule_function(p, &mut out);
    assert(out@ =~= rule_function_text(p@));
    string_of(out.as_slice())
}

/// The enumeration of rule identifiers of `g`, one variant per production,
/// in declaration order.
pub fn rule_enum(g: &Grammar) -> (r: String)
    ensures
        r@ == rule_enum_text(g@),
{
    let mut out: Vec<char> = Vec::new();
    push_str(
        &mut out,
        "#[allow(non_camel_case_types)]\n#[derive(Copy, Clone, Debug, PartialEq, Eq)]\npub enum Rule {\n",
    );
    let ghost head = out@;
    let mut i: usize = 0;
    while i < g.rules.len()
        invariant
            i <= g.rules@.len(),
            out@ == head + variants_text(g@.take(i as int)),
        decreases g.rules@.len() - i,
    {
        push_str(&mut out, "    ");
        push_string(&mut out, &g.rules[i].lhs.0.0);
        push_str(&mut out, ",\n");
        proof {
            assert(g@.take(i + 1).drop_last() =~= g@.take(i as int));
            assert(g@.take(i + 1).last() == g.rules@[i as int]@);
        }
        i = i + 1;
        assert(out@ =~= head + variants_text(g@.take(i as int)));
    }
    push_str(&mut out, "}\n");
    assert(g@.take(i as int) =~= g@);
    assert(out@ =~= rule_enum_text(g@));
    string_of(out.as_slice())
}

/// The implementation of the parser for type `name` over grammar `g`.
pub fn parser_impl(name: &str, g: &Grammar) -> (r: String)
    requires
        !grammar_uses_exception(g@),
    ensures
        r@ == parser_impl_text(name@, g@),
{
    let mut out: Vec<char> = Vec::new();
    push_str(&mut out, "impl parsegen::Parser<Rule> for ");
    push_str(&mut out, name);
    push_str(
        &mut out,
        " {\nfn parse<'a>(rule: Rule, input: &'a str) -> Result<Vec<parsegen::Token<'a, Rule>>, parsegen::ParseFailed> {\nmod rule_impls {\n",
    );
    let ghost head = out@;
    let mut i: usize = 0;
    while i < g.rules.len()
        invariant
            i <= g.rules@.len(),
            !grammar_uses_exception(g@),
            out@ == head + functions_text(g@.take(i as int)),
        decreases g.rules@.len() - i,
    {
        assert(!uses_exception(g@[i as int].rhs));
        write_rule_function(&g.rules[i], &mut out);
        proof {
            assert(g@.take(i + 1).drop_last() =~= g@.take(i as int));
            assert(g@.take(i + 1).last() == g.rules@[i as int]@);
        }
        i = i + 1;
        assert(out@ =~= head + functions_text(g@.take(i as int)));
    }
    push_str(&mut out, "}\nlet state = parsegen::State::new(input);\nlet res = match rule {\n");
    let ghost mid = out@;
    let mut j: usize = 0;
    while j < g.rules.len()
        invariant
            j <= g.rules@.len(),
            out@ == mid + arms_text(g@.take(j as int)),
        decreases g.rules@.len() - j,
    {
        push_str(&mut out, "Rule::");
        push_string(&mut out, &g.rules[j].lhs.0.0);
        push_str(&mut out, " => rule_impls::");
        push_string(&mut out, &g.rules[j].lhs.0.0);
        push_str(&mut out, "(state),\n");
        proof {
            assert(g@.take(j + 1).drop_last() =~= g@.take(j as int));
            assert(g@.take(j + 1).last() == g.rules@[j as int]@);
        }
        j = j + 1;
        assert(out@ =~= mid + arms_text(g@.take(j as int)));
    }
    push_str(
        &mut out,
        "};\nmatch res {\nOk(end) => Ok(end.tokens()),\nErr(_) => Err(parsegen::ParseFailed),\n}\n}\n}\n",
    );
    assert(g@.take(i as int) =~= g@);
    assert(g@.take(j as int) =~= g@);
    assert(out@ =~= parser_impl_text(name@, g@));
    string_of(out.as_slice())
}

} // verus!
