use vstd::prelude::*;

use crate::text::{push_str, string_of};

verus! {

/// The model of a right-hand side: names and literals as character sequences.
pub enum RhsModel {
    Identifier(Seq<char>),
    Terminal(Seq<char>),
    Optional(Box<RhsModel>),
    Repeat(Box<RhsModel>),
    Group(Box<RhsModel>),
    Exception(Box<RhsModel>, Box<RhsModel>),
    Alternation(Box<RhsModel>, Box<RhsModel>),
    Concatenation(Box<RhsModel>, Box<RhsModel>),
}

/// The model of a production: the name it defines and its right-hand side.
pub struct ProductionModel {
    pub lhs: Seq<char>,
    pub rhs: RhsModel,
}

/// The name of a production rule.
#[derive(PartialEq, Eq, Debug)]
pub struct Identifier(pub String);

/// A literal string to be matched verbatim.
#[derive(PartialEq, Eq, Debug)]
pub struct Terminal(pub String);

/// The left-hand side of a production rule.
#[derive(PartialEq, Eq, Debug)]
pub struct Lhs(pub Identifier);

/// The right-hand side of a production rule.
#[derive(PartialEq, Eq, Debug)]
pub enum Rhs {
    Identifier(Identifier),
    Terminal(Terminal),
    Optional(Box<Rhs>),
    Repeat(Box<Rhs>),
    Group(Box<Rhs>),
    Exception(Box<Rhs>, Box<Rhs>),
    Alternation(Box<Rhs>, Box<Rhs>),
    Concatenation(Box<Rhs>, Box<Rhs>),
}

/// A production rule.
#[derive(PartialEq, Eq, Debug)]
pub struct Production {
    pub lhs: Lhs,
    pub rhs: Rhs,
}

/// A production rule, by its other name.
pub type Rule = Production;

/// A sequence of production rules, in the order they were declared.
#[derive(PartialEq, Eq, Debug)]
pub struct Grammar {
    pub rules: Vec<Production>,
}

pub open spec fn rhs_model(r: &Rhs) -> RhsModel
    decreases r,
{
    match r {
        Rhs::Identifier(i) => RhsModel::Identifier(i.0@),
        Rhs::Terminal(t) => RhsModel::Terminal(t.0@),
        Rhs::Optional(a) => RhsModel::Optional(Box::new(rhs_model(a))),
        Rhs::Repeat(a) => RhsModel::Repeat(Box::new(rhs_model(a))),
        Rhs::Group(a) => RhsModel::Group(Box::new(rhs_model(a))),
        Rhs::Exception(a, b) => RhsModel::Exception(
            Box::new(rhs_model(a)),
            Box::new(rhs_model(b)),
        ),
        Rhs::Alternation(a, b) => RhsModel::Alternation(
            Box::new(rhs_model(a)),
            Box::new(rhs_model(b)),
        ),
        Rhs::Concatenation(a, b) => RhsModel::Concatenation(
            Box::new(rhs_model(a)),
            Box::new(rhs_model(b)),
        ),
    }
}

impl View for Rhs {
    type V = RhsModel;

    open spec fn view(&self) -> RhsModel {
        rhs_model(self)
    }
}

impl View for Production {
    type V = ProductionModel;

    open spec fn view(&self) -> ProductionModel {
        ProductionModel { lhs: self.lhs.0.0@, rhs: self.rhs@ }
    }
}

impl View for Grammar {
    type V = Seq<ProductionModel>;

    open spec fn view(&self) -> Seq<ProductionModel> {
        self.rules@.map_values(|p: Production| p@)
    }
}

/// The canonical text of a right-hand side.
pub open spec fn print_rhs(m: RhsModel) -> Seq<char>
    decreases m,
{
    match m {
        RhsModel::Identifier(s) => s,
        RhsModel::Terminal(s) => seq!['"'] + s + seq!['"'],
        RhsModel::Optional(a) => seq!['[', ' '] + print_rhs(*a) + seq![' ', ']'],
        RhsModel::Repeat(a) => seq!['{', ' '] + print_rhs(*a) + seq![' ', '}'],
        RhsModel::Group(a) => seq!['(', ' '] + print_rhs(*a) + seq![' ', ')'],
        RhsModel::Exception(a, b) => print_rhs(*a) + seq![' ', '-', ' '] + print_rhs(*b),
        RhsModel::Alternation(a, b) => print_rhs(*a) + seq![' ', '|', ' '] + print_rhs(*b),
        RhsModel::Concatenation(a, b) => print_rhs(*a) + seq![' ', ',', ' '] + print_rhs(*b),
    }
}

/// The canonical text of a production: `lhs = rhs ;`.
pub open spec fn print_production(p: ProductionModel) -> Seq<char> {
    p.lhs + seq![' ', '=', ' '] + print_rhs(p.rhs) + seq![' ', ';']
}

/// The canonical text of a grammar: each production on a line of its own.
pub open spec fn print_grammar(g: Seq<ProductionModel>) -> Seq<char>
    decreases g.len(),
{
    if g.len() == 0 {
        Seq::empty()
    } else {
        print_grammar(g.drop_last()) + print_production(g.last()) + seq!['\n']
    }
}

fn push_char_seq(out: &mut Vec<char>, s: &String)
    ensures
        final(out)@ == old(out)@ + s@,
{
    push_str(out, s.as_str());
}

fn write_rhs(r: &Rhs, out: &mut Vec<char>)
    ensures
        final(out)@ == old(out)@ + print_rhs(r@),
    decreases r,
{
    let ghost start = out@;
    match r {
        Rhs::Identifier(i) => push_char_seq(out, &i.0),
        Rhs::Terminal(t) => {
            out.push('"');
            push_char_seq(out, &t.0);
            out.push('"');
        },
        Rhs::Optional(a) => {
            out.push('[');
            out.push(' ');
            write_rhs(a, out);
            out.push(' ');
            out.push(']');
        },
        Rhs::Repeat(a) => {
            out.push('{');
            out.push(' ');
            write_rhs(a, out);
            out.push(' ');
            out.push('}');
        },
        Rhs::Group(a) => {
            out.push('(');
            out.push(' ');
            write_rhs(a, out);
            out.push(' ');
            out.push(')');
        },
        Rhs::Exception(a, b) => {
            write_rhs(a, out);
            out.push(' ');
            out.push('-');
            out.push(' ');
            write_rhs(b, out);
        },
        Rhs::Alternation(a, b) => {
            write_rhs(a, out);
            out.push(' ');
            out.push('|');
            out.push(' ');
            write_rhs(b, out);
        },
        Rhs::Concatenation(a, b) => {
            write_rhs(a, out);
            out.push(' ');
            out.push(',');
            out.push(' ');
            write_rhs(b, out);
        },
    }
    assert(out@ =~= start + print_rhs(r@));
}

fn write_production(p: &Production, out: &mut Vec<char>)
    ensures
        final(out)@ == old(out)@ + print_production(p@),
{
    let ghost start = out@;
    push_char_seq(out, &p.lhs.0.0);
    out.push(' ');
    out.push('=');
    out.push(' ');
    write_rhs(&p.rhs, out);
    out.push(' ');
    out.push(';');
    assert(out@ =~= start + print_production(p@));
}

impl<'a> From<&'a str> for Identifier {
    fn from(s: &'a str) -> (r: Identifier)
        ensures
            r.0@ == s@,
    {
        Identifier(s.to_owned())
    }
}

impl<'a> vstd::std_specs::convert::FromSpecImpl<&'a str> for Identifier {
    /// Only the text of the result is pinned down, by `from`'s own `ensures`.
    open spec fn obeys_from_spec() -> bool {
        false
    }

    open spec fn from_spec(s: &'a str) -> Identifier {
        arbitrary()
    }
}

impl<'a> From<&'a str> for Terminal {
    fn from(s: &'a str) -> (r: Terminal)
        ensures
            r.0@ == s@,
    {
        Terminal(s.to_owned())
    }
}

impl<'a> vstd::std_specs::convert::FromSpecImpl<&'a str> for Terminal {
    /// Only the text of the result is pinned down, by `from`'s own `ensures`.
    open spec fn obeys_from_spec() -> bool {
        false
    }

    open spec fn from_spec(s: &'a str) -> Terminal {
        arbitrary()
    }
}

impl<'a> From<&'a str> for Lhs {
    fn from(s: &'a str) -> (r: Lhs)
        ensures
            r.0.0@ == s@,
    {
        Lhs(Identifier(s.to_owned()))
    }
}

impl<'a> vstd::std_specs::convert::FromSpecImpl<&'a str> for Lhs {
    /// Only the text of the result is pinned down, by `from`'s own `ensures`.
    open spec fn obeys_from_spec() -> bool {
        false
    }

    open spec fn from_spec(s: &'a str) -> Lhs {
        arbitrary()
    }
}

impl Identifier {
    /// The name itself.
    pub fn to_string(&self) -> (r: String)
        ensures
            r@ == self.0@,
    {
        self.0.clone()
    }
}

impl Terminal {
    /// The literal in double quotes.
    pub fn to_string(&self) -> (r: String)
        ensures
            r@ == seq!['"'] + self.0@ + seq!['"'],
    {
        let mut out: Vec<char> = Vec::new();
        out.push('"');
        push_char_seq(&mut out, &self.0);
        out.push('"');
        assert(out@ =~= seq!['"'] + self.0@ + seq!['"']);
        string_of(out.as_slice())
    }
}

impl Lhs {
    /// The name the production defines.
    pub fn to_string(&self) -> (r: String)
        ensures
            r@ == self.0.0@,
    {
        self.0.to_string()
    }
}

impl Rhs {
    /// The canonical text of this right-hand side.
    pub fn to_string(&self) -> (r: String)
        ensures
            r@ == print_rhs(self@),
    {
        let mut out: Vec<char> = Vec::new();
        write_rhs(self, &mut out);
        assert(out@ =~= print_rhs(self@));
        string_of(out.as_slice())
    }
}

impl Production {
    /// The canonical text of this production.
    pub fn to_string(&self) -> (r: String)
        ensures
            r@ == print_production(self@),
    {
        let mut out: Vec<char> = Vec::new();
        write_production(self, &mut out);
        assert(out@ =~= print_production(self@));
        string_of(out.as_slice())
    }
}

impl Grammar {
    /// The canonical text of this grammar, one production per line.
    pub fn to_string(&self) -> (r: String)
        ensures
            r@ == print_grammar(self@),
    {
        let mut out: Vec<char> = Vec::new();
        let mut i: usize = 0;
        while i < self.rules.len()
            invariant
                i <= self.rules@.len(),
                out@ == print_grammar(self@.take(i as int)),
            decreases self.rules@.len() - i,
        {
            write_production(&self.rules[i], &mut out);
            out.push('\n');
            proof {
                let g = self@.take(i + 1);
                assert(g.drop_last() =~= self@.take(i as int));
                assert(g.last() == self.rules@[i as int]@);
            }
            i = i + 1;
        }
        assert(self@.take(i as int) =~= self@);
        string_of(out.as_slice())
    }
}

} // verus!
