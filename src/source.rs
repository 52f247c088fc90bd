use vstd::prelude::*;

use crate::text::{push_str, same_text, string_of};

verus! {

/// The attribute that holds a grammar written out in place.
pub const INLINE_ATTR: &'static str = "grammar_inline";

/// The attribute that holds the path of a grammar file.
pub const FILE_ATTR: &'static str = "grammar_file";

/// Why the grammar of a parser declaration could not be found.
#[derive(Debug, Clone, PartialEq, Eq)]
pub enum DeriveError {
    MissingGrammarSource,
    MultipleGrammarSources,
    Other(String),
}

impl DeriveError {
    /// A description of the failure.
    pub fn to_string(&self) -> (r: String)
        ensures
            match self {
                DeriveError::MissingGrammarSource => r@ == "No grammar source provided"@,
                DeriveError::MultipleGrammarSources => r@
                    == "At most one grammar source can be provided"@,
                DeriveError::Other(s) => r@ == "Derive error: "@ + s@,
            },
    {
        let mut out: Vec<char> = Vec::new();
        match self {
            DeriveError::MissingGrammarSource => push_str(&mut out, "No grammar source provided"),
            DeriveError::MultipleGrammarSources => push_str(
                &mut out,
                "At most one grammar source can be provided",
            ),
            DeriveError::Other(s) => {
                push_str(&mut out, "Derive error: ");
                push_str(&mut out, s.as_str());
            },
        }
        assert(match self {
            DeriveError::MissingGrammarSource => out@ =~= "No grammar source provided"@,
            DeriveError::MultipleGrammarSources => out@
                =~= "At most one grammar source can be provided"@,
            DeriveError::Other(s) => out@ =~= "Derive error: "@ + s@,
        });
        string_of(out.as_slice())
    }
}

/// Where the grammar of a parser declaration comes from.
#[derive(Debug, Clone, PartialEq, Eq)]
pub enum GrammarSource {
    /// A path, relative to the project root, of a file that holds the grammar.
    File(String),
    /// The grammar text itself.
    Inline(String),
}

/// One name-value attribute of a declaration: its name, and its value when
/// that is a string literal.
pub type Attribute = (String, Option<String>);

pub open spec fn names_source(name: Seq<char>) -> bool {
    name == INLINE_ATTR@ || name == FILE_ATTR@
}

/// How many of `attrs` name a grammar source.
pub open spec fn source_count(attrs: Seq<Attribute>) -> nat
    decreases attrs.len(),
{
    if attrs.len() == 0 {
        0
    } else {
        source_count(attrs.drop_last()) + if names_source(attrs.last().0@) {
            1nat
        } else {
            0nat
        }
    }
}

/// The first of `attrs` that names a grammar source.
pub open spec fn first_source(attrs: Seq<Attribute>) -> int
    decreases attrs.len(),
{
    if attrs.len() == 0 {
        0
    } else if source_count(attrs.drop_last()) == 0 {
        attrs.len() - 1
    } else {
        first_source(attrs.drop_last())
    }
}

/// The grammar source named by exactly one of `attrs`. Fails when none or
/// more than one names a source, or when the one that does has no string value.
pub fn grammar_source(attrs: &Vec<Attribute>) -> (r: Result<GrammarSource, DeriveError>)
    ensures
        source_count(attrs@) == 0 <==> r == Err::<GrammarSource, DeriveError>(
            DeriveError::MissingGrammarSource,
        ),
        source_count(attrs@) > 1 <==> r == Err::<GrammarSource, DeriveError>(
            DeriveError::MultipleGrammarSources,
        ),
        source_count(attrs@) == 1 ==> {
            let a = attrs@[first_source(attrs@)];
            match a.1 {
                None => r matches Err(DeriveError::Other(_)),
                Some(v) => if a.0@ == FILE_ATTR@ {
                    r matches Ok(GrammarSource::File(p)) && p@ == v@
                } else {
                    r matches Ok(GrammarSource::Inline(t)) && t@ == v@
                },
            }
        },
{
    let mut count: usize = 0;
    let mut first: usize = 0;
    let mut i: usize = 0;
    while i < attrs.len()
        invariant
            i <= attrs@.len(),
            count == source_count(attrs@.take(i as int)),
            count <= i,
            count > 0 ==> first == first_source(attrs@.take(i as int)) && first < i,
        decreases attrs@.len() - i,
    {
        let name = attrs[i].0.as_str();
        let hit = same_text(name, INLINE_ATTR) || same_text(name, FILE_ATTR);
        proof {
            let t = attrs@.take(i + 1);
            assert(t.drop_last() =~= attrs@.take(i as int));
            assert(t.last() == attrs@[i as int]);
            reveal_strlit("grammar_inline");
            reveal_strlit("grammar_file");
        }
        if hit {
            if count == 0 {
                first = i;
            }
            count = count + 1;
        }
        i = i + 1;
    }
    proof {
        assert(attrs@.take(i as int) =~= attrs@);
    }
    if count == 0 {
        return Err(DeriveError::MissingGrammarSource);
    }
    if count > 1 {
        return Err(DeriveError::MultipleGrammarSources);
    }
    let (name, value) = &attrs[first];
    match value {
        None => Err(DeriveError::Other("attribute not a string".to_owned())),
        Some(v) => {
            if same_text(name.as_str(), FILE_ATTR) {
                Ok(GrammarSource::File(v.clone()))
            } else {
                Ok(GrammarSource::Inline(v.clone()))
            }
        },
    }
}

} // verus!
