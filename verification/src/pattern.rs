//! Parameter patterns and the names they bind.

use vstd::prelude::*;

verus! {

/// The kinds of pattern whose bindings cannot be listed.
#[derive(Clone, Copy, Debug, PartialEq, Eq, Structural)]
pub enum PatKind {
    /// A path, such as `Color::Red`.
    Path,
    /// A box pattern, `box p`.
    Box,
    /// A reference pattern, `&p`.
    Ref,
    /// A literal, such as `0`.
    Lit,
    /// A range, such as `1..=9`.
    Range,
    /// Tokens that were not understood as a pattern.
    Verbatim,
    /// A macro invocation in pattern position.
    Macro,
}

/// A pattern cannot be reduced to the names it binds; it holds the kind of the pattern met.
#[derive(Clone, Copy, Debug, PartialEq, Eq, Structural)]
pub struct UnsupportedPatternError {
    pub kind: PatKind,
}

/// A parameter pattern, as far as its bindings go.
#[derive(Debug, PartialEq, Eq)]
pub enum Pat {
    /// `_`
    Wild,
    /// A binding, by its name.
    Ident(String),
    /// `Path { field: pattern, .. }`, by the patterns of its fields in order.
    Struct(Vec<Pat>),
    /// `Path(front.., .., back..)`
    TupleStruct(Vec<Pat>, Vec<Pat>),
    /// `(front.., .., back..)`
    Tuple(Vec<Pat>, Vec<Pat>),
    /// `[front.., middle.., back..]`
    Slice(Vec<Pat>, Option<Box<Pat>>, Vec<Pat>),
    /// A pattern of a kind that binds nothing this library can name.
    Unsupported(PatKind),
}

/// The mathematical value of a `Pat`.
pub enum PatView {
    Wild,
    Ident(Seq<char>),
    Struct(Seq<PatView>),
    TupleStruct(Seq<PatView>, Seq<PatView>),
    Tuple(Seq<PatView>, Seq<PatView>),
    Slice(Seq<PatView>, Option<Box<PatView>>, Seq<PatView>),
    Unsupported(PatKind),
}

/// The mathematical value of `pat`.
pub open spec fn pat_view(pat: Pat) -> PatView
    decreases pat,
{
    match pat {
        Pat::Wild => PatView::Wild,
        Pat::Ident(name) => PatView::Ident(name@),
        Pat::Struct(fields) => PatView::Struct(pat_views(fields@)),
        Pat::TupleStruct(front, back) => PatView::TupleStruct(pat_views(front@), pat_views(back@)),
        Pat::Tuple(front, back) => PatView::Tuple(pat_views(front@), pat_views(back@)),
        Pat::Slice(front, middle, back) => PatView::Slice(
            pat_views(front@),
            match middle {
                Some(pat) => Some(Box::new(pat_view(*pat))),
                None => None,
            },
            pat_views(back@),
        ),
        Pat::Unsupported(kind) => PatView::Unsupported(kind),
    }
}

/// The mathematical values of a sequence of patterns.
pub open spec fn pat_views(pats: Seq<Pat>) -> Seq<PatView>
    decreases pats,
{
    Seq::new(pats.len(), |i: int| if 0 <= i < pats.len() { pat_view(pats[i]) } else { PatView::Wild })
}

impl View for Pat {
    type V = PatView;

    open spec fn view(&self) -> PatView {
        pat_view(*self)
    }
}

/// The mathematical values of a sequence of strings.
pub open spec fn texts(strings: Seq<String>) -> Seq<Seq<char>> {
    strings.map_values(|s: String| s@)
}

/// One result followed by another: the first error met, else the names of both in order.
pub open spec fn names_then(
    first: Result<Seq<Seq<char>>, UnsupportedPatternError>,
    second: Result<Seq<Seq<char>>, UnsupportedPatternError>,
) -> Result<Seq<Seq<char>>, UnsupportedPatternError> {
    match first {
        Err(error) => Err(error),
        Ok(names) => match second {
            Err(error) => Err(error),
            Ok(more) => Ok(names + more),
        },
    }
}

/// The names that `pat` binds, from left to right and depth first.
///
/// A wildcard binds nothing, and a binding named `self` is left out. Tuples, tuple structs,
/// structs and slices give the names of their parts in order. Any other pattern is an error,
/// and the first such pattern met decides which.
pub open spec fn printable_args(pat: PatView) -> Result<Seq<Seq<char>>, UnsupportedPatternError>
    decreases pat,
{
    match pat {
        PatView::Wild => Ok(Seq::empty()),
        PatView::Ident(name) => if name == "self"@ {
            Ok(Seq::empty())
        } else {
            Ok(seq![name])
        },
        PatView::Struct(fields) => printable_args_of_all(fields),
        PatView::TupleStruct(front, back) => names_then(
            printable_args_of_all(front),
            printable_args_of_all(back),
        ),
        PatView::Tuple(front, back) => names_then(
            printable_args_of_all(front),
            printable_args_of_all(back),
        ),
        PatView::Slice(front, middle, back) => names_then(
            printable_args_of_all(front),
            names_then(
                match middle {
                    Some(pat) => printable_args(*pat),
                    None => Ok(Seq::empty()),
                },
                printable_args_of_all(back),
            ),
        ),
        PatView::Unsupported(kind) => Err(UnsupportedPatternError { kind }),
    }
}

/// The names that the patterns of `pats` bind, one pattern after the other.
pub open spec fn printable_args_of_all(pats: Seq<PatView>) -> Result<
    Seq<Seq<char>>,
    UnsupportedPatternError,
>
    decreases pats,
{
    if pats.len() == 0 {
        Ok(Seq::empty())
    } else {
        names_then(printable_args(pats[0]), printable_args_of_all(pats.drop_first()))
    }
}

} // verus!
