//! Token streams as the library reads them.
//!
//! A token stream is a value of `proc_macro2`. The library looks into one only to read the
//! arguments of a marker, and for that has its token trees handed out one by one.

use proc_macro2::TokenStream;
use proc_macro2::TokenTree;
use vstd::prelude::*;

verus! {

/// Trusted: `proc_macro2::TokenStream`, a sequence of token trees that is opaque here.
#[verifier::external_type_specification]
#[verifier::external_body]
pub struct ExTokenStream(proc_macro2::TokenStream);

/// How a group of tokens is enclosed.
#[derive(Clone, Copy, Debug, PartialEq, Eq, Structural)]
pub enum Delimiter {
    /// `( ... )`
    Parenthesis,
    /// `{ ... }`
    Brace,
    /// `[ ... ]`
    Bracket,
    /// No visible delimiter.
    Invisible,
}

/// Whether a punctuation character is written together with the token behind it.
#[derive(Clone, Copy, Debug, PartialEq, Eq, Structural)]
pub enum Spacing {
    /// Something else, or white space, follows: `+` in `+ =`.
    Alone,
    /// A punctuation character follows at once: `+` in `+=`.
    Joint,
}

/// One token tree of a stream: a single token, or a delimited group with the stream inside it.
#[derive(Debug)]
pub enum Token {
    /// An identifier, by its text.
    Ident(String),
    /// A single punctuation character.
    Punct(char, Spacing),
    /// A literal, by its source text.
    Literal(String),
    /// A delimited group and the tokens it encloses.
    Group(Delimiter, TokenStream),
}

/// The mathematical value of a token tree.
pub enum TokenView {
    Ident(Seq<char>),
    Punct(char, Spacing),
    Literal(Seq<char>),
    Group(Delimiter, Seq<TokenView>),
}

/// Trusted: the token trees that a `proc_macro2::TokenStream` holds, in order.
pub uninterp spec fn stream_tokens(stream: TokenStream) -> Seq<TokenView>;

impl View for Token {
    type V = TokenView;

    open spec fn view(&self) -> TokenView {
        match *self {
            Token::Ident(name) => TokenView::Ident(name@),
            Token::Punct(c, spacing) => TokenView::Punct(c, spacing),
            Token::Literal(text) => TokenView::Literal(text@),
            Token::Group(delimiter, stream) => TokenView::Group(delimiter, stream_tokens(stream)),
        }
    }
}

/// Whether `token` is the punctuation character `c`, however it is spaced.
pub open spec fn is_punct(token: TokenView, c: char) -> bool {
    token matches TokenView::Punct(p, _) && p == c
}

/// The mathematical values of a sequence of token trees.
pub open spec fn token_views(tokens: Seq<Token>) -> Seq<TokenView> {
    tokens.map_values(|t: Token| t@)
}

/// Hands out the token trees of `stream`, in order, each one as a `Token`.
///
/// Trusted: the body walks the stream with `proc_macro2`'s `IntoIterator` for `TokenStream`,
/// tells the four variants of `TokenTree` apart, and reads a tree with `Ident::to_string`,
/// `Literal::to_string`, `Punct::as_char`, `Punct::spacing`, `Group::delimiter` and
/// `Group::stream`. The contract claims that what is handed out is what the stream holds, tree
/// by tree.
#[verifier::external_body]
pub(crate) fn tokens_of(stream: &TokenStream) -> (tokens: Vec<Token>)
    ensures
        token_views(tokens@) == stream_tokens(*stream),
{
    stream.clone().into_iter().map(|tree| match tree {
        TokenTree::Ident(ident) => Token::Ident(ident.to_string()),
        TokenTree::Literal(literal) => Token::Literal(literal.to_string()),
        TokenTree::Punct(punct) => Token::Punct(punct.as_char(), match punct.spacing() {
            proc_macro2::Spacing::Alone => Spacing::Alone,
            proc_macro2::Spacing::Joint => Spacing::Joint,
        }),
        TokenTree::Group(group) => Token::Group(match group.delimiter() {
            proc_macro2::Delimiter::Parenthesis => Delimiter::Parenthesis,
            proc_macro2::Delimiter::Brace => Delimiter::Brace,
            proc_macro2::Delimiter::Bracket => Delimiter::Bracket,
            proc_macro2::Delimiter::None => Delimiter::Invisible,
        }, group.stream()),
    }).collect()
}

/// Whether the digits of `text` from position `from` up to the first character that is neither
/// a digit nor an underscore are all at most `largest`.
pub open spec fn digits_within(text: Seq<char>, from: int, largest: char) -> bool
    decreases text.len() - from,
{
    if from < 0 || from >= text.len() {
        true
    } else if text[from] == '_' {
        digits_within(text, from + 1, largest)
    } else if '0' <= text[from] <= '9' {
        text[from] <= largest && digits_within(text, from + 1, largest)
    } else {
        true
    }
}

/// Whether `text` starts like a literal: with a quote, an `r`, a `b` before a quote or an `r`,
/// or a digit; and, where it starts with `0b` or `0o`, whether its digits are binary or octal.
pub open spec fn literal_readable(text: Seq<char>) -> bool {
    if text.len() == 0 {
        false
    } else if text[0] == '"' || text[0] == 'r' || text[0] == '\'' {
        true
    } else if text[0] == 'b' {
        text.len() > 1 && (text[1] == '"' || text[1] == 'r' || text[1] == '\'')
    } else if '0' <= text[0] <= '9' {
        if text.len() > 1 && text[0] == '0' && text[1] == 'b' {
            digits_within(text, 2, '1')
        } else if text.len() > 1 && text[0] == '0' && text[1] == 'o' {
            digits_within(text, 2, '7')
        } else {
            true
        }
    } else {
        false
    }
}

/// Whether every literal in `token`, at any depth, is readable.
pub open spec fn token_readable(token: TokenView) -> bool
    decreases token,
{
    match token {
        TokenView::Literal(text) => literal_readable(text),
        TokenView::Group(_, inner) => literals_readable(inner),
        _ => true,
    }
}

/// Whether every literal among `tokens`, at any depth, is readable.
pub open spec fn literals_readable(tokens: Seq<TokenView>) -> bool
    decreases tokens,
{
    if tokens.len() == 0 {
        true
    } else {
        literals_readable(tokens.drop_last()) && token_readable(tokens.last())
    }
}

/// The tokens that `token` shows: those inside it where it is an invisible group, else itself.
pub open spec fn visible_of(token: TokenView) -> Seq<TokenView>
    decreases token,
{
    match token {
        TokenView::Group(Delimiter::Invisible, inner) => visible(inner),
        other => seq![other],
    }
}

/// The tokens of `tokens` as they are read: each invisible group is replaced by what is
/// inside it, at any depth of such groups.
pub open spec fn visible(tokens: Seq<TokenView>) -> Seq<TokenView>
    decreases tokens,
{
    if tokens.len() == 0 {
        Seq::empty()
    } else {
        visible(tokens.drop_last()) + visible_of(tokens.last())
    }
}

/// Where all literals are readable, so are those of each token.
proof fn lemma_readable_at(tokens: Seq<TokenView>, i: int)
    requires
        0 <= i < tokens.len(),
        literals_readable(tokens),
    ensures
        token_readable(tokens[i]),
    decreases tokens.len(),
{
    if i < tokens.len() - 1 {
        lemma_readable_at(tokens.drop_last(), i);
    }
}

/// Whether the digits of `text` from `from` on stay within `largest`.
fn digits_are_within(text: &str, from: usize, largest: char) -> (ok: bool)
    ensures
        ok == digits_within(text@, from as int, largest),
{
    let len = text.unicode_len();
    let mut i = from;
    while i < len
        invariant
            len == text@.len(),
            from <= i,
            digits_within(text@, from as int, largest) == digits_within(text@, i as int, largest),
        decreases len - i,
    {
        let c = text.get_char(i);
        if c == '_' {
            i = i + 1;
        } else if '0' <= c && c <= '9' {
            if c > largest {
                return false;
            }
            i = i + 1;
        } else {
            return true;
        }
    }
    true
}

/// Whether `text` is the text of a literal that can be read.
pub fn literal_is_readable(text: &str) -> (ok: bool)
    ensures
        ok == literal_readable(text@),
{
    let len = text.unicode_len();
    if len == 0 {
        return false;
    }
    let first = text.get_char(0);
    if first == '"' || first == 'r' || first == '\'' {
        true
    } else if first == 'b' {
        if len > 1 {
            let second = text.get_char(1);
            second == '"' || second == 'r' || second == '\''
        } else {
            false
        }
    } else if '0' <= first && first <= '9' {
        if len > 1 && first == '0' && text.get_char(1) == 'b' {
            digits_are_within(text, 2, '1')
        } else if len > 1 && first == '0' && text.get_char(1) == 'o' {
            digits_are_within(text, 2, '7')
        } else {
            true
        }
    } else {
        false
    }
}

/// Whether every literal among `tokens`, and inside the groups among them, can be read.
#[verifier::loop_isolation(false)]
pub fn literals_are_readable(tokens: &Vec<Token>) -> (ok: bool)
    ensures
        ok == literals_readable(token_views(tokens@)),
    decreases token_views(tokens@),
{
    let ghost views = token_views(tokens@);
    let mut i: usize = 0;
    assert(views.take(0) =~= Seq::empty());
    while i < tokens.len()
        invariant
            0 <= i <= tokens.len(),
            literals_readable(views.take(i as int)),
        decreases tokens.len() - i,
    {
        assert(views[i as int] == tokens@[i as int]@);
        let ok = match &tokens[i] {
            Token::Literal(text) => literal_is_readable(text.as_str()),
            Token::Group(_, stream) => {
                let inner = tokens_of(stream);
                assert(views[i as int]->Group_1 == token_views(inner@));
                literals_are_readable(&inner)
            },
            _ => true,
        };
        proof {
            assert(views.take(i + 1).drop_last() =~= views.take(i as int));
            assert(views.take(i + 1).last() == views[i as int]);
            reveal_with_fuel(token_readable, 2);
            assert(ok == token_readable(views[i as int]));
            reveal_with_fuel(literals_readable, 2);
        }
        if !ok {
            proof {
                if literals_readable(views) {
                    lemma_readable_at(views, i as int);
                }
            }
            return false;
        }
        i = i + 1;
    }
    assert(views.take(i as int) =~= views);
    true
}

/// The tokens of `tokens` as they are read, with each invisible group replaced by what is
/// inside it.
#[verifier::loop_isolation(false)]
pub fn visible_tokens(tokens: Vec<Token>) -> (shown: Vec<Token>)
    ensures
        token_views(shown@) == visible(token_views(tokens@)),
    decreases token_views(tokens@),
{
    let ghost all = tokens@;
    let ghost views = token_views(all);
    let mut shown: Vec<Token> = Vec::new();
    assert(views.take(0) =~= Seq::empty());
    assert(token_views(shown@) =~= Seq::empty());
    for token in iter: tokens
        invariant
            iter.seq() == all,
            token_views(shown@) == visible(views.take(iter.index())),
    {
        let ghost index = iter.index();
        let ghost before = token_views(shown@);
        proof {
            assert(views[index] == token@);
            assert(views.take(index + 1).drop_last() =~= views.take(index));
            assert(views.take(index + 1).last() == views[index]);
        }
        match token {
            Token::Group(Delimiter::Invisible, stream) => {
                let inner = tokens_of(&stream);
                assert(views[index]->Group_1 == token_views(inner@));
                let mut more = visible_tokens(inner);
                let ghost added = token_views(more@);
                shown.append(&mut more);
                assert(token_views(shown@) =~= before + added);
                assert(visible_of(views[index]) == added) by {
                    reveal_with_fuel(visible_of, 2);
                }
            },
            other => {
                shown.push(other);
                assert(token_views(shown@) =~= before + seq![other@]);
                assert(visible_of(views[index]) == seq![other@]) by {
                    reveal_with_fuel(visible_of, 2);
                }
            },
        }
        proof {
            reveal_with_fuel(visible, 2);
        }
    }
    assert(views.take(all.len() as int) =~= views);
    shown
}

/// The tokens of `stream` as they are read, with each invisible group replaced by what is
/// inside it.
pub fn visible_tokens_of(stream: &TokenStream) -> (shown: Vec<Token>)
    ensures
        token_views(shown@) == visible(stream_tokens(*stream)),
{
    visible_tokens(tokens_of(stream))
}

} // verus!
