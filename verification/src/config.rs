//! The configuration that a marker carries in its argument list.
//!
//! The argument list is a comma-separated list of pairs, each a key that may be followed by `=`
//! and a literal:
//!
//! ```text
//! args := (pair (',' pair)*)?
//! pair := key ('=' literal)?
//! ```
//!
//! The grammar is read on the visible tokens: an invisible group counts as the tokens in it.

use crate::tokens::is_punct;
use crate::tokens::tokens_of;
use crate::tokens::visible;
use crate::tokens::visible_tokens;
use crate::tokens::stream_tokens;
use crate::tokens::token_views;
use crate::tokens::Delimiter;
use crate::tokens::Token;
use crate::tokens::TokenView;
use proc_macro2::TokenStream;
use vstd::prelude::*;

verus! {

/// What a marker asks for.
#[derive(Clone, Copy, Debug, PartialEq, Eq, Structural)]
pub struct Config {
    /// The marked node is left exactly as it is.
    pub ignore: bool,
}

impl Default for Config {
    fn default() -> (config: Config)
        ensures
            config == (Config { ignore: false }),
    {
        Config { ignore: false }
    }
}

/// One `key` or `key = literal` of an argument list, before its meaning is looked at.
#[derive(Clone, Debug, PartialEq, Eq)]
pub struct RawConfigPair {
    /// The key.
    pub name: String,
    /// The source text of the literal, where one is given.
    pub value: Option<String>,
}

/// The mathematical value of a `RawConfigPair`.
pub struct RawConfigPairView {
    pub name: Seq<char>,
    pub value: Option<Seq<char>>,
}

impl View for RawConfigPair {
    type V = RawConfigPairView;

    open spec fn view(&self) -> RawConfigPairView {
        RawConfigPairView {
            name: self.name@,
            value: match self.value {
                Some(text) => Some(text@),
                None => None,
            },
        }
    }
}

/// Why an argument list is not a configuration.
#[derive(Clone, Debug, PartialEq, Eq)]
pub enum ConfigError {
    /// The tokens do not follow the grammar of an argument list.
    Malformed,
    /// A key that no configuration knows; it holds the key.
    UnexpectedKey(String),
    /// A value given to a key that takes none; it holds the key.
    UnexpectedValue(String),
}

/// The mathematical value of a `ConfigError`.
pub enum ConfigErrorView {
    Malformed,
    UnexpectedKey(Seq<char>),
    UnexpectedValue(Seq<char>),
}

impl View for ConfigError {
    type V = ConfigErrorView;

    open spec fn view(&self) -> ConfigErrorView {
        match *self {
            ConfigError::Malformed => ConfigErrorView::Malformed,
            ConfigError::UnexpectedKey(key) => ConfigErrorView::UnexpectedKey(key@),
            ConfigError::UnexpectedValue(key) => ConfigErrorView::UnexpectedValue(key@),
        }
    }
}

/// The views of a vector of pairs.
pub open spec fn pair_views(pairs: Seq<RawConfigPair>) -> Seq<RawConfigPairView> {
    pairs.map_values(|p: RawConfigPair| p@)
}

/// The view of the outcome of reading a configuration.
pub open spec fn config_result_view(result: Result<Config, ConfigError>) -> Result<
    Config,
    ConfigErrorView,
> {
    match result {
        Ok(config) => Ok(config),
        Err(error) => Err(error@),
    }
}

/// The text of `token` where it can stand as the literal of a pair: any literal token, and the
/// two words `true` and `false`.
pub open spec fn literal_text(token: TokenView) -> Option<Seq<char>> {
    match token {
        TokenView::Literal(text) => Some(text),
        TokenView::Ident(name) => if name == "true"@ || name == "false"@ {
            Some(name)
        } else {
            None
        },
        _ => None,
    }
}

/// The pair that starts at position `at` of the visible tokens `tokens`, with the position
/// behind it; `None` where no identifier stands at `at`. The value is taken whenever `=` and a literal follow the key.
pub open spec fn pair_at(tokens: Seq<TokenView>, at: int) -> Option<(RawConfigPairView, int)> {
    if 0 <= at < tokens.len() && tokens[at] is Ident {
        let name = tokens[at]->Ident_0;
        if at + 2 < tokens.len() && is_punct(tokens[at + 1], '=') && literal_text(
            tokens[at + 2],
        ) is Some {
            Some((RawConfigPairView { name, value: literal_text(tokens[at + 2]) }, at + 3))
        } else {
            Some((RawConfigPairView { name, value: None }, at + 1))
        }
    } else {
        None
    }
}

/// The pairs that follow position `at`, each one behind a comma, as far as they go, with the
/// position at which they end.
pub open spec fn pairs_after(tokens: Seq<TokenView>, at: int) -> (Seq<RawConfigPairView>, int)
    decreases tokens.len() - at,
{
    if 0 <= at < tokens.len() && is_punct(tokens[at], ',') {
        match pair_at(tokens, at + 1) {
            Some((pair, next)) => {
                let (rest, end) = pairs_after(tokens, next);
                (seq![pair] + rest, end)
            },
            None => (Seq::empty(), at),
        }
    } else {
        (Seq::empty(), at)
    }
}

/// The longest list of pairs at the start of `tokens`, with the position behind it.
pub open spec fn pair_list(tokens: Seq<TokenView>) -> (Seq<RawConfigPairView>, int) {
    match pair_at(tokens, 0) {
        None => (Seq::empty(), 0),
        Some((pair, next)) => {
            let (rest, end) = pairs_after(tokens, next);
            (seq![pair] + rest, end)
        },
    }
}

/// What is wrong with the first pair of `pairs` that is not the bare key `ignore`.
pub open spec fn first_offence(pairs: Seq<RawConfigPairView>) -> Option<ConfigErrorView>
    decreases pairs.len(),
{
    if pairs.len() == 0 {
        None
    } else if pairs[0].name != "ignore"@ {
        Some(ConfigErrorView::UnexpectedKey(pairs[0].name))
    } else if pairs[0].value is Some {
        Some(ConfigErrorView::UnexpectedValue(pairs[0].name))
    } else {
        first_offence(pairs.drop_first())
    }
}

/// The configuration that a list of pairs stands for.
pub open spec fn config_of_pairs(pairs: Seq<RawConfigPairView>) -> Result<Config, ConfigErrorView> {
    match first_offence(pairs) {
        Some(error) => Err(error),
        None => Ok(Config { ignore: pairs.len() > 0 }),
    }
}

/// The configuration that the argument list `tokens` stands for, where `tokens` are visible
/// tokens. An offending pair is reported before tokens that no pair accounts for.
pub open spec fn config_of_visible(tokens: Seq<TokenView>) -> Result<Config, ConfigErrorView> {
    let (pairs, end) = pair_list(tokens);
    match config_of_pairs(pairs) {
        Err(error) => Err(error),
        Ok(config) => if end == tokens.len() {
            Ok(config)
        } else {
            Err(ConfigErrorView::Malformed)
        },
    }
}

/// The configuration that an argument list stands for.
pub open spec fn config_of_tokens(tokens: Seq<TokenView>) -> Result<Config, ConfigErrorView> {
    config_of_visible(visible(tokens))
}

/// The pair that the visible tokens `tokens` are, where they are exactly one pair.
pub open spec fn pair_of_visible(tokens: Seq<TokenView>) -> Result<
    RawConfigPairView,
    ConfigErrorView,
> {
    match pair_at(tokens, 0) {
        Some((pair, next)) => if next == tokens.len() {
            Ok(pair)
        } else {
            Err(ConfigErrorView::Malformed)
        },
        None => Err(ConfigErrorView::Malformed),
    }
}

/// The pair that `tokens` is, where it is exactly one pair.
pub open spec fn pair_of_tokens(tokens: Seq<TokenView>) -> Result<RawConfigPairView, ConfigErrorView> {
    pair_of_visible(visible(tokens))
}

/// The configuration that stands behind a marker's name where the marker is written as an
/// attribute: nothing at all, which is the default, or one parenthesised argument list.
pub open spec fn config_of_attr_tokens(tokens: Seq<TokenView>) -> Result<Config, ConfigErrorView> {
    let shown = visible(tokens);
    if shown.len() == 0 {
        Ok(Config { ignore: false })
    } else {
        match shown[0] {
            TokenView::Group(Delimiter::Parenthesis, inner) => match config_of_tokens(inner) {
                Err(error) => Err(error),
                Ok(config) => if shown.len() == 1 {
                    Ok(config)
                } else {
                    Err(ConfigErrorView::Malformed)
                },
            },
            _ => Err(ConfigErrorView::Malformed),
        }
    }
}

/// The text of `token` where it can stand as the literal of a pair.
fn literal_of(token: &Token) -> (text: Option<String>)
    ensures
        match text {
            Some(text) => literal_text(token@) == Some(text@),
            None => literal_text(token@) is None,
        },
{
    match token {
        Token::Literal(text) => Some(text.clone()),
        Token::Ident(name) => {
            if *name == String::from_str("true") || *name == String::from_str("false") {
                Some(name.clone())
            } else {
                None
            }
        },
        _ => None,
    }
}

/// Whether `token` is the punctuation character `c`.
fn is_punctuation(token: &Token, c: char) -> (yes: bool)
    ensures
        yes == is_punct(token@, c),
{
    match token {
        Token::Punct(p, _) => *p == c,
        _ => false,
    }
}

impl RawConfigPair {
    /// Reads the pair that starts at position `at` of the visible tokens `tokens`, and says
    /// where it ends.
    pub fn read_at(tokens: &Vec<Token>, at: usize) -> (found: Option<(RawConfigPair, usize)>)
        ensures
            match found {
                Some((pair, next)) => pair_at(token_views(tokens@), at as int) == Some(
                    (pair@, next as int),
                ),
                None => pair_at(token_views(tokens@), at as int) is None,
            },
    {
        if at >= tokens.len() {
            return None;
        }
        match &tokens[at] {
            Token::Ident(name) => {
                if tokens.len() - at > 2 && is_punctuation(&tokens[at + 1], '=') {
                    match literal_of(&tokens[at + 2]) {
                        Some(text) => {
                            return Some(
                                (RawConfigPair { name: name.clone(), value: Some(text) }, at + 3),
                            );
                        },
                        None => {},
                    }
                }
                Some((RawConfigPair { name: name.clone(), value: None }, at + 1))
            },
            _ => None,
        }
    }

    /// Reads `tokens` as exactly one pair.
    pub fn from_tokens(tokens: Vec<Token>) -> (result: Result<RawConfigPair, ConfigError>)
        ensures
            match result {
                Ok(pair) => pair_of_tokens(token_views(tokens@)) == Ok::<_, ConfigErrorView>(pair@),
                Err(error) => pair_of_tokens(token_views(tokens@)) == Err::<RawConfigPairView, _>(
                    error@,
                ),
            },
    {
        let shown = visible_tokens(tokens);
        match RawConfigPair::read_at(&shown, 0) {
            Some((pair, next)) => {
                if next == shown.len() {
                    Ok(pair)
                } else {
                    Err(ConfigError::Malformed)
                }
            },
            None => Err(ConfigError::Malformed),
        }
    }

    /// Reads a token stream as exactly one pair.
    pub fn parse(stream: &TokenStream) -> (result: Result<RawConfigPair, ConfigError>)
        ensures
            match result {
                Ok(pair) => pair_of_tokens(stream_tokens(*stream)) == Ok::<_, ConfigErrorView>(pair@),
                Err(error) => pair_of_tokens(stream_tokens(*stream)) == Err::<RawConfigPairView, _>(
                    error@,
                ),
            },
    {
        RawConfigPair::from_tokens(tokens_of(stream))
    }
}

/// Reads the longest list of pairs at the start of the visible tokens `tokens`, and says where
/// it ends.
pub fn read_pair_list(tokens: &Vec<Token>) -> (found: (Vec<RawConfigPair>, usize))
    ensures
        (pair_views(found.0@), found.1 as int) == pair_list(token_views(tokens@)),
{
    let mut pairs: Vec<RawConfigPair> = Vec::new();
    let (first, mut at): (RawConfigPair, usize) = match RawConfigPair::read_at(tokens, 0) {
        Some(found) => found,
        None => {
            assert(pair_views(pairs@) =~= Seq::empty());
            return (pairs, 0);
        },
    };
    let ghost views = token_views(tokens@);
    let ghost start = at as int;
    pairs.push(first);
    assert(pair_views(pairs@) =~= seq![first@]);
    loop
        invariant
            views == token_views(tokens@),
            0 <= start <= at <= tokens.len(),
            pair_at(views, 0) == Some((first@, start)),
            pair_views(pairs@).len() >= 1,
            pair_views(pairs@)[0] == first@,
            pairs_after(views, start) == (
                pair_views(pairs@).subrange(1, pairs.len() as int) + pairs_after(views, at as int).0,
                pairs_after(views, at as int).1,
            ),
        ensures
            0 <= at <= tokens.len(),
            (pair_views(pairs@), at as int) == (
                seq![first@] + pairs_after(views, start).0,
                pairs_after(views, start).1,
            ),
        decreases tokens.len() - at,
    {
        if at >= tokens.len() || !is_punctuation(&tokens[at], ',') {
            assert(pair_views(pairs@) =~= seq![first@] + pairs_after(views, start).0);
            break;
        }
        match RawConfigPair::read_at(tokens, at + 1) {
            Some((pair, next)) => {
                let ghost before = pair_views(pairs@);
                pairs.push(pair);
                assert(pair_views(pairs@) =~= before.push(pair@));
                assert(pair_views(pairs@).subrange(1, pairs.len() as int) + pairs_after(
                    views,
                    next as int,
                ).0 =~= before.subrange(1, before.len() as int) + (seq![pair@] + pairs_after(
                    views,
                    next as int,
                ).0));
                at = next;
            },
            None => {
                assert(pair_views(pairs@) =~= seq![first@] + pairs_after(views, start).0);
                break;
            },
        }
    }
    (pairs, at)
}

impl Config {
    /// The configuration that a list of pairs stands for: `ignore` is set once the bare key
    /// `ignore` occurs, and the first pair that is anything else is an error.
    pub fn from_raw_pairs(pairs: Vec<RawConfigPair>) -> (result: Result<Config, ConfigError>)
        ensures
            config_result_view(result) == config_of_pairs(pair_views(pairs@)),
    {
        let mut config = Config::default();
        let ghost views = pair_views(pairs@);
        let key = String::from_str("ignore");
        let mut i: usize = 0;
        assert(views.subrange(0, views.len() as int) =~= views);
        while i < pairs.len()
            invariant
                views == pair_views(pairs@),
                key@ == "ignore"@,
                0 <= i <= pairs.len(),
                config.ignore == (i > 0),
                first_offence(views) == first_offence(views.subrange(i as int, views.len() as int)),
            decreases pairs.len() - i,
        {
            let pair = &pairs[i];
            let ghost rest = views.subrange(i as int, views.len() as int);
            assert(rest[0] == pair@);
            assert(rest.drop_first() =~= views.subrange(i + 1, views.len() as int));
            if pair.name != key {
                return Err(ConfigError::UnexpectedKey(pair.name.clone()));
            }
            if pair.value.is_some() {
                return Err(ConfigError::UnexpectedValue(pair.name.clone()));
            }
            config.ignore = true;
            i = i + 1;
        }
        assert(views.subrange(i as int, views.len() as int).len() == 0);
        Ok(config)
    }

    /// Reads `tokens` as an argument list.
    pub fn from_tokens(tokens: Vec<Token>) -> (result: Result<Config, ConfigError>)
        ensures
            config_result_view(result) == config_of_tokens(token_views(tokens@)),
    {
        let shown = visible_tokens(tokens);
        let (pairs, end) = read_pair_list(&shown);
        match Config::from_raw_pairs(pairs) {
            Err(error) => Err(error),
            Ok(config) => {
                if end == shown.len() {
                    Ok(config)
                } else {
                    Err(ConfigError::Malformed)
                }
            },
        }
    }

    /// Reads a token stream as an argument list.
    pub fn parse(stream: &TokenStream) -> (result: Result<Config, ConfigError>)
        ensures
            config_result_view(result) == config_of_tokens(stream_tokens(*stream)),
    {
        Config::from_tokens(tokens_of(stream))
    }
}

/// The configuration written behind a marker's name in an attribute.
#[derive(Clone, Copy, Debug, PartialEq, Eq, Structural)]
pub struct AttrTTS(pub Config);

impl AttrTTS {
    /// Reads the tokens behind a marker's name.
    pub fn from_tokens(tokens: Vec<Token>) -> (result: Result<AttrTTS, ConfigError>)
        ensures
            match result {
                Ok(attr) => config_of_attr_tokens(token_views(tokens@)) == Ok::<_, ConfigErrorView>(
                    attr.0,
                ),
                Err(error) => config_of_attr_tokens(token_views(tokens@)) == Err::<Config, _>(
                    error@,
                ),
            },
    {
        let shown = visible_tokens(tokens);
        if shown.len() == 0 {
            return Ok(AttrTTS(Config::default()));
        }
        match &shown[0] {
            Token::Group(Delimiter::Parenthesis, inner) => {
                match Config::parse(inner) {
                    Err(error) => Err(error),
                    Ok(config) => {
                        if shown.len() == 1 {
                            Ok(AttrTTS(config))
                        } else {
                            Err(ConfigError::Malformed)
                        }
                    },
                }
            },
            _ => Err(ConfigError::Malformed),
        }
    }

    /// Reads the token stream behind a marker's name.
    pub fn parse(stream: &TokenStream) -> (result: Result<AttrTTS, ConfigError>)
        ensures
            match result {
                Ok(attr) => config_of_attr_tokens(stream_tokens(*stream)) == Ok::<_, ConfigErrorView>(
                    attr.0,
                ),
                Err(error) => config_of_attr_tokens(stream_tokens(*stream)) == Err::<Config, _>(
                    error@,
                ),
            },
    {
        AttrTTS::from_tokens(tokens_of(stream))
    }
}

} // verus!
