use std::str::FromStr;

use proc_macro2::TokenStream;
use trace2_macro::config::AttrTTS;
use trace2_macro::config::Config;
use trace2_macro::config::ConfigError;
use trace2_macro::config::RawConfigPair;
use trace2_macro::config::read_pair_list;
use proc_macro2::Group;
use proc_macro2::TokenTree;
use trace2_macro::tokens::literal_is_readable;
use trace2_macro::tokens::literals_are_readable;
use trace2_macro::tokens::visible_tokens;
use trace2_macro::tokens::visible_tokens_of;
use trace2_macro::tokens::Delimiter;
use trace2_macro::tokens::Spacing;
use trace2_macro::tokens::Token;

fn stream(text: &str) -> TokenStream {
    TokenStream::from_str(text).unwrap()
}

/// The tokens of `text` inside a group without a visible delimiter.
fn invisible(text: &str) -> TokenStream {
    let group = Group::new(proc_macro2::Delimiter::None, stream(text));
    std::iter::once(TokenTree::from(group)).collect()
}

/// One stream after the other.
fn both(first: TokenStream, second: TokenStream) -> TokenStream {
    first.into_iter().chain(second).collect()
}

fn shown(tokens: &[Token]) -> Vec<String> {
    tokens.iter().map(|token| format!("{:?}", token)).collect()
}

fn pair(name: &str, value: Option<&str>) -> RawConfigPair {
    RawConfigPair { name: name.to_string(), value: value.map(|text| text.to_string()) }
}

fn word(name: &str) -> Token {
    Token::Ident(name.to_string())
}

fn literal(text: &str) -> Token {
    Token::Literal(text.to_string())
}

const COMMA: Token = Token::Punct(',', Spacing::Alone);
const EQUALS: Token = Token::Punct('=', Spacing::Alone);

#[test]
fn parse_raw_config() {
    let pair = RawConfigPair::parse(&stream("ignore")).unwrap();
    assert_eq!(pair.name, "ignore");
    assert_eq!(pair.value, None);

    let pair = RawConfigPair::parse(&stream("foo = \"bar\"")).unwrap();
    assert_eq!(pair.name, "foo");
    let value = pair.value.unwrap();
    assert_eq!(value, "\"bar\"");

    let pair = RawConfigPair::parse(&stream("boz = 123")).unwrap();
    assert_eq!(pair.name, "boz");
    let value = pair.value.unwrap();
    assert_eq!(value, "123");
}

#[test]
fn parse_config() {
    let config = Config::parse(&stream("ignore")).unwrap();
    assert_eq!(config.ignore, true);

    let config = Config::parse(&stream("")).unwrap();
    assert_eq!(config.ignore, false);
}

#[test]
fn parse_attr_tts() {
    let attr_tts = AttrTTS::parse(&stream("")).unwrap();
    assert_eq!(attr_tts.0.ignore, false);

    let attr_tts = AttrTTS::parse(&stream("(ignore)")).unwrap();
    assert_eq!(attr_tts.0.ignore, true);
}

#[test]
fn default_config_does_not_ignore() {
    assert_eq!(Config::default(), Config { ignore: false });
}

#[test]
fn pair_takes_true_and_false_as_literals() {
    let pair = RawConfigPair::parse(&stream("flag = true")).unwrap();
    assert_eq!(pair, self::pair("flag", Some("true")));
    let pair = RawConfigPair::parse(&stream("flag = false")).unwrap();
    assert_eq!(pair, self::pair("flag", Some("false")));
}

#[test]
fn pair_leaves_other_words_behind_the_equals_sign() {
    // `other` is no literal, so the pair ends behind the key and `= other` is left over.
    assert_eq!(RawConfigPair::parse(&stream("flag = other")), Err(ConfigError::Malformed));
    let tokens = vec![word("flag"), EQUALS, word("other")];
    let (found, next) = RawConfigPair::read_at(&tokens, 0).unwrap();
    assert_eq!(found, pair("flag", None));
    assert_eq!(next, 1);
}

#[test]
fn pair_must_start_with_a_key() {
    assert_eq!(RawConfigPair::parse(&stream("")), Err(ConfigError::Malformed));
    assert_eq!(RawConfigPair::parse(&stream("= 1")), Err(ConfigError::Malformed));
    assert_eq!(RawConfigPair::parse(&stream("1")), Err(ConfigError::Malformed));
    assert_eq!(RawConfigPair::parse(&stream("a b")), Err(ConfigError::Malformed));
    let tokens = vec![word("a")];
    assert_eq!(RawConfigPair::read_at(&tokens, 1), None);
    assert_eq!(RawConfigPair::read_at(&tokens, 7), None);
}

#[test]
fn pair_list_is_read_greedily() {
    let tokens = vec![word("a"), COMMA, word("b"), EQUALS, literal("1"), COMMA, word("c")];
    let (pairs, end) = read_pair_list(&tokens);
    assert_eq!(pairs, vec![pair("a", None), pair("b", Some("1")), pair("c", None)]);
    assert_eq!(end, 7);

    // The list ends behind its last pair: a comma that no pair follows is not part of it.
    let tokens = vec![word("a"), COMMA, word("b"), COMMA];
    let (pairs, end) = read_pair_list(&tokens);
    assert_eq!(pairs, vec![pair("a", None), pair("b", None)]);
    assert_eq!(end, 3);

    let tokens = vec![word("a"), COMMA, COMMA, word("b")];
    let (pairs, end) = read_pair_list(&tokens);
    assert_eq!(pairs, vec![pair("a", None)]);
    assert_eq!(end, 1);

    let tokens = vec![COMMA, word("a")];
    let (pairs, end) = read_pair_list(&tokens);
    assert_eq!(pairs, vec![]);
    assert_eq!(end, 0);
}

#[test]
fn config_from_pairs() {
    assert_eq!(Config::from_raw_pairs(vec![]), Ok(Config { ignore: false }));
    assert_eq!(Config::from_raw_pairs(vec![pair("ignore", None)]), Ok(Config { ignore: true }));
    assert_eq!(
        Config::from_raw_pairs(vec![pair("ignore", None), pair("ignore", None)]),
        Ok(Config { ignore: true })
    );
}

#[test]
fn config_rejects_an_unknown_key() {
    assert_eq!(
        Config::from_raw_pairs(vec![pair("foo", None)]),
        Err(ConfigError::UnexpectedKey("foo".to_string()))
    );
    assert_eq!(Config::parse(&stream("foo")), Err(ConfigError::UnexpectedKey("foo".to_string())));
    assert_eq!(
        Config::parse(&stream("ignore, verbose = 1")),
        Err(ConfigError::UnexpectedKey("verbose".to_string()))
    );
}

#[test]
fn config_rejects_a_value_for_ignore() {
    assert_eq!(
        Config::from_raw_pairs(vec![pair("ignore", Some("1"))]),
        Err(ConfigError::UnexpectedValue("ignore".to_string()))
    );
    assert_eq!(
        Config::parse(&stream("ignore = true")),
        Err(ConfigError::UnexpectedValue("ignore".to_string()))
    );
}

#[test]
fn config_reports_the_first_offending_pair() {
    assert_eq!(
        Config::parse(&stream("ignore = 1, foo")),
        Err(ConfigError::UnexpectedValue("ignore".to_string()))
    );
    assert_eq!(
        Config::parse(&stream("foo, ignore = 1")),
        Err(ConfigError::UnexpectedKey("foo".to_string()))
    );
}

#[test]
fn config_rejects_tokens_that_no_pair_accounts_for() {
    assert_eq!(Config::parse(&stream("ignore ignore")), Err(ConfigError::Malformed));
    assert_eq!(Config::parse(&stream(", ignore")), Err(ConfigError::Malformed));
    assert_eq!(Config::parse(&stream("ignore,, ")), Err(ConfigError::Malformed));
    assert_eq!(Config::parse(&stream("(ignore)")), Err(ConfigError::Malformed));
    assert_eq!(Config::parse(&stream("42")), Err(ConfigError::Malformed));
}

#[test]
fn config_reports_an_offending_pair_before_leftover_tokens() {
    assert_eq!(
        Config::parse(&stream("foo bar")),
        Err(ConfigError::UnexpectedKey("foo".to_string()))
    );
}

#[test]
fn config_rejects_a_trailing_comma() {
    assert_eq!(Config::parse(&stream("ignore,")), Err(ConfigError::Malformed));
    assert_eq!(Config::parse(&stream("ignore, ignore,")), Err(ConfigError::Malformed));
    assert_eq!(Config::parse(&stream("ignore, ignore")), Ok(Config { ignore: true }));
    assert_eq!(Config::parse(&stream(",")), Err(ConfigError::Malformed));
}

#[test]
fn config_from_tokens_built_by_hand() {
    let tokens = vec![word("ignore"), COMMA, word("ignore")];
    assert_eq!(Config::from_tokens(tokens), Ok(Config { ignore: true }));
    let tokens = vec![word("ignore"), COMMA];
    assert_eq!(Config::from_tokens(tokens), Err(ConfigError::Malformed));
    let tokens = vec![COMMA, word("ignore")];
    assert_eq!(Config::from_tokens(tokens), Err(ConfigError::Malformed));
    let tokens = vec![word("ignore"), EQUALS, literal("1")];
    assert_eq!(
        Config::from_tokens(tokens),
        Err(ConfigError::UnexpectedValue("ignore".to_string()))
    );
}

#[test]
fn attr_tokens_are_nothing_or_one_parenthesised_list() {
    assert_eq!(AttrTTS::parse(&stream("()")), Ok(AttrTTS(Config { ignore: false })));
    assert_eq!(AttrTTS::parse(&stream("(ignore, ignore)")), Ok(AttrTTS(Config { ignore: true })));
    assert_eq!(AttrTTS::parse(&stream("(ignore,)")), Err(ConfigError::Malformed));
    assert_eq!(AttrTTS::parse(&stream("ignore")), Err(ConfigError::Malformed));
    assert_eq!(AttrTTS::parse(&stream("[ignore]")), Err(ConfigError::Malformed));
    assert_eq!(AttrTTS::parse(&stream("{ignore}")), Err(ConfigError::Malformed));
    assert_eq!(AttrTTS::parse(&stream("= \"ignore\"")), Err(ConfigError::Malformed));
    assert_eq!(AttrTTS::parse(&stream("(ignore) (ignore)")), Err(ConfigError::Malformed));
    assert_eq!(AttrTTS::parse(&stream("(ignore ignore)")), Err(ConfigError::Malformed));
}

#[test]
fn attr_tokens_report_the_offending_key() {
    assert_eq!(
        AttrTTS::parse(&stream("(foo)")),
        Err(ConfigError::UnexpectedKey("foo".to_string()))
    );
    assert_eq!(
        AttrTTS::parse(&stream("(foo) bar")),
        Err(ConfigError::UnexpectedKey("foo".to_string()))
    );
    assert_eq!(
        AttrTTS::parse(&stream("(ignore = 1)")),
        Err(ConfigError::UnexpectedValue("ignore".to_string()))
    );
}

#[test]
fn attr_from_tokens_built_by_hand() {
    assert_eq!(AttrTTS::from_tokens(vec![]), Ok(AttrTTS(Config { ignore: false })));
    let tokens = vec![Token::Group(Delimiter::Parenthesis, stream("ignore"))];
    assert_eq!(AttrTTS::from_tokens(tokens), Ok(AttrTTS(Config { ignore: true })));
    let tokens = vec![Token::Group(Delimiter::Bracket, stream("ignore"))];
    assert_eq!(AttrTTS::from_tokens(tokens), Err(ConfigError::Malformed));
}

#[test]
fn tokens_of_a_stream_are_read_as_they_are() {
    // An identifier, a punctuation character and a literal, each by its own text.
    assert_eq!(RawConfigPair::parse(&stream("key = 'c'")), Ok(pair("key", Some("'c'"))));
    assert_eq!(RawConfigPair::parse(&stream("key = 0x1f")), Ok(pair("key", Some("0x1f"))));
    assert_eq!(RawConfigPair::parse(&stream("key + 1")), Err(ConfigError::Malformed));
    // A group by its delimiter, with the stream inside it.
    assert_eq!(AttrTTS::parse(&stream("(ignore)")), Ok(AttrTTS(Config { ignore: true })));
    assert_eq!(AttrTTS::parse(&stream("((ignore))")), Err(ConfigError::Malformed));
    assert_eq!(AttrTTS::parse(&stream("[ignore]")), Err(ConfigError::Malformed));
    assert_eq!(AttrTTS::parse(&stream("{ignore}")), Err(ConfigError::Malformed));
}

#[test]
fn spacing_of_punctuation_does_not_matter_to_the_grammar() {
    let tokens = vec![
        word("a"),
        Token::Punct('=', Spacing::Joint),
        literal("1"),
        Token::Punct(',', Spacing::Joint),
        word("b"),
    ];
    let (pairs, end) = read_pair_list(&tokens);
    assert_eq!(pairs, vec![pair("a", Some("1")), pair("b", None)]);
    assert_eq!(end, 5);
    // `==` is two characters: the first ends the key, and nothing follows that is a literal.
    assert_eq!(RawConfigPair::parse(&stream("a == 1")), Err(ConfigError::Malformed));
}

#[test]
fn invisible_groups_are_read_through() {
    assert_eq!(Config::parse(&invisible("ignore")), Ok(Config { ignore: true }));
    assert_eq!(Config::parse(&invisible("")), Ok(Config { ignore: false }));
    assert_eq!(
        Config::parse(&both(invisible("ignore"), stream(", ignore"))),
        Ok(Config { ignore: true })
    );
    assert_eq!(
        Config::parse(&both(stream("ignore ="), invisible("1"))),
        Err(ConfigError::UnexpectedValue("ignore".to_string()))
    );
    assert_eq!(
        RawConfigPair::parse(&both(stream("key"), invisible("= 7"))),
        Ok(pair("key", Some("7")))
    );
    assert_eq!(RawConfigPair::parse(&invisible("key = 7")), Ok(pair("key", Some("7"))));
    // Inside a group inside a group as well.
    let nested = std::iter::once(TokenTree::from(Group::new(
        proc_macro2::Delimiter::None,
        invisible("ignore"),
    )))
    .collect();
    assert_eq!(Config::parse(&nested), Ok(Config { ignore: true }));
}

#[test]
fn invisible_groups_are_read_through_behind_a_marker() {
    assert_eq!(AttrTTS::parse(&invisible("(ignore)")), Ok(AttrTTS(Config { ignore: true })));
    assert_eq!(AttrTTS::parse(&invisible("")), Ok(AttrTTS(Config { ignore: false })));
    let inner = std::iter::once(TokenTree::from(Group::new(
        proc_macro2::Delimiter::Parenthesis,
        invisible("ignore"),
    )))
    .collect();
    assert_eq!(AttrTTS::parse(&inner), Ok(AttrTTS(Config { ignore: true })));
    let tokens = vec![Token::Group(Delimiter::Invisible, stream("(ignore)"))];
    assert_eq!(AttrTTS::from_tokens(tokens), Ok(AttrTTS(Config { ignore: true })));
    let tokens = vec![Token::Group(Delimiter::Invisible, stream("ignore"))];
    assert_eq!(AttrTTS::from_tokens(tokens), Err(ConfigError::Malformed));
    let tokens = vec![Token::Group(Delimiter::Invisible, stream("ignore"))];
    assert_eq!(Config::from_tokens(tokens), Ok(Config { ignore: true }));
}

#[test]
fn visible_tokens_replace_invisible_groups_by_what_is_in_them() {
    let tokens = vec![
        word("a"),
        Token::Group(Delimiter::Invisible, both(stream("b"), invisible("c d"))),
        Token::Group(Delimiter::Invisible, stream("")),
        Token::Group(Delimiter::Parenthesis, invisible("e")),
        word("f"),
    ];
    let expected = vec![
        word("a"),
        word("b"),
        word("c"),
        word("d"),
        Token::Group(Delimiter::Parenthesis, invisible("e")),
        word("f"),
    ];
    assert_eq!(shown(&visible_tokens(tokens)), shown(&expected));
    assert_eq!(visible_tokens(vec![]).len(), 0);
    let stream = both(stream("a ="), invisible("1 , b"));
    let expected = vec![word("a"), EQUALS, literal("1"), COMMA, word("b")];
    assert_eq!(shown(&visible_tokens_of(&stream)), shown(&expected));
}

#[test]
fn literals_that_can_be_read() {
    for text in ["\"s\"", "r\"s\"", "r#\"s\"#", "'c'", "b'c'", "b\"s\"", "br\"s\"", "0", "17u8"] {
        assert!(literal_is_readable(text), "{}", text);
    }
    for text in ["1.5", "1e5", "0x1f", "0xFFu8", "0b1", "0b1010_1010", "0b1u8", "0o17", "0o7_7i64", "0b", "0b_", "9_9"] {
        assert!(literal_is_readable(text), "{}", text);
    }
}

#[test]
fn literals_that_cannot_be_read() {
    for text in ["", "-1", "-1i32", "+1", "/// doc", "true", "x", "b", "bx", "b1", "_1", "\u{e9}"] {
        assert!(!literal_is_readable(text), "{}", text);
    }
    for text in ["0b2", "0b12", "0b1_2", "0b19u8", "0o8", "0o78", "0o7_9", "0o19"] {
        assert!(!literal_is_readable(text), "{}", text);
    }
}

#[test]
fn literals_are_looked_for_at_any_depth() {
    assert!(literals_are_readable(&vec![]));
    assert!(literals_are_readable(&vec![word("a"), literal("1"), COMMA]));
    assert!(!literals_are_readable(&vec![word("a"), literal("-1"), COMMA]));
    assert!(!literals_are_readable(&vec![literal("1"), literal("0b2")]));
    let minus_one = || -> TokenStream {
        std::iter::once(TokenTree::from(proc_macro2::Literal::i32_unsuffixed(-1))).collect()
    };
    let deep = std::iter::once(TokenTree::from(Group::new(
        proc_macro2::Delimiter::Brace,
        both(stream("x + 1"), minus_one()),
    )))
    .collect();
    assert!(!literals_are_readable(&vec![Token::Group(Delimiter::Parenthesis, deep)]));
    assert!(literals_are_readable(&vec![Token::Group(Delimiter::Parenthesis, stream("{ x + 1 }"))]));
    assert!(!literals_are_readable(&vec![Token::Group(Delimiter::Invisible, minus_one())]));
}
