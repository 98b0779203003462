use marser::context::{CaptureValue, ParserContext};
use marser::driver::{parse, parse_whole_input};
use marser::error_handler::{EmptyErrorHandler, ErrorHandler, MultiErrorHandler};
use marser::input::InputStream;
use marser::label::WithLabel;
use marser::matcher::any_token::AnyToken;
use marser::matcher::commit_matcher::commit_on;
use marser::matcher::err_if::{try_insert_if_missing, unwanted};
use marser::matcher::lookahead::{negative_lookahead, none_of, positive_lookahead};
use marser::matcher::multiple::many;
use marser::matcher::one_of::one_of;
use marser::matcher::one_or_more::one_or_more;
use marser::matcher::optional::optional;
use marser::matcher::string::StringMatcher;
use marser::matcher::to_parser::ToParser;
use marser::matcher::{Matcher, NoMemoizeBacktrackingRunner};
use marser::parser::capture::{
    bind_result, bind_span, Capture, Captured, MultipleProperty, SingleProperty,
};
use marser::memo_store::MemoKeySource;
use marser::parser::memoized::Memoized;
use marser::parser::multiple::{MultipleParser, OneOrMoreParser};
use marser::parser::one_of::OneOfParser;
use marser::parser::recover_error::ErrorRecoverer;
use marser::parser::token::{token_parser, RangeParser, SingleTokenParser};
use marser::parser::Parser;

fn value(v: &CaptureValue<u64>) -> u64 {
    match v {
        CaptureValue::Value(x) => *x,
        CaptureValue::Span(s, e) => (e - s) as u64,
    }
}

fn digit() -> impl Parser<&'static str, u64, Output = u64> {
    token_parser(
        |c: char| c.is_ascii_digit(),
        |c: char| (c as u64) - ('0' as u64),
    )
}

fn number() -> impl Parser<&'static str, u64, Output = u64> {
    Capture::new(
        one_or_more(bind_result(digit(), MultipleProperty::new(0))),
        |c: Captured<u64>| c.multiple[0].iter().fold(0u64, |acc, d| acc * 10 + value(d)),
        (0, 1, 0),
    )
}

fn roll() -> impl Parser<&'static str, u64, Output = u64> {
    Capture::new(
        (
            bind_result(number(), SingleProperty::new(0)),
            'd',
            bind_result(number(), SingleProperty::new(1)),
        ),
        |c: Captured<u64>| value(&c.single[0]) * 1000 + value(&c.single[1]),
        (2, 0, 0),
    )
}

#[test]
fn dice_roll_parses() {
    let (out, errors) = parse(roll(), "2d6").ok().unwrap();
    assert_eq!(out, 2006);
    assert!(errors.is_empty());
    let (out, _) = parse(roll(), "12d20").ok().unwrap();
    assert_eq!(out, 12020);
}

#[test]
fn dice_roll_rejects_bad_separator() {
    let err = parse(roll(), "2x6").err().unwrap();
    assert!(err.span.0 <= 1);
    assert!(err.expected.iter().any(|l| l == "d"));
}

#[test]
fn trailing_input_is_rejected() {
    assert!(parse(roll(), "2d6x").is_err());
}

#[test]
fn string_matcher_fast_and_slow_paths_agree() {
    let ascii = || {
        ToParser::new(StringMatcher::new("abc".to_string()), 1u64)
    };
    assert_eq!(parse(ascii(), "abc").ok().unwrap().0, 1);
    assert!(parse(ascii(), "abd").is_err());
    let wide = || ToParser::new(StringMatcher::new("héé".to_string()), 2u64);
    assert_eq!(parse(wide(), "héé").ok().unwrap().0, 2);
    assert!(parse(wide(), "hée").is_err());
    let lit = || ToParser::new(("ab", "é"), 3u64);
    assert_eq!(parse(lit(), "abé").ok().unwrap().0, 3);
}

#[test]
fn many_and_optional_never_miss() {
    let p = || ToParser::new((many('a'), optional('b'), 'c'), 7u64);
    assert_eq!(parse(p(), "c").ok().unwrap().0, 7);
    assert_eq!(parse(p(), "aaabc").ok().unwrap().0, 7);
    assert!(parse(p(), "bb c").is_err());
}

#[test]
fn one_or_more_needs_one() {
    let p = || ToParser::new(one_or_more('a'), 1u64);
    assert!(parse(p(), "").is_err());
    assert_eq!(parse(p(), "aaa").ok().unwrap().0, 1);
}

#[test]
fn lookaheads_consume_nothing() {
    let p = || ToParser::new((positive_lookahead('a'), 'a', negative_lookahead('a'), AnyToken), 5u64);
    assert_eq!(parse(p(), "ab").ok().unwrap().0, 5);
    assert!(parse(p(), "aa").is_err());
    let q = || ToParser::new(many(none_of(('x', 'y'))), 6u64);
    assert_eq!(parse(q(), "abc").ok().unwrap().0, 6);
    assert!(parse(q(), "abx").is_err());
}

#[test]
fn one_of_takes_first_match() {
    let p = || {
        OneOfParser::new((
            ToParser::new("ab", 1u64),
            ToParser::new("a", 2u64),
            ToParser::new("b", 3u64),
        ))
    };
    assert_eq!(parse(p(), "ab").ok().unwrap().0, 1);
    assert_eq!(parse(p(), "a").ok().unwrap().0, 2);
    assert_eq!(parse(p(), "b").ok().unwrap().0, 3);
    let q = || ToParser::new(one_of(('x', 'y')), 4u64);
    assert_eq!(parse(q(), "y").ok().unwrap().0, 4);
}

#[test]
fn missing_syntax_is_inserted_in_recovery() {
    let p = || ToParser::new(('(', 'a', try_insert_if_missing(')', "closing paren".to_string())), 1u64);
    let (out, errors) = parse(p(), "(a").ok().unwrap();
    assert_eq!(out, 1);
    assert_eq!(errors.len(), 1);
    match &errors[0] {
        marser::error::ParserError::Missing(m) => {
            assert_eq!(m.span, (2, 2));
            assert_eq!(m.message, "closing paren");
        }
        _ => panic!("expected a missing-syntax error"),
    }
    let (_, errors) = parse(p(), "(a)").ok().unwrap();
    assert!(errors.is_empty());
}

#[test]
fn unwanted_syntax_is_recorded() {
    let p = || ToParser::new((optional(unwanted(';', "stray semicolon".to_string())), 'a'), 1u64);
    let (out, errors) = parse(p(), ";a").ok().unwrap();
    assert_eq!(out, 1);
    assert_eq!(errors.len(), 1);
    match &errors[0] {
        marser::error::ParserError::Unwanted(u) => {
            assert_eq!(u.span, (0, 1));
            assert_eq!(u.message, "stray semicolon");
        }
        _ => panic!("expected an unwanted-syntax error"),
    }
}

#[test]
fn committed_rule_reports_furthest_failure() {
    let p = || ToParser::new(commit_on('(', ('a', ')')), 1u64);
    let err = parse(p(), "(b)").err().unwrap();
    assert_eq!(err.expected, vec!["a".to_string()]);
    assert_eq!(err.span, (1, 2));
}

#[test]
fn multiple_parser_combines_outputs() {
    let p = || {
        MultipleParser::new(digit(), |v: Vec<u64>| v.iter().sum::<u64>())
    };
    assert_eq!(parse(p(), "123").ok().unwrap().0, 6);
    assert_eq!(parse(p(), "").ok().unwrap().0, 0);
    let q = || OneOrMoreParser::new(digit(), |v: Vec<u64>| v.len() as u64);
    assert_eq!(parse(q(), "4567").ok().unwrap().0, 4);
    assert!(parse(q(), "").is_err());
}

#[test]
fn span_binder_binds_consumed_span() {
    let p = || {
        Capture::new(
            ('x', bind_span(many('a'), SingleProperty::new(0))),
            |c: Captured<u64>| match c.single[0] {
                CaptureValue::Span(s, e) => (s * 100 + e) as u64,
                CaptureValue::Value(v) => v,
            },
            (1, 0, 0),
        )
    };
    assert_eq!(parse(p(), "xaaa").ok().unwrap().0, 104);
}

#[test]
fn token_parsers_on_bytes() {
    let data: &[u8] = b"az";
    let mut ctx: ParserContext<u64> = ParserContext::new();
    let mut eh = EmptyErrorHandler::new(0);
    let mut input = InputStream::new(data);
    let a = SingleTokenParser::new(b'a');
    assert_eq!(a.parse(&mut ctx, &mut eh, &mut input).ok().unwrap(), Some(b'a'));
    let r = RangeParser::new(b'a', b'y');
    assert_eq!(r.parse(&mut ctx, &mut eh, &mut input).ok().unwrap(), None);
    assert_eq!(input.get_pos(), 1);
    let r2 = RangeParser::new(b'x', b'z');
    assert_eq!(r2.parse(&mut ctx, &mut eh, &mut input).ok().unwrap(), Some(b'z'));
}

#[test]
fn byte_literal_matchers() {
    let data: &[u8] = b"GET /";
    let mut ctx: ParserContext<u64> = ParserContext::new();
    let mut eh = EmptyErrorHandler::new(0);
    let mut input = InputStream::new(data);
    let mut runner = NoMemoizeBacktrackingRunner::new();
    let get: &[u8] = b"GET";
    assert_eq!(get.match_with_runner(&mut ctx, &mut runner, &mut eh, &mut input).ok(), Some(true));
    assert_eq!(input.get_pos(), 3);
    assert_eq!(b' '.match_with_runner(&mut ctx, &mut runner, &mut eh, &mut input).ok(), Some(true));
    assert_eq!(b'x'.match_with_runner(&mut ctx, &mut runner, &mut eh, &mut input).ok(), Some(false));
    assert_eq!(Matcher::<&[u8], u64>::maybe_label(&b'A'), Some("byte 65".to_string()));
    assert_eq!(Matcher::<&[u8], u64>::maybe_label(&0u8), Some("byte 0".to_string()));
    assert_eq!(Matcher::<&[u8], u64>::maybe_label(&255u8), Some("byte 255".to_string()));
    assert_eq!(Matcher::<&[u8], u64>::maybe_label(&get), Some("GET".to_string()));
    let bad: &[u8] = &[0xff, 0xfe];
    assert_eq!(Matcher::<&[u8], u64>::maybe_label(&bad), Some("<bytes>".to_string()));
}

#[test]
fn char_and_string_labels() {
    assert_eq!(Matcher::<&str, u64>::maybe_label(&'é'), Some("é".to_string()));
    assert_eq!(Matcher::<&str, u64>::maybe_label(&"abc"), Some("abc".to_string()));
    let s = StringMatcher::new("xyz".to_string());
    assert_eq!(s.expected, vec!['x', 'y', 'z']);
    assert_eq!(Matcher::<&str, u64>::maybe_label(&s), Some("xyz".to_string()));
}

#[test]
fn memoized_parser_replays_result() {
    let inner = ToParser::new("ab", 9u64);
    let mut keys = MemoKeySource::new();
    let other = Memoized::new(ToParser::new("x", 1u64), &mut keys);
    let m = Memoized::new(inner, &mut keys);
    assert_ne!(other.id, m.id);
    assert_eq!(m.id, 1);
    let mut ctx: ParserContext<u64> = ParserContext::new();
    let mut eh = EmptyErrorHandler::new(0);
    let mut input = InputStream::new("abab");
    let first = m.parse(&mut ctx, &mut eh, &mut input).ok().unwrap().unwrap();
    assert_eq!(*first, 9);
    assert_eq!(input.get_pos(), 2);
    assert!(ctx.memo_store.get_entry(1, 0).is_some());
    input.set_pos(0);
    let again = m.parse(&mut ctx, &mut eh, &mut input).ok().unwrap().unwrap();
    assert_eq!(*again, 9);
    assert_eq!(input.get_pos(), 2);
    let mut fresh: ParserContext<u64> = ParserContext::new();
    let miss = m.parse(&mut fresh, &mut eh, &mut InputStream::new("x"));
    assert!(miss.ok().unwrap().is_none());
    assert_eq!(fresh.memo_store.get_entry(1, 0).map(|e| e.is_none()), Some(true));
}

#[test]
fn error_recoverer_produces_fallback() {
    let happy = ToParser::new(commit_on('[', (']',)), 1u64);
    let p = || ErrorRecoverer::new(ToParser::new(commit_on('[', ('a', ']')), 1u64), (many(none_of((']',))), ']'), 0u64);
    let _ = happy;
    let (out, errors) = parse(p(), "[b]").ok().unwrap();
    assert_eq!(out, 0);
    assert_eq!(errors.len(), 1);
    let (out, errors) = parse(p(), "[a]").ok().unwrap();
    assert_eq!(out, 1);
    assert!(errors.is_empty());
}

#[test]
fn whole_input_over_slices() {
    let data: &[u8] = b"ab";
    let p = ToParser::new((b'a', b'b'), 2u64);
    assert_eq!(parse_whole_input(p, data).ok().unwrap().0, 2);
    let q = ToParser::new((b'a',), 2u64);
    assert!(parse_whole_input(q, data).is_err());
}

#[test]
fn multi_error_handler_reports_furthest_labels() {
    let mut h = MultiErrorHandler::new(0);
    let i1 = h.register_start(0);
    let i2 = h.register_start(0);
    h.register_watermark(2);
    h.register_error("x".to_string(), i2, 0);
    let i3 = h.register_start(0);
    h.register_watermark(2);
    h.register_error("y".to_string(), i3, 0);
    let i4 = h.register_start(0);
    h.register_watermark(2);
    h.register_error("x".to_string(), i4, 0);
    h.register_success(i1);
    let e = h.to_parser_error();
    assert_eq!(e.span, (0, 2));
    assert_eq!(e.expected, vec!["x".to_string(), "y".to_string()]);
}

#[test]
fn multi_error_handler_without_labels_reports_reach() {
    let mut h = MultiErrorHandler::new(1);
    let i = h.register_start(1);
    h.register_watermark(4);
    h.register_success(i);
    let e = h.to_parser_error();
    assert_eq!(e.span, (1, 4));
    assert!(e.expected.is_empty());
    assert!(h.is_real());
    assert!(!EmptyErrorHandler::new(0).is_real());
}

#[test]
fn started_rule_that_succeeds_widens_its_parent() {
    let mut h = MultiErrorHandler::new(0);
    let outer = h.register_start(0);
    let inner = h.register_start(1);
    h.register_watermark(3);
    h.register_success(inner);
    h.register_error("outer".to_string(), outer, 0);
    let e = h.to_parser_error();
    assert_eq!(e.span, (0, 3));
    assert_eq!(e.expected, vec!["outer".to_string()]);
}

#[test]
fn one_of_and_sequences_of_twelve() {
    let alts = one_of(('a', 'b', 'c', 'd', 'e', 'f', 'g', 'h', 'i', 'j', 'k', 'l'));
    let mut ctx: ParserContext<u64> = ParserContext::new();
    let mut runner = NoMemoizeBacktrackingRunner::new();
    let mut eh = EmptyErrorHandler::new(0);
    let mut input = InputStream::new("lz");
    assert_eq!(alts.match_with_runner(&mut ctx, &mut runner, &mut eh, &mut input).ok(), Some(true));
    assert_eq!(input.get_pos(), 1);
    assert_eq!(alts.match_with_runner(&mut ctx, &mut runner, &mut eh, &mut input).ok(), Some(false));
    assert_eq!(input.get_pos(), 1);

    let word = ('h', 'e', 'l', 'l', 'o', ' ', 'w', 'o', 'r', 'l', 'd', '!');
    let mut input = InputStream::new("hello world!");
    assert_eq!(word.match_with_runner(&mut ctx, &mut runner, &mut eh, &mut input).ok(), Some(true));
    assert_eq!(input.get_pos(), 12);

    let choice = one_of((
        ToParser::new('1', 1u64),
        ToParser::new('2', 2u64),
        ToParser::new('3', 3u64),
        ToParser::new('4', 4u64),
        ToParser::new('5', 5u64),
        ToParser::new('6', 6u64),
        ToParser::new('7', 7u64),
        ToParser::new('8', 8u64),
        ToParser::new('9', 9u64),
        ToParser::new('a', 10u64),
        ToParser::new('b', 11u64),
        ToParser::new('c', 12u64),
    ));
    let mut input = InputStream::new("c");
    assert_eq!(Parser::parse(&choice, &mut ctx, &mut eh, &mut input).ok(), Some(Some(12)));
    let mut input = InputStream::new("x");
    assert_eq!(Parser::parse(&choice, &mut ctx, &mut eh, &mut input).ok(), Some(None));
}
