use marser::context::ParserContext;
use marser::error::{
    FurthestFailError, MatcherRunError, MissingError, ParserError, ParserErrorAnnotations,
    UnwantedError,
};
use marser::error_handler::{EmptyErrorHandler, ErrorHandler, MultiErrorHandler};
use marser::input::{InputStream, SliceableInput};
use marser::label::WithLabel;
use marser::matcher::commit_matcher::commit_on;
use marser::matcher::error_contextualizer::ErrorContextualizer;
use marser::matcher::if_error::{if_error, if_error_else_fail};
use marser::matcher::insert_on_error::InsertOnErrorMatcher;
use marser::matcher::to_parser::ToParser;
use marser::matcher::unwanted::unwanted;
use marser::matcher::{Matcher, NoMemoizeBacktrackingRunner};
use marser::memo_store::MemoStore;
use marser::parser::Parser;
use std::rc::Rc;

fn fail(span: (usize, usize), expected: &[&str]) -> FurthestFailError {
    FurthestFailError {
        span,
        expected: expected.iter().map(|s| s.to_string()).collect(),
        annotations: ParserErrorAnnotations::new(),
    }
}

#[test]
fn main_message_names_what_was_found() {
    assert_eq!(fail((0, 1), &["a"]).main_message("b"), "expected a but found 'b'");
    assert_eq!(
        fail((0, 1), &["x", "y"]).main_message("b"),
        "expected one of x, y but found 'b'"
    );
    assert_eq!(fail((5, 5), &[]).main_message("abc"), "unexpected 'end of input'");
    assert_eq!(fail((1, 1), &[]).main_message("abc"), "unexpected 'unknown token'");
    assert_eq!(fail((1, 2), &[]).main_message("é"), "unexpected 'unknown token'");
    assert_eq!(fail((0, 2), &["z"]).main_message("éa"), "expected z but found 'é'");
}

#[test]
fn to_string_sorts_expected_labels() {
    assert_eq!(fail((3, 5), &["b", "a"]).to_string(), "expected one of a, b at 3..5");
    assert_eq!(fail((0, 0), &[]).to_string(), "unexpected token at 0..0");
    assert_eq!(fail((10, 12), &["x"]).to_string(), "expected x at 10..12");
}

#[test]
fn annotations_build_up_in_order() {
    let mut e = fail((0, 1), &["a"])
        .with_note("first note".to_string())
        .with_help("try this".to_string());
    e.add_note("second note".to_string())
        .add_extra_label((2, 3), "here".to_string(), ariadne::Color::Blue);
    assert_eq!(e.annotations.notes, vec!["first note".to_string(), "second note".to_string()]);
    assert_eq!(e.annotations.help, vec!["try this".to_string()]);
    assert_eq!(e.annotations.extra_labels.len(), 1);
    assert_eq!(e.annotations.extra_labels[0].span, (2, 3));
    let plan = e.report_plan("b c");
    assert_eq!(plan.title, "Syntax Error");
    assert_eq!(plan.span, (0, 1));
    assert_eq!(plan.labels.len(), 2);
    assert_eq!(plan.labels[0].message, "expected a but found 'b'");
    assert_eq!(plan.labels[0].order, 0);
    assert_eq!(plan.labels[1].message, "here");
    assert_eq!(plan.labels[1].order, 2);
    assert!(plan.labels[0].color == ariadne::Color::Red);
    assert!(plan.labels[1].color == ariadne::Color::Blue);
    assert_eq!(plan.notes.len(), 2);
    assert_eq!(plan.help, vec!["try this".to_string()]);
}

#[test]
fn single_label_reports() {
    let m = MissingError { span: (4, 4), message: "missing ')'".to_string() };
    let plan = m.report_plan();
    assert_eq!(plan.title, "Missing Syntax");
    assert_eq!(plan.labels[0].message, "missing ')'");
    let u = UnwantedError { span: (1, 2), message: "stray".to_string() };
    assert_eq!(u.report_plan().title, "Unwanted Syntax");
    let p = ParserError::Missing(MissingError { span: (0, 0), message: "m".to_string() });
    assert_eq!(p.report_plan("").title, "Missing Syntax");
}

#[test]
fn miette_parts_join_notes_and_help() {
    let e = fail((0, 1), &["a"])
        .with_note("n1".to_string())
        .with_help("h1".to_string());
    let parts = e.miette_parts("b");
    assert_eq!(parts.message, "Syntax Error");
    assert_eq!(parts.primary.span, (0, 1));
    assert_eq!(parts.primary.message, "expected a but found 'b'");
    assert_eq!(parts.help, Some("note: n1\nh1".to_string()));
    assert_eq!(fail((0, 1), &[]).miette_parts("b").help, None);
}

#[test]
fn miette_rendering_appends() {
    let e = fail((0, 1), &["a"]);
    let mut out = String::from("before:");
    e.render_miette_into(&mut out, "input", "b");
    assert!(out.starts_with("before:"));
    assert!(out.contains("Syntax Error"));
}

#[test]
fn rerun_request_becomes_bare_failure() {
    let e = MatcherRunError::RetryRerunNeeded.into_furthest_fail_for_parser((3, 3));
    assert_eq!(e.span, (3, 3));
    assert!(e.expected.is_empty());
    let f = MatcherRunError::FurthestFail(fail((1, 2), &["q"])).into_furthest_fail_for_parser((9, 9));
    assert_eq!(f.span, (1, 2));
    assert_eq!(f.expected, vec!["q".to_string()]);
    match fail((0, 0), &[]).as_parser_error() {
        ParserError::FurthestFail(_) => {}
        _ => panic!("wrong variant"),
    }
}

#[test]
fn memo_store_reads_back_writes() {
    let mut store: MemoStore<u64> = MemoStore::new();
    assert!(store.get_entry(1, 0).is_none());
    store.insert_entry(1, 0, Some((Rc::new(5), 3)));
    store.insert_entry(1, 4, None);
    match store.get_entry(1, 0) {
        Some(Some((v, end))) => {
            assert_eq!(*v, 5);
            assert_eq!(end, 3);
        }
        _ => panic!("entry lost"),
    }
    assert_eq!(store.get_entry(1, 4).map(|e| e.is_none()), Some(true));
    assert!(store.get_entry(2, 0).is_none());
}

#[test]
fn str_stream_reads_scalars_and_slices() {
    let mut s = InputStream::new("héllo");
    assert_eq!(s.next(), Some('h'));
    assert_eq!(s.next(), Some('é'));
    assert_eq!(s.get_pos(), 3);
    assert_eq!(s.slice(1..3), "é");
    s.set_pos(2);
    assert_eq!(s.next(), None);
    assert_eq!(s.get_pos(), 2);
    let data: &[u8] = b"xy";
    assert_eq!(data.slice(1..2), b"y");
}

#[test]
fn labeled_parser_reports_its_label() {
    let p = ToParser::new("ab", 1u64).with_label("word".to_string());
    let mut ctx: ParserContext<u64> = ParserContext::new();
    let mut eh = MultiErrorHandler::new(0);
    let mut input = InputStream::new("ax");
    let r = p.parse(&mut ctx, &mut eh, &mut input).ok().unwrap();
    assert!(r.is_none());
    let e = eh.to_parser_error();
    assert_eq!(e.expected, vec!["word".to_string()]);
    assert_eq!(e.span, (0, 0));
}

#[test]
fn worse_failure_is_ignored() {
    let mut h = MultiErrorHandler::new(0);
    let a = h.register_start(0);
    h.register_watermark(5);
    h.register_error("far".to_string(), a, 9);
    let b = h.register_start(0);
    h.register_watermark(2);
    h.register_error("near".to_string(), b, 9);
    let e = h.to_parser_error();
    assert_eq!(e.span, (0, 5));
    assert_eq!(e.expected, vec!["far".to_string()]);
}

#[test]
fn insert_and_unwanted_need_a_collecting_handler() {
    let ins = InsertOnErrorMatcher { inner: ')', message: "missing".to_string() };
    let mut ctx: ParserContext<u64> = ParserContext::new();
    let mut runner = NoMemoizeBacktrackingRunner::new();
    let mut input = InputStream::new("x");
    let mut empty = EmptyErrorHandler::new(0);
    assert_eq!(ins.match_with_runner(&mut ctx, &mut runner, &mut empty, &mut input).ok(), Some(false));
    let mut multi = MultiErrorHandler::new(0);
    assert_eq!(ins.match_with_runner(&mut ctx, &mut runner, &mut multi, &mut input).ok(), Some(true));
    assert_eq!(ctx.error_stack.len(), 1);
    let unw = unwanted('x', "extra".to_string());
    let mut input = InputStream::new("x");
    assert_eq!(unw.match_with_runner(&mut ctx, &mut runner, &mut empty, &mut input).ok(), Some(false));
    let mut input = InputStream::new("x");
    assert_eq!(unw.match_with_runner(&mut ctx, &mut runner, &mut multi, &mut input).ok(), Some(true));
    assert_eq!(input.get_pos(), 1);
    assert_eq!(ctx.error_stack.len(), 2);
}

#[test]
fn if_error_depends_on_recovery_mode() {
    let mut ctx: ParserContext<u64> = ParserContext::new();
    let mut runner = NoMemoizeBacktrackingRunner::new();
    let mut eh = EmptyErrorHandler::new(0);
    let mut input = InputStream::new("y");
    let a = if_error('x');
    let b = if_error_else_fail('y');
    assert_eq!(a.match_with_runner(&mut ctx, &mut runner, &mut eh, &mut input).ok(), Some(true));
    assert_eq!(b.match_with_runner(&mut ctx, &mut runner, &mut eh, &mut input).ok(), Some(false));
    ctx.is_in_error_recovery = true;
    assert_eq!(a.match_with_runner(&mut ctx, &mut runner, &mut eh, &mut input).ok(), Some(true));
    assert_eq!(input.get_pos(), 0);
    let mut input = InputStream::new("y");
    assert_eq!(b.match_with_runner(&mut ctx, &mut runner, &mut eh, &mut input).ok(), Some(true));
}

#[test]
fn error_contextualizer_annotates_furthest_failures() {
    let annotate = |e: FurthestFailError| e.with_note("inside brackets".to_string());
    let m = ErrorContextualizer::new(commit_on('[', ('a',)), ToParser::new('[', annotate));
    let mut ctx: ParserContext<u64> = ParserContext::new();
    ctx.is_in_error_recovery = true;
    let mut runner = NoMemoizeBacktrackingRunner::new();
    let mut eh = EmptyErrorHandler::new(0);
    let mut input = InputStream::new("[b");
    match m.match_with_runner(&mut ctx, &mut runner, &mut eh, &mut input) {
        Err(MatcherRunError::FurthestFail(e)) => {
            assert_eq!(e.annotations.notes, vec!["inside brackets".to_string()]);
            assert_eq!(e.expected, vec!["a".to_string()]);
        }
        _ => panic!("expected a furthest failure"),
    }
}

#[test]
fn miette_renders_spans_outside_the_source() {
    let e = fail((5, 9), &["a"]);
    let mut out = String::new();
    e.render_miette_into(&mut out, "input", "b");
    assert!(!out.is_empty());
    let inverted = fail((1, 0), &["a"]);
    let mut out2 = String::from("x");
    inverted.render_miette_into(&mut out2, "input", "bc");
    assert!(out2.len() > 1);
    let at_end = fail((1, 1), &["a"]);
    let mut out3 = String::new();
    at_end.render_miette_into(&mut out3, "input", "b");
    assert!(!out3.is_empty());
}

#[test]
fn label_keeps_the_outcome() {
    for src in ["abc", "ax"] {
        let inner = ToParser::new("ab", 1u64);
        let labeled = ToParser::new("ab", 1u64).with_label("word".to_string());
        let mut ctx: ParserContext<u64> = ParserContext::new();
        let mut eh = MultiErrorHandler::new(0);
        let mut input = InputStream::new(src);
        let plain = inner.parse(&mut ctx, &mut eh, &mut input).ok().unwrap();
        let plain_pos = input.get_pos();
        let mut ctx2: ParserContext<u64> = ParserContext::new();
        let mut eh2 = MultiErrorHandler::new(0);
        let mut input2 = InputStream::new(src);
        let with_label = labeled.parse(&mut ctx2, &mut eh2, &mut input2).ok().unwrap();
        assert_eq!(plain, with_label);
        assert_eq!(plain_pos, input2.get_pos());
    }
}
