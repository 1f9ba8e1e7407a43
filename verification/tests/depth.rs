use std::str::FromStr;

use proc_macro2::TokenStream;
use trace2_macro::depth::indent_width_at;
use trace2_macro::depth::indentation;
use trace2_macro::depth::DepthCounter;
use trace2_macro::depth::INDENT_STEP;
use trace2_macro::folder::Folder;
use trace2_macro::pattern::Pat;
use trace2_macro::syntax::Block;
use trace2_macro::syntax::FnArg;
use trace2_macro::syntax::FnDecl;
use trace2_macro::syntax::Item;
use trace2_macro::syntax::ItemFn;
use trace2_macro::syntax::Path;
use trace2_macro::syntax::PathSegment;
use trace2_macro::syntax::ReturnType;
use trace2_macro::syntax::Step;
use trace2_macro::syntax::TraceStatement;
use trace2_macro::syntax::Type;
use trace2_macro::syntax::TypePart;

/// Fills the places of a format string with `values`, in order.
fn fill(format: &str, values: &[String]) -> String {
    let mut line = String::new();
    let mut rest = format;
    let mut values = values.iter();
    while let Some(start) = rest.find('{') {
        let end = start + rest[start..].find('}').unwrap();
        line.push_str(&rest[..start]);
        line.push_str(values.next().unwrap());
        rest = &rest[end + 1..];
    }
    assert!(values.next().is_none());
    line.push_str(rest);
    line
}

/// The line that `statement` logs at `level` with the given values for its arguments.
fn line(statement: &TraceStatement, level: usize, values: &[String]) -> String {
    assert_eq!(statement.args.len(), values.len());
    let indent = statement.indent(level).unwrap();
    let mut all = vec![indent, "scenario".to_string()];
    all.extend(values.iter().cloned());
    fill(&statement.format, &all)
}

#[test]
fn counter_starts_at_zero() {
    assert_eq!(DepthCounter::new().read(), 0);
    assert_eq!(DepthCounter::new(), DepthCounter { level: 0 });
}

#[test]
fn counter_moves_by_one() {
    let mut counter = DepthCounter::new();
    counter.increment();
    assert_eq!(counter.read(), 1);
    counter.increment();
    assert_eq!(counter.read(), 2);
    counter.decrement();
    assert_eq!(counter.read(), 1);
    counter.decrement();
    assert_eq!(counter.read(), 0);
}

#[test]
fn counter_saturates_at_the_maximum() {
    let mut counter = DepthCounter { level: usize::MAX };
    counter.increment();
    assert_eq!(counter.read(), usize::MAX);
    let mut counter = DepthCounter { level: usize::MAX - 1 };
    counter.increment();
    assert_eq!(counter.read(), usize::MAX);
    counter.increment();
    assert_eq!(counter.read(), usize::MAX);
}

#[test]
fn counter_saturates_at_zero() {
    let mut counter = DepthCounter::new();
    counter.decrement();
    assert_eq!(counter.read(), 0);
    let mut counter = DepthCounter { level: 1 };
    counter.decrement();
    counter.decrement();
    assert_eq!(counter.read(), 0);
}

#[test]
fn enter_and_exit_report_the_same_depth() {
    let mut counter = DepthCounter::new();
    let outer = counter.enter();
    assert_eq!(outer, 1);
    let inner = counter.enter();
    assert_eq!(inner, 2);
    assert_eq!(counter.exit(), inner);
    let second = counter.enter();
    assert_eq!(second, 2);
    assert_eq!(counter.exit(), second);
    assert_eq!(counter.exit(), outer);
    assert_eq!(counter.read(), 0);
}

#[test]
fn call_without_calls_of_its_own_is_matched_at_the_maximum() {
    let mut counter = DepthCounter { level: usize::MAX };
    let entered = counter.enter();
    assert_eq!(entered, usize::MAX);
    assert_eq!(counter.exit(), entered);
    assert_eq!(counter.read(), usize::MAX - 1);
}

#[test]
fn saturation_under_a_call_with_calls_of_its_own_breaks_the_match() {
    let mut counter = DepthCounter { level: usize::MAX - 1 };
    let outer = counter.enter();
    let inner = counter.enter();
    assert_eq!(counter.exit(), inner);
    assert_eq!(outer, usize::MAX);
    assert_eq!(counter.exit(), usize::MAX - 1);
}

#[test]
fn indentation_is_four_per_level() {
    assert_eq!(INDENT_STEP, 4);
    assert_eq!(indent_width_at(0), Some(0));
    assert_eq!(indent_width_at(1), Some(4));
    assert_eq!(indent_width_at(3), Some(12));
    assert_eq!(indent_width_at(usize::MAX / 4), Some(usize::MAX - 3));
    assert_eq!(indent_width_at(usize::MAX / 4 + 1), None);
    assert_eq!(indent_width_at(usize::MAX), None);
}

#[test]
fn instrumented_add_traces_entry_and_exit_at_depth_one() {
    // fn add(a: i32, b: i32) -> i32 { a + b }
    let i32_type = Type {
        impl_trait: false,
        parts: vec![TypePart::Path(Path {
            leading_colon: false,
            segments: vec![PathSegment { ident: "i32".to_string(), arguments: vec![] }],
        })],
    };
    let add = ItemFn {
        attrs: vec![],
        ident: "add".to_string(),
        decl: FnDecl {
            inputs: vec![
                FnArg::Captured(Pat::Ident("a".to_string())),
                FnArg::Captured(Pat::Ident("b".to_string())),
            ],
            output: ReturnType::Type(i32_type),
        },
        block: Block::Written(TokenStream::from_str("{ a + b }").unwrap()),
    };
    let traced = match Folder::fold(&TokenStream::new(), Item::Fn(add)).unwrap() {
        Item::Fn(ItemFn { block: Block::Traced(traced), .. }) => traced,
        other => panic!("not instrumented: {:?}", other),
    };
    assert!(matches!(&traced.block, Block::Written(body) if body.to_string() == "{ a + b }"));

    // What the instrumented body does, step by step, when `add(1, 2)` is called.
    let (a, b) = (1, 2);
    let mut counter = DepthCounter::new();
    let mut log = vec![];
    let mut level = 0;
    let mut kept = None;
    let mut ret = None;
    for step in &traced.steps {
        match step {
            Step::RaiseDepth => level = counter.enter(),
            Step::TraceEntry => {
                let values = [format!("{:?}", a), format!("{:?}", b)];
                log.push((level, line(&traced.begin_trace, level, &values)));
            }
            Step::RunBody => kept = Some(a + b),
            Step::ReadDepth => level = counter.read(),
            Step::TraceExit => {
                let values = [format!("{:?}", kept.unwrap())];
                log.push((level, line(&traced.end_trace, level, &values)));
            }
            Step::LowerDepth => counter.decrement(),
            Step::YieldValue => ret = kept,
        }
    }
    let ret = ret.unwrap();

    assert_eq!(ret, 3);
    assert_eq!(log.len(), 2);
    assert_eq!(log[0].0, 1);
    assert!(log[0].1.contains("add(a: 1, b: 2)"));
    assert_eq!(log[0].1, ">>>> scenario::add(a: 1, b: 2)");
    assert_eq!(log[1].0, 1);
    assert!(log[1].1.contains("add = 3"));
    assert_eq!(log[1].1, "<<<< scenario::add = 3");
    assert_eq!(counter.read(), 0);
}

#[test]
fn indentation_is_a_run_of_the_marker() {
    assert_eq!(indentation('>', 0), Some(String::new()));
    assert_eq!(indentation('>', 1), Some(">>>>".to_string()));
    assert_eq!(indentation('<', 2), Some("<<<<<<<<".to_string()));
    assert_eq!(indentation('-', 5).map(|indent| indent.len()), indent_width_at(5));
    assert_eq!(indentation('>', usize::MAX / 4 + 1), None);
    assert_eq!(indentation('>', usize::MAX), None);
}
