//! What an instrumented function body is made of.

use crate::depth::balanced;
use crate::depth::decremented;
use crate::depth::height;
use crate::depth::incremented;
use crate::depth::indent_of;
use crate::depth::indent_width;
use crate::depth::lemma_trace_is_balanced;
use crate::depth::trace_of;
use crate::depth::trace_of_all;
use crate::depth::Call;
use crate::depth::TraceEvent;
use crate::pattern::names_then;
use crate::pattern::pat_views;
use crate::pattern::printable_args;
use crate::pattern::printable_args_of_all;
use crate::pattern::texts;
use crate::pattern::Pat;
use crate::pattern::PatView;
use crate::pattern::UnsupportedPatternError;
use crate::syntax::join;
use crate::syntax::joined;
use crate::syntax::optional_type_view;
use crate::syntax::type_text;
use crate::syntax::Block;
use crate::syntax::BlockView;
use crate::syntax::FnArg;
use crate::syntax::FnArgView;
use crate::syntax::FnDecl;
use crate::syntax::FnDeclView;
use crate::syntax::ReturnType;
use crate::syntax::Step;
use crate::syntax::ReturnTypeView;
use crate::syntax::TraceStatement;
use crate::syntax::TraceStatementView;
use crate::syntax::TracedBlock;
use crate::syntax::TracedBlockView;
use crate::syntax::Type;
use crate::syntax::TypeView;
use vstd::prelude::*;

verus! {

/// The generator of instrumented function bodies.
pub struct Codegen;

/// The character that indents the trace of an entry.
pub const ENTER_MARKER: char = '>';

/// The character that indents the trace of an exit.
pub const EXIT_MARKER: char = '<';

/// The name under which a function is traced: its own name, behind the type it belongs to and
/// `::` where it is a method.
pub open spec fn display_name(impl_type: Option<TypeView>, ident: Seq<char>) -> Seq<char> {
    match impl_type {
        None => ident,
        Some(ty) => type_text(ty) + "::"@ + ident,
    }
}

/// The names that one parameter contributes to the trace of an entry. A receiver and a
/// parameter without a pattern contribute none.
pub open spec fn arg_names(arg: FnArgView) -> Result<Seq<Seq<char>>, UnsupportedPatternError> {
    match arg {
        FnArgView::Captured(pat) => printable_args(pat),
        FnArgView::Inferred(pat) => printable_args(pat),
        _ => Ok(Seq::empty()),
    }
}

/// The names that the parameters `inputs` contribute to the trace of an entry, in order.
pub open spec fn inputs_names(inputs: Seq<FnArgView>) -> Result<
    Seq<Seq<char>>,
    UnsupportedPatternError,
>
    decreases inputs.len(),
{
    if inputs.len() == 0 {
        Ok(Seq::empty())
    } else {
        names_then(arg_names(inputs[0]), inputs_names(inputs.drop_first()))
    }
}

/// For each name the piece of a format string that prints it: the name, a colon, and a place
/// for its value.
pub open spec fn arg_formats(names: Seq<Seq<char>>) -> Seq<Seq<char>> {
    names.map_values(|name: Seq<char>| name + ": {:?}"@)
}

/// The format string of the trace of an entry. Its first place takes the indentation and its
/// second the path of the enclosing module.
pub open spec fn begin_format(fn_name: Seq<char>, names: Seq<Seq<char>>) -> Seq<char> {
    "{} {}::"@ + fn_name + "("@ + joined(arg_formats(names), ", "@) + ")"@
}

/// The format string of the trace of an exit. Its last place takes the value returned.
pub open spec fn end_format(fn_name: Seq<char>) -> Seq<char> {
    "{} {}::"@ + fn_name + " = {:?}"@
}

/// The statement that traces the entry into a function.
pub open spec fn begin_trace_statement(decl: FnDeclView, fn_name: Seq<char>) -> Result<
    TraceStatementView,
    UnsupportedPatternError,
> {
    match inputs_names(decl.inputs) {
        Err(error) => Err(error),
        Ok(names) => Ok(
            TraceStatementView {
                format: begin_format(fn_name, names),
                marker: ENTER_MARKER,
                args: names,
            },
        ),
    }
}

/// The statement that traces the exit from a function. The value returned is held by `__ret`.
pub open spec fn end_trace_statement(fn_name: Seq<char>) -> TraceStatementView {
    TraceStatementView { format: end_format(fn_name), marker: EXIT_MARKER, args: seq!["__ret"@] }
}

/// The type under which the value of a body is kept: the declared return type, unless none is
/// declared or it is of the form `impl Trait`.
pub open spec fn kept_return_type(decl: FnDeclView) -> Option<TypeView> {
    match decl.output {
        ReturnTypeView::Default => None,
        ReturnTypeView::Type(ty) => if ty.impl_trait {
            None
        } else {
            Some(ty)
        },
    }
}

/// The steps of an instrumented body: the depth is raised and the entry traced at the depth
/// reached, the body is run, the depth is read and the exit traced at the depth found, the
/// depth is lowered, and the value of the body is yielded.
pub open spec fn body_steps() -> Seq<Step> {
    seq![
        Step::RaiseDepth,
        Step::TraceEntry,
        Step::RunBody,
        Step::ReadDepth,
        Step::TraceExit,
        Step::LowerDepth,
        Step::YieldValue,
    ]
}

/// The indentation that `statement` is logged with at the depth `depth`.
pub open spec fn statement_indent(statement: TraceStatementView, depth: nat) -> Seq<char> {
    indent_of(statement.marker, depth)
}

/// The instrumented body of a function with the declaration `decl`, the name `ident` and the
/// body `block`, which belongs to `impl_type` where it is a method.
pub open spec fn traced_block(
    decl: FnDeclView,
    ident: Seq<char>,
    impl_type: Option<TypeView>,
    block: BlockView,
) -> Result<TracedBlockView, UnsupportedPatternError> {
    let fn_name = display_name(impl_type, ident);
    match begin_trace_statement(decl, fn_name) {
        Err(error) => Err(error),
        Ok(begin_trace) => Ok(
            TracedBlockView {
                steps: body_steps(),
                begin_trace,
                end_trace: end_trace_statement(fn_name),
                return_type: kept_return_type(decl),
                block,
            },
        ),
    }
}

/// `after` is `before` with further strings appended.
pub open spec fn extends(before: Seq<String>, after: Seq<String>) -> bool {
    &&& before.len() <= after.len()
    &&& forall|k: int| 0 <= k < before.len() ==> after[k] == before[k]
}

/// The texts of the strings that `after` holds behind those of `before`.
pub open spec fn appended(before: Seq<String>, after: Seq<String>) -> Seq<Seq<char>> {
    texts(after.skip(before.len() as int))
}

/// Appending in two steps appends the texts of the first step followed by those of the second.
proof fn lemma_appended_twice(a: Seq<String>, b: Seq<String>, c: Seq<String>)
    requires
        extends(a, b),
        extends(b, c),
    ensures
        extends(a, c),
        appended(a, c) == appended(a, b) + appended(b, c),
{
    assert(appended(a, c) =~= appended(a, b) + appended(b, c));
}

/// The names bound by the patterns of `pats` from position `from` on are those of the pattern
/// at `from` followed by those of the patterns behind it.
proof fn lemma_printable_args_step(pats: Seq<PatView>, from: int)
    requires
        0 <= from < pats.len(),
    ensures
        printable_args_of_all(pats.subrange(from, pats.len() as int)) == names_then(
            printable_args(pats[from]),
            printable_args_of_all(pats.subrange(from + 1, pats.len() as int)),
        ),
{
    let rest = pats.subrange(from, pats.len() as int);
    assert(rest[0] == pats[from]);
    assert(rest.drop_first() =~= pats.subrange(from + 1, pats.len() as int));
}

impl Codegen {
    /// Appends to `extract_target` the names that the patterns of `pats` bind, in order. Where
    /// a pattern cannot be reduced to names, `extract_target` is left as it was.
    fn extract_all_printable_args(pats: &Vec<Pat>, extract_target: &mut Vec<String>) -> (result:
        Result<(), UnsupportedPatternError>)
        ensures
            match result {
                Ok(()) => extends(old(extract_target)@, final(extract_target)@)
                    && printable_args_of_all(pat_views(pats@)) == Ok::<_, UnsupportedPatternError>(
                    appended(old(extract_target)@, final(extract_target)@),
                ),
                Err(error) => final(extract_target)@ == old(extract_target)@
                    && printable_args_of_all(pat_views(pats@)) == Err::<Seq<Seq<char>>, _>(error),
            },
        decreases pats, 1nat,
    {
        let ghost views = pat_views(pats@);
        let ghost before = extract_target@;
        let start = extract_target.len();
        let mut i: usize = 0;
        assert(views.subrange(0, views.len() as int) =~= views);
        assert(appended(before, extract_target@) =~= Seq::empty());
        while i < pats.len()
            invariant
                views == pat_views(pats@),
                before == old(extract_target)@,
                start == before.len(),
                0 <= i <= pats.len(),
                extends(before, extract_target@),
                printable_args_of_all(views) == names_then(
                    Ok(appended(before, extract_target@)),
                    printable_args_of_all(views.subrange(i as int, views.len() as int)),
                ),
            decreases pats.len() - i,
        {
            proof {
                lemma_printable_args_step(views, i as int);
                assert(views[i as int] == pats[i as int]@);
            }
            let ghost so_far = extract_target@;
            let ghost rest = printable_args_of_all(views.subrange(i + 1, views.len() as int));
            match Codegen::extract_printable_args(&pats[i], extract_target) {
                Ok(()) => {
                    proof {
                        lemma_appended_twice(before, so_far, extract_target@);
                        if let Ok(more) = rest {
                            assert((appended(before, so_far) + appended(so_far, extract_target@))
                                + more =~= appended(before, so_far) + (appended(
                                so_far,
                                extract_target@,
                            ) + more));
                        }
                    }
                },
                Err(error) => {
                    extract_target.truncate(start);
                    assert(extract_target@ =~= before);
                    return Err(error);
                },
            }
            i = i + 1;
        }
        proof {
            assert(views.subrange(i as int, views.len() as int) =~= Seq::empty());
            assert(appended(before, extract_target@) + Seq::<Seq<char>>::empty() =~= appended(
                before,
                extract_target@,
            ));
        }
        Ok(())
    }

    /// Appends to `extract_target` the names that `pat` binds, from left to right and depth
    /// first. Where `pat` cannot be reduced to names, the kind of the first pattern that stands
    /// in the way is returned and `extract_target` is left as it was.
    pub fn extract_printable_args(pat: &Pat, extract_target: &mut Vec<String>) -> (result: Result<
        (),
        UnsupportedPatternError,
    >)
        ensures
            match result {
                Ok(()) => extends(old(extract_target)@, final(extract_target)@) && printable_args(
                    pat@,
                ) == Ok::<_, UnsupportedPatternError>(
                    appended(old(extract_target)@, final(extract_target)@),
                ),
                Err(error) => final(extract_target)@ == old(extract_target)@ && printable_args(
                    pat@,
                ) == Err::<Seq<Seq<char>>, _>(error),
            },
        decreases pat, 0nat,
    {
        let ghost before = extract_target@;
        let start = extract_target.len();
        match pat {
            Pat::Wild => {
                assert(appended(before, extract_target@) =~= Seq::empty());
                Ok(())
            },
            Pat::Ident(name) => {
                if *name != String::from_str("self") {
                    extract_target.push(name.clone());
                    assert(appended(before, extract_target@) =~= seq![name@]);
                } else {
                    assert(appended(before, extract_target@) =~= Seq::empty());
                }
                Ok(())
            },
            Pat::Struct(fields) => Codegen::extract_all_printable_args(fields, extract_target),
            Pat::TupleStruct(front, back) | Pat::Tuple(front, back) => {
                match Codegen::extract_all_printable_args(front, extract_target) {
                    Ok(()) => {},
                    Err(error) => {
                        return Err(error);
                    },
                }
                let ghost after_front = extract_target@;
                match Codegen::extract_all_printable_args(back, extract_target) {
                    Ok(()) => {},
                    Err(error) => {
                        extract_target.truncate(start);
                        assert(extract_target@ =~= before);
                        return Err(error);
                    },
                }
                proof {
                    lemma_appended_twice(before, after_front, extract_target@);
                }
                Ok(())
            },
            Pat::Slice(front, middle, back) => {
                match Codegen::extract_all_printable_args(front, extract_target) {
                    Ok(()) => {},
                    Err(error) => {
                        return Err(error);
                    },
                }
                let ghost after_front = extract_target@;
                if let Some(pat) = middle {
                    match Codegen::extract_printable_args(pat, extract_target) {
                        Ok(()) => {},
                        Err(error) => {
                            extract_target.truncate(start);
                            assert(extract_target@ =~= before);
                            return Err(error);
                        },
                    }
                } else {
                    assert(appended(after_front, extract_target@) =~= Seq::empty());
                }
                let ghost after_middle = extract_target@;
                match Codegen::extract_all_printable_args(back, extract_target) {
                    Ok(()) => {},
                    Err(error) => {
                        proof {
                            lemma_appended_twice(before, after_front, after_middle);
                        }
                        extract_target.truncate(start);
                        assert(extract_target@ =~= before);
                        return Err(error);
                    },
                }
                proof {
                    lemma_appended_twice(after_front, after_middle, extract_target@);
                    lemma_appended_twice(before, after_front, extract_target@);
                }
                Ok(())
            },
            Pat::Unsupported(kind) => Err(UnsupportedPatternError { kind: *kind }),
        }
    }
    /// The statement that traces the entry into a function declared as `fn_decl` and traced
    /// under the name `fn_name`.
    pub fn build_begin_trace_statement(fn_decl: &FnDecl, fn_name: &str) -> (result: Result<
        TraceStatement,
        UnsupportedPatternError,
    >)
        ensures
            match result {
                Ok(statement) => begin_trace_statement(fn_decl@, fn_name@) == Ok::<
                    _,
                    UnsupportedPatternError,
                >(statement@),
                Err(error) => begin_trace_statement(fn_decl@, fn_name@) == Err::<
                    TraceStatementView,
                    _,
                >(error),
            },
    {
        let mut args: Vec<String> = Vec::new();
        let ghost inputs = fn_decl@.inputs;
        let mut i: usize = 0;
        assert(inputs.subrange(0, inputs.len() as int) =~= inputs);
        assert(texts(args@) + Seq::<Seq<char>>::empty() =~= texts(args@));
        while i < fn_decl.inputs.len()
            invariant
                inputs == fn_decl@.inputs,
                0 <= i <= fn_decl.inputs.len(),
                inputs_names(inputs) == names_then(
                    Ok(texts(args@)),
                    inputs_names(inputs.subrange(i as int, inputs.len() as int)),
                ),
            decreases fn_decl.inputs.len() - i,
        {
            let ghost before = args@;
            let ghost rest = inputs_names(inputs.subrange(i + 1, inputs.len() as int));
            proof {
                let tail = inputs.subrange(i as int, inputs.len() as int);
                assert(tail[0] == fn_decl.inputs@[i as int]@);
                assert(tail.drop_first() =~= inputs.subrange(i + 1, inputs.len() as int));
            }
            let step = match &fn_decl.inputs[i] {
                FnArg::Captured(pat) => Codegen::extract_printable_args(pat, &mut args),
                FnArg::Inferred(pat) => Codegen::extract_printable_args(pat, &mut args),
                _ => {
                    assert(appended(before, args@) =~= Seq::empty());
                    Ok(())
                },
            };
            match step {
                Ok(()) => {
                    proof {
                        assert(texts(args@) =~= texts(before) + appended(before, args@));
                        if let Ok(more) = rest {
                            assert((texts(before) + appended(before, args@)) + more =~= texts(
                                before,
                            ) + (appended(before, args@) + more));
                        }
                    }
                },
                Err(error) => {
                    return Err(error);
                },
            }
            i = i + 1;
        }
        assert(inputs.subrange(i as int, inputs.len() as int) =~= Seq::empty());
        assert(texts(args@) + Seq::<Seq<char>>::empty() =~= texts(args@));
        let mut formats: Vec<String> = Vec::new();
        let mut k: usize = 0;
        while k < args.len()
            invariant
                0 <= k <= args.len(),
                texts(formats@) == arg_formats(texts(args@)).take(k as int),
            decreases args.len() - k,
        {
            let ghost so_far = formats@;
            let piece = args[k].clone().concat(": {:?}");
            formats.push(piece);
            assert(texts(formats@) =~= texts(so_far).push(args@[k as int]@ + ": {:?}"@));
            assert(texts(formats@) =~= arg_formats(texts(args@)).take(k + 1));
            k = k + 1;
        }
        assert(arg_formats(texts(args@)).take(k as int) =~= arg_formats(texts(args@)));
        let format_args = join(&formats, ", ");
        let format = String::from_str("{} {}::").concat(fn_name).concat("(").concat(
            format_args.as_str(),
        ).concat(")");
        Ok(TraceStatement { format, marker: ENTER_MARKER, args })
    }

    /// The steps of an instrumented body, in order.
    pub fn build_steps() -> (steps: Vec<Step>)
        ensures
            steps@ == body_steps(),
    {
        let mut steps: Vec<Step> = Vec::new();
        steps.push(Step::RaiseDepth);
        steps.push(Step::TraceEntry);
        steps.push(Step::RunBody);
        steps.push(Step::ReadDepth);
        steps.push(Step::TraceExit);
        steps.push(Step::LowerDepth);
        steps.push(Step::YieldValue);
        assert(steps@ =~= body_steps());
        steps
    }

    /// The statement that traces the exit from a function traced under the name `fn_name`.
    pub fn build_end_trace_statement(fn_name: &str) -> (statement: TraceStatement)
        ensures
            statement@ == end_trace_statement(fn_name@),
    {
        let format = String::from_str("{} {}::").concat(fn_name).concat(" = {:?}");
        let mut args: Vec<String> = Vec::new();
        args.push(String::from_str("__ret"));
        assert(texts(args@) =~= seq!["__ret"@]);
        TraceStatement { format, marker: EXIT_MARKER, args }
    }

    /// The type under which the value of a body is kept, where the declaration gives one that
    /// can be written down.
    pub fn build_return_type(fn_decl: &FnDecl) -> (ty: Option<Type>)
        ensures
            optional_type_view(ty) == kept_return_type(fn_decl@),
    {
        match &fn_decl.output {
            ReturnType::Default => None,
            ReturnType::Type(ty) => {
                if ty.impl_trait {
                    None
                } else {
                    Some(ty.duplicate())
                }
            },
        }
    }

    /// Instruments the body `block` of the function `ident` declared as `decl`, which belongs
    /// to `impl_type` where it is a method.
    ///
    /// The body itself is carried over as it is. A parameter pattern that cannot be reduced to
    /// names is an error.
    pub fn build_block(decl: &FnDecl, ident: &str, impl_type: Option<&Type>, block: Block) -> (result:
        Result<TracedBlock, UnsupportedPatternError>)
        ensures
            match result {
                Ok(traced) => traced_block(
                    decl@,
                    ident@,
                    match impl_type {
                        Some(ty) => Some(ty@),
                        None => None,
                    },
                    block@,
                ) == Ok::<_, UnsupportedPatternError>(traced@),
                Err(error) => traced_block(
                    decl@,
                    ident@,
                    match impl_type {
                        Some(ty) => Some(ty@),
                        None => None,
                    },
                    block@,
                ) == Err::<TracedBlockView, _>(error),
            },
    {
        let fn_name = match impl_type {
            None => String::from_str(ident),
            Some(impl_type) => impl_type.text().concat("::").concat(ident),
        };
        let begin_trace = match Codegen::build_begin_trace_statement(decl, fn_name.as_str()) {
            Ok(statement) => statement,
            Err(error) => {
                return Err(error);
            },
        };
        let end_trace = Codegen::build_end_trace_statement(fn_name.as_str());
        let return_type = Codegen::build_return_type(decl);
        Ok(TracedBlock { steps: Codegen::build_steps(), begin_trace, end_trace, return_type, block })
    }
}

impl TraceStatement {
    /// The indentation that the statement is logged with at the depth `level`; `None` where
    /// its width is too large to be represented.
    pub fn indent(&self, level: usize) -> (indent: Option<String>)
        ensures
            match indent {
                Some(indent) => indent@ == statement_indent(self@, level as nat),
                None => indent_width(level as nat) > usize::MAX,
            },
    {
        crate::depth::indentation(self.marker, level)
    }
}

/// The statements that trace the entry and the exit of one function name that function alike,
/// and at one depth each is indented by a run of its own marker of the same width, which is
/// `INDENT_STEP` for each level.
pub proof fn lemma_entry_and_exit_are_indented_alike(
    decl: FnDeclView,
    fn_name: Seq<char>,
    depth: nat,
)
    requires
        begin_trace_statement(decl, fn_name) is Ok,
    ensures
        ({
            let entry = begin_trace_statement(decl, fn_name)->Ok_0;
            let exit = end_trace_statement(fn_name);
            &&& statement_indent(entry, depth).len() == indent_width(depth)
            &&& statement_indent(exit, depth).len() == indent_width(depth)
            &&& forall|i: int|
                0 <= i < indent_width(depth) ==> statement_indent(entry, depth)[i] == ENTER_MARKER
            &&& forall|i: int|
                0 <= i < indent_width(depth) ==> statement_indent(exit, depth)[i] == EXIT_MARKER
            &&& ("{} {}::"@ + fn_name).is_prefix_of(entry.format)
            &&& ("{} {}::"@ + fn_name).is_prefix_of(exit.format)
        }),
{
}

/// What a thread has done while it runs the steps of an instrumented body.
pub ghost struct Run {
    /// The depth of the thread.
    pub depth: nat,
    /// The depth noted last.
    pub noted: nat,
    /// The events emitted so far.
    pub events: Seq<TraceEvent>,
}

/// The run after one step, where the body makes the calls `calls` of instrumented functions.
pub open spec fn run_step(run: Run, step: Step, calls: Seq<Call>) -> Run {
    match step {
        Step::RaiseDepth => Run {
            depth: incremented(run.depth),
            noted: incremented(run.depth),
            events: run.events,
        },
        Step::TraceEntry => Run {
            depth: run.depth,
            noted: run.noted,
            events: run.events.push(TraceEvent::Enter(run.noted)),
        },
        Step::RunBody => Run {
            depth: trace_of_all(calls, run.depth).1,
            noted: run.noted,
            events: run.events + trace_of_all(calls, run.depth).0,
        },
        Step::ReadDepth => Run { depth: run.depth, noted: run.depth, events: run.events },
        Step::TraceExit => Run {
            depth: run.depth,
            noted: run.noted,
            events: run.events.push(TraceEvent::Exit(run.noted)),
        },
        Step::LowerDepth => Run {
            depth: decremented(run.depth),
            noted: run.noted,
            events: run.events,
        },
        Step::YieldValue => run,
    }
}

/// The run after the steps `steps`, taken in order.
pub open spec fn run_steps(run: Run, steps: Seq<Step>, calls: Seq<Call>) -> Run
    decreases steps.len(),
{
    if steps.len() == 0 {
        run
    } else {
        run_step(run_steps(run, steps.drop_last(), calls), steps.last(), calls)
    }
}

/// An instrumented body that starts at `depth` and makes the calls `calls` emits exactly the
/// events of one call: its entry first, then the events of `calls`, then its exit, and nothing
/// else. It leaves the depth that such a call leaves.
pub proof fn lemma_steps_are_one_call(
    decl: FnDeclView,
    ident: Seq<char>,
    impl_type: Option<TypeView>,
    block: BlockView,
    calls: Seq<Call>,
    depth: nat,
)
    requires
        traced_block(decl, ident, impl_type, block) is Ok,
    ensures
        ({
            let steps = traced_block(decl, ident, impl_type, block)->Ok_0.steps;
            let start = Run { depth, noted: 0, events: Seq::empty() };
            let end = run_steps(start, steps, calls);
            &&& end.events == trace_of(Call { calls }, depth).0
            &&& end.depth == trace_of(Call { calls }, depth).1
            &&& end.events.first() == TraceEvent::Enter(incremented(depth))
            &&& end.events.last() is Exit
            &&& end.events.subrange(1, end.events.len() - 1) == trace_of_all(calls, incremented(depth)).0
        }),
{
    let steps = body_steps();
    let start = Run { depth, noted: 0, events: Seq::<TraceEvent>::empty() };
    let s1 = steps.take(1);
    let s2 = steps.take(2);
    let s3 = steps.take(3);
    let s4 = steps.take(4);
    let s5 = steps.take(5);
    let s6 = steps.take(6);
    assert(s1.drop_last() =~= Seq::empty());
    assert(s2.drop_last() =~= s1);
    assert(s3.drop_last() =~= s2);
    assert(s4.drop_last() =~= s3);
    assert(s5.drop_last() =~= s4);
    assert(s6.drop_last() =~= s5);
    assert(steps.drop_last() =~= s6);
    let r0 = run_steps(start, s1.drop_last(), calls);
    assert(r0 == start);
    let r1 = run_steps(start, s1, calls);
    assert(r1 == run_step(r0, Step::RaiseDepth, calls));
    let r2 = run_steps(start, s2, calls);
    assert(r2 == run_step(r1, Step::TraceEntry, calls));
    let r3 = run_steps(start, s3, calls);
    assert(r3 == run_step(r2, Step::RunBody, calls));
    let r4 = run_steps(start, s4, calls);
    assert(r4 == run_step(r3, Step::ReadDepth, calls));
    let r5 = run_steps(start, s5, calls);
    assert(r5 == run_step(r4, Step::TraceExit, calls));
    let r6 = run_steps(start, s6, calls);
    assert(r6 == run_step(r5, Step::LowerDepth, calls));
    let r7 = run_steps(start, steps, calls);
    assert(r7 == run_step(r6, Step::YieldValue, calls));
    let entered = incremented(depth);
    let inner = trace_of_all(calls, entered).0;
    let found = trace_of_all(calls, entered).1;
    assert(r7.events =~= seq![TraceEvent::Enter(entered)] + inner + seq![TraceEvent::Exit(found)]);
    assert(r7.events.subrange(1, r7.events.len() - 1) =~= inner);
}

/// Balanced bracketing: the events that an instrumented body emits, with those of the calls
/// it makes, are balanced, each entry matched by one later exit at the same depth and so with
/// the same indentation, provided that the depth does not saturate under a call that makes
/// calls of its own.
pub proof fn lemma_instrumented_body_is_balanced(
    decl: FnDeclView,
    ident: Seq<char>,
    impl_type: Option<TypeView>,
    block: BlockView,
    calls: Seq<Call>,
    depth: nat,
)
    requires
        traced_block(decl, ident, impl_type, block) is Ok,
        depth <= usize::MAX,
        height(Call { calls }) == 1 || depth + height(Call { calls }) <= usize::MAX,
    ensures
        balanced(
            run_steps(
                Run { depth, noted: 0, events: Seq::empty() },
                traced_block(decl, ident, impl_type, block)->Ok_0.steps,
                calls,
            ).events,
        ),
{
    lemma_steps_are_one_call(decl, ident, impl_type, block, calls, depth);
    lemma_trace_is_balanced(Call { calls }, depth);
}

} // verus!
