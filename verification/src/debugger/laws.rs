//! What a client of the debugger can rely on, from one request to the next.

use vstd::prelude::*;

use crate::debugger::variables::{
    is_shown, law_scope_references_lead_back, structured, translate_reference, RawVariable,
    ValueKind, Variable, VariableReference, VariableType,
};
use crate::debugger::{
    frame_index, guessed_data, is_frame, is_scope, law_values_are_no_frames, line_index, line_set,
    program_module, source_view, with_guesses, without_outermost, AfterRun, Breakpoint,
    Capabilities, Debugger, DebuggerView, DisconnectHandler, Event, EventBody, InitializeHandler,
    Launch, LaunchHandler, Pause, Run, Scope, Source, Sources, StackFrame, StackInfo, Thread,
    VariablesTarget,
};
use crate::name::module_filename;
use crate::rpc::ServerError;

verus! {

/// Whether a client is told that the program was halted, and why.
pub open spec fn halts_for(halted: Option<Event>, reason: Seq<char>) -> bool {
    halted matches Some(event) && event.body matches EventBody::Stopped { reason: said } && said@
        == reason
}

/// Whether `debugger` is as another has left it, but for whether the program is to go on.
pub open spec fn is_left_so<V>(debugger: DebuggerView<V>, left: DebuggerView<V>) -> bool {
    debugger == (DebuggerView { do_continue: debugger.do_continue, ..left })
}

/// Law: after a request to step over functions, a program is halted at its next line exactly if the
/// stack is shallower than where the step started, or as deep and in the same function. So a step
/// over the end of a function halts in its caller.
pub proof fn law_step_over<V>(
    stepped: &mut Debugger<V>,
    depth: usize,
    function: String,
    hooked: &mut Debugger<V>,
    frames: usize,
    top: &StackInfo,
    halted: Option<Event>,
)
    requires
        call_ensures(Debugger::<V>::next, (stepped, depth, function), ()),
        is_left_so(old(hooked)@, final(stepped)@),
        call_ensures(Debugger::<V>::hook, (hooked, frames, top), halted),
    ensures
        halted is Some <==> frames < depth || frames == depth && function@ == (
        match top.function_name {
            Some(name) => name@,
            None => "<Unknown function>"@,
        }),
        halted is Some ==> halts_for(halted, "step"@),
        final(stepped)@.do_continue,
{
}

/// Law: after a request to step out of a function, a program is halted at its next line exactly if
/// the stack is shallower than where the step started.
pub proof fn law_step_out<V>(
    stepped: &mut Debugger<V>,
    depth: usize,
    function: Option<String>,
    hooked: &mut Debugger<V>,
    frames: usize,
    top: &StackInfo,
    halted: Option<Event>,
)
    requires
        call_ensures(Debugger::<V>::step_out, (stepped, depth, function), ()),
        is_left_so(old(hooked)@, final(stepped)@),
        call_ensures(Debugger::<V>::hook, (hooked, frames, top), halted),
    ensures
        halted is Some <==> frames < depth,
        halted is Some ==> halts_for(halted, "step"@),
        final(stepped)@.do_continue,
{
}

/// Law: after a request to make a step, a program is halted at its very next line.
pub proof fn law_step_in<V>(
    stepped: &mut Debugger<V>,
    hooked: &mut Debugger<V>,
    frames: usize,
    top: &StackInfo,
    halted: Option<Event>,
)
    requires
        call_ensures(Debugger::<V>::step_in, (stepped,), ()),
        is_left_so(old(hooked)@, final(stepped)@),
        call_ensures(Debugger::<V>::hook, (hooked, frames, top), halted),
    ensures
        halts_for(halted, "step"@),
        final(stepped)@.do_continue,
{
}

/// Law: after a request to pause, a program is halted at its very next line. The request does not
/// make it go on.
pub proof fn law_pause<V>(
    paused: &mut Debugger<V>,
    hooked: &mut Debugger<V>,
    frames: usize,
    top: &StackInfo,
    halted: Option<Event>,
)
    requires
        call_ensures(Debugger::<V>::pause, (paused,), ()),
        is_left_so(old(hooked)@, final(paused)@),
        call_ensures(Debugger::<V>::hook, (hooked, frames, top), halted),
    ensures
        halts_for(halted, "pause"@),
        final(paused)@.do_continue == old(paused)@.do_continue,
{
}

/// Law: a request to go on makes the program go on and changes nothing else: whatever it would have
/// been halted at before, it is halted at now.
pub proof fn law_continue<V>(debugger: &mut Debugger<V>)
    requires
        call_ensures(Debugger::<V>::continue_, (debugger,), ()),
    ensures
        final(debugger)@.do_continue,
        is_left_so(final(debugger)@, old(debugger)@),
{
}

/// Law: a program that is not halted leaves everything as it was, so that a step goes on until it is
/// done. One that is halted has made its step: it goes on to the next breakpoint from there. The
/// values that the client could ask for are forgotten.
pub proof fn law_steps_are_made_once<V>(
    hooked: &mut Debugger<V>,
    frames: usize,
    top: &StackInfo,
    halted: Option<Event>,
    again: &mut Debugger<V>,
    depth: usize,
    next: &StackInfo,
    halted_again: Option<Event>,
    asked: &Debugger<V>,
    source_name: &str,
    line: u32,
    halt: bool,
)
    requires
        call_ensures(Debugger::<V>::hook, (hooked, frames, top), halted),
        is_left_so(old(again)@, final(hooked)@),
        call_ensures(Debugger::<V>::hook, (again, depth, next), halted_again),
        asked@ == final(hooked)@,
        next.line == Some(line),
        next.source_name@ == source_name@,
        call_ensures(Debugger::<V>::should_break, (asked, source_name, line), halt),
    ensures
        halted is None ==> final(hooked)@ == old(hooked)@,
        halted is Some ==> {
            &&& halted_again is Some <==> halt
            &&& halt ==> halts_for(halted_again, "breakpoint"@)
            &&& final(hooked)@.variables == Map::<i64, V>::empty()
        },
{
}

/// Law: after a request to halt at lines of a file, a program that is neither stepped nor paused is
/// halted in this file at these lines and at no others. The lines are counted from one if the client
/// does so, and all of them are confirmed in their order.
pub proof fn law_breakpoints<V>(
    debugger: &mut Debugger<V>,
    filename: String,
    source: Source,
    lines: Vec<i64>,
    confirmed: Vec<Breakpoint>,
    name: &str,
    module: String,
    hooked: &mut Debugger<V>,
    frames: usize,
    top: &StackInfo,
    halted: Option<Event>,
    from: int,
)
    requires
        call_ensures(
            Debugger::<V>::set_breakpoints,
            (debugger, Some(filename), source, Some(lines)),
            confirmed,
        ),
        name@ == filename@,
        call_ensures(program_module, (name,), module),
        is_left_so(old(hooked)@, final(debugger)@),
        call_ensures(Debugger::<V>::hook, (hooked, frames, top), halted),
        old(debugger)@.pause == Pause::Nothing,
        top.source_name@ == module@,
        from == (if old(debugger)@.lines_start_at_1 {
            1int
        } else {
            0int
        }),
        forall|i: int| 0 <= i < lines@.len() ==> from <= #[trigger] lines@[i] <= u32::MAX,
    ensures
        halted is Some <==> (top.line matches Some(line) && exists|i: int|
            0 <= i < lines@.len() && #[trigger] lines@[i] == line + from),
        halted is Some ==> halts_for(halted, "breakpoint"@),
        confirmed@.len() == lines@.len(),
        forall|i: int|
            0 <= i < confirmed@.len() ==> (#[trigger] confirmed@[i]).line == lines@[i]
                && confirmed@[i].verified,
{
    let one_based = old(debugger)@.lines_start_at_1;
    let set = line_set(lines@, one_based);
    let indices = lines@.map_values(|line: i64| line_index(line, one_based));
    if let Some(line) = top.line {
        if exists|i: int| 0 <= i < lines@.len() && #[trigger] lines@[i] == line + from {
            let i = choose|i: int| 0 <= i < lines@.len() && #[trigger] lines@[i] == line + from;
            assert(indices[i] == line);
            assert(set.contains(line));
        }
        if set.contains(line) {
            let i = choose|i: int| 0 <= i < indices.len() && indices[i] == line;
            assert(lines@[i] == line + from);
        }
    }
}

/// Law: a request to halt at lines of one file does not change where a program is halted in others,
/// and does not touch a step that is under way.
pub proof fn law_breakpoints_of_other_files_stay<V>(
    debugger: &mut Debugger<V>,
    filename: Option<String>,
    source: Source,
    lines: Option<Vec<i64>>,
    confirmed: Vec<Breakpoint>,
    before: &mut Debugger<V>,
    after: &mut Debugger<V>,
    frames: usize,
    top: &StackInfo,
    halted_before: Option<Event>,
    halted_after: Option<Event>,
    name: &str,
    module: String,
)
    requires
        call_ensures(
            Debugger::<V>::set_breakpoints,
            (debugger, filename, source, lines),
            confirmed,
        ),
        old(before)@ == old(debugger)@,
        old(after)@ == final(debugger)@,
        call_ensures(Debugger::<V>::hook, (before, frames, top), halted_before),
        call_ensures(Debugger::<V>::hook, (after, frames, top), halted_after),
        call_ensures(program_module, (name,), module),
        filename matches Some(filename) ==> filename@ == name@ && module@ != top.source_name@,
    ensures
        halted_before is Some <==> halted_after is Some,
        final(debugger)@.do_continue == old(debugger)@.do_continue,
{
}

/// Law: a client that says nothing, or that it counts from one, counts the lines from one; one that
/// says otherwise counts them from zero.
pub proof fn law_lines_are_counted_as_agreed<V>(
    debugger: &mut Debugger<V>,
    lines_start_at_1: Option<bool>,
    answer: (Event, Capabilities),
    counting: &Debugger<V>,
    line: i64,
    index: u32,
)
    requires
        call_ensures(InitializeHandler::execute::<V>, (debugger, lines_start_at_1), answer),
        counting@ == final(debugger)@,
        call_ensures(Debugger::<V>::line, (counting, line), index),
        1 <= line <= u32::MAX,
    ensures
        lines_start_at_1 == Some(false) ==> index == line,
        lines_start_at_1 != Some(false) ==> index == line - 1,
        answer.0.body is Initialized,
        answer.1.supports_configuration_done_request,
{
}

/// Law: events and responses are numbered one after the other, from one on.
pub proof fn law_numbers_ascend<V>(
    fresh: Debugger<V>,
    first: &mut Debugger<V>,
    one: i64,
    debugger: &mut Debugger<V>,
    n: i64,
    later: &mut Debugger<V>,
    next: i64,
)
    requires
        call_ensures(Debugger::<V>::new, (), fresh),
        old(first)@ == fresh@,
        call_ensures(Debugger::<V>::seq, (first,), one),
        call_ensures(Debugger::<V>::seq, (debugger,), n),
        old(later)@ == final(debugger)@,
        call_ensures(Debugger::<V>::seq, (later,), next),
        0 <= old(debugger)@.seq < i64::MAX,
        old(debugger)@.seq < usize::MAX,
    ensures
        one == 1,
        next == n + 1,
{
}

/// Law: a program that was halted is waited for. One that has ended is told to have ended, by the
/// last event; if it has failed, an event in front of that says how.
pub proof fn law_ends_are_told<V>(debugger: &mut Debugger<V>, run: Run, next: AfterRun)
    requires
        call_ensures(Debugger::<V>::ran, (debugger, run), next),
        old(debugger)@.seq < i64::MAX,
        old(debugger)@.seq < usize::MAX,
    ensures
        next is Wait <==> run is Halted,
        next matches AfterRun::Tell { failure, terminated } ==> {
            &&& terminated.body is Terminated
            &&& failure is Some <==> run is Failed
            &&& failure matches Some(event) ==> {
                &&& event.body matches EventBody::Output { output } && output == run->Failed_0
                &&& event.seq + 1 == terminated.seq
            }
        },
{
}

/// Law: a stack trace shows all frames but the outermost, from the innermost on: the function, the
/// line counted from one, and the source that the debugger knows. Each frame has an id of its own.
pub proof fn law_stack_trace_shows_the_frames<V>(
    debugger: &mut Debugger<V>,
    infos: &Vec<StackInfo>,
    frames: Vec<StackFrame>,
)
    requires
        call_ensures(Debugger::<V>::stack_trace, (debugger, infos), frames),
        infos@.len() <= i64::MAX,
    ensures
        infos@.len() > 0 ==> frames@.len() == infos@.len() - 1,
        infos@.len() == 0 ==> frames@.len() == 0,
        forall|i: int|
            0 <= i < frames@.len() ==> {
                &&& (#[trigger] frames@[i]).line == (match infos@[i].line {
                    Some(line) => line + 1,
                    None => 0,
                })
                &&& frames@[i].name@ == (match infos@[i].function_name {
                    Some(name) => name@,
                    None => "<unknown>"@,
                })
            },
        forall|i: int, j: int|
            0 <= i < j < frames@.len() ==> (#[trigger] frames@[i]).id != (
            #[trigger] frames@[j]).id,
{
    let inner = without_outermost(infos@);
    let sources = with_guesses(old(debugger)@.sources, inner);
    assert forall|i: int, j: int| 0 <= i < j < frames@.len() implies (#[trigger] frames@[i]).id != (
    #[trigger] frames@[j]).id by {
        assert(is_frame(sources, i, inner[i], frames@[i]));
        assert(is_frame(sources, j, inner[j], frames@[j]));
    }
    assert forall|i: int| 0 <= i < frames@.len() implies {
        &&& (#[trigger] frames@[i]).line == (match infos@[i].line {
            Some(line) => line + 1,
            None => 0,
        })
        &&& frames@[i].name@ == (match infos@[i].function_name {
            Some(name) => name@,
            None => "<unknown>"@,
        })
    } by {
        assert(is_frame(sources, i, inner[i], frames@[i]));
        assert(inner[i] == infos@[i]);
    }
}

/// Law: the scopes that are asked for with the id of a frame of a stack trace are the locals and the
/// upvars of that very frame: their references lead back to it, counted from the innermost, and to
/// its place on the stack.
pub proof fn law_scopes_belong_to_their_frame<V>(
    debugger: &mut Debugger<V>,
    infos: &Vec<StackInfo>,
    frames: Vec<StackFrame>,
    i: int,
    asked: &Debugger<V>,
    locals: usize,
    scopes: Vec<Scope>,
    first: VariableReference,
    second: VariableReference,
)
    requires
        call_ensures(Debugger::<V>::stack_trace, (debugger, infos), frames),
        0 <= i < frames@.len(),
        (i + 1) * 2 <= i64::MAX,
        i <= usize::MAX,
        call_ensures(
            Debugger::<V>::scopes,
            (asked, frames@[i].id, Some(&infos@[i]), locals),
            scopes,
        ),
        call_ensures(translate_reference, (scopes@[0].variables_reference,), first),
        call_ensures(translate_reference, (scopes@[1].variables_reference,), second),
    ensures
        scopes@.len() == 2,
        scopes@[0].name@ == "Locals"@,
        scopes@[1].name@ == "Upvars"@,
        first.stack_index == i,
        first.typ == VariableType::Local,
        second.stack_index == i,
        second.typ == VariableType::Upvar,
        scopes@[0].variables_reference > 0,
        scopes@[1].variables_reference > 0,
        scopes@[0].variables_reference != scopes@[1].variables_reference,
        forall|k: int|
            0 <= k < 2 ==> (#[trigger] scopes@[k]).line == (match infos@[i].line {
                Some(line) => Some((line + 1) as i64),
                None => None,
            }) && !scopes@[k].expensive && (locals <= i64::MAX ==> scopes@[k].named_variables
                == locals),
{
    let inner = without_outermost(infos@);
    assert(is_frame(with_guesses(old(debugger)@.sources, inner), i, inner[i], frames@[i]));
    law_scope_references_lead_back(i, VariableType::Local);
    law_scope_references_lead_back(i, VariableType::Upvar);
    assert(is_scope(asked@.sources, infos@[i], locals, scopes@[0]));
    assert(is_scope(asked@.sources, infos@[i], locals, scopes@[1]));
}

/// Law: a frame that does not exist has no scopes.
pub proof fn law_missing_frames_have_no_scopes<V>(
    debugger: &Debugger<V>,
    frame_id: i64,
    locals: usize,
    scopes: Vec<Scope>,
)
    requires
        call_ensures(
            Debugger::<V>::scopes,
            (debugger, frame_id, None::<&StackInfo>, locals),
            scopes,
        ),
    ensures
        scopes@.len() == 0,
{
}

/// Law: the references of the scopes of a frame lead to the variables of that frame, where the stack
/// is as deep as it was.
pub proof fn law_scopes_lead_to_the_variables_of_their_frame<V>(
    debugger: &Debugger<V>,
    frame_id: i64,
    info: &StackInfo,
    locals: usize,
    scopes: Vec<Scope>,
    asked: &Debugger<V>,
    frames: usize,
    first: VariablesTarget<V>,
    second: VariablesTarget<V>,
)
    requires
        0 <= frame_id < frames,
        (frame_id + 1) * 2 <= i64::MAX,
        call_ensures(
            Debugger::<V>::scopes,
            (debugger, frame_id, Some(info), locals),
            scopes,
        ),
        call_ensures(
            Debugger::<V>::variables_target,
            (asked, scopes@[0].variables_reference, frames),
            first,
        ),
        call_ensures(
            Debugger::<V>::variables_target,
            (asked, scopes@[1].variables_reference, frames),
            second,
        ),
    ensures
        first matches VariablesTarget::Frame { place, typ } && place + frame_id + 1 == frames && typ
            == VariableType::Local,
        second matches VariablesTarget::Frame { place, typ } && place + frame_id + 1 == frames
            && typ == VariableType::Upvar,
{
    law_scope_references_lead_back(frame_id as int, VariableType::Local);
    law_scope_references_lead_back(frame_id as int, VariableType::Upvar);
}

/// Law: values are shown in their order, each under its name, with its type and as it is printed. A
/// value without parts has no reference. The parts of any other can be asked for by a reference that
/// no other value has, as long as the stack is not too deep for that.
pub proof fn law_values_are_shown<V>(
    debugger: &mut Debugger<V>,
    raw: Vec<RawVariable<V>>,
    shown: Vec<Variable>,
    i: int,
    asked: &Debugger<V>,
    frames: usize,
    target: VariablesTarget<V>,
)
    requires
        old(debugger).well_formed(),
        old(debugger)@.last_reference - raw@.len() >= i64::MIN,
        call_ensures(Debugger::<V>::variables, (debugger, raw), shown),
        0 <= i < raw@.len(),
        asked@ == final(debugger)@,
        call_ensures(
            Debugger::<V>::variables_target,
            (asked, shown@[i].variables_reference, frames),
            target,
        ),
        final(debugger)@.last_reference > 2 * frames,
    ensures
        shown@.len() == raw@.len(),
        shown@[i].name == raw@[i].name,
        shown@[i].typ == raw@[i].typ,
        shown@[i].value == raw@[i].printed,
        match raw@[i].kind {
            ValueKind::Array(n) => {
                &&& shown@[i].indexed_variables == Some(n as i64)
                &&& shown@[i].named_variables is None
            },
            ValueKind::Data(n) | ValueKind::Closure(n) => {
                &&& shown@[i].named_variables == Some(n as i64)
                &&& shown@[i].indexed_variables is None
            },
            ValueKind::Plain => {
                &&& shown@[i].named_variables is None
                &&& shown@[i].indexed_variables is None
            },
        },
        shown@[i].variables_reference == 0 <==> raw@[i].kind is Plain,
        !(raw@[i].kind is Plain) ==> target is Value && *target->Value_0 == raw@[i].value,
        forall|j: int|
            0 <= j < raw@.len() && j != i && !(raw@[i].kind is Plain) ==> (
            #[trigger] shown@[j]).variables_reference != shown@[i].variables_reference,
{
    assert(is_shown(
        raw@[i],
        old(debugger)@.last_reference - structured(raw@.take(i)),
        shown@[i],
    ));
    lemma_structured(raw@, i, raw@.len() as int);
    lemma_structured(raw@, 0, raw@.len() as int);
    assert(raw@.take(0) =~= Seq::<RawVariable<V>>::empty());
    assert(raw@.take(raw@.len() as int) =~= raw@);
    if !(raw@[i].kind is Plain) {
        law_values_are_no_frames(*final(debugger), shown@[i].variables_reference, frames);
        assert forall|j: int| 0 <= j < raw@.len() && j != i implies (
        #[trigger] shown@[j]).variables_reference != shown@[i].variables_reference by {
            assert(is_shown(
                raw@[j],
                old(debugger)@.last_reference - structured(raw@.take(j)),
                shown@[j],
            ));
            if j < i {
                lemma_structured(raw@, j, i);
            } else {
                lemma_structured(raw@, i, j);
            }
        }
    }
}

/// A value that has parts counts.
proof fn lemma_structured<V>(raw: Seq<RawVariable<V>>, i: int, j: int)
    requires
        0 <= i < j <= raw.len(),
    ensures
        structured(raw.take(i)) + (if raw[i].kind is Plain {
            0int
        } else {
            1int
        }) <= structured(raw.take(j)),
        structured(raw.take(j)) - structured(raw.take(i)) <= j - i,
    decreases j,
{
    assert(raw.take(j).drop_last() =~= raw.take(j - 1));
    if i < j - 1 {
        lemma_structured(raw, i, j - 1);
    }
}

/// Law: values that were shown before stay where they are when others are shown.
pub proof fn law_shown_values_stay<V>(
    debugger: &mut Debugger<V>,
    raw: Vec<RawVariable<V>>,
    shown: Vec<Variable>,
    reference: i64,
    frames: usize,
    before: &Debugger<V>,
    target: VariablesTarget<V>,
    after: &Debugger<V>,
    later: VariablesTarget<V>,
)
    requires
        call_ensures(Debugger::<V>::variables, (debugger, raw), shown),
        before@ == old(debugger)@,
        after@ == final(debugger)@,
        call_ensures(Debugger::<V>::variables_target, (before, reference, frames), target),
        call_ensures(Debugger::<V>::variables_target, (after, reference, frames), later),
        target is Value,
    ensures
        later is Value,
        *later->Value_0 == *target->Value_0,
{
}

/// The sources of the frames are known, those that were known stay as they are, and no others are
/// made up.
proof fn lemma_guesses(sources: Sources, infos: Seq<StackInfo>)
    ensures
        forall|i: int|
            0 <= i < infos.len() ==> with_guesses(sources, infos).dom().contains(
                (#[trigger] infos[i]).source_name@,
            ),
        forall|name: Seq<char>| #[trigger]
            with_guesses(sources, infos).dom().contains(name) ==> with_guesses(sources, infos)[name]
                == (if sources.dom().contains(name) {
                sources[name]
            } else {
                guessed_data(name)
            }),
        forall|name: Seq<char>|
            sources.dom().contains(name) ==> #[trigger] with_guesses(
                sources,
                infos,
            ).dom().contains(name),
    decreases infos.len(),
{
    if infos.len() > 0 {
        lemma_guesses(sources, infos.drop_last());
        assert forall|i: int| 0 <= i < infos.len() implies with_guesses(
            sources,
            infos,
        ).dom().contains((#[trigger] infos[i]).source_name@) by {
            if i < infos.len() - 1 {
                assert(infos.drop_last()[i] == infos[i]);
            }
        }
    }
}

/// Law: a frame is shown with the source that the client has told of the file in which the program
/// is.
pub proof fn law_frames_show_the_clients_sources<V>(
    debugger: &mut Debugger<V>,
    filename: String,
    source: Source,
    lines: Option<Vec<i64>>,
    confirmed: Vec<Breakpoint>,
    name: &str,
    module: String,
    traced: &mut Debugger<V>,
    infos: &Vec<StackInfo>,
    frames: Vec<StackFrame>,
    i: int,
)
    requires
        call_ensures(
            Debugger::<V>::set_breakpoints,
            (debugger, Some(filename), source, lines),
            confirmed,
        ),
        name@ == filename@,
        call_ensures(program_module, (name,), module),
        is_left_so(old(traced)@, final(debugger)@),
        call_ensures(Debugger::<V>::stack_trace, (traced, infos), frames),
        0 <= i < frames@.len(),
        infos@[i].source_name@ == module@,
    ensures
        frames@[i].source matches Some(shown) && shown@ == source@,
{
    let inner = without_outermost(infos@);
    lemma_guesses(old(traced)@.sources, inner);
    assert(inner[i] == infos@[i]);
    assert(is_frame(with_guesses(old(traced)@.sources, inner), i, inner[i], frames@[i]));
}

/// Law: a source that the client has not told anything of is shown with the name that the compiler
/// has for it, and with the path of the file that it is expected in. To show it is not to halt in
/// it, and it does not change where else the program is halted.
pub proof fn law_frames_show_sources_by_name<V>(
    traced: &mut Debugger<V>,
    infos: &Vec<StackInfo>,
    frames: Vec<StackFrame>,
    i: int,
    name: &str,
    filename: String,
)
    requires
        !old(traced)@.sources.dom().contains(infos@[i].source_name@),
        call_ensures(Debugger::<V>::stack_trace, (traced, infos), frames),
        0 <= i < frames@.len(),
        name@ == infos@[i].source_name@,
        call_ensures(module_filename, (name,), filename),
    ensures
        frames@[i].source is Some,
        frames@[i].source.unwrap().name is Some,
        frames@[i].source.unwrap().name.unwrap()@ == name@,
        frames@[i].source.unwrap().path is Some,
        frames@[i].source.unwrap().path.unwrap()@ == filename@,
{
    let inner = without_outermost(infos@);
    lemma_guesses(old(traced)@.sources, inner);
    assert(inner[i] == infos@[i]);
    assert(is_frame(with_guesses(old(traced)@.sources, inner), i, inner[i], frames@[i]));
}

/// Law: to ask for the stack does not change where a program is halted, nor whether it goes on.
pub proof fn law_stack_traces_change_no_breakpoints<V>(
    traced: &mut Debugger<V>,
    infos: &Vec<StackInfo>,
    frames: Vec<StackFrame>,
    before: &mut Debugger<V>,
    after: &mut Debugger<V>,
    depth: usize,
    top: &StackInfo,
    halted_before: Option<Event>,
    halted_after: Option<Event>,
)
    requires
        call_ensures(Debugger::<V>::stack_trace, (traced, infos), frames),
        old(before)@ == old(traced)@,
        old(after)@ == final(traced)@,
        call_ensures(Debugger::<V>::hook, (before, depth, top), halted_before),
        call_ensures(Debugger::<V>::hook, (after, depth, top), halted_after),
    ensures
        halted_before is Some <==> halted_after is Some,
        final(traced)@.do_continue == old(traced)@.do_continue,
        final(traced)@.variables == old(traced)@.variables,
{
    lemma_guesses(old(traced)@.sources, without_outermost(infos@));
}

/// Law: a program that is to be started has to be named, and to exist. It is then compiled as the
/// module that is looked up when lines of its file are to be halted at.
pub proof fn law_programs_are_launched(
    program: Option<String>,
    named: Result<String, ServerError<()>>,
    filename: &str,
    contents: Option<String>,
    result: Result<Launch, ServerError<()>>,
    module: String,
)
    requires
        call_ensures(LaunchHandler::program, (program,), named),
        call_ensures(LaunchHandler::execute_launch, (filename, contents), result),
        call_ensures(program_module, (filename,), module),
    ensures
        named is Ok <==> program is Some,
        program matches Some(program) ==> named->Ok_0 == program,
        result is Ok <==> contents is Some,
        contents matches Some(contents) ==> result->Ok_0.source == contents,
        result matches Ok(launch) ==> launch.module@ == module@,
        result matches Err(error) ==> error.message@ == "Program does not exist: `"@ + filename@
            + "`"@,
        named matches Err(error) ==> error.message@ == "No program argument found"@,
{
}

/// Law: a client is done once it has said so, and not before.
pub proof fn law_disconnect(
    fresh: DisconnectHandler,
    at_first: bool,
    told: &mut DisconnectHandler,
    asked: &DisconnectHandler,
    done: bool,
)
    requires
        call_ensures(DisconnectHandler::new, (), fresh),
        call_ensures(DisconnectHandler::is_disconnected, (&fresh,), at_first),
        call_ensures(DisconnectHandler::execute, (told,), ()),
        asked@ == final(told)@,
        call_ensures(DisconnectHandler::is_disconnected, (asked,), done),
    ensures
        !at_first,
        done,
{
}

/// Law: there is one thread, and each kind of event has the name that the protocol has for it.
pub proof fn law_names_of_the_protocol<V>(threads: Vec<Thread>, event: Event, name: String)
    requires
        call_ensures(Debugger::<V>::threads, (), threads),
        call_ensures(Event::name, (&event,), name),
    ensures
        threads@.len() == 1,
        threads@[0].id == 1,
        threads@[0].name@ == "main"@,
        match event.body {
            EventBody::Initialized => name@ == "initialized"@,
            EventBody::Stopped { .. } => name@ == "stopped"@,
            EventBody::Output { .. } => name@ == "output"@,
            EventBody::Terminated => name@ == "terminated"@,
        },
{
}

/// Law: a debugger that has not been told anything halts a program nowhere, counts lines from one,
/// and does not make a program go on.
pub proof fn law_fresh_debuggers_do_nothing<V>(
    fresh: Debugger<V>,
    hooked: &mut Debugger<V>,
    frames: usize,
    top: &StackInfo,
    halted: Option<Event>,
    line: i64,
    index: u32,
    asked: &mut Debugger<V>,
    go_on: bool,
    reference: i64,
    target: VariablesTarget<V>,
)
    requires
        call_ensures(Debugger::<V>::new, (), fresh),
        old(hooked)@ == fresh@,
        call_ensures(Debugger::<V>::hook, (hooked, frames, top), halted),
        1 <= line <= u32::MAX,
        call_ensures(Debugger::<V>::line, (&fresh, line), index),
        old(asked)@ == fresh@,
        call_ensures(Debugger::<V>::answered, (asked,), go_on),
        call_ensures(Debugger::<V>::variables_target, (&fresh, reference, 0usize), target),
    ensures
        halted is None,
        index == line - 1,
        !go_on,
        target is Nothing,
{
}

/// Law: the first line, and what stands in front of it, is the first.
pub proof fn law_first_lines<V>(debugger: &Debugger<V>, zero: u32, one: u32)
    requires
        call_ensures(Debugger::<V>::line, (debugger, 0i64), zero),
        call_ensures(Debugger::<V>::line, (debugger, 1i64), one),
    ensures
        zero == 0,
        one == (if debugger@.lines_start_at_1 {
            0u32
        } else {
            1u32
        }),
{
}

/// Law: after a request that asks for it the program goes on, once.
pub proof fn law_programs_go_on_once<V>(
    stepped: &mut Debugger<V>,
    depth: usize,
    function: String,
    answered: &mut Debugger<V>,
    go_on: bool,
    again: &mut Debugger<V>,
    go_on_again: bool,
)
    requires
        call_ensures(Debugger::<V>::continue_, (stepped,), ()) || call_ensures(
            Debugger::<V>::step_in,
            (stepped,),
            (),
        ) || call_ensures(Debugger::<V>::next, (stepped, depth, function), ()) || call_ensures(
            Debugger::<V>::step_out,
            (stepped, depth, Some(function)),
            (),
        ),
        old(answered)@ == final(stepped)@,
        call_ensures(Debugger::<V>::answered, (answered,), go_on),
        old(again)@ == final(answered)@,
        call_ensures(Debugger::<V>::answered, (again,), go_on_again),
    ensures
        go_on,
        !go_on_again,
        is_left_so(final(answered)@, final(stepped)@),
{
}

/// Law: whatever is told of without having been asked for has the next number, and takes one.
pub proof fn law_events_are_numbered<V>(
    numbered: &mut Debugger<V>,
    seq: i64,
    hooked: &mut Debugger<V>,
    frames: usize,
    top: &StackInfo,
    halted: Option<Event>,
    initialized: &mut Debugger<V>,
    lines_start_at_1: Option<bool>,
    answer: (Event, Capabilities),
    finished: &mut Debugger<V>,
    next: AfterRun,
)
    requires
        call_ensures(Debugger::<V>::seq, (numbered,), seq),
        old(hooked)@ == old(numbered)@,
        call_ensures(Debugger::<V>::hook, (hooked, frames, top), halted),
        old(initialized)@ == old(numbered)@,
        call_ensures(InitializeHandler::execute::<V>, (initialized, lines_start_at_1), answer),
        old(finished)@ == old(numbered)@,
        call_ensures(Debugger::<V>::ran, (finished, Run::Finished), next),
    ensures
        halted matches Some(event) ==> event.seq == seq && final(hooked)@.seq
            == final(numbered)@.seq,
        halted is None ==> final(hooked)@.seq == old(numbered)@.seq,
        answer.0.seq == seq,
        final(initialized)@.seq == final(numbered)@.seq,
        next is Tell,
        next->terminated.seq == seq,
        final(finished)@.seq == final(numbered)@.seq,
{
}

/// Law: a request without lines takes back those that were asked for before: the program is not
/// halted in this file any more.
pub proof fn law_breakpoints_are_taken_back<V>(
    debugger: &mut Debugger<V>,
    filename: String,
    source: Source,
    confirmed: Vec<Breakpoint>,
    name: &str,
    module: String,
    hooked: &mut Debugger<V>,
    frames: usize,
    top: &StackInfo,
    halted: Option<Event>,
)
    requires
        call_ensures(
            Debugger::<V>::set_breakpoints,
            (debugger, Some(filename), source, None::<Vec<i64>>),
            confirmed,
        ),
        name@ == filename@,
        call_ensures(program_module, (name,), module),
        is_left_so(old(hooked)@, final(debugger)@),
        call_ensures(Debugger::<V>::hook, (hooked, frames, top), halted),
        old(debugger)@.pause == Pause::Nothing,
        top.source_name@ == module@,
    ensures
        halted is None,
        confirmed@.len() == 0,
{
    let empty = Seq::<i64>::empty();
    let one_based = old(debugger)@.lines_start_at_1;
    let indices = empty.map_values(|line: i64| line_index(line, one_based));
    assert(line_set(empty, one_based) =~= Set::<u32>::empty()) by {
        assert(indices =~= Seq::<u32>::empty());
    }
}

/// Law: the scopes of a frame have the source that the stack trace has shown for it, and a frame
/// stands at the begin of its line.
pub proof fn law_scopes_have_the_source_of_their_frame<V>(
    debugger: &mut Debugger<V>,
    infos: &Vec<StackInfo>,
    frames: Vec<StackFrame>,
    i: int,
    asked: &Debugger<V>,
    locals: usize,
    scopes: Vec<Scope>,
    k: int,
)
    requires
        call_ensures(Debugger::<V>::stack_trace, (debugger, infos), frames),
        0 <= i < frames@.len(),
        asked@ == final(debugger)@,
        call_ensures(
            Debugger::<V>::scopes,
            (asked, frames@[i].id, Some(&infos@[i]), locals),
            scopes,
        ),
        0 <= k < 2,
    ensures
        source_view(scopes@[k].source) == source_view(frames@[i].source),
        frames@[i].column == 0,
{
    let inner = without_outermost(infos@);
    assert(inner[i] == infos@[i]);
    assert(is_frame(with_guesses(old(debugger)@.sources, inner), i, inner[i], frames@[i]));
    assert(is_scope(asked@.sources, infos@[i], locals, scopes@[k]));
}

/// Law: frames of the same source are shown with the same source, in one stack trace and from one to
/// the next.
pub proof fn law_sources_stay_the_same<V>(
    first: &mut Debugger<V>,
    infos: &Vec<StackInfo>,
    frames: Vec<StackFrame>,
    second: &mut Debugger<V>,
    later: &Vec<StackInfo>,
    later_frames: Vec<StackFrame>,
    i: int,
    j: int,
)
    requires
        call_ensures(Debugger::<V>::stack_trace, (first, infos), frames),
        is_left_so(old(second)@, final(first)@),
        call_ensures(Debugger::<V>::stack_trace, (second, later), later_frames),
        0 <= i < frames@.len(),
        0 <= j < later_frames@.len(),
        infos@[i].source_name@ == later@[j].source_name@,
    ensures
        source_view(frames@[i].source) == source_view(later_frames@[j].source),
{
    let inner = without_outermost(infos@);
    let inner_later = without_outermost(later@);
    lemma_guesses(old(first)@.sources, inner);
    lemma_guesses(old(second)@.sources, inner_later);
    assert(inner[i] == infos@[i]);
    assert(inner_later[j] == later@[j]);
    assert(is_frame(with_guesses(old(first)@.sources, inner), i, inner[i], frames@[i]));
    assert(is_frame(
        with_guesses(old(second)@.sources, inner_later),
        j,
        inner_later[j],
        later_frames@[j],
    ));
}

/// Whether a debugger still knows all sources and values that another knew, and counts lines as it
/// did.
pub open spec fn knows_the_same<V>(debugger: DebuggerView<V>, other: DebuggerView<V>) -> bool {
    &&& debugger.sources == other.sources
    &&& debugger.variables == other.variables
    &&& debugger.last_reference == other.last_reference
    &&& debugger.lines_start_at_1 == other.lines_start_at_1
}

/// Law: requests to step, to pause and to go on leave the breakpoints and the values that can be
/// asked for as they are, and take no number.
pub proof fn law_steps_change_nothing_else<V>(
    stepped: &mut Debugger<V>,
    depth: usize,
    function: String,
    unknown: Option<String>,
)
    requires
        call_ensures(Debugger::<V>::next, (stepped, depth, function), ()) || call_ensures(
            Debugger::<V>::step_out,
            (stepped, depth, unknown),
            (),
        ) || call_ensures(Debugger::<V>::step_in, (stepped,), ()) || call_ensures(
            Debugger::<V>::pause,
            (stepped,),
            (),
        ) || call_ensures(Debugger::<V>::continue_, (stepped,), ()),
    ensures
        knows_the_same(final(stepped)@, old(stepped)@),
        final(stepped)@.seq == old(stepped)@.seq,
{
}

/// Law: a program that is halted is halted at the same lines later on. What has been told of it, and
/// the numbers given out, change nothing else.
pub proof fn law_halting_keeps_breakpoints<V>(
    hooked: &mut Debugger<V>,
    frames: usize,
    top: &StackInfo,
    halted: Option<Event>,
    before: &Debugger<V>,
    after: &Debugger<V>,
    source_name: &str,
    line: u32,
    was: bool,
    is: bool,
    ending: &mut Debugger<V>,
    run: Run,
    next: AfterRun,
    numbered: &mut Debugger<V>,
    seq: i64,
)
    requires
        call_ensures(Debugger::<V>::hook, (hooked, frames, top), halted),
        before@ == old(hooked)@,
        after@ == final(hooked)@,
        call_ensures(Debugger::<V>::should_break, (before, source_name, line), was),
        call_ensures(Debugger::<V>::should_break, (after, source_name, line), is),
        call_ensures(Debugger::<V>::ran, (ending, run), next),
        call_ensures(Debugger::<V>::seq, (numbered,), seq),
    ensures
        was == is,
        final(hooked)@.do_continue == old(hooked)@.do_continue,
        final(hooked)@.lines_start_at_1 == old(hooked)@.lines_start_at_1,
        final(hooked)@.sources == old(hooked)@.sources,
        knows_the_same(final(ending)@, old(ending)@),
        final(ending)@.pause == old(ending)@.pause,
        final(ending)@.do_continue == old(ending)@.do_continue,
        final(numbered)@ == (DebuggerView { seq: final(numbered)@.seq, ..old(numbered)@ }),
{
}

/// Law: values that are shown change nothing but what can be asked for, and the first request of a
/// client nothing but how lines are counted.
pub proof fn law_showing_changes_nothing_else<V>(
    debugger: &mut Debugger<V>,
    raw: Vec<RawVariable<V>>,
    shown: Vec<Variable>,
    initialized: &mut Debugger<V>,
    lines_start_at_1: Option<bool>,
    answer: (Event, Capabilities),
)
    requires
        call_ensures(Debugger::<V>::variables, (debugger, raw), shown),
        call_ensures(InitializeHandler::execute::<V>, (initialized, lines_start_at_1), answer),
    ensures
        final(debugger)@ == (DebuggerView {
            variables: final(debugger)@.variables,
            last_reference: final(debugger)@.last_reference,
            ..old(debugger)@
        }),
        final(initialized)@ == (DebuggerView {
            lines_start_at_1: final(initialized)@.lines_start_at_1,
            seq: final(initialized)@.seq,
            ..old(initialized)@
        }),
{
}

/// Law: a reference to neither a frame nor a value stands for nothing, and one to a frame for that
/// frame, whatever values there are.
pub proof fn law_references_stand_for_frames_first<V>(
    debugger: &Debugger<V>,
    reference: i64,
    frames: usize,
    target: VariablesTarget<V>,
    frame: VariableReference,
)
    requires
        call_ensures(Debugger::<V>::variables_target, (debugger, reference, frames), target),
        call_ensures(translate_reference, (reference,), frame),
    ensures
        target is Frame <==> frame.stack_index < frames,
        target matches VariablesTarget::Frame { place, typ } ==> place + frame.stack_index + 1
            == frames && typ == frame.typ,
        target is Value <==> frame.stack_index >= frames && debugger@.variables.dom().contains(
            reference,
        ),
        target matches VariablesTarget::Value(value) ==> *value == debugger@.variables[reference],
{
}

/// Law: odd references are to locals and all others to upvars; each frame has two, from one on.
pub proof fn law_references_alternate(reference: i64, frame: VariableReference)
    requires
        call_ensures(translate_reference, (reference,), frame),
    ensures
        frame.typ == VariableType::Local <==> reference > 0 && reference % 2 == 1,
        reference > 0 ==> frame.stack_index == ((reference - 1) / 2) as usize,
        reference <= 0 ==> frame.stack_index == (-((1 - reference) / 2)) as usize,
{
}

/// Law: lines are counted as they come, whatever their number, and from zero after the last number.
pub proof fn law_numbers_of_any_size<V>(
    debugger: &Debugger<V>,
    line: i64,
    index: u32,
    last: &mut Debugger<V>,
    seq: i64,
    frames: usize,
    stack_index: usize,
    place: usize,
)
    requires
        call_ensures(Debugger::<V>::line, (debugger, line), index),
        old(last)@.seq == usize::MAX,
        call_ensures(Debugger::<V>::seq, (last,), seq),
        call_ensures(frame_index, (frames, stack_index), place),
    ensures
        debugger@.lines_start_at_1 && line as usize > 0 ==> index == (line as usize - 1) as u32,
        !debugger@.lines_start_at_1 || line as usize == 0 ==> index == line as usize as u32,
        final(last)@.seq == 0,
        place + stack_index + 1 == frames,
{
}

} // verus!
