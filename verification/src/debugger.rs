//! A debugger for gluon programs: when a program is halted, and what is told of it then.

use std::collections::HashSet;

use vstd::prelude::*;
use vstd::std_specs::hash::group_hash_axioms;

use crate::debugger::variables::{
    is_shown, reference_target, scope_reference, structured, translate_reference, RawVariable,
    Variable, VariableType, Variables, REFERENCE_END,
};
use crate::name::{filename_of_module, filename_to_module, module_filename, module_of_filename};
use crate::rpc::ServerError;
use crate::text::same_text;
use crate::text_map::TextMap;

pub mod laws;
pub mod messages;
pub mod session;
pub mod value_laws;
pub mod variables;

verus! {

broadcast use group_hash_axioms;

/// Where the code of a program comes from.
#[derive(Debug, PartialEq, Eq)]
pub struct Source {
    pub name: Option<String>,
    pub path: Option<String>,
    /// Whatever else the client said of it.
    pub other: Option<String>,
}

/// The mathematical form of a [`Source`].
pub struct SourceView {
    pub name: Option<Seq<char>>,
    pub path: Option<Seq<char>>,
    pub other: Option<Seq<char>>,
}

pub open spec fn text_view(text: Option<String>) -> Option<Seq<char>> {
    match text {
        Some(text) => Some(text@),
        None => None,
    }
}

impl View for Source {
    type V = SourceView;

    open spec fn view(&self) -> SourceView {
        SourceView {
            name: text_view(self.name),
            path: text_view(self.path),
            other: text_view(self.other),
        }
    }
}

pub open spec fn source_view(source: Option<Source>) -> Option<SourceView> {
    match source {
        Some(source) => Some(source@),
        None => None,
    }
}

/// A source that the client has not told anything of: the module has its name, and the file that
/// the module is expected in has its path.
pub open spec fn guessed_source(name: Seq<char>) -> SourceView {
    SourceView { name: Some(name), path: Some(filename_of_module(name)), other: None }
}

fn copy_text(text: &Option<String>) -> (copy: Option<String>)
    ensures
        copy == *text,
{
    match text {
        Some(text) => Some(text.clone()),
        None => None,
    }
}

fn copy_source(source: &Option<Source>) -> (copy: Option<Source>)
    ensures
        copy == *source,
{
    match source {
        Some(source) => Some(
            Source {
                name: copy_text(&source.name),
                path: copy_text(&source.path),
                other: copy_text(&source.other),
            },
        ),
        None => None,
    }
}

/// What is known of a source: how the client knows it, and the lines to halt at.
pub struct SourceData {
    pub source: Option<Source>,
    pub breakpoints: HashSet<u32>,
}

/// The mathematical form of a [`SourceData`].
pub struct SourceDataView {
    pub source: Option<SourceView>,
    pub breakpoints: Set<u32>,
}

impl View for SourceData {
    type V = SourceDataView;

    open spec fn view(&self) -> SourceDataView {
        SourceDataView { source: source_view(self.source), breakpoints: self.breakpoints@ }
    }
}

/// What is known of sources by their names.
pub type Sources = Map<Seq<char>, SourceDataView>;

pub open spec fn sources_view(sources: Map<Seq<char>, SourceData>) -> Sources {
    sources.map_values(|data: SourceData| data@)
}

/// Why a program is to be halted at the next occasion.
#[derive(Clone, Copy, Debug, PartialEq, Eq, Structural)]
pub enum Pause {
    /// For no reason but a breakpoint.
    Nothing,
    /// Because the client wants to pause.
    Pause,
    /// Because it has made a step.
    StepIn,
    /// Because it has left a function.
    StepOut,
    /// Because it has made a step that did not lead into a function.
    Next,
}

/// Where a step started.
#[derive(Debug, PartialEq, Eq)]
pub struct StepData {
    /// How many frames were on the stack.
    pub stack_frames: usize,
    /// The function that the program was in.
    pub function_name: String,
}

/// A frame on the stack of a program.
pub struct StackInfo {
    pub source_name: String,
    pub function_name: Option<String>,
    /// The line that the program is at, counted from zero.
    pub line: Option<u32>,
}

/// What is told of a program without having been asked for.
#[derive(Debug, PartialEq, Eq)]
pub enum EventBody {
    Initialized,
    /// The program was halted, for a reason.
    Stopped { reason: String },
    /// The program failed, and what is to be said of it.
    Output { output: String },
    /// The program has ended.
    Terminated,
}

/// An event with its number.
#[derive(Debug, PartialEq, Eq)]
pub struct Event {
    pub body: EventBody,
    pub seq: i64,
}

/// How far a program has run.
#[derive(Debug)]
pub enum Run {
    /// Up to a place where it was halted.
    Halted,
    /// To its end.
    Finished,
    /// To an error, of which this is to be said.
    Failed(String),
}

/// What is to be done once a program has run as far as it could.
#[derive(Debug, PartialEq, Eq)]
pub enum AfterRun {
    /// It is to be waited until the program is to go on.
    Wait,
    /// The client is to be told how the program failed, if it did, and that it has ended.
    Tell { failure: Option<Event>, terminated: Event },
}

/// The name of a kind of event.
pub open spec fn event_name(body: EventBody) -> Seq<char> {
    match body {
        EventBody::Initialized => "initialized"@,
        EventBody::Stopped { .. } => "stopped"@,
        EventBody::Output { .. } => "output"@,
        EventBody::Terminated => "terminated"@,
    }
}

impl Event {
    /// The name of the event.
    pub fn name(&self) -> (name: String)
        ensures
            name@ == event_name(self.body),
    {
        match self.body {
            EventBody::Initialized => "initialized".to_owned(),
            EventBody::Stopped { reason: _ } => "stopped".to_owned(),
            EventBody::Output { output: _ } => "output".to_owned(),
            EventBody::Terminated => "terminated".to_owned(),
        }
    }
}

/// What the debugger can do, of what not every debugger can.
#[derive(Clone, Copy, Debug, PartialEq, Eq, Structural)]
pub struct Capabilities {
    pub supports_configuration_done_request: bool,
}

/// A line to halt at, as it is confirmed.
#[derive(Clone, Copy, Debug, PartialEq, Eq, Structural)]
pub struct Breakpoint {
    pub line: i64,
    pub verified: bool,
}

/// A thread of a program.
#[derive(Debug, PartialEq, Eq)]
pub struct Thread {
    pub id: i64,
    pub name: String,
}

/// A frame on the stack of a program, as it is shown.
#[derive(Debug, PartialEq, Eq)]
pub struct StackFrame {
    pub id: i64,
    pub name: String,
    pub line: i64,
    pub column: i64,
    pub source: Option<Source>,
}

/// The variables of one kind of a frame, as they are shown.
#[derive(Debug, PartialEq, Eq)]
pub struct Scope {
    pub name: String,
    pub variables_reference: i64,
    pub named_variables: i64,
    pub expensive: bool,
    pub line: Option<i64>,
    pub source: Option<Source>,
}

/// What a reference stands for.
pub enum VariablesTarget<'a, V> {
    /// The variables of one kind of a frame. `place` is where the frame stands in a stack whose
    /// outermost frame comes first.
    Frame { place: usize, typ: VariableType },
    /// The parts of a value.
    Value(&'a V),
    Nothing,
}

/// The place of a frame in a stack whose outermost frame comes first, given its number counted from
/// the innermost.
pub fn frame_index(frames: usize, stack_index: usize) -> (index: usize)
    requires
        stack_index < frames,
    ensures
        index == frames - 1 - stack_index,
{
    frames - stack_index - 1
}

/// The state of a debugger. `V` are the values of a program.
pub struct Debugger<V> {
    sources: TextMap<SourceData>,
    variables: Variables<V>,
    seq: usize,
    lines_start_at_1: bool,
    do_continue: bool,
    pause: Pause,
    step_data: StepData,
}

/// The mathematical form of a [`Debugger`].
pub struct DebuggerView<V> {
    pub sources: Sources,
    pub variables: Map<i64, V>,
    pub last_reference: i64,
    pub seq: usize,
    pub lines_start_at_1: bool,
    pub do_continue: bool,
    pub pause: Pause,
    pub stack_frames: usize,
    pub function_name: Seq<char>,
}

impl<V> View for Debugger<V> {
    type V = DebuggerView<V>;

    closed spec fn view(&self) -> DebuggerView<V> {
        DebuggerView {
            sources: sources_view(self.sources@),
            variables: self.variables@,
            last_reference: self.variables.last(),
            seq: self.seq,
            lines_start_at_1: self.lines_start_at_1,
            do_continue: self.do_continue,
            pause: self.pause,
            stack_frames: self.step_data.stack_frames,
            function_name: self.step_data.function_name@,
        }
    }
}

/// The number of the next event, after wrapping around.
pub open spec fn next_seq(seq: usize) -> usize {
    if seq == usize::MAX {
        0
    } else {
        (seq + 1) as usize
    }
}

/// The number of a line, counted from zero, that a client has the number `line` for.
pub open spec fn line_index(line: i64, lines_start_at_1: bool) -> u32 {
    let n = line as usize;
    if lines_start_at_1 && n > 0 {
        (n - 1) as usize as u32
    } else {
        n as u32
    }
}

/// Whether a program is to be halted at a line of a source.
pub open spec fn is_breakpoint(
    sources: Sources,
    source_name: Seq<char>,
    line: u32,
) -> bool {
    sources.dom().contains(source_name) && sources[source_name].breakpoints.contains(line)
}

/// What a function without a name is called while stepping.
pub open spec fn function_or_unknown(name: Option<String>) -> Seq<char> {
    match name {
        Some(name) => name@,
        None => "<Unknown function>"@,
    }
}

/// Why a program is halted at its next line, if it is: `frames` are the frames on its stack, of
/// which `top` is the innermost.
///
/// A step out of a function goes on as long as the stack is as deep as where it started. A step
/// over functions goes on in deeper ones, and in a different one at the same depth, which is a tail
/// call.
pub open spec fn halt_reason<V>(
    debugger: DebuggerView<V>,
    frames: usize,
    top: StackInfo,
) -> Option<Seq<char>> {
    match debugger.pause {
        Pause::Pause => Some("pause"@),
        Pause::StepIn => Some("step"@),
        Pause::StepOut => if frames >= debugger.stack_frames {
            None
        } else {
            Some("step"@)
        },
        Pause::Next => if frames > debugger.stack_frames || frames == debugger.stack_frames
            && debugger.function_name != function_or_unknown(top.function_name) {
            None
        } else {
            Some("step"@)
        },
        Pause::Nothing => match top.line {
            Some(line) if is_breakpoint(debugger.sources, top.source_name@, line) => Some(
                "breakpoint"@,
            ),
            _ => None,
        },
    }
}

/// Whether the event with the number `seq` tells that the program was halted, for the given reason.
pub open spec fn tells_halt(event: Option<Event>, seq: i64, reason: Seq<char>) -> bool {
    match event {
        Some(Event { body: EventBody::Stopped { reason: said }, seq: number }) => number == seq
            && said@ == reason,
        _ => false,
    }
}

impl<V> Debugger<V> {
    pub closed spec fn well_formed(&self) -> bool {
        self.sources.well_formed() && self.variables.well_formed()
    }

    /// A debugger that has not been told anything.
    pub fn new() -> (debugger: Debugger<V>)
        ensures
            debugger.well_formed(),
            debugger@ == (DebuggerView {
                sources: Map::<Seq<char>, SourceDataView>::empty(),
                variables: Map::<i64, V>::empty(),
                last_reference: REFERENCE_END,
                seq: 1,
                lines_start_at_1: true,
                do_continue: false,
                pause: Pause::Nothing,
                stack_frames: 0,
                function_name: Seq::<char>::empty(),
            }),
    {
        let debugger: Debugger<V> = Debugger {
            sources: TextMap::new(),
            variables: Variables::new(),
            seq: 1,
            lines_start_at_1: true,
            do_continue: false,
            pause: Pause::Nothing,
            step_data: StepData { stack_frames: 0, function_name: String::new() },
        };
        assert(debugger@.sources =~= Map::<Seq<char>, SourceDataView>::empty());
        debugger
    }

    /// The number for the next event or response.
    pub fn seq(&mut self) -> (seq: i64)
        requires
            old(self).well_formed(),
        ensures
            final(self).well_formed(),
            seq == old(self)@.seq as i64,
            final(self)@ == (DebuggerView { seq: next_seq(old(self)@.seq), ..old(self)@ }),
    {
        let seq: usize = self.seq;
        self.seq = if seq == usize::MAX {
            0
        } else {
            seq + 1
        };
        #[verifier::truncate]
        (seq as i64)
    }

    /// Whether the program is to be halted at a line of a source.
    pub fn should_break(&self, source_name: &str, line: u32) -> (halt: bool)
        requires
            self.well_formed(),
        ensures
            halt == is_breakpoint(self@.sources, source_name@, line),
    {
        match self.sources.get(source_name) {
            Some(source) => source.breakpoints.contains(&line),
            None => false,
        }
    }

    /// The number of a line, counted from zero, that a client has the number `line` for.
    pub fn line(&self, line: i64) -> (index: u32)
        ensures
            index == line_index(line, self@.lines_start_at_1),
    {
        let n: usize = #[verifier::truncate]
        (line as usize);
        let index: usize = if self.lines_start_at_1 && n > 0 {
            n - 1
        } else {
            n
        };
        #[verifier::truncate]
        (index as u32)
    }

    fn event(&mut self, body: EventBody) -> (event: Event)
        requires
            old(self).well_formed(),
        ensures
            final(self).well_formed(),
            event == (Event { body, seq: old(self)@.seq as i64 }),
            final(self)@ == (DebuggerView { seq: next_seq(old(self)@.seq), ..old(self)@ }),
    {
        let seq = self.seq();
        Event { body, seq }
    }

    /// Takes note of how the client counts lines, which is from one unless it says otherwise.
    pub fn initialize(&mut self, lines_start_at_1: Option<bool>) -> (answer: (Event, Capabilities))
        requires
            old(self).well_formed(),
        ensures
            final(self).well_formed(),
            answer.0 == (Event { body: EventBody::Initialized, seq: old(self)@.seq as i64 }),
            answer.1 == (Capabilities { supports_configuration_done_request: true }),
            final(self)@ == (DebuggerView {
                lines_start_at_1: lines_start_at_1 != Some(false),
                seq: next_seq(old(self)@.seq),
                ..old(self)@
            }),
    {
        self.lines_start_at_1 = match lines_start_at_1 {
            Some(start) => start,
            None => true,
        };
        let event = self.event(EventBody::Initialized);
        (event, Capabilities { supports_configuration_done_request: true })
    }

    /// Decides whether the program is halted before it goes on with its next line. `frames` are the
    /// frames on its stack, of which `top` is the innermost. Where it is halted, the client is
    /// told, and the values that it could ask for are forgotten.
    pub fn hook(&mut self, frames: usize, top: &StackInfo) -> (halted: Option<Event>)
        requires
            old(self).well_formed(),
        ensures
            final(self).well_formed(),
            match halt_reason(old(self)@, frames, *top) {
                None => {
                    &&& halted is None
                    &&& final(self)@ == old(self)@
                },
                Some(reason) => {
                    &&& tells_halt(halted, old(self)@.seq as i64, reason)
                    &&& final(self)@ == (DebuggerView {
                        pause: Pause::Nothing,
                        seq: next_seq(old(self)@.seq),
                        variables: Map::<i64, V>::empty(),
                        last_reference: REFERENCE_END,
                        ..old(self)@
                    })
                },
            },
    {
        let pause = self.pause;
        self.pause = Pause::Nothing;
        let reason: String = match pause {
            Pause::Pause => "pause".to_owned(),
            Pause::StepIn => "step".to_owned(),
            Pause::StepOut => {
                if frames >= self.step_data.stack_frames {
                    self.pause = Pause::StepOut;
                    return None;
                }
                "step".to_owned()
            },
            Pause::Next => {
                let same_function = match &top.function_name {
                    Some(name) => same_text(self.step_data.function_name.as_str(), name.as_str()),
                    None => same_text(
                        self.step_data.function_name.as_str(),
                        "<Unknown function>",
                    ),
                };
                if frames > self.step_data.stack_frames || frames == self.step_data.stack_frames
                    && !same_function {
                    self.pause = Pause::Next;
                    return None;
                }
                "step".to_owned()
            },
            Pause::Nothing => match top.line {
                Some(line) => {
                    if !self.should_break(top.source_name.as_str(), line) {
                        return None;
                    }
                    "breakpoint".to_owned()
                },
                None => {
                    return None;
                },
            },
        };
        let event = self.event(EventBody::Stopped { reason });
        self.variables.clear();
        Some(event)
    }

    /// Decides what to do once a program has run as far as it could: wait until it is to go on, or
    /// tell the client that it has ended, which it may have done with an error.
    pub fn ran(&mut self, run: Run) -> (next: AfterRun)
        requires
            old(self).well_formed(),
        ensures
            final(self).well_formed(),
            match run {
                Run::Halted => next == AfterRun::Wait && final(self)@ == old(self)@,
                Run::Finished => {
                    &&& next == (AfterRun::Tell {
                        failure: None,
                        terminated: Event {
                            body: EventBody::Terminated,
                            seq: old(self)@.seq as i64,
                        },
                    })
                    &&& final(self)@ == (DebuggerView { seq: next_seq(old(self)@.seq), ..old(self)@
                    })
                },
                Run::Failed(output) => {
                    &&& next == (AfterRun::Tell {
                        failure: Some(
                            Event {
                                body: EventBody::Output { output },
                                seq: old(self)@.seq as i64,
                            },
                        ),
                        terminated: Event {
                            body: EventBody::Terminated,
                            seq: next_seq(old(self)@.seq) as i64,
                        },
                    })
                    &&& final(self)@ == (DebuggerView {
                        seq: next_seq(next_seq(old(self)@.seq)),
                        ..old(self)@
                    })
                },
            },
    {
        let failure = match run {
            Run::Halted => {
                return AfterRun::Wait;
            },
            Run::Finished => None,
            Run::Failed(output) => Some(self.event(EventBody::Output { output })),
        };
        let terminated = self.event(EventBody::Terminated);
        AfterRun::Tell { failure, terminated }
    }

    /// Lets the program go on.
    pub fn continue_(&mut self)
        requires
            old(self).well_formed(),
        ensures
            final(self).well_formed(),
            final(self)@ == (DebuggerView { do_continue: true, ..old(self)@ }),
    {
        self.do_continue = true;
    }

    /// Lets the program make a step over functions. It is in the function `function_name`, with
    /// `frames` frames on its stack.
    pub fn next(&mut self, frames: usize, function_name: String)
        requires
            old(self).well_formed(),
        ensures
            final(self).well_formed(),
            final(self)@ == (DebuggerView {
                do_continue: true,
                pause: Pause::Next,
                stack_frames: frames,
                function_name: function_name@,
                ..old(self)@
            }),
    {
        self.do_continue = true;
        self.pause = Pause::Next;
        self.step_data = StepData { stack_frames: frames, function_name };
    }

    /// Lets the program make a step.
    pub fn step_in(&mut self)
        requires
            old(self).well_formed(),
        ensures
            final(self).well_formed(),
            final(self)@ == (DebuggerView { do_continue: true, pause: Pause::StepIn, ..old(self)@ }),
    {
        self.do_continue = true;
        self.pause = Pause::StepIn;
    }

    /// Lets the program leave the function that it is in, with `frames` frames on its stack.
    pub fn step_out(&mut self, frames: usize, function_name: Option<String>)
        requires
            old(self).well_formed(),
        ensures
            final(self).well_formed(),
            final(self)@ == (DebuggerView {
                do_continue: true,
                pause: Pause::StepOut,
                stack_frames: frames,
                function_name: function_or_unknown(function_name),
                ..old(self)@
            }),
    {
        self.do_continue = true;
        self.pause = Pause::StepOut;
        let function_name = match function_name {
            Some(name) => name,
            None => "<Unknown function>".to_owned(),
        };
        self.step_data = StepData { stack_frames: frames, function_name };
    }

    /// Halts the program at its next line.
    pub fn pause(&mut self)
        requires
            old(self).well_formed(),
        ensures
            final(self).well_formed(),
            final(self)@ == (DebuggerView { pause: Pause::Pause, ..old(self)@ }),
    {
        self.pause = Pause::Pause;
    }

    /// Whether the program is to go on now that a request has been answered. The answer has to be
    /// sent before the program goes on, else the client might be told that it was halted again
    /// before it is told that it goes on.
    pub fn answered(&mut self) -> (go_on: bool)
        requires
            old(self).well_formed(),
        ensures
            final(self).well_formed(),
            go_on == old(self)@.do_continue,
            final(self)@ == (DebuggerView { do_continue: false, ..old(self)@ }),
    {
        let go_on = self.do_continue;
        self.do_continue = false;
        go_on
    }

    /// The one thread that programs have.
    pub fn threads() -> (threads: Vec<Thread>)
        ensures
            threads@.len() == 1,
            threads@[0].id == 1,
            threads@[0].name@ == "main"@,
    {
        let mut threads: Vec<Thread> = Vec::new();
        threads.push(Thread { id: 1, name: "main".to_owned() });
        threads
    }

    /// Makes the given lines those at which the program is halted in a file. A source without a
    /// file is confirmed all the same.
    pub fn set_breakpoints(
        &mut self,
        filename: Option<String>,
        source: Source,
        lines: Option<Vec<i64>>,
    ) -> (confirmed: Vec<Breakpoint>)
        requires
            old(self).well_formed(),
        ensures
            final(self).well_formed(),
            ({
                let requested = match lines {
                    Some(lines) => lines@,
                    None => Seq::empty(),
                };
                &&& confirmed@ == requested.map_values(
                    |line: i64| Breakpoint { line, verified: true },
                )
                &&& final(self)@ == (DebuggerView {
                    sources: match filename {
                        Some(filename) => old(self)@.sources.insert(
                            module_name(filename@),
                            (SourceDataView {
                                source: Some(source@),
                                breakpoints: line_set(requested, old(self)@.lines_start_at_1),
                            }),
                        ),
                        None => old(self)@.sources,
                    },
                    ..old(self)@
                })
            }),
    {
        let lines: Vec<i64> = match lines {
            Some(lines) => lines,
            None => Vec::new(),
        };
        let mut breakpoints: HashSet<u32> = HashSet::new();
        let mut confirmed: Vec<Breakpoint> = Vec::new();
        let mut i: usize = 0;
        assert(line_set(lines@.take(0), self@.lines_start_at_1) =~= Set::<u32>::empty());
        while i < lines.len()
            invariant
                i <= lines@.len(),
                *self == *old(self),
                breakpoints@ == line_set(lines@.take(i as int), self@.lines_start_at_1),
                confirmed@ =~= lines@.take(i as int).map_values(
                    |line: i64| Breakpoint { line, verified: true },
                ),
            decreases lines@.len() - i,
        {
            let line: i64 = lines[i];
            breakpoints.insert(self.line(line));
            proof {
                lemma_line_set_push(lines@.take(i as int), line, self@.lines_start_at_1);
                assert(lines@.take(i + 1) =~= lines@.take(i as int).push(line));
            }
            confirmed.push(Breakpoint { line, verified: true });
            i += 1;
        }
        assert(lines@.take(lines@.len() as int) =~= lines@);
        if let Some(filename) = filename {
            let data = SourceData { source: Some(source), breakpoints };
            let name = program_module(filename.as_str());
            proof {
                let before = self.sources@;
                assert(sources_view(before.insert(name@, data)) =~= sources_view(before).insert(
                    name@,
                    data@,
                ));
            }
            self.sources.insert(name, data);
        }
        confirmed
    }

    /// The stack of the program, without the outermost frame, which is that of the program itself.
    /// A source that was not known is from now on.
    pub fn stack_trace(&mut self, infos: &Vec<StackInfo>) -> (frames: Vec<StackFrame>)
        requires
            old(self).well_formed(),
        ensures
            final(self).well_formed(),
            ({
                let inner = without_outermost(infos@);
                &&& final(self)@ == (DebuggerView {
                    sources: with_guesses(old(self)@.sources, inner),
                    ..old(self)@
                })
                &&& frames@.len() == inner.len()
                &&& forall|i: int|
                    0 <= i < frames@.len() ==> is_frame(
                        with_guesses(old(self)@.sources, inner),
                        i,
                        inner[i],
                        #[trigger] frames@[i],
                    )
            }),
    {
        let mut frames: Vec<StackFrame> = Vec::new();
        let ghost inner = without_outermost(infos@);
        let ghost before = self@;
        let mut i: usize = 0;
        assert(inner.take(0) =~= Seq::<StackInfo>::empty());
        let count: usize = if infos.len() == 0 {
            0
        } else {
            infos.len() - 1
        };
        while i < count
            invariant
                before == old(self)@,
                inner == without_outermost(infos@),
                count == inner.len(),
                i <= count,
                self.well_formed(),
                self@ == (DebuggerView {
                    sources: with_guesses(before.sources, inner.take(i as int)),
                    ..before
                }),
                frames@.len() == i,
                forall|j: int|
                    0 <= j < i ==> is_frame(self@.sources, j, inner[j], #[trigger] frames@[j]),
            decreases count - i,
        {
            let info: &StackInfo = &infos[i];
            assert(inner[i as int] == *info);
            let ghost so_far = self@.sources;
            assert(inner.take(i + 1).drop_last() =~= inner.take(i as int));
            let source = self.source_of(&info.source_name);
            proof {
                assert forall|j: int| 0 <= j < i implies is_frame(
                    self@.sources,
                    j,
                    inner[j],
                    #[trigger] frames@[j],
                ) by {
                    assert(is_frame(so_far, j, inner[j], frames@[j]));
                }
            }
            let line: i64 = match info.line {
                Some(line) => line as i64 + 1,
                None => 0,
            };
            let name: String = match &info.function_name {
                Some(name) => name.clone(),
                None => "<unknown>".to_owned(),
            };
            frames.push(
                StackFrame {
                    id: #[verifier::truncate]
                    (i as i64),
                    name,
                    line,
                    column: 0,
                    source,
                },
            );
            i += 1;
        }
        assert(inner.take(inner.len() as int) =~= inner);
        frames
    }

    /// The source with the given name, which is guessed where it was not known.
    fn source_of(&mut self, name: &String) -> (source: Option<Source>)
        requires
            old(self).well_formed(),
        ensures
            final(self).well_formed(),
            final(self)@ == (DebuggerView {
                sources: with_guess(old(self)@.sources, name@),
                ..old(self)@
            }),
            source_view(source) == with_guess(old(self)@.sources, name@)[name@].source,
    {
        let ghost before = self.sources@;
        match self.sources.get(name.as_str()) {
            Some(data) => {
                let source = copy_source(&data.source);
                source
            },
            None => {
                let made = Some(
                    Source {
                        name: Some(name.clone()),
                        path: Some(module_filename(name.as_str())),
                        other: None,
                    },
                );
                let source = copy_source(&made);
                let data = SourceData { source: made, breakpoints: HashSet::new() };
                proof {
                    assert(data@ == guessed_data(name@)) by {
                        assert(data@.breakpoints =~= Set::<u32>::empty());
                    }
                    assert(sources_view(before.insert(name@, data)) =~= sources_view(
                        before,
                    ).insert(name@, data@));
                }
                self.sources.insert(name.clone(), data);
                source
            },
        }
    }

    /// The scopes of the frame with the number `frame_id`: `info` is the frame, where there is one,
    /// and `locals` is the number of its local variables.
    pub fn scopes(&self, frame_id: i64, info: Option<&StackInfo>, locals: usize) -> (scopes: Vec<
        Scope,
    >)
        requires
            self.well_formed(),
            info is Some ==> 0 <= frame_id && (frame_id + 1) * 2 <= i64::MAX,
        ensures
            match info {
                None => scopes@.len() == 0,
                Some(info) => {
                    &&& scopes@.len() == 2
                    &&& scopes@[0].name@ == "Locals"@
                    &&& scopes@[0].variables_reference == scope_reference(
                        frame_id as int,
                        VariableType::Local,
                    )
                    &&& scopes@[1].name@ == "Upvars"@
                    &&& scopes@[1].variables_reference == scope_reference(
                        frame_id as int,
                        VariableType::Upvar,
                    )
                    &&& forall|i: int|
                        0 <= i < 2 ==> is_scope(
                            self@.sources,
                            *info,
                            locals,
                            #[trigger] scopes@[i],
                        )
                },
            },
    {
        let mut scopes: Vec<Scope> = Vec::new();
        if let Some(info) = info {
            scopes.push(self.scope("Locals", (frame_id + 1) * 2 - 1, info, locals));
            scopes.push(self.scope("Upvars", (frame_id + 1) * 2, info, locals));
        }
        scopes
    }

    fn scope(&self, name: &str, reference: i64, info: &StackInfo, locals: usize) -> (scope: Scope)
        requires
            self.well_formed(),
        ensures
            scope.name@ == name@,
            scope.variables_reference == reference,
            is_scope(self@.sources, *info, locals, scope),
    {
        let source = match self.sources.get(info.source_name.as_str()) {
            Some(data) => copy_source(&data.source),
            None => None,
        };
        Scope {
            name: name.to_owned(),
            variables_reference: reference,
            named_variables: #[verifier::truncate]
            (locals as i64),
            expensive: false,
            line: match info.line {
                Some(line) => Some(line as i64 + 1),
                None => None,
            },
            source,
        }
    }

    /// What a reference stands for while the stack has a number of frames. If it has the frame that
    /// the reference would be to, it is that frame.
    pub fn variables_target(&self, reference: i64, frames: usize) -> (target: VariablesTarget<V>)
        requires
            reference > i64::MIN,
        ensures
            ({
                let frame = reference_target(reference);
                match target {
                    VariablesTarget::Frame { place, typ } => {
                        &&& frame.stack_index < frames
                        &&& place == frames - 1 - frame.stack_index
                        &&& typ == frame.typ
                    },
                    VariablesTarget::Value(value) => {
                        &&& frame.stack_index >= frames
                        &&& self@.variables.dom().contains(reference)
                        &&& self@.variables[reference] == *value
                    },
                    VariablesTarget::Nothing => {
                        &&& frame.stack_index >= frames
                        &&& !self@.variables.dom().contains(reference)
                    },
                }
            }),
    {
        let frame = translate_reference(reference);
        if frame.stack_index < frames {
            return VariablesTarget::Frame {
                place: frame_index(frames, frame.stack_index),
                typ: frame.typ,
            };
        }
        match self.variables.get(reference) {
            Some(value) => VariablesTarget::Value(value),
            None => VariablesTarget::Nothing,
        }
    }

    /// Shows several values. Those that have parts can be asked for by reference from now on.
    pub fn variables(&mut self, raw: Vec<RawVariable<V>>) -> (shown: Vec<Variable>)
        requires
            old(self).well_formed(),
            old(self)@.last_reference - raw@.len() >= i64::MIN,
        ensures
            final(self).well_formed(),
            final(self)@ == (DebuggerView {
                variables: final(self)@.variables,
                last_reference: (old(self)@.last_reference - structured(raw@)) as i64,
                ..old(self)@
            }),
            shown@.len() == raw@.len(),
            forall|i: int|
                0 <= i < shown@.len() ==> is_shown(
                    raw@[i],
                    old(self)@.last_reference - structured(raw@.take(i)),
                    #[trigger] shown@[i],
                ),
            forall|i: int|
                0 <= i < shown@.len() && !(raw@[i].kind is Plain)
                    ==> final(self)@.variables.dom().contains(
                    (#[trigger] shown@[i]).variables_reference,
                ) && final(self)@.variables[shown@[i].variables_reference] == raw@[i].value,
            forall|r: i64| #[trigger]
                old(self)@.variables.dom().contains(r) ==> final(self)@.variables.dom().contains(r)
                    && final(self)@.variables[r] == old(self)@.variables[r],
            forall|r: i64| #[trigger]
                final(self)@.variables.dom().contains(r) <==> {
                    ||| old(self)@.variables.dom().contains(r)
                    ||| final(self)@.last_reference <= r < old(self)@.last_reference
                },
    {
        self.variables.show(raw)
    }
}

/// The name that the compiler has for the program in a file.
pub open spec fn module_name(filename: Seq<char>) -> Seq<char> {
    "@"@ + module_of_filename(filename)
}

/// The name that the compiler has for the program in a file.
pub fn program_module(filename: &str) -> (module: String)
    ensures
        module@ == module_name(filename@),
{
    let mut module = "@".to_owned();
    module.append(filename_to_module(filename).as_str());
    module
}

/// The lines, counted from zero, that a client means.
pub open spec fn line_set(lines: Seq<i64>, lines_start_at_1: bool) -> Set<u32> {
    lines.map_values(|line: i64| line_index(line, lines_start_at_1)).to_set()
}

proof fn lemma_line_set_push(lines: Seq<i64>, line: i64, lines_start_at_1: bool)
    ensures
        line_set(lines.push(line), lines_start_at_1) == line_set(lines, lines_start_at_1).insert(
            line_index(line, lines_start_at_1),
        ),
{
    let indices = lines.map_values(|line: i64| line_index(line, lines_start_at_1));
    let more = lines.push(line).map_values(|line: i64| line_index(line, lines_start_at_1));
    let index = line_index(line, lines_start_at_1);
    assert(more =~= indices.push(index));
    assert forall|other: u32| #[trigger]
        more.to_set().contains(other) == indices.to_set().insert(index).contains(other) by {
        if indices.contains(other) {
            let i = choose|i: int| 0 <= i < indices.len() && indices[i] == other;
            assert(more[i] == other);
        }
        if other == index {
            assert(more[indices.len() as int] == other);
        }
        if more.contains(other) && other != index {
            let i = choose|i: int| 0 <= i < more.len() && more[i] == other;
            assert(indices[i] == other);
        }
    }
    assert(more.to_set() =~= indices.to_set().insert(index));
}

/// The frames of a stack but the outermost.
pub open spec fn without_outermost(infos: Seq<StackInfo>) -> Seq<StackInfo> {
    if infos.len() == 0 {
        infos
    } else {
        infos.drop_last()
    }
}

/// What is made up of a source that is not known.
pub open spec fn guessed_data(name: Seq<char>) -> SourceDataView {
    SourceDataView { source: Some(guessed_source(name)), breakpoints: Set::empty() }
}

/// The sources with the one named `name` among them.
pub open spec fn with_guess(sources: Sources, name: Seq<char>) -> Sources {
    if sources.dom().contains(name) {
        sources
    } else {
        sources.insert(name, guessed_data(name))
    }
}

/// The sources with those of several frames among them.
pub open spec fn with_guesses(sources: Sources, infos: Seq<StackInfo>) -> Sources
    decreases infos.len(),
{
    if infos.len() == 0 {
        sources
    } else {
        with_guess(with_guesses(sources, infos.drop_last()), infos.last().source_name@)
    }
}

/// Whether `frame` shows the frame with the number `i`.
pub open spec fn is_frame(sources: Sources, i: int, info: StackInfo, frame: StackFrame) -> bool {
    &&& frame.id == i as i64
    &&& frame.name@ == (match info.function_name {
        Some(name) => name@,
        None => "<unknown>"@,
    })
    &&& frame.line == (match info.line {
        Some(line) => line + 1,
        None => 0,
    })
    &&& frame.column == 0
    &&& sources.dom().contains(info.source_name@)
    &&& source_view(frame.source) == sources[info.source_name@].source
}

/// Whether `scope` belongs to a frame with `locals` local variables.
pub open spec fn is_scope(
    sources: Sources,
    info: StackInfo,
    locals: usize,
    scope: Scope,
) -> bool {
    &&& scope.named_variables == locals as i64
    &&& !scope.expensive
    &&& scope.line == (match info.line {
        Some(line) => Some((line + 1) as i64),
        None => None,
    })
    &&& source_view(scope.source) == (if sources.dom().contains(info.source_name@) {
        sources[info.source_name@].source
    } else {
        None
    })
}

/// What becomes of a request to start a program.
pub struct Launch {
    /// The name that the compiler has for the program.
    pub module: String,
    /// The text of the program.
    pub source: String,
}

/// Starts programs.
pub struct LaunchHandler;

impl LaunchHandler {
    /// The program that is to be started, as the client names it.
    pub fn program(program: Option<String>) -> (result: Result<String, ServerError<()>>)
        ensures
            match program {
                Some(program) => result == Ok::<String, ServerError<()>>(program),
                None => result matches Err(error) && error.message@ == "No program argument found"@
                    && error.data is None,
            },
    {
        match program {
            Some(program) => Ok(program),
            None => Err(ServerError::from("No program argument found".to_owned())),
        }
    }

    /// The program in the file `filename`, of which `contents` is the text, where there is such a
    /// file.
    pub fn execute_launch(filename: &str, contents: Option<String>) -> (result: Result<
        Launch,
        ServerError<()>,
    >)
        ensures
            match contents {
                Some(contents) => result matches Ok(launch) && launch.source == contents
                    && launch.module@ == module_name(filename@),
                None => result matches Err(error) && error.message@ == "Program does not exist: `"@
                    + filename@ + "`"@ && error.data is None,
            },
    {
        match contents {
            Some(source) => Ok(Launch { module: program_module(filename), source }),
            None => {
                let mut message = "Program does not exist: `".to_owned();
                message.append(filename);
                message.append("`");
                Err(ServerError::from(message))
            },
        }
    }
}

/// Prepares a debugger for a client.
pub struct InitializeHandler;

impl InitializeHandler {
    /// Answers the first request of a client.
    pub fn execute<V>(debugger: &mut Debugger<V>, lines_start_at_1: Option<bool>) -> (answer: (
        Event,
        Capabilities,
    ))
        requires
            old(debugger).well_formed(),
        ensures
            final(debugger).well_formed(),
            answer.0 == (Event { body: EventBody::Initialized, seq: old(debugger)@.seq as i64 }),
            answer.1 == (Capabilities { supports_configuration_done_request: true }),
            final(debugger)@ == (DebuggerView {
                lines_start_at_1: lines_start_at_1 != Some(false),
                seq: next_seq(old(debugger)@.seq),
                ..old(debugger)@
            }),
    {
        debugger.initialize(lines_start_at_1)
    }
}

/// Ends a debugger.
pub struct DisconnectHandler {
    exit_token: bool,
}

impl View for DisconnectHandler {
    type V = bool;

    closed spec fn view(&self) -> bool {
        self.exit_token
    }
}

impl DisconnectHandler {
    pub fn new() -> (handler: DisconnectHandler)
        ensures
            !handler@,
    {
        DisconnectHandler { exit_token: false }
    }

    /// Takes note that the client is done.
    pub fn execute(&mut self)
        ensures
            final(self)@,
    {
        self.exit_token = true;
    }

    /// Whether the client is done.
    pub fn is_disconnected(&self) -> (done: bool)
        ensures
            done == self@,
    {
        self.exit_token
    }
}

/// Law: a program that steps over functions is not halted inside a function that it calls, nor in
/// one that takes the place of the function it was in.
pub proof fn law_next_stays_in_the_function<V>(
    debugger: DebuggerView<V>,
    frames: usize,
    top: StackInfo,
)
    requires
        debugger.pause == Pause::Next,
        halt_reason(debugger, frames, top) is Some,
    ensures
        frames < debugger.stack_frames || frames == debugger.stack_frames && debugger.function_name
            == function_or_unknown(top.function_name),
{
}

/// Law: a program that leaves a function is not halted before it has.
pub proof fn law_step_out_leaves_the_function<V>(
    debugger: DebuggerView<V>,
    frames: usize,
    top: StackInfo,
)
    requires
        debugger.pause == Pause::StepOut,
    ensures
        halt_reason(debugger, frames, top) is Some <==> frames < debugger.stack_frames,
{
}

/// Law: while it is neither stepped nor paused, a program is halted exactly at the lines that were
/// asked for.
pub proof fn law_programs_halt_at_breakpoints<V>(
    debugger: DebuggerView<V>,
    frames: usize,
    top: StackInfo,
)
    requires
        debugger.pause == Pause::Nothing,
    ensures
        halt_reason(debugger, frames, top) is Some <==> (top.line matches Some(line)
            && is_breakpoint(debugger.sources, top.source_name@, line)),
{
}

/// Law: a program that is neither stepped nor paused is halted at every line that a client asked
/// for, and the client is shown the number that it has for that line.
pub proof fn law_breakpoints_are_hit<V>(
    debugger: DebuggerView<V>,
    filename: Seq<char>,
    lines: Seq<i64>,
    line: i64,
    frames: usize,
    top: StackInfo,
)
    requires
        debugger.pause == Pause::Nothing,
        debugger.sources.dom().contains(module_name(filename)),
        debugger.sources[module_name(filename)].breakpoints == line_set(
            lines,
            debugger.lines_start_at_1,
        ),
        lines.contains(line),
        top.source_name@ == module_name(filename),
        top.line == Some(line_index(line, debugger.lines_start_at_1)),
    ensures
        halt_reason(debugger, frames, top) == Some("breakpoint"@),
        debugger.lines_start_at_1 && 1 <= line <= u32::MAX ==> forall|i: int, frame: StackFrame|
            #[trigger]
            is_frame(debugger.sources, i, top, frame) ==> frame.line == line,
{
    let indices = lines.map_values(
        |line: i64| line_index(line, debugger.lines_start_at_1),
    );
    let i = choose|i: int| 0 <= i < lines.len() && lines[i] == line;
    assert(indices[i] == line_index(line, debugger.lines_start_at_1));
}

/// Law: a reference that was given out for a value is not one to a frame, as long as the stack is
/// not deeper than half of the references that are left.
pub proof fn law_values_are_no_frames<V>(
    debugger: Debugger<V>,
    reference: i64,
    frames: usize,
)
    requires
        debugger.well_formed(),
        debugger@.variables.dom().contains(reference),
        debugger@.last_reference > 2 * frames,
    ensures
        reference_target(reference).stack_index >= frames,
{
    debugger.variables.law_references_in_use();
}

} // verus!
