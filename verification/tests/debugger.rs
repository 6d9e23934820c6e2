//! The course of debugging a program, with the program's stack given as plain values.

use gluon_language_server::debugger::messages::{
    translate_request, translate_response, Answer, Call, Request, Response,
};
use gluon_language_server::debugger::session::{next_action, SessionAction, SessionEvent};
use gluon_language_server::debugger::variables::{
    indexed_variables, named_parts, named_variables, parts, translate_reference, Field, Part,
    RawVariable, Structure, ValueKind, Variable, VariableReference, VariableType, Variables,
};
use gluon_language_server::debugger::{
    frame_index, program_module, AfterRun, Breakpoint, Capabilities, Debugger, DisconnectHandler,
    Event, EventBody, InitializeHandler, LaunchHandler, Run, Source, StackInfo, Thread,
    VariablesTarget,
};

/// A client that numbers its requests.
struct Client {
    seq: i64,
    command: String,
    debugger: Debugger<&'static str>,
}

const MAIN: &str = "tests/main.glu";

fn info(source_name: &str, function_name: &str, line: u32) -> StackInfo {
    StackInfo {
        source_name: source_name.to_string(),
        function_name: Some(function_name.to_string()),
        line: Some(line),
    }
}

/// The frame of `tests/main.glu` at a line, counted from one.
fn main_at(line: u32) -> StackInfo {
    info("@tests.main", "tests.main", line - 1)
}

/// A frame of a function of `tests/main.glu` at a line, counted from one.
fn function_at(name: &str, line: u32) -> StackInfo {
    info("@tests.main", name, line - 1)
}

fn stopped(event: Option<Event>) -> Option<String> {
    event.map(|event| {
        assert_eq!(event.name(), "stopped");
        match event.body {
            EventBody::Stopped { reason } => reason,
            _ => panic!("not stopped"),
        }
    })
}

impl Client {
    fn new() -> Client {
        let mut client = Client {
            seq: 0,
            command: String::new(),
            debugger: Debugger::new(),
        };
        client.request("initialize");
        let (event, capabilities) = InitializeHandler::execute(&mut client.debugger, None);
        assert_eq!(event.name(), "initialized");
        assert_eq!(event.seq, 1);
        assert_eq!(
            capabilities,
            Capabilities {
                supports_configuration_done_request: true
            }
        );
        client.respond("initialize");
        client
    }

    /// Makes a request.
    fn request(&mut self, command: &str) {
        self.seq += 1;
        let request = Request {
            command: command.to_string(),
            seq: self.seq,
            arguments: "{}",
        };
        assert_eq!(
            translate_request(Some(request), &mut self.command),
            Some(Call {
                method: command.to_string(),
                id: self.seq,
                params: "{}",
                jsonrpc: "2.0".to_string(),
            })
        );
    }

    /// Takes the response to the last request, and says whether the program goes on.
    fn respond(&mut self, command: &str) -> bool {
        let answer = Answer {
            id: self.seq,
            result: Some("null"),
            error: None,
        };
        let response =
            translate_response(&mut self.debugger, Some(answer), &self.command).unwrap();
        assert_eq!(response.command, command);
        assert_eq!(response.request_seq, self.seq);
        assert!(response.success);
        assert_eq!(response.body, Some("null"));
        let disconnect = DisconnectHandler::new();
        let handled = SessionEvent::Handled(Some(response.command));
        assert_eq!(
            next_action(handled, &mut self.debugger, &disconnect),
            SessionAction::Write(command.to_string())
        );
        match next_action(SessionEvent::Written, &mut self.debugger, &disconnect) {
            SessionAction::Resume => {
                assert_eq!(
                    next_action(SessionEvent::Resumed, &mut self.debugger, &disconnect),
                    SessionAction::Read
                );
                true
            }
            action => {
                assert_eq!(action, SessionAction::Read);
                false
            }
        }
    }

    fn launch(&mut self, filename: &str) {
        self.request("launch");
        let program = LaunchHandler::program(Some(filename.to_string())).unwrap();
        let launch = LaunchHandler::execute_launch(&program, Some("()".to_string())).unwrap();
        assert_eq!(launch.module, program_module(filename));
        assert_eq!(launch.source, "()");
        assert!(!self.respond("launch"));
    }

    fn break_at(&mut self, lines: Vec<i64>) {
        self.request("setBreakpoints");
        let confirmed: Vec<Breakpoint> = lines
            .iter()
            .map(|line| Breakpoint {
                line: *line,
                verified: true,
            })
            .collect();
        let source = Source {
            name: None,
            path: Some(MAIN.to_string()),
            other: None,
        };
        assert_eq!(
            self.debugger
                .set_breakpoints(Some(MAIN.to_string()), source, Some(lines)),
            confirmed
        );
        assert!(!self.respond("setBreakpoints"));
    }

    fn configured(&mut self) {
        self.request("configurationDone");
        self.respond("configurationDone");
    }

    fn goes_on(&mut self) {
        self.request("continue");
        self.debugger.continue_();
        assert!(self.respond("continue"));
    }

    fn at(&mut self, frames: usize, top: &StackInfo) -> Option<String> {
        stopped(self.debugger.hook(frames, top))
    }

    fn terminates(&mut self) {
        match self.debugger.ran(Run::Finished) {
            AfterRun::Tell {
                failure,
                terminated,
            } => {
                assert_eq!(failure, None);
                assert_eq!(terminated.name(), "terminated");
            }
            AfterRun::Wait => panic!("not terminated"),
        }
    }

    fn disconnect(mut self) {
        self.request("disconnect");
        let mut handler = DisconnectHandler::new();
        assert!(!handler.is_disconnected());
        handler.execute();
        assert!(handler.is_disconnected());
        self.respond("disconnect");
    }
}

#[test]
fn launch_program() {
    let mut client = Client::new();
    client.launch("tests/main.glu");
    client.configured();
    client.terminates();
    client.disconnect();
}

#[test]
fn infinite_loops_are_terminated() {
    let mut client = Client::new();
    client.launch("tests/infinite_loop.glu");
    client.configured();
    for _ in 0..100 {
        assert_eq!(client.at(1, &info("@tests.infinite_loop", "loop", 0)), None);
    }
    client.disconnect();
}

#[test]
fn pause() {
    let mut client = Client::new();
    client.launch("tests/infinite_loop.glu");
    client.configured();
    let top = info("@tests.infinite_loop", "loop", 0);
    assert_eq!(client.at(1, &top), None);
    client.request("pause");
    client.debugger.pause();
    assert!(!client.respond("pause"));
    assert_eq!(client.at(1, &top), Some("pause".to_string()));
    assert_eq!(client.debugger.ran(Run::Halted), AfterRun::Wait);
    client.goes_on();
    assert_eq!(client.at(1, &top), None);
    client.disconnect();
}

#[test]
fn breakpoints() {
    let mut client = Client::new();
    client.launch(MAIN);
    client.break_at(vec![1, 14]);
    client.configured();
    assert_eq!(client.at(1, &main_at(1)), Some("breakpoint".to_string()));
    client.goes_on();
    assert_eq!(client.at(1, &main_at(2)), None);
    assert_eq!(client.at(1, &main_at(14)), Some("breakpoint".to_string()));
    client.goes_on();
    assert_eq!(client.at(1, &main_at(15)), None);
    client.terminates();
    client.disconnect();
}

#[test]
fn step_in() {
    let mut client = Client::new();
    client.launch(MAIN);
    client.break_at(vec![14]);
    client.configured();
    assert_eq!(client.at(2, &main_at(14)), Some("breakpoint".to_string()));

    client.request("stepIn");
    client.debugger.step_in();
    assert!(client.respond("stepIn"));
    assert_eq!(
        client.at(3, &function_at("test", 6)),
        Some("step".to_string())
    );

    let stack = vec![
        function_at("test", 6),
        main_at(14),
        info("@tests.main", "<top>", 0),
    ];
    let frames = client.debugger.stack_trace(&stack);
    assert_eq!(frames.len(), 2);
    assert_eq!(frames[0].line, 6);
    assert_eq!(frames[0].name, "test");
    assert_eq!(frames[1].line, 14);
    let source = frames[0].source.as_ref().unwrap();
    assert_eq!(source.path, Some(MAIN.to_string()));

    client.goes_on();
    client.terminates();
    client.disconnect();
}

#[test]
fn step_out() {
    let mut client = Client::new();
    client.launch(MAIN);
    client.break_at(vec![6]);
    client.configured();
    assert_eq!(
        client.at(3, &function_at("test", 6)),
        Some("breakpoint".to_string())
    );

    client.request("stepOut");
    client.debugger.step_out(3, Some("test".to_string()));
    assert!(client.respond("stepOut"));
    assert_eq!(client.at(3, &function_at("test", 7)), None);
    assert_eq!(client.at(4, &function_at("other", 2)), None);
    assert_eq!(client.at(2, &main_at(15)), Some("step".to_string()));

    let stack = vec![main_at(15), info("@tests.main", "<top>", 0)];
    let frames = client.debugger.stack_trace(&stack);
    assert_eq!(frames.len(), 1);
    assert_eq!(frames[0].line, 15);

    client.goes_on();
    client.terminates();
    client.disconnect();
}

#[test]
fn step_over() {
    let mut client = Client::new();
    client.launch(MAIN);
    client.break_at(vec![14]);
    client.configured();
    assert_eq!(client.at(2, &main_at(14)), Some("breakpoint".to_string()));

    client.request("next");
    client.debugger.next(2, "tests.main".to_string());
    assert!(client.respond("next"));
    // Neither in the function that is called, nor in one that takes the place of the caller.
    assert_eq!(client.at(3, &function_at("test", 6)), None);
    assert_eq!(client.at(2, &function_at("test", 6)), None);
    assert_eq!(client.at(2, &main_at(15)), Some("step".to_string()));

    let stack = vec![main_at(15), info("@tests.main", "<top>", 0)];
    let frames = client.debugger.stack_trace(&stack);
    assert_eq!(frames.len(), 1);
    assert_eq!(frames[0].line, 15);

    client.goes_on();
    client.terminates();
    client.disconnect();
}

#[test]
fn function_without_a_name() {
    let mut client = Client::new();
    let nameless = StackInfo {
        source_name: "@tests.main".to_string(),
        function_name: None,
        line: None,
    };
    client.debugger.step_out(2, None);
    assert_eq!(client.at(2, &nameless), None);
    assert_eq!(client.at(1, &nameless), Some("step".to_string()));
    client.debugger.next(2, "<Unknown function>".to_string());
    assert_eq!(client.at(2, &nameless), Some("step".to_string()));
    // Without a line there is no breakpoint.
    assert_eq!(client.at(2, &nameless), None);
    let stack = vec![nameless, main_at(1)];
    let frames = client.debugger.stack_trace(&stack);
    assert_eq!(frames.len(), 1);
    assert_eq!(frames[0].name, "<unknown>");
    assert_eq!(frames[0].line, 0);
    assert_eq!(frames[0].id, 0);
}

#[test]
fn failed_program_is_reported() {
    let mut debugger: Debugger<()> = Debugger::new();
    assert_eq!(
        debugger.ran(Run::Failed("went wrong".to_string())),
        AfterRun::Tell {
            failure: Some(Event {
                body: EventBody::Output {
                    output: "went wrong".to_string()
                },
                seq: 1,
            }),
            terminated: Event {
                body: EventBody::Terminated,
                seq: 2,
            },
        }
    );
    assert_eq!(debugger.seq(), 3);
    assert_eq!(debugger.seq(), 4);
    let output = Event {
        body: EventBody::Output {
            output: String::new(),
        },
        seq: 1,
    };
    assert_eq!(output.name(), "output");
}

#[test]
fn lines_are_counted_as_the_client_does() {
    let mut debugger: Debugger<()> = Debugger::new();
    assert_eq!(debugger.line(14), 13);
    assert_eq!(debugger.line(1), 0);
    assert_eq!(debugger.line(0), 0);
    debugger.initialize(Some(false));
    assert_eq!(debugger.line(14), 14);
    assert_eq!(debugger.line(0), 0);
    debugger.initialize(Some(true));
    assert_eq!(debugger.line(14), 13);
    debugger.initialize(Some(false));
    debugger.initialize(None);
    assert_eq!(debugger.line(14), 13);
}

#[test]
fn breakpoints_are_replaced() {
    let mut debugger: Debugger<()> = Debugger::new();
    let source = || Source {
        name: None,
        path: None,
        other: None,
    };
    let file = || Some("dir/a.glu".to_string());
    debugger.set_breakpoints(file(), source(), Some(vec![3, 5]));
    assert!(debugger.should_break("@dir.a", 2));
    assert!(debugger.should_break("@dir.a", 4));
    assert!(!debugger.should_break("@dir.a", 3));
    assert!(!debugger.should_break("dir.a", 2));
    debugger.set_breakpoints(file(), source(), Some(vec![7]));
    assert!(!debugger.should_break("@dir.a", 2));
    assert!(debugger.should_break("@dir.a", 6));
    // Without a file nothing changes.
    let confirmed = debugger.set_breakpoints(None, source(), Some(vec![1]));
    assert_eq!(confirmed.len(), 1);
    assert!(debugger.should_break("@dir.a", 6));
    assert!(debugger.set_breakpoints(file(), source(), None).is_empty());
    assert!(!debugger.should_break("@dir.a", 6));
}

#[test]
fn unknown_sources_are_guessed() {
    let mut debugger: Debugger<()> = Debugger::new();
    let stack = vec![info("std.list", "map", 9), main_at(1)];
    let frames = debugger.stack_trace(&stack);
    assert_eq!(
        frames[0].source,
        Some(Source {
            name: Some("std.list".to_string()),
            path: Some("std/list.glu".to_string()),
            other: None,
        })
    );
    assert_eq!(frames[0].line, 10);
    assert_eq!(frames[0].column, 0);
    assert!(debugger.stack_trace(&vec![]).is_empty());
}

#[test]
fn scopes_of_a_frame() {
    let mut debugger: Debugger<()> = Debugger::new();
    assert!(debugger.scopes(3, None, 0).is_empty());
    let top = info("std.list", "map", 9);
    let scopes = debugger.scopes(2, Some(&top), 4);
    assert_eq!(scopes.len(), 2);
    assert_eq!(scopes[0].name, "Locals");
    assert_eq!(scopes[0].variables_reference, 5);
    assert_eq!(scopes[1].name, "Upvars");
    assert_eq!(scopes[1].variables_reference, 6);
    for scope in &scopes {
        assert_eq!(scope.named_variables, 4);
        assert_eq!(scope.line, Some(10));
        assert!(!scope.expensive);
        assert_eq!(scope.source, None);
    }
    debugger.stack_trace(&vec![info("std.list", "map", 9), main_at(1)]);
    let scopes = debugger.scopes(2, Some(&top), 4);
    assert_eq!(
        scopes[1].source.as_ref().unwrap().path,
        Some("std/list.glu".to_string())
    );
}

#[test]
fn references_lead_back_to_frames() {
    for frame in 0..20 {
        let top = info("a", "f", 0);
        let debugger: Debugger<()> = Debugger::new();
        let scopes = debugger.scopes(frame, Some(&top), 0);
        assert_eq!(
            translate_reference(scopes[0].variables_reference),
            VariableReference {
                stack_index: frame as usize,
                typ: VariableType::Local,
            }
        );
        assert_eq!(
            translate_reference(scopes[1].variables_reference),
            VariableReference {
                stack_index: frame as usize,
                typ: VariableType::Upvar,
            }
        );
    }
    // The quotient is rounded towards zero.
    assert_eq!(translate_reference(0).stack_index, 0);
    assert_eq!(translate_reference(0).typ, VariableType::Upvar);
    assert_eq!(translate_reference(-1).stack_index, (-1i64) as usize);
    assert_eq!(translate_reference(-1).typ, VariableType::Upvar);
    assert_eq!(translate_reference(-2).stack_index, (-1i64) as usize);
}

fn raw(name: &str, kind: ValueKind) -> RawVariable<&'static str> {
    RawVariable {
        name: name.to_string(),
        typ: "T".to_string(),
        kind,
        printed: format!("<{}>", name),
        value: "value",
    }
}

#[test]
fn values_are_shown_with_references() {
    let mut debugger: Debugger<&'static str> = Debugger::new();
    let shown = debugger.variables(vec![
        raw("a", ValueKind::Plain),
        raw("b", ValueKind::Array(3)),
        raw("c", ValueKind::Plain),
        raw("d", ValueKind::Data(2)),
        raw("e", ValueKind::Closure(1)),
    ]);
    assert_eq!(
        shown[1],
        Variable {
            name: "b".to_string(),
            typ: "T".to_string(),
            value: "<b>".to_string(),
            indexed_variables: Some(3),
            named_variables: None,
            variables_reference: 2147483646,
        }
    );
    let references: Vec<i64> = shown.iter().map(|v| v.variables_reference).collect();
    assert_eq!(references, vec![0, 2147483646, 0, 2147483645, 2147483644]);
    assert!(matches!(
        debugger.variables_target(2147483645, 2),
        VariablesTarget::Value(_)
    ));
    assert!(matches!(
        debugger.variables_target(2147483643, 2),
        VariablesTarget::Nothing
    ));
    assert!(matches!(
        debugger.variables_target(4, 5),
        VariablesTarget::Frame {
            place: 3,
            typ: VariableType::Upvar
        }
    ));
    assert!(matches!(
        debugger.variables_target(1, 5),
        VariablesTarget::Frame {
            place: 4,
            typ: VariableType::Local
        }
    ));
    assert!(matches!(
        debugger.variables_target(4, 1),
        VariablesTarget::Nothing
    ));
    // Once the program is halted again the values are gone.
    debugger.pause();
    assert!(debugger.hook(1, &main_at(1)).is_some());
    assert!(matches!(
        debugger.variables_target(2147483645, 2),
        VariablesTarget::Nothing
    ));
    let shown = debugger.variables(vec![raw("f", ValueKind::Data(0))]);
    assert_eq!(shown[0].variables_reference, 2147483646);
}

#[test]
fn values_are_kept_until_cleared() {
    let mut variables: Variables<&'static str> = Variables::new();
    assert_eq!(variables.insert(ValueKind::Plain, "plain"), 0);
    assert_eq!(variables.insert(ValueKind::Data(1), "first"), 2147483646);
    assert_eq!(variables.insert(ValueKind::Array(0), "second"), 2147483645);
    assert_eq!(variables.get(2147483646), Some(&"first"));
    assert_eq!(variables.get(2147483645), Some(&"second"));
    assert_eq!(variables.get(0), None);
    variables.clear();
    assert_eq!(variables.get(2147483646), None);
    assert_eq!(variables.insert(ValueKind::Closure(0), "third"), 2147483646);
}

#[test]
fn parts_are_counted() {
    assert_eq!(indexed_variables(ValueKind::Array(7)), Some(7));
    assert_eq!(indexed_variables(ValueKind::Data(7)), None);
    assert_eq!(named_variables(ValueKind::Data(7)), Some(7));
    assert_eq!(named_variables(ValueKind::Closure(2)), Some(2));
    assert_eq!(named_variables(ValueKind::Array(7)), None);
    assert_eq!(named_variables(ValueKind::Plain), None);
}

fn fields() -> Vec<Field<&'static str>> {
    vec![
        Field {
            name: "x".to_string(),
            typ: "Int",
        },
        Field {
            name: "y".to_string(),
            typ: "String",
        },
    ]
}

fn part<'a>(name: &str, typ: &'a &'static str, value: &'a i32) -> Part<'a, &'static str, i32> {
    Part {
        name: name.to_string(),
        typ,
        value,
    }
}

#[test]
fn parts_have_names() {
    let record = |fields: Vec<i32>, row| Structure::Record { row, fields };
    assert_eq!(
        parts(&record(vec![1, 2], fields())),
        vec![part("x", &"Int", &1), part("y", &"String", &2)]
    );
    assert_eq!(
        parts(&record(vec![1], fields())),
        vec![part("x", &"Int", &1)]
    );
    assert_eq!(parts(&record(vec![1, 2, 3], fields())).len(), 2);
    let closure = Structure::Closure {
        infos: fields(),
        upvars: vec![5],
    };
    assert_eq!(parts(&closure), vec![part("x", &"Int", &5)]);
    let variant = |tag| Structure::Variant {
        rows: vec![vec![], vec!["Int", "Byte", "Char"]],
        tag,
        fields: vec![6, 7],
    };
    assert_eq!(
        parts(&variant(1)),
        vec![part("", &"Int", &6), part("", &"Byte", &7)]
    );
    assert_eq!(parts(&variant(0)), vec![]);
    let opaque: Structure<&'static str, i32> = Structure::Opaque;
    assert_eq!(parts(&opaque), vec![]);
}

#[test]
fn elements_are_known_by_their_place() {
    let array = Structure::Array {
        element: "Int",
        elements: (0..12).collect::<Vec<i32>>(),
    };
    let elements = parts(&array);
    assert_eq!(elements.len(), 12);
    assert_eq!(elements[0], part("[0]", &"Int", &0));
    assert_eq!(elements[11], part("[11]", &"Int", &11));
}

#[test]
fn variables_of_a_frame_have_names() {
    let infos = fields();
    let values = vec![8, 9, 10];
    assert_eq!(
        named_parts(&infos, &values),
        vec![part("x", &"Int", &8), part("y", &"String", &9)]
    );
}

#[test]
fn frames_are_counted_from_the_innermost() {
    assert_eq!(frame_index(3, 0), 2);
    assert_eq!(frame_index(3, 2), 0);
}

#[test]
fn programs_have_to_exist() {
    let error = LaunchHandler::program(None).unwrap_err();
    assert_eq!(error.message, "No program argument found");
    let error = LaunchHandler::execute_launch("a/b.glu", None).err().unwrap();
    assert_eq!(error.message, "Program does not exist: `a/b.glu`");
    let launch = LaunchHandler::execute_launch("a/b.glu", Some("1".to_string())).unwrap();
    assert_eq!(launch.module, "@a.b");
    assert_eq!(launch.source, "1");
}

#[test]
fn programs_have_one_thread() {
    assert_eq!(
        Debugger::<()>::threads(),
        vec![Thread {
            id: 1,
            name: "main".to_string(),
        }]
    );
}

#[test]
fn errors_are_passed_on() {
    let mut debugger: Debugger<()> = Debugger::new();
    let answer = Answer {
        id: 9,
        result: None,
        error: Some("message"),
    };
    assert_eq!(
        translate_response(&mut debugger, Some(answer), "launch"),
        Some(Response {
            command: "launch".to_string(),
            success: false,
            request_seq: 9,
            seq: 1,
            typ: "response".to_string(),
            body: None,
            message: Some("message"),
        })
    );
    let nothing: Option<Answer<i64, &str>> = None;
    assert_eq!(translate_response(&mut debugger, nothing, "launch"), None);
    assert_eq!(debugger.seq(), 2);
    let mut command = "last".to_string();
    let nothing: Option<Request<i64, &str>> = None;
    assert_eq!(translate_request(nothing, &mut command), None);
    assert_eq!(command, "last");
}

#[test]
fn program_goes_on_after_the_response() {
    let mut debugger: Debugger<()> = Debugger::new();
    let mut disconnect = DisconnectHandler::new();
    let response = || SessionEvent::Handled(Some("{}".to_string()));
    let written = || SessionAction::Write("{}".to_string());

    let action = next_action(SessionEvent::Started, &mut debugger, &disconnect);
    assert_eq!(action, SessionAction::Read);
    let action = next_action(SessionEvent::Read, &mut debugger, &disconnect);
    assert_eq!(action, SessionAction::Handle);
    debugger.step_in();
    assert_eq!(next_action(response(), &mut debugger, &disconnect), written());
    let action = next_action(SessionEvent::Written, &mut debugger, &disconnect);
    assert_eq!(action, SessionAction::Resume);
    let action = next_action(SessionEvent::Resumed, &mut debugger, &disconnect);
    assert_eq!(action, SessionAction::Read);

    // A request that does not ask for it leaves the program as it is.
    assert_eq!(next_action(response(), &mut debugger, &disconnect), written());
    let action = next_action(SessionEvent::Written, &mut debugger, &disconnect);
    assert_eq!(action, SessionAction::Read);

    // A request without a response.
    debugger.continue_();
    let action = next_action(SessionEvent::Handled(None), &mut debugger, &disconnect);
    assert_eq!(action, SessionAction::Resume);
    let action = next_action(SessionEvent::Handled(None), &mut debugger, &disconnect);
    assert_eq!(action, SessionAction::Read);

    let action = next_action(SessionEvent::Ended, &mut debugger, &disconnect);
    assert_eq!(action, SessionAction::Stop);

    // The last response is still written.
    disconnect.execute();
    assert_eq!(next_action(response(), &mut debugger, &disconnect), written());
    let action = next_action(SessionEvent::Written, &mut debugger, &disconnect);
    assert_eq!(action, SessionAction::Stop);
}
