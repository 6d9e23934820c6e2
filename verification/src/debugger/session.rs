//! The order in which a client of the debugger is served.

use vstd::prelude::*;

use crate::debugger::{Debugger, DebuggerView, DisconnectHandler};

verus! {

/// What has happened in a session.
#[derive(Debug, PartialEq, Eq)]
pub enum SessionEvent {
    /// The session has begun.
    Started,
    /// A request was read.
    Read,
    /// There are no more requests.
    Ended,
    /// A request was handled, and this is the response to it, if it is to have one.
    Handled(Option<String>),
    /// A response was written.
    Written,
    /// The program was told to go on.
    Resumed,
}

/// What is to be done next in a session.
#[derive(Debug, PartialEq, Eq)]
pub enum SessionAction {
    /// Read a request.
    Read,
    /// Handle the request.
    Handle,
    /// Write a response.
    Write(String),
    /// Tell the program to go on.
    Resume,
    /// End the session.
    Stop,
}

/// What is done about an event, and whether the program is to go on after that.
pub struct Reaction {
    pub action: SessionAction,
    pub do_continue: bool,
}

/// Reads requests until the client is done.
pub open spec fn next_request(do_continue: bool, disconnected: bool) -> Reaction {
    Reaction {
        action: if disconnected {
            SessionAction::Stop
        } else {
            SessionAction::Read
        },
        do_continue,
    }
}

/// What is done about an event. `do_continue` says whether the program is to go on, and
/// `disconnected` whether the client is done.
pub open spec fn reaction(event: SessionEvent, do_continue: bool, disconnected: bool) -> Reaction {
    match event {
        SessionEvent::Started | SessionEvent::Resumed => next_request(do_continue, disconnected),
        SessionEvent::Read => Reaction { action: SessionAction::Handle, do_continue },
        SessionEvent::Ended => Reaction { action: SessionAction::Stop, do_continue },
        SessionEvent::Handled(Some(response)) => Reaction {
            action: SessionAction::Write(response),
            do_continue,
        },
        SessionEvent::Handled(None) | SessionEvent::Written => if do_continue {
            Reaction { action: SessionAction::Resume, do_continue: false }
        } else {
            next_request(do_continue, disconnected)
        },
    }
}

/// What is to be done after an event. A program that is to go on is told so once the request that
/// asked for it has been answered, and before the next one is read.
pub fn next_action<V>(
    event: SessionEvent,
    debugger: &mut Debugger<V>,
    disconnect: &DisconnectHandler,
) -> (action: SessionAction)
    requires
        old(debugger).well_formed(),
    ensures
        final(debugger).well_formed(),
        action == reaction(event, old(debugger)@.do_continue, disconnect@).action,
        final(debugger)@ == (DebuggerView {
            do_continue: reaction(event, old(debugger)@.do_continue, disconnect@).do_continue,
            ..old(debugger)@
        }),
{
    match event {
        SessionEvent::Started | SessionEvent::Resumed => {},
        SessionEvent::Read => {
            return SessionAction::Handle;
        },
        SessionEvent::Ended => {
            return SessionAction::Stop;
        },
        SessionEvent::Handled(Some(response)) => {
            return SessionAction::Write(response);
        },
        SessionEvent::Handled(None) | SessionEvent::Written => {
            if debugger.answered() {
                return SessionAction::Resume;
            }
        },
    }
    if disconnect.is_disconnected() {
        SessionAction::Stop
    } else {
        SessionAction::Read
    }
}

/// An event of a session, and what was known when it happened: whether the program was to go on,
/// and whether the client was done.
pub struct Moment {
    pub event: SessionEvent,
    pub do_continue: bool,
    pub disconnected: bool,
}

pub open spec fn reaction_to(moment: Moment) -> Reaction {
    reaction(moment.event, moment.do_continue, moment.disconnected)
}

/// Whether an event is what can come of an action.
pub open spec fn is_outcome(action: SessionAction, event: SessionEvent) -> bool {
    match action {
        SessionAction::Read => event is Read || event is Ended,
        SessionAction::Handle => event is Handled,
        SessionAction::Write(_) => event is Written,
        SessionAction::Resume => event is Resumed,
        SessionAction::Stop => false,
    }
}

/// Whether `next` can be the moment after `moment`. Only the handling of a request makes a program
/// go on that was not to go on before, and a client that is done stays so.
pub open spec fn can_follow(moment: Moment, next: Moment) -> bool {
    let reaction = reaction_to(moment);
    &&& is_outcome(reaction.action, next.event)
    &&& reaction.action is Handle || next.do_continue == reaction.do_continue
    &&& moment.disconnected ==> next.disconnected
}

/// Whether these can be the moments of a session, from its start: each event is what came of the
/// action before it.
pub open spec fn is_session(moments: Seq<Moment>) -> bool {
    &&& moments.len() > 0 ==> moments[0].event is Started && !moments[0].do_continue
    &&& forall|k: int|
        0 < k < moments.len() ==> can_follow(moments[k - 1], #[trigger] moments[k])
}

/// Whether a request was handled that asks for the program to go on.
pub open spec fn asks_to_go_on(moment: Moment) -> bool {
    moment.event is Handled && moment.do_continue
}

/// How many of the requests that were handled ask for the program to go on.
pub open spec fn asked(moments: Seq<Moment>) -> nat
    decreases moments.len(),
{
    if moments.len() == 0 {
        0
    } else {
        asked(moments.drop_last()) + if asks_to_go_on(moments.last()) {
            1nat
        } else {
            0nat
        }
    }
}

/// How often the program was told to go on.
pub open spec fn resumed(moments: Seq<Moment>) -> nat
    decreases moments.len(),
{
    if moments.len() == 0 {
        0
    } else {
        resumed(moments.drop_last()) + if reaction_to(moments.last()).action is Resume {
            1nat
        } else {
            0nat
        }
    }
}

/// Law: a program is told to go on only after the response to a request that asks for it has been
/// written, or right after the request if it has no response.
pub proof fn law_program_goes_on_after_the_response(moments: Seq<Moment>, k: int)
    requires
        is_session(moments),
        0 <= k < moments.len(),
        reaction_to(moments[k]).action is Resume,
    ensures
        match moments[k].event {
            SessionEvent::Handled(response) => response is None && asks_to_go_on(moments[k]),
            SessionEvent::Written => {
                &&& k > 0
                &&& asks_to_go_on(moments[k - 1])
                &&& reaction_to(moments[k - 1]).action is Write
            },
            _ => false,
        },
{
    lemma_going_on_waits_for_the_response(moments, k);
    if k > 0 {
        assert(can_follow(moments[k - 1], moments[k]));
        lemma_going_on_waits_for_the_response(moments, k - 1);
    }
}

/// Law: a request that asks for the program to go on is answered, and then the program is told to
/// go on, before another request is read. After any other request it is not.
pub proof fn law_requests_are_answered_before_the_program_goes_on(moments: Seq<Moment>, r: int)
    requires
        is_session(moments),
        0 <= r < moments.len(),
        moments[r].event is Handled,
    ensures
        match moments[r].event->Handled_0 {
            Some(response) => {
                &&& reaction_to(moments[r]).action == SessionAction::Write(response)
                &&& r + 1 < moments.len() ==> {
                    &&& moments[r + 1].event is Written
                    &&& reaction_to(moments[r + 1]).action is Resume <==> asks_to_go_on(moments[r])
                }
            },
            None => reaction_to(moments[r]).action is Resume <==> asks_to_go_on(moments[r]),
        },
{
    if r + 1 < moments.len() {
        assert(can_follow(moments[r], moments[r + 1]));
    }
}

/// Law: a program is told to go on once for each request that asks for it. The only request for
/// which it has not been told yet is one whose response is being written.
pub proof fn law_program_goes_on_once_for_each_request(moments: Seq<Moment>)
    requires
        is_session(moments),
        moments.len() > 0,
    ensures
        asked(moments) == resumed(moments) + if reaction_to(moments.last()).action is Write
            && asks_to_go_on(moments.last()) {
            1nat
        } else {
            0nat
        },
    decreases moments.len(),
{
    let front = moments.drop_last();
    let k = moments.len() - 1;
    lemma_going_on_waits_for_the_response(moments, k);
    if front.len() > 0 {
        assert(is_session(front)) by {
            assert forall|j: int| 0 < j < front.len() implies can_follow(
                front[j - 1],
                #[trigger] front[j],
            ) by {
                assert(can_follow(moments[j - 1], moments[j]));
            }
        }
        law_program_goes_on_once_for_each_request(front);
        assert(front.last() == moments[k - 1]);
        assert(can_follow(moments[k - 1], moments[k]));
        lemma_going_on_waits_for_the_response(moments, k - 1);
    } else {
        assert(asked(front) == 0 && resumed(front) == 0);
    }
}

/// Law: no request is read once the client is done.
pub proof fn law_no_request_after_disconnect(moments: Seq<Moment>, k: int, later: int)
    requires
        is_session(moments),
        0 <= k <= later < moments.len(),
        moments[k].disconnected,
    ensures
        !(reaction_to(moments[later]).action is Read),
{
    lemma_stays_disconnected(moments, k, later);
}

proof fn lemma_stays_disconnected(moments: Seq<Moment>, k: int, later: int)
    requires
        is_session(moments),
        0 <= k <= later < moments.len(),
        moments[k].disconnected,
    ensures
        moments[later].disconnected,
    decreases later,
{
    if k < later {
        lemma_stays_disconnected(moments, k, later - 1);
        assert(can_follow(moments[later - 1], moments[later]));
    }
}

/// While a program is to go on, a response is being written or a request has just been handled.
proof fn lemma_going_on_waits_for_the_response(moments: Seq<Moment>, k: int)
    requires
        is_session(moments),
        0 <= k < moments.len(),
    ensures
        reaction_to(moments[k]).do_continue ==> reaction_to(moments[k]).action is Write
            && moments[k].event is Handled,
        moments[k].do_continue ==> moments[k].event is Handled || moments[k].event is Written,
    decreases k,
{
    if k > 0 {
        lemma_going_on_waits_for_the_response(moments, k - 1);
        assert(can_follow(moments[k - 1], moments[k]));
    }
}

} // verus!
