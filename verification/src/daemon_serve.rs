//! How the daemon takes a request: what ends the session, what is
//! answered at once, and what takes work.

use crate::daemon::{
    fresh_daemon, poisoned_reply, request, request_of, starts_over, text_at, Daemon, DaemonV,
    Request, RequestV,
};
use crate::daemon_reply::{unknown_op, unknown_reply};
use crate::json::{Json, JsonV};
use vstd::prelude::*;

verus! {

/// What becomes of a request.
pub enum Step {
    /// The session ends.
    Stop,
    /// The answer is known.
    Reply(Json),
    /// The request takes work.
    Work(Request),
}

/// Model of [`Step`].
#[verifier::ext_equal]
pub enum StepV {
    Stop,
    Reply(JsonV),
    Work(RequestV),
}

impl Step {
    /// The model of this step.
    pub open spec fn view(&self) -> StepV {
        match self {
            Step::Stop => StepV::Stop,
            Step::Reply(j) => StepV::Reply(j@),
            Step::Work(r) => StepV::Work(r@),
        }
    }
}

/// What becomes of a request, and of the session: `shutdown` always
/// ends it; a poisoned session refuses everything but `open` and `set`,
/// which start over as session `id`; an unknown op is told so.
pub open spec fn dispatched(d: DaemonV, req: JsonV, id: u64) -> (DaemonV, StepV) {
    let r = request_of(req);
    let over = starts_over(text_at(req, "op"@));
    if r is Shutdown {
        (d, StepV::Stop)
    } else if d.poisoned && !over {
        (d, StepV::Reply(poisoned_reply()))
    } else {
        let next = if d.poisoned {
            fresh_daemon(id)
        } else {
            d
        };
        match r {
            RequestV::Unknown(op) => (next, StepV::Reply(unknown_reply(op))),
            _ => (next, StepV::Work(r)),
        }
    }
}

/// Takes a request.
pub fn dispatch(d: &mut Daemon, req: &Json, id: u64) -> (r: Step)
    requires
        old(d).wf(),
    ensures
        final(d).wf(),
        (final(d)@, r@) == dispatched(old(d)@, req@, id),
{
    let asked = request(req);
    if let Request::Shutdown = asked {
        return Step::Stop;
    }
    let op = match req.get_str("op") {
        Some(s) => s,
        None => "",
    };
    proof {
        reveal_strlit("");
        assert(op@ =~= text_at(req@, "op"@));
    }
    if let Some(refused) = d.gate(op, id) {
        return Step::Reply(refused);
    }
    match asked {
        Request::Unknown(name) => Step::Reply(unknown_op(name.as_str())),
        other => Step::Work(other),
    }
}

/// Nothing is served from a poisoned session, and nothing changes in
/// it, until `open` or `set` starts over with an empty one.
pub proof fn law_poisoned_serves_nothing(d: DaemonV, req: JsonV, id: u64)
    requires
        d.poisoned,
    ensures
        dispatched(d, req, id).1 is Work ==> {
            &&& dispatched(d, req, id).0 == fresh_daemon(id)
            &&& request_of(req) is Open
        },
        !(dispatched(d, req, id).1 is Work) ==> dispatched(d, req, id).0 == d,
{
}

/// A session that is not poisoned does whatever it is asked.
pub proof fn law_sound_session_works(d: DaemonV, req: JsonV, id: u64)
    requires
        !d.poisoned,
        !(request_of(req) is Shutdown || request_of(req) is Unknown),
    ensures
        dispatched(d, req, id) == (d, StepV::Work(request_of(req))),
{
}

} // verus!
