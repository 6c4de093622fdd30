//! The Shell listener's decisions: the execution-cell tracker and the
//! reply and broadcasts owed for every Shell request.

use vstd::prelude::*;

use crate::json::{Json, JsonV, spec_digits, view_fields};
use crate::kernel_info::KernelInfo;
use crate::messages::{
    ascii_chars_of, header_json, KernelSession, Message, Metadata, str_to_string, str_map_json,
    str_list_json, json_str, u64_to_string,
};
use crate::kernel_info::canonical_kernel_info;
use crate::messages::iopub::{DisplayData, ExecuteResult, IopubBroacast, Status, iopub_msg_type};
use crate::messages::multipart::copy_frames;
use crate::messages::shell::{
    ExecuteReply, IsCompleteReply, ShellReply, ShellReplyOk, ShellRequest, shell_request_type,
    spec_shell_reply_type,
};
use vstd::string::StringExecFns;

verus! {

/// The execution-cell tracker: the notebook's execution counter and the
/// retry counter for the current cell.
pub struct Cell {
    pub execution_counter: u64,
    pub retry_counter: u64,
}

/// One operation on the cell tracker.
pub ghost enum CellOp {
    NextName,
    Success,
}

/// The tracker's counters after one operation, over unbounded integers.
pub open spec fn cell_step(s: (int, int), op: CellOp) -> (int, int) {
    match op {
        CellOp::NextName => (s.0, s.1 + 1),
        CellOp::Success => (s.0 + 1, 1),
    }
}

/// The tracker's counters after a whole run of operations.
pub open spec fn cell_run(s: (int, int), ops: Seq<CellOp>) -> (int, int)
    decreases ops.len(),
{
    if ops.len() == 0 {
        s
    } else {
        cell_run(cell_step(s, ops[0]), ops.drop_first())
    }
}

/// How many successful executions a run records.
pub open spec fn successes(ops: Seq<CellOp>) -> int
    decreases ops.len(),
{
    if ops.len() == 0 {
        0int
    } else {
        (if ops[0] is Success {
            1int
        } else {
            0int
        }) + successes(ops.drop_first())
    }
}

/// The execution counter never goes backwards, and advances exactly
/// once per successful execution: after any run it has grown by the
/// number of successes, and without a success the retry counter has
/// grown by one per name drawn.
pub proof fn lemma_cell_monotonic(s: (int, int), ops: Seq<CellOp>)
    ensures
        cell_run(s, ops).0 == s.0 + successes(ops),
        successes(ops) >= 0,
        cell_run(s, ops).0 >= s.0,
        successes(ops) == 0 ==> cell_run(s, ops) == (s.0, s.1 + ops.len()),
    decreases ops.len(),
{
    if ops.len() > 0 {
        lemma_cell_monotonic(cell_step(s, ops[0]), ops.drop_first());
    }
}

/// The name of one attempt: `cell[` the execution counter `]#` the
/// retry counter.
pub open spec fn cell_name_chars(ec: u64, rc: u64) -> Seq<char> {
    "cell["@ + ascii_chars_of(spec_digits(ec)) + "]#"@ + ascii_chars_of(spec_digits(rc))
}

/// Two attempts on one cell never share a name.
pub proof fn lemma_retry_names_distinct(ec: u64, r1: u64, r2: u64)
    requires
        r1 != r2,
    ensures
        cell_name_chars(ec, r1) != cell_name_chars(ec, r2),
{
    if cell_name_chars(ec, r1) == cell_name_chars(ec, r2) {
        let pre = "cell["@ + ascii_chars_of(spec_digits(ec)) + "]#"@;
        let a1 = ascii_chars_of(spec_digits(r1));
        let a2 = ascii_chars_of(spec_digits(r2));
        assert(pre + a1 =~= cell_name_chars(ec, r1));
        assert(pre + a2 =~= cell_name_chars(ec, r2));
        crate::json::lemma_concat_cancel::<char>(pre, a1, pre, a2);
        crate::json::lemma_digits_shape(r1);
        crate::json::lemma_digits_shape(r2);
        assert forall|k: int| 0 <= k < spec_digits(r1).len() implies spec_digits(r1)[k]
            == spec_digits(r2)[k] by {
            assert(a1[k] == spec_digits(r1)[k] as char);
            assert(a2[k] == spec_digits(r2)[k] as char);
        }
        assert(spec_digits(r1) =~= spec_digits(r2));
        crate::json::lemma_digits_val(r1);
        crate::json::lemma_digits_val(r2);
        assert(false);
    }
}

impl Cell {
    /// A fresh tracker: both counters start at one.
    pub fn new() -> (r: Cell)
        ensures
            r.execution_counter == 1,
            r.retry_counter == 1,
    {
        Cell { execution_counter: 1, retry_counter: 1 }
    }

    /// The name for the next attempt on the current cell; drawing it
    /// counts as one more retry.
    pub fn next_name(&mut self) -> (r: String)
        requires
            old(self).retry_counter < u64::MAX,
        ensures
            final(self).execution_counter == old(self).execution_counter,
            final(self).retry_counter == old(self).retry_counter + 1,
            r@ == cell_name_chars(old(self).execution_counter, old(self).retry_counter),
            (final(self).execution_counter as int, final(self).retry_counter as int)
                == cell_step(
                (old(self).execution_counter as int, old(self).retry_counter as int),
                CellOp::NextName,
            ),
    {
        let ec = u64_to_string(self.execution_counter);
        let rc = u64_to_string(self.retry_counter);
        let mut name = String::from_str("cell[");
        name.append(ec.as_str());
        name.append("]#");
        name.append(rc.as_str());
        proof {
            assert(name@ =~= cell_name_chars(self.execution_counter, self.retry_counter));
        }
        self.retry_counter = self.retry_counter + 1;
        name
    }

    /// Record a successful execution: hand out the counter the cell ran
    /// under, advance it, and reset the retry counter.
    pub fn success(&mut self) -> (r: u64)
        requires
            old(self).execution_counter < u64::MAX,
        ensures
            r == old(self).execution_counter,
            final(self).execution_counter == old(self).execution_counter + 1,
            final(self).retry_counter == 1,
            (final(self).execution_counter as int, final(self).retry_counter as int)
                == cell_step(
                (old(self).execution_counter as int, old(self).retry_counter as int),
                CellOp::Success,
            ),
    {
        let current = self.execution_counter;
        self.execution_counter = self.execution_counter + 1;
        self.retry_counter = 1;
        current
    }
}

/// What came back from the execution engine and the renderer for one
/// execute request: either a rendering of the produced value (or none,
/// when the code produced nothing), or a structured error.
pub enum ExecutionOutcome {
    Produced { rendered: Option<(Vec<(String, String)>, Vec<(String, String)>)> },
    Failed { name: String, value: String, traceback: Vec<String> },
}

/// Everything one Shell request obliges the kernel to send: the IOPub
/// broadcasts in order, and the direct reply.
pub struct ShellTurn {
    pub iopub: Vec<Message<IopubBroacast>>,
    pub reply: Message<ShellReply>,
}

/// The reply content owed for one request and outcome.
pub open spec fn owed_reply(
    c: ShellRequest,
    outcome: Option<ExecutionOutcome>,
    count_before: u64,
    rep: ShellReply,
) -> bool {
    match c {
        ShellRequest::KernelInfo => rep matches ShellReply::Success(ShellReplyOk::KernelInfo(ki))
            && canonical_kernel_info(ki),
        ShellRequest::IsComplete(_) => rep == ShellReply::Success(
            ShellReplyOk::IsComplete(IsCompleteReply::Unknown),
        ),
        ShellRequest::Execute(_) => match outcome {
            Some(ExecutionOutcome::Produced { rendered }) => rep matches ShellReply::Success(
                ShellReplyOk::Execute(er),
            ) && er.execution_count == count_before && er.user_expressions@ == JsonV::Obj(
                Seq::<(Seq<u8>, JsonV)>::empty(),
            ),
            Some(ExecutionOutcome::Failed { name, value, traceback }) => rep matches
                ShellReply::Error { name: n, value: v, traceback: tb } && n@ == name@ && v@
                == value@ && tb.deep_view() == traceback.deep_view(),
            None => false,
        },
    }
}

/// The broadcasts owed between busy and idle: the rendered result on a
/// rendering success, the error rendering on a failure, nothing else.
pub open spec fn owed_broadcasts(
    outcome: Option<ExecutionOutcome>,
    count_before: u64,
    req_ids: Seq<Seq<u8>>,
    iopub: Seq<Message<IopubBroacast>>,
) -> bool {
    match outcome {
        Some(ExecutionOutcome::Produced { rendered }) => match rendered {
            Some(rd) => iopub.len() == 3 && (iopub[1].content matches
                IopubBroacast::ExecuteResult(e) && e.execution_count == count_before
                && e.data.deep_view() == rd.0.deep_view() && e.metadata.deep_view()
                == rd.1.deep_view()) && iopub[1].zmq_identities.deep_view() == req_ids,
            None => iopub.len() == 2,
        },
        Some(ExecutionOutcome::Failed { name, value, traceback }) => iopub.len() == 3 && (
        iopub[1].content matches IopubBroacast::DisplayData(dd) && dd.data.deep_view() == seq![
            ("text/plain"@, value@),
        ] && dd.metadata@.len() == 0 && dd.transient@.len() == 0) && iopub[
            1
        ].zmq_identities.deep_view() == req_ids,
        None => iopub.len() == 2,
    }
}

/// Every broadcast goes out under its own wire name, with the default
/// metadata and no buffers.
pub open spec fn broadcast_plumbing(m: Message<IopubBroacast>) -> bool {
    &&& m.header.msg_type@ == iopub_msg_type(m.content)
    &&& m.metadata.0@ == JsonV::Obj(Seq::<(Seq<u8>, JsonV)>::empty())
    &&& m.buffers@.len() == 0
}

/// Serve one Shell request: broadcast busy, act, broadcast idle, reply.
///
/// The caller has already run the engine for an execute request and
/// hands in the outcome; the cell advances exactly on success and is
/// untouched by failures.
#[verifier::rlimit(100)]
#[verifier::spinoff_prover]
pub fn shell_turn(
    session: &mut KernelSession,
    cell: &mut Cell,
    req: &Message<ShellRequest>,
    outcome: Option<ExecutionOutcome>,
) -> (t: ShellTurn)
    requires
        old(session).counter <= u64::MAX - 4,
        old(cell).execution_counter < u64::MAX,
        req.header.msg_type@ == shell_request_type(req.content),
        (req.content is Execute) == (outcome is Some),
    ensures
        // exactly one busy first and one idle last bracket the turn
        2 <= t.iopub@.len() <= 3,
        t.iopub@[0].content == IopubBroacast::Status(Status::Busy),
        t.iopub@[t.iopub@.len() - 1].content == IopubBroacast::Status(Status::Idle),
        forall|k: int| 0 < k < t.iopub@.len() - 1 ==> !((#[trigger] t.iopub@[k].content)
            is Status),
        // every broadcast and the reply carry the request's header as parent
        forall|k: int| 0 <= k < t.iopub@.len() ==> ((#[trigger] t.iopub@[k].parent_header)
            matches Some(p) && header_json(p) == header_json(req.header)),
        // every broadcast goes out under its own wire name, with default
        // metadata and no buffers; the statuses carry no route
        forall|k: int| 0 <= k < t.iopub@.len() ==> broadcast_plumbing(#[trigger] t.iopub@[k]),
        t.iopub@[0].zmq_identities@.len() == 0,
        t.iopub@[t.iopub@.len() - 1].zmq_identities@.len() == 0,
        // the middle broadcast carries exactly the outcome's rendering
        owed_broadcasts(outcome, old(cell).execution_counter, req.zmq_identities.deep_view(),
            t.iopub@),
        t.reply.metadata.0@ == JsonV::Obj(Seq::<(Seq<u8>, JsonV)>::empty()),
        t.reply.buffers@.len() == 0,
        t.reply.parent_header matches Some(p) && header_json(p) == header_json(req.header),
        // the reply goes back on the request's route under the owed name
        t.reply.zmq_identities.deep_view() == req.zmq_identities.deep_view(),
        spec_shell_reply_type(req.header.msg_type@) == Option::Some(t.reply.header.msg_type@),
        // the reply content answers the request
        owed_reply(req.content, outcome, old(cell).execution_counter, t.reply.content),
        // counters move only on success
        match outcome {
            Some(ExecutionOutcome::Produced { .. }) => final(cell).execution_counter == old(
                cell,
            ).execution_counter + 1 && final(cell).retry_counter == 1,
            _ => *final(cell) == *old(cell),
        },
{
    let busy = status_message(session, req, Status::Busy);
    let mut iopub: Vec<Message<IopubBroacast>> = Vec::new();
    iopub.push(busy);
    let (reply_content, middle): (ShellReply, Option<Message<IopubBroacast>>) = match &req.content
    {
        ShellRequest::KernelInfo => (
            ShellReply::Success(ShellReplyOk::KernelInfo(KernelInfo::get())),
            None,
        ),
        ShellRequest::IsComplete(_) => (
            ShellReply::Success(ShellReplyOk::IsComplete(IsCompleteReply::Unknown)),
            None,
        ),
        ShellRequest::Execute(_) => {
            match outcome {
                Some(ExecutionOutcome::Produced { rendered }) => {
                    let count = cell.success();
                    match rendered {
                        Some((data, metadata)) => {
                            let broadcast = IopubBroacast::ExecuteResult(ExecuteResult {
                                execution_count: count,
                                data,
                                metadata,
                            });
                            let msg = broadcast_message(session, req, broadcast);
                            (
                                ShellReply::Success(ShellReplyOk::Execute(ExecuteReply {
                                    execution_count: count,
                                    user_expressions: Json::Obj(Vec::new()),
                                })),
                                Some(msg),
                            )
                        }
                        None => (
                            ShellReply::Success(ShellReplyOk::Execute(ExecuteReply {
                                execution_count: count,
                                user_expressions: Json::Obj(Vec::new()),
                            })),
                            None,
                        ),
                    }
                }
                Some(ExecutionOutcome::Failed { name, value, traceback }) => {
                    let mut data: Vec<(String, String)> = Vec::new();
                    data.push((String::from_str("text/plain"), value.clone()));
                    proof {
                        assert(data.deep_view() =~= seq![("text/plain"@, value@)]);
                    }
                    let broadcast = IopubBroacast::DisplayData(DisplayData {
                        data,
                        metadata: Vec::new(),
                        transient: Vec::new(),
                    });
                    let msg = broadcast_message(session, req, broadcast);
                    (ShellReply::Error { name, value, traceback }, Some(msg))
                }
                None => vstd::pervasive::unreached(),
            }
        }
    };
    if let Some(msg) = middle {
        iopub.push(msg);
    }
    let idle = status_message(session, req, Status::Idle);
    iopub.push(idle);
    let reply_type = match crate::messages::shell::ShellReply::msg_type(
        req.header.msg_type.as_str(),
    ) {
        Ok(tname) => tname,
        Err(_) => vstd::pervasive::unreached(),
    };
    let header = session.header(str_to_string(reply_type));
    let reply = Message {
        zmq_identities: copy_frames(&req.zmq_identities, 0, req.zmq_identities.len()),
        header,
        parent_header: Some(req.header.clone()),
        metadata: Metadata::empty(),
        content: reply_content,
        buffers: Vec::new(),
    };
    proof {
        assert(reply.zmq_identities.deep_view() =~= req.zmq_identities.deep_view());
    }
    ShellTurn { iopub, reply }
}

/// A status broadcast parented to the request being served.
fn status_message(session: &mut KernelSession, req: &Message<ShellRequest>, status: Status) -> (r:
    Message<IopubBroacast>)
    requires
        old(session).counter < u64::MAX,
    ensures
        final(session).counter == old(session).counter + 1,
        r.content == IopubBroacast::Status(status),
        r.parent_header matches Some(p) && header_json(p) == header_json(req.header),
        r.zmq_identities@.len() == 0,
        broadcast_plumbing(r),
{
    let content = IopubBroacast::Status(status);
    let msg_type = content.msg_type();
    let header = session.header(str_to_string(msg_type));
    Message {
        zmq_identities: Vec::new(),
        header,
        parent_header: Some(req.header.clone()),
        metadata: Metadata::empty(),
        content,
        buffers: Vec::new(),
    }
}

/// A result or error broadcast parented to the request being served.
fn broadcast_message(
    session: &mut KernelSession,
    req: &Message<ShellRequest>,
    content: IopubBroacast,
) -> (r: Message<IopubBroacast>)
    requires
        old(session).counter < u64::MAX,
    ensures
        final(session).counter == old(session).counter + 1,
        r.content == content,
        r.parent_header matches Some(p) && header_json(p) == header_json(req.header),
        r.zmq_identities.deep_view() == req.zmq_identities.deep_view(),
        broadcast_plumbing(r),
{
    let ghost gc = content;
    let msg_type = content.msg_type();
    let header = session.header(str_to_string(msg_type));
    let r = Message {
        zmq_identities: copy_frames(&req.zmq_identities, 0, req.zmq_identities.len()),
        header,
        parent_header: Some(req.header.clone()),
        metadata: Metadata::empty(),
        content,
        buffers: Vec::new(),
    };
    proof {
        assert(r.zmq_identities.deep_view() =~= req.zmq_identities.deep_view());
    }
    r
}

} // verus!
