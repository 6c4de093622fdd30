//! The Control listener's decisions: the reply and the coordination
//! action owed for every Control request.

use vstd::prelude::*;

use crate::json::{JsonV, Json};
use crate::kernel_info::{KernelInfo, canonical_kernel_info};
use crate::messages::{
    header_json, KernelSession, Message, Metadata, Shutdown, str_to_string,
};
use crate::messages::control::{
    ControlReply, ControlReplyOk, ControlRequest, control_request_type, spec_control_reply_type,
};
use crate::messages::multipart::copy_frames;
use vstd::string::StringExecFns;

verus! {

/// What the Control listener asks the rest of the kernel to do.
#[derive(Debug, Clone, Copy, PartialEq, Eq, Structural)]
pub enum ControlAction {
    Proceed,
    SignalShutdown(Shutdown),
    SignalInterrupt,
}

/// One served Control request: the reply to send back, and the action
/// to take before sending it.
pub struct ControlTurn {
    pub reply: Message<ControlReply>,
    pub action: ControlAction,
}

/// The reply content and action owed for one request.
pub open spec fn owed_control(c: ControlRequest, rep: ControlReply, action: ControlAction) -> bool {
    match c {
        ControlRequest::KernelInfo => rep matches ControlReply::Success(
            ControlReplyOk::KernelInfo(ki),
        ) && canonical_kernel_info(ki) && action == ControlAction::Proceed,
        ControlRequest::Shutdown(s) => rep == ControlReply::Success(ControlReplyOk::Shutdown(s))
            && action == ControlAction::SignalShutdown(s),
        ControlRequest::Interrupt => rep == ControlReply::Success(ControlReplyOk::Interrupt)
            && action == ControlAction::SignalInterrupt,
        ControlRequest::Debug => (rep matches ControlReply::Error { .. }) && action
            == ControlAction::Proceed,
    }
}

/// Serve one Control request.
///
/// A shutdown request asks the caller to fan the signal out before the
/// reply goes; an interrupt request asks the caller to raise the flag
/// and wait for the engine to clear it before the reply goes.  A debug
/// request is rejected explicitly: that surface is not implemented.
pub fn control_turn(session: &mut KernelSession, req: &Message<ControlRequest>) -> (t: ControlTurn)
    requires
        old(session).counter < u64::MAX,
        req.header.msg_type@ == control_request_type(req.content),
    ensures
        t.reply.parent_header matches Some(p) && header_json(p) == header_json(req.header),
        t.reply.zmq_identities.deep_view() == req.zmq_identities.deep_view(),
        spec_control_reply_type(req.header.msg_type@) == Option::Some(
            t.reply.header.msg_type@,
        ),
        owed_control(req.content, t.reply.content, t.action),
        t.reply.metadata.0@ == JsonV::Obj(Seq::<(Seq<u8>, JsonV)>::empty()),
        t.reply.buffers@.len() == 0,
{
    let (content, action): (ControlReply, ControlAction) = match &req.content {
        ControlRequest::KernelInfo => (
            ControlReply::Success(ControlReplyOk::KernelInfo(KernelInfo::get())),
            ControlAction::Proceed,
        ),
        ControlRequest::Shutdown(s) => (
            ControlReply::Success(ControlReplyOk::Shutdown(*s)),
            ControlAction::SignalShutdown(*s),
        ),
        ControlRequest::Interrupt => (
            ControlReply::Success(ControlReplyOk::Interrupt),
            ControlAction::SignalInterrupt,
        ),
        ControlRequest::Debug => (
            ControlReply::Error {
                name: String::from_str("NotImplementedError"),
                value: String::from_str("debug requests are not supported"),
                traceback: Vec::new(),
            },
            ControlAction::Proceed,
        ),
    };
    let reply_type = match ControlReply::msg_type(req.header.msg_type.as_str()) {
        Ok(tname) => tname,
        Err(_) => vstd::pervasive::unreached(),
    };
    let header = session.header(str_to_string(reply_type));
    let reply = Message {
        zmq_identities: copy_frames(&req.zmq_identities, 0, req.zmq_identities.len()),
        header,
        parent_header: Some(req.header.clone()),
        metadata: Metadata::empty(),
        content,
        buffers: Vec::new(),
    };
    proof {
        assert(reply.zmq_identities.deep_view() =~= req.zmq_identities.deep_view());
    }
    ControlTurn { reply, action }
}

} // verus!
