//! Building the broadcast for a chunk of captured stream output.

use vstd::prelude::*;

use crate::json::JsonV;
use crate::messages::{Header, header_json, KernelSession, Message, Metadata};
use crate::messages::iopub::{IopubBroacast, Stream, StreamName, iopub_msg_type};

verus! {

/// The IOPub broadcast carrying one chunk of captured stream output,
/// parented to the request whose execution produced it.
pub fn stream_message(
    session: &mut KernelSession,
    name: StreamName,
    text: String,
    zmq_identities: Vec<Vec<u8>>,
    parent: Option<Header>,
) -> (r: Message<IopubBroacast>)
    requires
        old(session).counter < u64::MAX,
    ensures
        final(session).counter == old(session).counter + 1,
        r.content matches IopubBroacast::Stream(s) && s.name == name && s.text@ == text@,
        r.header.msg_type@ == "stream"@,
        r.parent_header == parent,
        r.zmq_identities == zmq_identities,
        r.metadata.0@ == JsonV::Obj(Seq::<(Seq<u8>, JsonV)>::empty()),
        r.buffers@.len() == 0,
{
    let content = IopubBroacast::Stream(Stream { name, text });
    let msg_type = content.msg_type();
    let header = session.header(crate::messages::str_to_string(msg_type));
    Message {
        zmq_identities,
        header,
        parent_header: parent,
        metadata: Metadata::empty(),
        content,
        buffers: Vec::new(),
    }
}

} // verus!
