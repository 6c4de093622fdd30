//! The envelope codec: framing, signing and the round trip.

use nu_jupyter_kernel::crypto::Digester;
use nu_jupyter_kernel::json::Json;
use nu_jupyter_kernel::messages::control::{ControlReply, ControlRequest};
use nu_jupyter_kernel::messages::multipart::{verify_signature, DecodeError};
use nu_jupyter_kernel::json::print_json;
use nu_jupyter_kernel::messages::iopub::{IopubBroacast, Status};
use nu_jupyter_kernel::messages::shell::{
    ExecuteReply, ExecuteRequest, IsCompleteReply, ShellReply, ShellReplyOk, ShellRequest,
};
use nu_jupyter_kernel::messages::{
    Channel, Header, IncomingContent, KernelSession, Message, Metadata, OutgoingContent, Shutdown,
};

fn digester() -> Digester {
    let mut d = Digester::new();
    d.key_init(b"secret-key".to_vec());
    d
}

fn header(msg_type: &str) -> Header {
    Header {
        msg_id: "abc:0".to_string(),
        session: "abc".to_string(),
        username: "tester".to_string(),
        date: "2024-01-01T00:00:00+00:00".to_string(),
        msg_type: msg_type.to_string(),
        version: "5.3".to_string(),
    }
}

fn execute_envelope() -> Message<IncomingContent> {
    Message {
        zmq_identities: vec![b"router-id".to_vec()],
        header: header("execute_request"),
        parent_header: None,
        metadata: Metadata(Json::Obj(vec![(b"note".to_vec(), Json::Int(3))])),
        content: IncomingContent::Shell(ShellRequest::Execute(ExecuteRequest {
            code: "1 + 1".to_string(),
            silent: false,
            store_history: true,
            user_expressions: Json::Obj(vec![]),
            allow_stdin: false,
            stop_on_error: true,
        })),
        buffers: vec![vec![1, 2, 3], vec![]],
    }
}

#[test]
fn execute_request_round_trips() {
    let d = digester();
    let frames = execute_envelope().into_multipart(&d).0;
    let back = Message::<IncomingContent>::from_multipart(&frames, Channel::Shell)
        .expect("encoded envelope decodes");
    assert_eq!(back.zmq_identities, vec![b"router-id".to_vec()]);
    assert!(back.parent_header.is_none());
    assert_eq!(back.header.msg_id, "abc:0");
    assert_eq!(back.header.msg_type, "execute_request");
    assert_eq!(back.metadata.0, Json::Obj(vec![(b"note".to_vec(), Json::Int(3))]));
    assert_eq!(back.buffers, vec![vec![1, 2, 3], vec![]]);
    match back.content {
        IncomingContent::Shell(ShellRequest::Execute(req)) => {
            assert_eq!(req.code, "1 + 1");
            assert!(!req.silent);
            assert!(req.store_history);
            assert_eq!(req.user_expressions, Json::Obj(vec![]));
            assert!(!req.allow_stdin);
            assert!(req.stop_on_error);
        }
        _ => panic!("wrong content"),
    }
}

#[test]
fn shutdown_request_round_trips_with_parent() {
    let d = digester();
    let env = Message {
        zmq_identities: vec![],
        header: header("shutdown_request"),
        parent_header: Some(header("execute_request")),
        metadata: Metadata(Json::Obj(vec![])),
        content: IncomingContent::Control(ControlRequest::Shutdown(Shutdown { restart: true })),
        buffers: vec![],
    };
    let frames = env.into_multipart(&d).0;
    let back = Message::<IncomingContent>::from_multipart(&frames, Channel::Control)
        .expect("encoded envelope decodes");
    let parent = back.parent_header.expect("parent kept");
    assert_eq!(parent.msg_type, "execute_request");
    match back.content {
        IncomingContent::Control(ControlRequest::Shutdown(s)) => assert!(s.restart),
        _ => panic!("wrong content"),
    }
}

#[test]
fn encoded_envelope_verifies_and_flipped_byte_does_not() {
    let d = digester();
    let mut frames = execute_envelope().into_multipart(&d).0;
    assert_eq!(verify_signature(&frames, &d), Ok(true));
    // flip one byte of the signed content frame
    let content_at = frames.len() - 3;
    frames[content_at][0] ^= 1;
    assert_eq!(verify_signature(&frames, &d), Ok(false));
}

#[test]
fn wrong_key_does_not_verify() {
    let d = digester();
    let frames = execute_envelope().into_multipart(&d).0;
    let mut other = Digester::new();
    other.key_init(b"another-key".to_vec());
    assert_eq!(verify_signature(&frames, &other), Ok(false));
}

#[test]
fn signature_matches_known_hmac_vector() {
    // HMAC-SHA256("key", "The quick brown fox jumps over the lazy dog")
    let mut d = Digester::new();
    d.key_init(b"key".to_vec());
    let sig = d.sign(
        &b"The quick brown fox ".to_vec(),
        &b"jumps over ".to_vec(),
        &b"the lazy".to_vec(),
        &b" dog".to_vec(),
    );
    assert_eq!(
        sig,
        b"f7bc83f430538424b13298e6aa6fb143ef4d59a14946175997479dbc2d1a3cd8".to_vec()
    );
}

#[test]
fn decode_rejects_malformed_frame_lists() {
    let d = digester();
    let good = execute_envelope().into_multipart(&d).0;

    let no_delim: Vec<Vec<u8>> = good
        .iter()
        .filter(|f| f.as_slice() != b"<IDS|MSG>")
        .cloned()
        .collect();
    assert_eq!(
        Message::<IncomingContent>::from_multipart(&no_delim, Channel::Shell).err(),
        Some(DecodeError::MissingDelimiter)
    );

    let short = vec![b"<IDS|MSG>".to_vec(), b"sig".to_vec()];
    assert_eq!(
        Message::<IncomingContent>::from_multipart(&short, Channel::Shell).err(),
        Some(DecodeError::MissingFrames)
    );

    let mut bad_json = good.clone();
    let header_at = bad_json.len() - 6;
    bad_json[header_at] = b"not json".to_vec();
    assert_eq!(
        Message::<IncomingContent>::from_multipart(&bad_json, Channel::Shell).err(),
        Some(DecodeError::InvalidJson)
    );

    // a shell envelope presented on the control channel has an unknown name
    assert_eq!(
        Message::<IncomingContent>::from_multipart(&good, Channel::Control).err(),
        Some(DecodeError::UnknownMessageType)
    );
}

#[test]
fn headers_are_stamped_with_fresh_ids() {
    let mut session = KernelSession::new();
    let h1 = session.header("execute_reply".to_string());
    let h2 = session.header("status".to_string());
    assert_eq!(h1.session.len(), 36);
    assert_eq!(h1.session, h2.session);
    assert_eq!(h1.msg_id, format!("{}:0", h1.session));
    assert_eq!(h2.msg_id, format!("{}:1", h1.session));
    assert_ne!(h1.msg_id, h2.msg_id);
    assert_eq!(h1.username, "nu_kernel");
    assert_eq!(h1.version, "5.3");
    assert_eq!(h1.msg_type, "execute_reply");
    assert!(!h1.date.is_empty());
}

#[test]
fn header_json_round_trips_unicode_fields() {
    let h = Header {
        msg_id: "s:1".to_string(),
        session: "s".to_string(),
        username: "üser ☃".to_string(),
        date: "d".to_string(),
        msg_type: "execute_request".to_string(),
        version: "5.3".to_string(),
    };
    let back = Header::from_json(h.to_json()).expect("own document accepted");
    assert_eq!(back.username, "üser ☃");
    assert_eq!(back.msg_type, "execute_request");
}

#[test]
fn reply_documents_have_their_wire_shape() {
    let execute = ShellReply::Success(ShellReplyOk::Execute(ExecuteReply {
        execution_count: 3,
        user_expressions: Json::Obj(vec![]),
    }));
    assert_eq!(
        String::from_utf8(print_json(&execute.to_json())).unwrap(),
        "{\"status\":\"ok\",\"execution_count\":3,\"user_expressions\":{}}"
    );

    let error = ShellReply::Error {
        name: "E".to_string(),
        value: "bad".to_string(),
        traceback: vec!["line 1".to_string()],
    };
    assert_eq!(
        String::from_utf8(print_json(&error.to_json())).unwrap(),
        "{\"status\":\"error\",\"ename\":\"E\",\"evalue\":\"bad\",\"traceback\":[\"line 1\"]}"
    );

    let incomplete = ShellReply::Success(ShellReplyOk::IsComplete(IsCompleteReply::Incomplete {
        indent: "  ".to_string(),
    }));
    assert_eq!(
        String::from_utf8(print_json(&incomplete.to_json())).unwrap(),
        "{\"status\":\"incomplete\",\"indent\":\"  \"}"
    );

    let busy = IopubBroacast::Status(Status::Busy);
    assert_eq!(busy.msg_type(), "status");
    assert_eq!(
        String::from_utf8(print_json(&busy.to_json())).unwrap(),
        "{\"execution_state\":\"busy\"}"
    );
}

#[test]
fn outgoing_replies_are_signed_too() {
    let d = digester();
    let out = Message {
        zmq_identities: vec![],
        header: header("status"),
        parent_header: Some(header("execute_request")),
        metadata: Metadata(Json::Obj(vec![])),
        content: OutgoingContent::Iopub(IopubBroacast::Status(Status::Idle)),
        buffers: vec![],
    };
    let frames = out.into_multipart(&d).0;
    assert_eq!(verify_signature(&frames, &d), Ok(true));
    assert_eq!(frames[0], b"<IDS|MSG>".to_vec());
    assert_eq!(frames[5], b"{\"execution_state\":\"idle\"}".to_vec());
}

#[test]
fn decode_rejects_wrong_field_documents() {
    let d = digester();
    let good = execute_envelope().into_multipart(&d).0;
    let header_at = good.len() - 6;

    // a well-formed document that is not a header
    let mut bad_header = good.clone();
    bad_header[header_at] = b"{\"a\":1}".to_vec();
    assert_eq!(
        Message::<IncomingContent>::from_multipart(&bad_header, Channel::Shell).err(),
        Some(DecodeError::InvalidHeader)
    );

    // a parent slot that is neither empty nor a header
    let mut bad_parent = good.clone();
    bad_parent[header_at + 1] = b"[1]".to_vec();
    assert_eq!(
        Message::<IncomingContent>::from_multipart(&bad_parent, Channel::Shell).err(),
        Some(DecodeError::InvalidParent)
    );

    // an execute request whose body misses its fields
    let mut bad_content = good.clone();
    bad_content[header_at + 3] = b"{}".to_vec();
    assert_eq!(
        Message::<IncomingContent>::from_multipart(&bad_content, Channel::Shell).err(),
        Some(DecodeError::InvalidContent)
    );
}

#[test]
fn reply_names_follow_the_request_names() {
    assert_eq!(ShellReply::msg_type("kernel_info_request"), Ok("kernel_info_reply"));
    assert_eq!(ShellReply::msg_type("execute_request"), Ok("execute_reply"));
    assert_eq!(ShellReply::msg_type("is_complete_request"), Ok("is_complete_reply"));
    assert_eq!(ShellReply::msg_type("comm_open"), Err(()));
    assert_eq!(ControlReply::msg_type("shutdown_request"), Ok("shutdown_reply"));
    assert_eq!(ControlReply::msg_type("interrupt_request"), Ok("interrupt_reply"));
    assert_eq!(ControlReply::msg_type("debug_request"), Ok("debug_reply"));
    assert_eq!(ControlReply::msg_type("execute_request"), Err(()));
}

#[test]
fn decode_accepts_client_formatting() {
    // a request as a real client writes it: pretty-printed JSON, header
    // keys in another order, unknown fields present
    let d = digester();
    let header_doc = "{\n  \"date\": \"2024-01-01T00:00:00Z\",\n  \"msg_id\": \"c:7\",\n  \"msg_type\": \"execute_request\",\n  \"session\": \"c\",\n  \"username\": \"u\",\n  \"version\": \"5.3\",\n  \"subshell_id\": null\n}";
    let content_doc = "{\n  \"allow_stdin\": true,\n  \"code\": \"2 + 2\",\n  \"stop_on_error\": false,\n  \"store_history\": true,\n  \"user_expressions\": {},\n  \"extra\": [1, 2]\n}";
    let frames = vec![
        b"client-id".to_vec(),
        b"<IDS|MSG>".to_vec(),
        b"0000".to_vec(),
        header_doc.as_bytes().to_vec(),
        b"{}".to_vec(),
        b"{ \"hint\": true }".to_vec(),
        content_doc.as_bytes().to_vec(),
    ];
    let m = Message::<IncomingContent>::from_multipart(&frames, Channel::Shell)
        .expect("client formatting decodes");
    assert_eq!(m.header.msg_id, "c:7");
    assert_eq!(m.header.msg_type, "execute_request");
    assert!(m.parent_header.is_none());
    match m.content {
        IncomingContent::Shell(ShellRequest::Execute(req)) => {
            assert_eq!(req.code, "2 + 2");
            assert!(req.allow_stdin);
            assert!(req.store_history);
            assert!(!req.stop_on_error);
            // a missing silent field means not silent
            assert!(!req.silent);
        }
        _ => panic!("wrong content"),
    }

    let shutdown_doc = b"{ \"restart\": true, \"ignored\": \"field\" }".to_vec();
    let header_doc2 = "{\"msg_id\": \"c:8\", \"session\": \"c\", \"username\": \"u\", \"date\": \"d\", \"msg_type\": \"shutdown_request\", \"version\": \"5.3\"}";
    let frames2 = vec![
        b"<IDS|MSG>".to_vec(),
        b"0000".to_vec(),
        header_doc2.as_bytes().to_vec(),
        b"{}".to_vec(),
        b"{}".to_vec(),
        shutdown_doc,
    ];
    let m2 = Message::<IncomingContent>::from_multipart(&frames2, Channel::Control)
        .expect("shutdown with extra field decodes");
    match m2.content {
        IncomingContent::Control(ControlRequest::Shutdown(s)) => assert!(s.restart),
        _ => panic!("wrong content"),
    }
    let _ = d;
}
