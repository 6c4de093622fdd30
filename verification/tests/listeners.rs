//! The listener decision logic: cell tracking, request turns, shutdown
//! fan-out and the heartbeat echo.

use nu_jupyter_kernel::connection_file::{
    PortAddr, SignatureScheme, SupportedSignatureAlgorithm, SupportedSignatureHashFunction,
    Transport,
};
use nu_jupyter_kernel::external::{AtomicExternalState, ExternalState};
use nu_jupyter_kernel::handlers::control::{control_turn, ControlAction};
use nu_jupyter_kernel::handlers::shell::{shell_turn, Cell, ExecutionOutcome};
use nu_jupyter_kernel::handlers::{
    apply_shutdown, heartbeat_echo, shutdown_directive, LoopDirective,
};
use nu_jupyter_kernel::json::{print_json, Json};
use nu_jupyter_kernel::kernel_info::KernelInfo;
use nu_jupyter_kernel::messages::control::{ControlReply, ControlReplyOk, ControlRequest};
use nu_jupyter_kernel::messages::iopub::{IopubBroacast, Status};
use nu_jupyter_kernel::messages::shell::{
    ExecuteRequest, IsCompleteReply, ShellReply, ShellReplyOk, ShellRequest,
};
use nu_jupyter_kernel::messages::{
    Header, IncomingContent, KernelSession, Message, Metadata, Shutdown,
};
use nu_jupyter_kernel::register_kernel::{kernel_manifest, RegisterLocation};

fn header(msg_type: &str) -> Header {
    Header {
        msg_id: "abc:0".to_string(),
        session: "abc".to_string(),
        username: "tester".to_string(),
        date: "2024-01-01T00:00:00+00:00".to_string(),
        msg_type: msg_type.to_string(),
        version: "5.3".to_string(),
    }
}

fn execute_request(code: &str) -> Message<ShellRequest> {
    Message {
        zmq_identities: vec![b"id".to_vec()],
        header: header("execute_request"),
        parent_header: None,
        metadata: Metadata(Json::Obj(vec![])),
        content: ShellRequest::Execute(ExecuteRequest {
            code: code.to_string(),
            silent: false,
            store_history: true,
            user_expressions: Json::Obj(vec![]),
            allow_stdin: false,
            stop_on_error: true,
        }),
        buffers: vec![],
    }
}

#[test]
fn cell_names_count_retries_and_success_advances() {
    let mut cell = Cell::new();
    assert_eq!(cell.next_name(), "cell[1]#1");
    assert_eq!(cell.next_name(), "cell[1]#2");
    assert_eq!(cell.next_name(), "cell[1]#3");
    assert_eq!(cell.execution_counter, 1);
    assert_eq!(cell.success(), 1);
    assert_eq!(cell.execution_counter, 2);
    assert_eq!(cell.retry_counter, 1);
    assert_eq!(cell.next_name(), "cell[2]#1");
}

#[test]
fn failed_attempts_never_advance_the_counter() {
    let mut session = KernelSession::new();
    let mut cell = Cell::new();
    let mut names = Vec::new();
    for _ in 0..3 {
        names.push(cell.next_name());
        let turn = shell_turn(
            &mut session,
            &mut cell,
            &execute_request("broken +"),
            Some(ExecutionOutcome::Failed {
                name: "ParseError".to_string(),
                value: "broken input".to_string(),
                traceback: vec![],
            }),
        );
        match turn.reply.content {
            ShellReply::Error { ref name, ref value, ref traceback } => {
                assert_eq!(name, "ParseError");
                assert_eq!(value, "broken input");
                assert!(traceback.is_empty());
            }
            _ => panic!("failure must produce an error reply"),
        }
        assert_eq!(cell.execution_counter, 1);
    }
    assert_eq!(names, vec!["cell[1]#1", "cell[1]#2", "cell[1]#3"]);
}

#[test]
fn every_turn_is_bracketed_by_busy_and_idle() {
    let mut session = KernelSession::new();
    let mut cell = Cell::new();
    let requests: Vec<Message<ShellRequest>> = vec![
        Message {
            zmq_identities: vec![],
            header: header("kernel_info_request"),
            parent_header: None,
            metadata: Metadata(Json::Obj(vec![])),
            content: ShellRequest::KernelInfo,
            buffers: vec![],
        },
        execute_request("2 + 2"),
    ];
    for (k, req) in requests.into_iter().enumerate() {
        let outcome = if k == 1 {
            Some(ExecutionOutcome::Produced {
                rendered: Some((
                    vec![("text/plain".to_string(), "4".to_string())],
                    vec![],
                )),
            })
        } else {
            None
        };
        let turn = shell_turn(&mut session, &mut cell, &req, outcome);
        let statuses: Vec<&IopubBroacast> = turn
            .iopub
            .iter()
            .map(|m| &m.content)
            .filter(|c| matches!(c, IopubBroacast::Status(_)))
            .collect();
        assert_eq!(statuses.len(), 2);
        assert!(matches!(turn.iopub.first().unwrap().content, IopubBroacast::Status(Status::Busy)));
        assert!(matches!(turn.iopub.last().unwrap().content, IopubBroacast::Status(Status::Idle)));
        for m in &turn.iopub {
            let parent = m.parent_header.as_ref().expect("broadcast parented");
            assert_eq!(parent.msg_id, req.header.msg_id);
        }
        let parent = turn.reply.parent_header.as_ref().expect("reply parented");
        assert_eq!(parent.msg_id, req.header.msg_id);
    }
}

#[test]
fn successful_execution_reports_the_pre_increment_count() {
    let mut session = KernelSession::new();
    let mut cell = Cell::new();
    let _name = cell.next_name();
    let turn = shell_turn(
        &mut session,
        &mut cell,
        &execute_request("2 + 2"),
        Some(ExecutionOutcome::Produced {
            rendered: Some((vec![("text/plain".to_string(), "4".to_string())], vec![])),
        }),
    );
    match turn.reply.content {
        ShellReply::Success(ShellReplyOk::Execute(ref er)) => {
            assert_eq!(er.execution_count, 1);
        }
        _ => panic!("success must produce an execute reply"),
    }
    let result = turn
        .iopub
        .iter()
        .find_map(|m| match &m.content {
            IopubBroacast::ExecuteResult(e) => Some(e),
            _ => None,
        })
        .expect("a result broadcast goes out");
    assert_eq!(result.execution_count, 1);
    assert_eq!(result.data, vec![("text/plain".to_string(), "4".to_string())]);
    assert_eq!(cell.execution_counter, 2);
    assert_eq!(turn.reply.header.msg_type, "execute_reply");
}

#[test]
fn is_complete_always_defers_to_the_client() {
    let mut session = KernelSession::new();
    let mut cell = Cell::new();
    let req = Message {
        zmq_identities: vec![],
        header: header("is_complete_request"),
        parent_header: None,
        metadata: Metadata(Json::Obj(vec![])),
        content: ShellRequest::IsComplete(
            nu_jupyter_kernel::messages::shell::IsCompleteRequest { code: "if".to_string() },
        ),
        buffers: vec![],
    };
    let turn = shell_turn(&mut session, &mut cell, &req, None);
    assert!(matches!(
        turn.reply.content,
        ShellReply::Success(ShellReplyOk::IsComplete(IsCompleteReply::Unknown))
    ));
    assert_eq!(turn.reply.header.msg_type, "is_complete_reply");
}

#[test]
fn control_requests_map_to_replies_and_actions() {
    let mut session = KernelSession::new();
    let shutdown = Message {
        zmq_identities: vec![],
        header: header("shutdown_request"),
        parent_header: None,
        metadata: Metadata(Json::Obj(vec![])),
        content: ControlRequest::Shutdown(Shutdown { restart: false }),
        buffers: vec![],
    };
    let turn = control_turn(&mut session, &shutdown);
    assert_eq!(turn.action, ControlAction::SignalShutdown(Shutdown { restart: false }));
    assert!(matches!(
        turn.reply.content,
        ControlReply::Success(ControlReplyOk::Shutdown(Shutdown { restart: false }))
    ));
    assert_eq!(turn.reply.header.msg_type, "shutdown_reply");

    let interrupt = Message {
        zmq_identities: vec![],
        header: header("interrupt_request"),
        parent_header: None,
        metadata: Metadata(Json::Obj(vec![])),
        content: ControlRequest::Interrupt,
        buffers: vec![],
    };
    let turn = control_turn(&mut session, &interrupt);
    assert_eq!(turn.action, ControlAction::SignalInterrupt);
    assert!(matches!(turn.reply.content, ControlReply::Success(ControlReplyOk::Interrupt)));

    let debug = Message {
        zmq_identities: vec![],
        header: header("debug_request"),
        parent_header: None,
        metadata: Metadata(Json::Obj(vec![])),
        content: ControlRequest::Debug,
        buffers: vec![],
    };
    let turn = control_turn(&mut session, &debug);
    assert_eq!(turn.action, ControlAction::Proceed);
    assert!(matches!(turn.reply.content, ControlReply::Error { .. }));
}

#[test]
fn shutdown_fans_out_and_restart_resets_the_cell() {
    assert_eq!(shutdown_directive(Shutdown { restart: false }), LoopDirective::Exit);
    assert_eq!(shutdown_directive(Shutdown { restart: true }), LoopDirective::Reset);

    let mut cell = Cell::new();
    cell.next_name();
    cell.success();
    cell.next_name();
    assert_eq!(apply_shutdown(&mut cell, Shutdown { restart: false }), LoopDirective::Exit);
    assert_eq!(cell.execution_counter, 2);
    assert_eq!(apply_shutdown(&mut cell, Shutdown { restart: true }), LoopDirective::Reset);
    assert_eq!(cell.execution_counter, 1);
    assert_eq!(cell.retry_counter, 1);
}

#[test]
fn heartbeat_returns_frames_unchanged() {
    let frames = vec![b"ping".to_vec(), vec![0, 255, 7], vec![]];
    assert_eq!(heartbeat_echo(frames.clone()), frames);
}

#[test]
fn kernel_info_names_the_language() {
    let ki = KernelInfo::get();
    assert_eq!(ki.protocol_version, "5.3");
    assert_eq!(ki.language_info.name, "nushell");
    assert_eq!(ki.language_info.mimetype, "text/nu");
    assert_eq!(ki.language_info.file_extension, ".nu");
    assert!(!ki.debugger);
    assert_eq!(ki.help_links.len(), 2);
}

#[test]
fn external_command_state_moves_forward_only() {
    let mut s = AtomicExternalState::new(ExternalState::Disabled);
    assert!(!s.apply_step());
    assert_eq!(s.fetch_max(ExternalState::JustEnabled), ExternalState::Disabled);
    assert_eq!(s.load(), ExternalState::JustEnabled);
    assert!(s.apply_step());
    assert_eq!(s.load(), ExternalState::AlreadyEnabled);
    assert_eq!(s.fetch_max(ExternalState::JustEnabled), ExternalState::AlreadyEnabled);
    assert_eq!(s.load(), ExternalState::AlreadyEnabled);
    assert!(!s.apply_step());
}

#[test]
fn connection_pieces_parse_and_report() {
    let scheme = SignatureScheme::parse("hmac-sha256").expect("supported scheme");
    assert!(matches!(scheme.algorithm, SupportedSignatureAlgorithm::Hmac));
    assert!(matches!(scheme.hash_fn, SupportedSignatureHashFunction::Sha256));
    assert!(SignatureScheme::parse("hmac-sha512").is_err());
    assert_eq!(PortAddr(5555).port(), 5555);
    assert_eq!(Transport::Tcp.scheme(), "tcp");
    assert!(matches!(RegisterLocation::User, RegisterLocation::User));
}

#[test]
fn kernel_manifest_lists_the_start_command() {
    let manifest = kernel_manifest("/usr/bin/kernel");
    let text = String::from_utf8(print_json(&manifest)).unwrap();
    assert_eq!(
        text,
        "{\"argv\":[\"/usr/bin/kernel\",\"start\",\"{connection_file}\"],\
         \"display_name\":\"Nushell\",\"language\":\"nushell\",\
         \"interrupt_mode\":\"message\"}"
    );
}
