//! Shell channel content: execution and introspection requests and
//! their replies.

use vstd::prelude::*;

use crate::json::{
    Json, JsonV, view_fields, lemma_view_fields_len, lemma_view_fields_index, obj_get,
    find_field, lemma_obj_get_at,
};
use crate::kernel_info::{KernelInfo, kernel_info_fields};
use crate::messages::{str_eq, json_str, jstr, jstr_list, str_list_json};

verus! {

/// A request arriving on the Shell channel.
pub enum ShellRequest {
    Execute(ExecuteRequest),
    IsComplete(IsCompleteRequest),
    KernelInfo,
}

/// A request to execute one cell of code.
pub struct ExecuteRequest {
    pub code: String,
    pub silent: bool,
    pub store_history: bool,
    pub user_expressions: Json,
    pub allow_stdin: bool,
    pub stop_on_error: bool,
}

/// A request to judge whether code is a complete input.
pub struct IsCompleteRequest {
    pub code: String,
}

/// The completeness judgement returned to the client.
pub enum IsCompleteReply {
    Complete,
    Incomplete { indent: String },
    Invalid,
    Unknown,
}

/// The reply to an execute request.
pub struct ExecuteReply {
    pub execution_count: u64,
    pub user_expressions: Json,
}

/// The wire name of a Shell request.
pub open spec fn shell_request_type(c: ShellRequest) -> Seq<char> {
    match c {
        ShellRequest::Execute(_) => "execute_request"@,
        ShellRequest::IsComplete(_) => "is_complete_request"@,
        ShellRequest::KernelInfo => "kernel_info_request"@,
    }
}

/// The keys of an execute request object.
pub open spec fn ek_code() -> Seq<u8> {
    seq![0x63u8, 0x6fu8, 0x64u8, 0x65u8]
}

pub open spec fn ek_silent() -> Seq<u8> {
    seq![0x73u8, 0x69u8, 0x6cu8, 0x65u8, 0x6eu8, 0x74u8]
}

pub open spec fn ek_store_history() -> Seq<u8> {
    seq![0x73u8, 0x74u8, 0x6fu8, 0x72u8, 0x65u8, 0x5fu8, 0x68u8, 0x69u8, 0x73u8, 0x74u8, 0x6fu8,
        0x72u8, 0x79u8]
}

pub open spec fn ek_user_expressions() -> Seq<u8> {
    seq![0x75u8, 0x73u8, 0x65u8, 0x72u8, 0x5fu8, 0x65u8, 0x78u8, 0x70u8, 0x72u8, 0x65u8, 0x73u8,
        0x73u8, 0x69u8, 0x6fu8, 0x6eu8, 0x73u8]
}

pub open spec fn ek_allow_stdin() -> Seq<u8> {
    seq![0x61u8, 0x6cu8, 0x6cu8, 0x6fu8, 0x77u8, 0x5fu8, 0x73u8, 0x74u8, 0x64u8, 0x69u8, 0x6eu8]
}

pub open spec fn ek_stop_on_error() -> Seq<u8> {
    seq![0x73u8, 0x74u8, 0x6fu8, 0x70u8, 0x5fu8, 0x6fu8, 0x6eu8, 0x5fu8, 0x65u8, 0x72u8, 0x72u8,
        0x6fu8, 0x72u8]
}

/// The canonical JSON document of an execute request.
pub open spec fn execute_request_json(r: ExecuteRequest) -> JsonV {
    JsonV::Obj(
        seq![
            (ek_code(), JsonV::Str(vstd::utf8::encode_utf8(r.code@))),
            (ek_silent(), JsonV::Bool(r.silent)),
            (ek_store_history(), JsonV::Bool(r.store_history)),
            (ek_user_expressions(), r.user_expressions@),
            (ek_allow_stdin(), JsonV::Bool(r.allow_stdin)),
            (ek_stop_on_error(), JsonV::Bool(r.stop_on_error)),
        ],
    )
}

/// The canonical JSON document of an is-complete request.
pub open spec fn is_complete_request_json(r: IsCompleteRequest) -> JsonV {
    JsonV::Obj(seq![(ek_code(), JsonV::Str(vstd::utf8::encode_utf8(r.code@)))])
}

/// The canonical JSON document of a Shell request body.
pub open spec fn shell_request_json(c: ShellRequest) -> JsonV {
    match c {
        ShellRequest::Execute(r) => execute_request_json(r),
        ShellRequest::IsComplete(r) => is_complete_request_json(r),
        ShellRequest::KernelInfo => JsonV::Obj(Seq::empty()),
    }
}

proof fn lemma_execute_request_json_elim(r: ExecuteRequest, fv: Seq<(Seq<u8>, JsonV)>)
    requires
        JsonV::Obj(fv) == execute_request_json(r),
    ensures
        fv.len() == 6,
        fv[0] == (ek_code(), JsonV::Str(vstd::utf8::encode_utf8(r.code@))),
        fv[1] == (ek_silent(), JsonV::Bool(r.silent)),
        fv[2] == (ek_store_history(), JsonV::Bool(r.store_history)),
        fv[3] == (ek_user_expressions(), r.user_expressions@),
        fv[4] == (ek_allow_stdin(), JsonV::Bool(r.allow_stdin)),
        fv[5] == (ek_stop_on_error(), JsonV::Bool(r.stop_on_error)),
{
}
/// Each execute-request field stands in the object under its key, in
/// any order and beside any other fields; a missing `silent` means
/// false, as the wire protocol allows.
pub open spec fn execute_fields_in(v: JsonV, r: ExecuteRequest) -> bool {
    &&& v is Obj
    &&& obj_get(v->Obj_0, ek_code()) == Option::Some(json_str(r.code@))
    &&& (obj_get(v->Obj_0, ek_silent()) == Option::Some(JsonV::Bool(r.silent)) || (obj_get(
        v->Obj_0,
        ek_silent(),
    ) is None && r.silent == false))
    &&& obj_get(v->Obj_0, ek_store_history()) == Option::Some(JsonV::Bool(r.store_history))
    &&& obj_get(v->Obj_0, ek_user_expressions()) == Option::Some(r.user_expressions@)
    &&& obj_get(v->Obj_0, ek_allow_stdin()) == Option::Some(JsonV::Bool(r.allow_stdin))
    &&& obj_get(v->Obj_0, ek_stop_on_error()) == Option::Some(JsonV::Bool(r.stop_on_error))
}

/// The single is-complete field stands in the object under its key.
pub open spec fn is_complete_fields_in(v: JsonV, r: IsCompleteRequest) -> bool {
    &&& v is Obj
    &&& obj_get(v->Obj_0, ek_code()) == Option::Some(json_str(r.code@))
}

/// What the parser guarantees of an accepted request body.
pub open spec fn shell_body_in(c: ShellRequest, v: JsonV) -> bool {
    match c {
        ShellRequest::Execute(r) => execute_fields_in(v, r),
        ShellRequest::IsComplete(r) => is_complete_fields_in(v, r),
        ShellRequest::KernelInfo => true,
    }
}

/// The canonical execute document answers every lookup with its field.
proof fn lemma_execute_json_lookup(r: ExecuteRequest)
    ensures
        execute_fields_in(execute_request_json(r), r),
{
    let fv = execute_request_json(r)->Obj_0;
    lemma_execute_request_json_elim(r, fv);
    assert(ek_code().len() == 4 && ek_silent().len() == 6 && ek_store_history().len() == 13
        && ek_user_expressions().len() == 16 && ek_allow_stdin().len() == 11
        && ek_stop_on_error().len() == 13);
    assert(ek_store_history()[3] == 0x72 && ek_stop_on_error()[3] == 0x70);
    lemma_obj_get_at(fv, ek_code(), 0);
    lemma_obj_get_at(fv, ek_silent(), 1);
    lemma_obj_get_at(fv, ek_store_history(), 2);
    lemma_obj_get_at(fv, ek_user_expressions(), 3);
    lemma_obj_get_at(fv, ek_allow_stdin(), 4);
    lemma_obj_get_at(fv, ek_stop_on_error(), 5);
}

/// The canonical is-complete document answers its lookup.
proof fn lemma_is_complete_json_lookup(r: IsCompleteRequest)
    ensures
        is_complete_fields_in(is_complete_request_json(r), r),
{
    let fv = is_complete_request_json(r)->Obj_0;
    lemma_obj_get_at(fv, ek_code(), 0);
}

/// Two execute requests drawn from one document carry equal fields and
/// so the same canonical document.
proof fn lemma_execute_fields_unique(v: JsonV, r1: ExecuteRequest, r2: ExecuteRequest)
    requires
        execute_fields_in(v, r1),
        execute_fields_in(v, r2),
    ensures
        execute_request_json(r1) == execute_request_json(r2),
{
    vstd::utf8::encode_utf8_decode_utf8(r1.code@);
    vstd::utf8::encode_utf8_decode_utf8(r2.code@);
    assert(execute_request_json(r1)->Obj_0 =~= execute_request_json(r2)->Obj_0);
}

/// Two is-complete requests drawn from one document carry the same
/// canonical document.
proof fn lemma_is_complete_fields_unique(v: JsonV, r1: IsCompleteRequest, r2: IsCompleteRequest)
    requires
        is_complete_fields_in(v, r1),
        is_complete_fields_in(v, r2),
    ensures
        is_complete_request_json(r1) == is_complete_request_json(r2),
{
    vstd::utf8::encode_utf8_decode_utf8(r1.code@);
    vstd::utf8::encode_utf8_decode_utf8(r2.code@);
    assert(is_complete_request_json(r1)->Obj_0 =~= is_complete_request_json(r2)->Obj_0);
}

impl ShellRequest {
    /// Dispatch a decoded content document on the request's wire name.
    ///
    /// A kernel-info request carries no meaningful body and is accepted
    /// with any; the other variants read their fields by key, in any
    /// order, ignoring unknown fields; a missing `silent` means false.
    #[verifier::rlimit(100)]
    #[verifier::spinoff_prover]
    pub fn parse_variant(variant: &str, body: Json) -> (r: Result<ShellRequest, ()>)
        ensures
            r matches Ok(c) ==> variant@ == shell_request_type(c) && shell_body_in(c, body@),
            forall|c: ShellRequest| variant@ == shell_request_type(c) && body@
                == #[trigger] shell_request_json(c) ==> (r matches Ok(c2)
                && shell_request_json(c2) == shell_request_json(c) && shell_request_type(c2)
                == shell_request_type(c)),
    {
        let ghost gb = body@;
        if str_eq(variant, "kernel_info_request") {
            proof {
                reveal_strlit("kernel_info_request");
                reveal_strlit("execute_request");
                reveal_strlit("is_complete_request");
                assert("execute_request"@.len() == 15);
                assert("is_complete_request"@.len() == 19);
                assert("kernel_info_request"@.len() == 19);
                assert("is_complete_request"@[0] == 'i' && "kernel_info_request"@[0] == 'k');
            }
            return Ok(ShellRequest::KernelInfo);
        }
        if str_eq(variant, "execute_request") {
            let ghost hyp = exists|er: ExecuteRequest| gb == #[trigger] execute_request_json(er);
            let ghost ger: ExecuteRequest = choose|er: ExecuteRequest| gb
                == #[trigger] execute_request_json(er);
            proof {
                reveal_strlit("kernel_info_request");
                reveal_strlit("execute_request");
                reveal_strlit("is_complete_request");
                assert("execute_request"@.len() == 15);
                assert("is_complete_request"@.len() == 19);
                assert("kernel_info_request"@.len() == 19);
                assert("is_complete_request"@[0] == 'i' && "kernel_info_request"@[0] == 'k');
                assert forall|c: ShellRequest| variant@ == shell_request_type(c) && gb
                    == #[trigger] shell_request_json(c) implies hyp by {
                    match c {
                        ShellRequest::Execute(er) => {
                            assert(gb == execute_request_json(er));
                        }
                        _ => {
                            assert(false);
                        }
                    }
                }
                if hyp {
                    lemma_execute_json_lookup(ger);
                }
            }
            let mut fields = match body {
                Json::Obj(fields) => fields,
                _ => {
                    proof {
                        if hyp {
                            assert(false);
                        }
                    }
                    return Err(());
                }
            };
            let ghost gf = fields@;
            proof {
                assert(gb == JsonV::Obj(view_fields(gf)));
            }
            let code = match crate::messages::field_string(&fields, &vec![0x63u8, 0x6fu8, 0x64u8,
                0x65u8], Ghost(ek_code())) {
                Some(s) => s,
                None => {
                    proof {
                        if hyp {
                            assert(false);
                        }
                    }
                    return Err(());
                }
            };
            let k_silent = vec![0x73u8, 0x69u8, 0x6cu8, 0x65u8, 0x6eu8, 0x74u8];
            proof {
                assert(k_silent@ =~= ek_silent());
            }
            let silent = match find_field(&fields, &k_silent) {
                Some(ix) => {
                    match &fields[ix].1 {
                        Json::Bool(b) => *b,
                        _ => {
                            proof {
                                if hyp {
                                    assert(false);
                                }
                            }
                            return Err(());
                        }
                    }
                }
                None => false,
            };
            let store_history = match field_bool(&fields, &vec![0x73u8, 0x74u8, 0x6fu8, 0x72u8,
                0x65u8, 0x5fu8, 0x68u8, 0x69u8, 0x73u8, 0x74u8, 0x6fu8, 0x72u8, 0x79u8], Ghost(
                ek_store_history())) {
                Some(b) => b,
                None => {
                    proof {
                        if hyp {
                            assert(false);
                        }
                    }
                    return Err(());
                }
            };
            let allow_stdin = match field_bool(&fields, &vec![0x61u8, 0x6cu8, 0x6cu8, 0x6fu8,
                0x77u8, 0x5fu8, 0x73u8, 0x74u8, 0x64u8, 0x69u8, 0x6eu8], Ghost(
                ek_allow_stdin())) {
                Some(b) => b,
                None => {
                    proof {
                        if hyp {
                            assert(false);
                        }
                    }
                    return Err(());
                }
            };
            let stop_on_error = match field_bool(&fields, &vec![0x73u8, 0x74u8, 0x6fu8, 0x70u8,
                0x5fu8, 0x6fu8, 0x6eu8, 0x5fu8, 0x65u8, 0x72u8, 0x72u8, 0x6fu8, 0x72u8], Ghost(
                ek_stop_on_error())) {
                Some(b) => b,
                None => {
                    proof {
                        if hyp {
                            assert(false);
                        }
                    }
                    return Err(());
                }
            };
            let k_ue = vec![0x75u8, 0x73u8, 0x65u8, 0x72u8, 0x5fu8, 0x65u8, 0x78u8, 0x70u8,
                0x72u8, 0x65u8, 0x73u8, 0x73u8, 0x69u8, 0x6fu8, 0x6eu8, 0x73u8];
            proof {
                assert(k_ue@ =~= ek_user_expressions());
            }
            let ue_ix = match find_field(&fields, &k_ue) {
                Some(ix) => ix,
                None => {
                    proof {
                        if hyp {
                            assert(false);
                        }
                    }
                    return Err(());
                }
            };
            let pair = fields.remove(ue_ix);
            let user_expressions = pair.1;
            proof {
                assert(user_expressions@ == gf[ue_ix as int].1@);
            }
            let er = ExecuteRequest {
                code,
                silent,
                store_history,
                user_expressions,
                allow_stdin,
                stop_on_error,
            };
            proof {
                assert(execute_fields_in(gb, er));
                if hyp {
                    lemma_execute_fields_unique(gb, er, ger);
                }
            }
            return Ok(ShellRequest::Execute(er));
        }
        if str_eq(variant, "is_complete_request") {
            let ghost hyp = exists|ir: IsCompleteRequest| gb == #[trigger] is_complete_request_json(
                ir,
            );
            let ghost gir: IsCompleteRequest = choose|ir: IsCompleteRequest| gb
                == #[trigger] is_complete_request_json(ir);
            proof {
                reveal_strlit("kernel_info_request");
                reveal_strlit("execute_request");
                reveal_strlit("is_complete_request");
                assert("execute_request"@.len() == 15);
                assert("is_complete_request"@.len() == 19);
                assert("kernel_info_request"@.len() == 19);
                assert("is_complete_request"@[0] == 'i' && "kernel_info_request"@[0] == 'k');
                assert forall|c: ShellRequest| variant@ == shell_request_type(c) && gb
                    == #[trigger] shell_request_json(c) implies hyp by {
                    match c {
                        ShellRequest::IsComplete(ir) => {
                            assert(gb == is_complete_request_json(ir));
                        }
                        _ => {
                            assert(false);
                        }
                    }
                }
                if hyp {
                    lemma_is_complete_json_lookup(gir);
                }
            }
            let fields = match body {
                Json::Obj(fields) => fields,
                _ => {
                    proof {
                        if hyp {
                            assert(false);
                        }
                    }
                    return Err(());
                }
            };
            let ghost gf = fields@;
            proof {
                assert(gb == JsonV::Obj(view_fields(gf)));
            }
            let code = match crate::messages::field_string(&fields, &vec![0x63u8, 0x6fu8, 0x64u8,
                0x65u8], Ghost(ek_code())) {
                Some(s) => s,
                None => {
                    proof {
                        if hyp {
                            assert(false);
                        }
                    }
                    return Err(());
                }
            };
            let icr = IsCompleteRequest { code };
            proof {
                assert(is_complete_fields_in(gb, icr));
                if hyp {
                    lemma_is_complete_fields_unique(gb, icr, gir);
                }
            }
            return Ok(ShellRequest::IsComplete(icr));
        }
        proof {
            reveal_strlit("kernel_info_request");
            reveal_strlit("execute_request");
            reveal_strlit("is_complete_request");
        }
        Err(())
    }
}

/// Read one boolean field of an object by key; the ghost names the
/// spec-level bytes of the exec key.
fn field_bool(fields: &Vec<(Vec<u8>, Json)>, key: &Vec<u8>, gkey: Ghost<Seq<u8>>) -> (r: Option<
    bool,
>)
    requires
        key@ == gkey@,
    ensures
        r matches Some(b) ==> obj_get(view_fields(fields@), gkey@) == Option::Some(JsonV::Bool(
            b,
        )),
        (r is Some) == (obj_get(view_fields(fields@), gkey@) matches Option::Some(jb) && jb
            is Bool),
{
    let ix = match find_field(fields, key) {
        Some(ix) => ix,
        None => {
            return None;
        }
    };
    match &fields[ix].1 {
        Json::Bool(b) => Some(*b),
        _ => {
            return None;
        }
    }
}

/// Common reply keys and status tags.
pub open spec fn sk_status() -> Seq<u8> {
    seq![0x73u8, 0x74u8, 0x61u8, 0x74u8, 0x75u8, 0x73u8]
}

pub open spec fn tag_ok() -> Seq<u8> {
    seq![0x6fu8, 0x6bu8]
}

pub open spec fn tag_error() -> Seq<u8> {
    seq![0x65u8, 0x72u8, 0x72u8, 0x6fu8, 0x72u8]
}

pub open spec fn sk_ename() -> Seq<u8> {
    seq![0x65u8, 0x6eu8, 0x61u8, 0x6du8, 0x65u8]
}

pub open spec fn sk_evalue() -> Seq<u8> {
    seq![0x65u8, 0x76u8, 0x61u8, 0x6cu8, 0x75u8, 0x65u8]
}

pub open spec fn sk_traceback() -> Seq<u8> {
    seq![0x74u8, 0x72u8, 0x61u8, 0x63u8, 0x65u8, 0x62u8, 0x61u8, 0x63u8, 0x6bu8]
}

pub open spec fn sk_execution_count() -> Seq<u8> {
    seq![0x65u8, 0x78u8, 0x65u8, 0x63u8, 0x75u8, 0x74u8, 0x69u8, 0x6fu8, 0x6eu8, 0x5fu8, 0x63u8,
        0x6fu8, 0x75u8, 0x6eu8, 0x74u8]
}

pub open spec fn sk_indent() -> Seq<u8> {
    seq![0x69u8, 0x6eu8, 0x64u8, 0x65u8, 0x6eu8, 0x74u8]
}

/// The body of an error reply, shared by the Shell and Control channels.
pub open spec fn error_reply_json(name: Seq<char>, value: Seq<char>, tb: Seq<Seq<char>>) -> JsonV {
    JsonV::Obj(
        seq![
            (sk_status(), JsonV::Str(tag_error())),
            (sk_ename(), json_str(name)),
            (sk_evalue(), json_str(value)),
            (sk_traceback(), str_list_json(tb)),
        ],
    )
}

/// The canonical JSON of an is-complete reply.
pub open spec fn is_complete_reply_json(r: IsCompleteReply) -> JsonV {
    match r {
        IsCompleteReply::Complete => JsonV::Obj(
            seq![
                (
                    sk_status(),
                    JsonV::Str(seq![0x63u8, 0x6fu8, 0x6du8, 0x70u8, 0x6cu8, 0x65u8, 0x74u8, 0x65u8]),
                ),
            ],
        ),
        IsCompleteReply::Incomplete { indent } => JsonV::Obj(
            seq![
                (
                    sk_status(),
                    JsonV::Str(
                        seq![0x69u8, 0x6eu8, 0x63u8, 0x6fu8, 0x6du8, 0x70u8, 0x6cu8, 0x65u8, 0x74u8,
                            0x65u8],
                    ),
                ),
                (sk_indent(), json_str(indent@)),
            ],
        ),
        IsCompleteReply::Invalid => JsonV::Obj(
            seq![
                (
                    sk_status(),
                    JsonV::Str(seq![0x69u8, 0x6eu8, 0x76u8, 0x61u8, 0x6cu8, 0x69u8, 0x64u8]),
                ),
            ],
        ),
        IsCompleteReply::Unknown => JsonV::Obj(
            seq![
                (
                    sk_status(),
                    JsonV::Str(seq![0x75u8, 0x6eu8, 0x6bu8, 0x6eu8, 0x6fu8, 0x77u8, 0x6eu8]),
                ),
            ],
        ),
    }
}

/// The canonical JSON of an execute reply.
pub open spec fn execute_reply_json(r: ExecuteReply) -> JsonV {
    JsonV::Obj(
        seq![
            (sk_status(), JsonV::Str(tag_ok())),
            (sk_execution_count(), JsonV::Int(r.execution_count)),
            (ek_user_expressions(), r.user_expressions@),
        ],
    )
}

/// A reply sent back on the Shell channel.
pub enum ShellReply {
    Success(ShellReplyOk),
    Error { name: String, value: String, traceback: Vec<String> },
}

/// The successful reply bodies.
pub enum ShellReplyOk {
    KernelInfo(KernelInfo),
    Execute(ExecuteReply),
    IsComplete(IsCompleteReply),
}

/// The canonical JSON of a Shell reply, tagged by its status entry.
pub open spec fn shell_reply_json(rep: ShellReply) -> JsonV {
    match rep {
        ShellReply::Success(ok) => match ok {
            ShellReplyOk::KernelInfo(ki) => JsonV::Obj(
                seq![(sk_status(), JsonV::Str(tag_ok()))] + kernel_info_fields(ki),
            ),
            ShellReplyOk::Execute(er) => execute_reply_json(er),
            ShellReplyOk::IsComplete(ic) => is_complete_reply_json(ic),
        },
        ShellReply::Error { name, value, traceback } => error_reply_json(
            name@,
            value@,
            traceback.deep_view(),
        ),
    }
}

/// The reply wire name owed for each Shell request wire name; an
/// unrecognized name is a protocol error.
pub open spec fn spec_shell_reply_type(req: Seq<char>) -> Option<Seq<char>> {
    if req == "kernel_info_request"@ {
        Option::Some("kernel_info_reply"@)
    } else if req == "execute_request"@ {
        Option::Some("execute_reply"@)
    } else if req == "is_complete_request"@ {
        Option::Some("is_complete_reply"@)
    } else {
        Option::None
    }
}

impl ShellReply {
    /// The reply wire name for a request wire name, exactly when the
    /// request name is known on this channel.
    pub fn msg_type(request_type: &str) -> (r: Result<&'static str, ()>)
        ensures
            r matches Ok(t) ==> spec_shell_reply_type(request_type@) == Option::Some(t@),
            (r is Err) == (spec_shell_reply_type(request_type@) is None),
    {
        if str_eq(request_type, "kernel_info_request") {
            Ok("kernel_info_reply")
        } else if str_eq(request_type, "execute_request") {
            Ok("execute_reply")
        } else if str_eq(request_type, "is_complete_request") {
            Ok("is_complete_reply")
        } else {
            Err(())
        }
    }

    /// The reply as its canonical JSON document.
    #[verifier::rlimit(100)]
    pub fn to_json(self) -> (r: Json)
        ensures
            r@ == shell_reply_json(self),
    {
        broadcast use {lemma_view_fields_len, lemma_view_fields_index};

        match self {
            ShellReply::Success(ShellReplyOk::KernelInfo(ki)) => {
                let ghost gki = ki;
                let mut fields: Vec<(Vec<u8>, Json)> = Vec::new();
                fields.push((vec![0x73u8, 0x74u8, 0x61u8, 0x74u8, 0x75u8, 0x73u8], Json::Str(
                    vec![0x6fu8, 0x6bu8])));
                let mut rest = ki.to_json_fields();
                let ghost grest = rest@;
                let mut k: usize = 0;
                while rest.len() > 0
                    invariant
                        k <= grest.len() <= usize::MAX,
                        rest@ == grest.skip(k as int),
                        fields@.len() == 1 + k,
                        view_fields(fields@) =~= seq![
                            (sk_status(), JsonV::Str(tag_ok())),
                        ] + view_fields(grest).take(k as int),
                    decreases grest.len() - k,
                {
                    proof {
                        lemma_view_fields_len(grest);
                        assert(rest@.len() == grest.len() - k);
                        assert(k < grest.len());
                    }
                    let f = rest.remove(0);
                    proof {
                        assert(grest.skip(k as int)[0] == grest[k as int]);
                        assert(f == grest[k as int]);
                    }
                    let ghost prevfields = fields@;
                    fields.push(f);
                    proof {
                        lemma_view_fields_len(grest);
                        lemma_view_fields_index(grest, k as int);
                        crate::json::lemma_view_fields_snoc(prevfields, f.0, f.1);
                        assert(view_fields(fields@) == view_fields(prevfields).push((f.0@,
                            f.1@)));
                        assert((f.0@, f.1@) == view_fields(grest)[k as int]);
                        assert(rest@ =~= grest.skip(k as int + 1));
                        assert(view_fields(grest).take(k as int + 1) =~= view_fields(
                            grest).take(k as int).push(view_fields(grest)[k as int]));
                        assert(view_fields(fields@) =~= seq![
                            (sk_status(), JsonV::Str(tag_ok())),
                        ] + view_fields(grest).take(k as int + 1));
                    }
                    k = k + 1;
                }
                let r = Json::Obj(fields);
                proof {
                    lemma_view_fields_len(grest);
                    assert(view_fields(grest).take(grest.len() as int) =~= view_fields(grest));
                    assert(view_fields(fields@) =~= shell_reply_json(ShellReply::Success(
                        ShellReplyOk::KernelInfo(gki)))->Obj_0);
                }
                r
            }
            ShellReply::Success(ShellReplyOk::Execute(er)) => {
                let ghost ger = er;
                let mut fields: Vec<(Vec<u8>, Json)> = Vec::new();
                fields.push((vec![0x73u8, 0x74u8, 0x61u8, 0x74u8, 0x75u8, 0x73u8], Json::Str(
                    vec![0x6fu8, 0x6bu8])));
                fields.push((vec![0x65u8, 0x78u8, 0x65u8, 0x63u8, 0x75u8, 0x74u8, 0x69u8, 0x6fu8,
                    0x6eu8, 0x5fu8, 0x63u8, 0x6fu8, 0x75u8, 0x6eu8, 0x74u8], Json::Int(
                    er.execution_count)));
                fields.push((vec![0x75u8, 0x73u8, 0x65u8, 0x72u8, 0x5fu8, 0x65u8, 0x78u8, 0x70u8,
                    0x72u8, 0x65u8, 0x73u8, 0x73u8, 0x69u8, 0x6fu8, 0x6eu8, 0x73u8],
                    er.user_expressions));
                let r = Json::Obj(fields);
                proof {
                    assert(view_fields(fields@) =~= execute_reply_json(ger)->Obj_0);
                }
                r
            }
            ShellReply::Success(ShellReplyOk::IsComplete(ic)) => {
                let ghost gic = ic;
                let mut fields: Vec<(Vec<u8>, Json)> = Vec::new();
                fields.push((vec![0x73u8, 0x74u8, 0x61u8, 0x74u8, 0x75u8, 0x73u8], match &ic {
                    IsCompleteReply::Complete => Json::Str(vec![0x63u8, 0x6fu8, 0x6du8, 0x70u8,
                        0x6cu8, 0x65u8, 0x74u8, 0x65u8]),
                    IsCompleteReply::Incomplete { .. } => Json::Str(vec![0x69u8, 0x6eu8, 0x63u8,
                        0x6fu8, 0x6du8, 0x70u8, 0x6cu8, 0x65u8, 0x74u8, 0x65u8]),
                    IsCompleteReply::Invalid => Json::Str(vec![0x69u8, 0x6eu8, 0x76u8, 0x61u8,
                        0x6cu8, 0x69u8, 0x64u8]),
                    IsCompleteReply::Unknown => Json::Str(vec![0x75u8, 0x6eu8, 0x6bu8, 0x6eu8,
                        0x6fu8, 0x77u8, 0x6eu8]),
                }));
                if let IsCompleteReply::Incomplete { indent } = ic {
                    fields.push((vec![0x69u8, 0x6eu8, 0x64u8, 0x65u8, 0x6eu8, 0x74u8], jstr(
                        indent.as_str())));
                    let r = Json::Obj(fields);
                    proof {
                        assert(view_fields(fields@) =~= is_complete_reply_json(gic)->Obj_0);
                    }
                    r
                } else {
                    let r = Json::Obj(fields);
                    proof {
                        assert(view_fields(fields@) =~= is_complete_reply_json(gic)->Obj_0);
                    }
                    r
                }
            }
            ShellReply::Error { name, value, traceback } => {
                let ghost gname = name@;
                let ghost gvalue = value@;
                let ghost gtb = traceback.deep_view();
                let mut fields: Vec<(Vec<u8>, Json)> = Vec::new();
                fields.push((vec![0x73u8, 0x74u8, 0x61u8, 0x74u8, 0x75u8, 0x73u8], Json::Str(
                    vec![0x65u8, 0x72u8, 0x72u8, 0x6fu8, 0x72u8])));
                fields.push((vec![0x65u8, 0x6eu8, 0x61u8, 0x6du8, 0x65u8], jstr(name.as_str())));
                fields.push((vec![0x65u8, 0x76u8, 0x61u8, 0x6cu8, 0x75u8, 0x65u8], jstr(
                    value.as_str())));
                fields.push((vec![0x74u8, 0x72u8, 0x61u8, 0x63u8, 0x65u8, 0x62u8, 0x61u8, 0x63u8,
                    0x6bu8], jstr_list(traceback)));
                let r = Json::Obj(fields);
                proof {
                    assert(view_fields(fields@) =~= error_reply_json(gname, gvalue,
                        gtb)->Obj_0);
                }
                r
            }
        }
    }
}

impl ShellRequest {
    /// The request as its canonical JSON document.
    pub fn to_json(self) -> (r: Json)
        ensures
            r@ == shell_request_json(self),
    {
        broadcast use {lemma_view_fields_len, lemma_view_fields_index};

        match self {
            ShellRequest::Execute(er) => {
                let ghost ger = er;
                let mut fields: Vec<(Vec<u8>, Json)> = Vec::new();
                fields.push((vec![0x63u8, 0x6fu8, 0x64u8, 0x65u8], jstr(er.code.as_str())));
                fields.push((vec![0x73u8, 0x69u8, 0x6cu8, 0x65u8, 0x6eu8, 0x74u8], Json::Bool(
                    er.silent)));
                fields.push((vec![0x73u8, 0x74u8, 0x6fu8, 0x72u8, 0x65u8, 0x5fu8, 0x68u8, 0x69u8,
                    0x73u8, 0x74u8, 0x6fu8, 0x72u8, 0x79u8], Json::Bool(er.store_history)));
                fields.push((vec![0x75u8, 0x73u8, 0x65u8, 0x72u8, 0x5fu8, 0x65u8, 0x78u8, 0x70u8,
                    0x72u8, 0x65u8, 0x73u8, 0x73u8, 0x69u8, 0x6fu8, 0x6eu8, 0x73u8],
                    er.user_expressions));
                fields.push((vec![0x61u8, 0x6cu8, 0x6cu8, 0x6fu8, 0x77u8, 0x5fu8, 0x73u8, 0x74u8,
                    0x64u8, 0x69u8, 0x6eu8], Json::Bool(er.allow_stdin)));
                fields.push((vec![0x73u8, 0x74u8, 0x6fu8, 0x70u8, 0x5fu8, 0x6fu8, 0x6eu8, 0x5fu8,
                    0x65u8, 0x72u8, 0x72u8, 0x6fu8, 0x72u8], Json::Bool(er.stop_on_error)));
                let r = Json::Obj(fields);
                proof {
                    assert(view_fields(fields@) =~= execute_request_json(ger)->Obj_0);
                }
                r
            }
            ShellRequest::IsComplete(ir) => {
                let ghost gir = ir;
                let mut fields: Vec<(Vec<u8>, Json)> = Vec::new();
                fields.push((vec![0x63u8, 0x6fu8, 0x64u8, 0x65u8], jstr(ir.code.as_str())));
                let r = Json::Obj(fields);
                proof {
                    assert(view_fields(fields@) =~= is_complete_request_json(gir)->Obj_0);
                }
                r
            }
            ShellRequest::KernelInfo => {
                let fields: Vec<(Vec<u8>, Json)> = Vec::new();
                let r = Json::Obj(fields);
                proof {
                    assert(view_fields(fields@) =~= Seq::<(Seq<u8>, JsonV)>::empty());
                }
                r
            }
        }
    }
}

} // verus!
