//! Control channel content: kernel-info, shutdown, interrupt and debug
//! requests and their replies.

use vstd::prelude::*;

use crate::json::{
    Json, JsonV, view_fields, lemma_view_fields_len, lemma_view_fields_index, obj_get,
    find_field, lemma_obj_get_at,
};
use crate::kernel_info::{KernelInfo, kernel_info_fields};
use crate::messages::{str_eq, Shutdown};
use crate::messages::shell::{sk_status, tag_ok, error_reply_json};
use crate::messages::{jstr, jstr_list};

verus! {

/// A request arriving on the Control channel.
pub enum ControlRequest {
    KernelInfo,
    Shutdown(Shutdown),
    Interrupt,
    Debug,
}

/// A reply sent back on the Control channel.
pub enum ControlReply {
    Success(ControlReplyOk),
    Error { name: String, value: String, traceback: Vec<String> },
}

/// The successful reply bodies.
pub enum ControlReplyOk {
    KernelInfo(KernelInfo),
    Shutdown(Shutdown),
    Interrupt,
    Debug,
}

/// The wire name of a Control request.
pub open spec fn control_request_type(c: ControlRequest) -> Seq<char> {
    match c {
        ControlRequest::KernelInfo => "kernel_info_request"@,
        ControlRequest::Shutdown(_) => "shutdown_request"@,
        ControlRequest::Interrupt => "interrupt_request"@,
        ControlRequest::Debug => "debug_request"@,
    }
}

/// The key of the shutdown body.
pub open spec fn ck_restart() -> Seq<u8> {
    seq![0x72u8, 0x65u8, 0x73u8, 0x74u8, 0x61u8, 0x72u8, 0x74u8]
}

/// The canonical JSON of a shutdown body.
pub open spec fn shutdown_json(s: Shutdown) -> JsonV {
    JsonV::Obj(seq![(ck_restart(), JsonV::Bool(s.restart))])
}

/// The shutdown flag stands in the object under its key, in any order
/// and beside any other fields.
pub open spec fn shutdown_fields_in(v: JsonV, s: Shutdown) -> bool {
    &&& v is Obj
    &&& obj_get(v->Obj_0, ck_restart()) == Option::Some(JsonV::Bool(s.restart))
}

/// What the parser guarantees of an accepted request body.
pub open spec fn control_body_in(c: ControlRequest, v: JsonV) -> bool {
    match c {
        ControlRequest::Shutdown(s) => shutdown_fields_in(v, s),
        _ => true,
    }
}

/// The four Control request wire names are pairwise distinct.
proof fn lemma_control_names_distinct()
    ensures
        "kernel_info_request"@ != "shutdown_request"@,
        "kernel_info_request"@ != "interrupt_request"@,
        "kernel_info_request"@ != "debug_request"@,
        "shutdown_request"@ != "interrupt_request"@,
        "shutdown_request"@ != "debug_request"@,
        "interrupt_request"@ != "debug_request"@,
{
    reveal_strlit("kernel_info_request");
    reveal_strlit("shutdown_request");
    reveal_strlit("interrupt_request");
    reveal_strlit("debug_request");
    assert("kernel_info_request"@.len() == 19);
    assert("shutdown_request"@.len() == 16);
    assert("interrupt_request"@.len() == 17);
    assert("debug_request"@.len() == 13);
}

/// The canonical shutdown document answers its lookup.
proof fn lemma_shutdown_json_lookup(s: Shutdown)
    ensures
        shutdown_fields_in(shutdown_json(s), s),
{
    lemma_obj_get_at(shutdown_json(s)->Obj_0, ck_restart(), 0);
}

/// The canonical JSON of a Control request body.
pub open spec fn control_request_json(c: ControlRequest) -> JsonV {
    match c {
        ControlRequest::Shutdown(s) => shutdown_json(s),
        _ => JsonV::Obj(Seq::empty()),
    }
}

impl ControlRequest {
    /// Dispatch a decoded content document on the request's wire name.
    ///
    /// Only the shutdown body carries information; the other variants
    /// are accepted with any body.
    #[verifier::rlimit(100)]
    pub fn parse_variant(variant: &str, body: Json) -> (r: Result<ControlRequest, ()>)
        ensures
            r matches Ok(c) ==> variant@ == control_request_type(c) && control_body_in(c,
                body@),
            forall|c: ControlRequest| variant@ == control_request_type(c) && body@
                == #[trigger] control_request_json(c) ==> (r matches Ok(c2)
                && control_request_json(c2) == control_request_json(c) && control_request_type(
                c2,
            ) == control_request_type(c)),
    {
        broadcast use {lemma_view_fields_len, lemma_view_fields_index};

        let ghost gb = body@;
        if str_eq(variant, "kernel_info_request") {
            proof {
                lemma_control_names_distinct();
            }
            return Ok(ControlRequest::KernelInfo);
        }
        if str_eq(variant, "interrupt_request") {
            proof {
                lemma_control_names_distinct();
            }
            return Ok(ControlRequest::Interrupt);
        }
        if str_eq(variant, "debug_request") {
            proof {
                lemma_control_names_distinct();
            }
            return Ok(ControlRequest::Debug);
        }
        if str_eq(variant, "shutdown_request") {
            let ghost hyp = exists|s: Shutdown| gb == #[trigger] shutdown_json(s);
            let ghost gs: Shutdown = choose|s: Shutdown| gb == #[trigger] shutdown_json(s);
            proof {
                assert forall|c: ControlRequest| variant@ == control_request_type(c) && gb
                    == #[trigger] control_request_json(c) implies hyp by {
                    reveal_strlit("kernel_info_request");
                    reveal_strlit("shutdown_request");
                    reveal_strlit("interrupt_request");
                    reveal_strlit("debug_request");
                    assert("kernel_info_request"@.len() == 19);
                    assert("shutdown_request"@.len() == 16);
                    assert("interrupt_request"@.len() == 17);
                    assert("debug_request"@.len() == 13);
                    match c {
                        ControlRequest::Shutdown(s) => {
                            assert(gb == shutdown_json(s));
                        }
                        _ => {
                            assert(false);
                        }
                    }
                }
            }
            proof {
                if hyp {
                    lemma_shutdown_json_lookup(gs);
                }
            }
            let fields = match body {
                Json::Obj(fields) => fields,
                _ => {
                    proof {
                        if hyp {
                            assert(gb == shutdown_json(gs));
                            assert(false);
                        }
                    }
                    return Err(());
                }
            };
            let ghost gf = fields@;
            proof {
                assert(gb == JsonV::Obj(view_fields(gf)));
            }
            let k_restart = vec![0x72u8, 0x65u8, 0x73u8, 0x74u8, 0x61u8, 0x72u8, 0x74u8];
            proof {
                assert(k_restart@ =~= ck_restart());
            }
            let restart = match find_field(&fields, &k_restart) {
                Some(ix) => {
                    match &fields[ix].1 {
                        Json::Bool(b) => *b,
                        _ => {
                            proof {
                                if hyp {
                                    assert(false);
                                }
                            }
                            return Err(());
                        }
                    }
                }
                None => {
                    proof {
                        if hyp {
                            assert(false);
                        }
                    }
                    return Err(());
                }
            };
            let s = Shutdown { restart };
            proof {
                assert(shutdown_fields_in(gb, s));
                if hyp {
                    assert(shutdown_json(s) =~~= shutdown_json(gs));
                }
            }
            return Ok(ControlRequest::Shutdown(s));
        }
        Err(())
    }

    /// The request as its canonical JSON document.
    pub fn to_json(self) -> (r: Json)
        ensures
            r@ == control_request_json(self),
    {
        broadcast use {lemma_view_fields_len, lemma_view_fields_index};

        match self {
            ControlRequest::Shutdown(s) => {
                let mut fields: Vec<(Vec<u8>, Json)> = Vec::new();
                fields.push((vec![0x72u8, 0x65u8, 0x73u8, 0x74u8, 0x61u8, 0x72u8, 0x74u8],
                    Json::Bool(s.restart)));
                let r = Json::Obj(fields);
                proof {
                    assert(view_fields(fields@) =~= shutdown_json(s)->Obj_0);
                }
                r
            }
            _ => {
                let fields: Vec<(Vec<u8>, Json)> = Vec::new();
                let r = Json::Obj(fields);
                proof {
                    assert(view_fields(fields@) =~= Seq::<(Seq<u8>, JsonV)>::empty());
                }
                r
            }
        }
    }
}

/// The canonical JSON of a Control reply, tagged by its status entry.
pub open spec fn control_reply_json(rep: ControlReply) -> JsonV {
    match rep {
        ControlReply::Success(ok) => match ok {
            ControlReplyOk::KernelInfo(ki) => JsonV::Obj(
                seq![(sk_status(), JsonV::Str(tag_ok()))] + kernel_info_fields(ki),
            ),
            ControlReplyOk::Shutdown(s) => JsonV::Obj(
                seq![
                    (sk_status(), JsonV::Str(tag_ok())),
                    (ck_restart(), JsonV::Bool(s.restart)),
                ],
            ),
            ControlReplyOk::Interrupt => JsonV::Obj(seq![(sk_status(), JsonV::Str(tag_ok()))]),
            ControlReplyOk::Debug => JsonV::Obj(seq![(sk_status(), JsonV::Str(tag_ok()))]),
        },
        ControlReply::Error { name, value, traceback } => error_reply_json(
            name@,
            value@,
            traceback.deep_view(),
        ),
    }
}

/// The reply wire name owed for each Control request wire name; an
/// unrecognized name is a protocol error.
pub open spec fn spec_control_reply_type(req: Seq<char>) -> Option<Seq<char>> {
    if req == "kernel_info_request"@ {
        Option::Some("kernel_info_reply"@)
    } else if req == "shutdown_request"@ {
        Option::Some("shutdown_reply"@)
    } else if req == "interrupt_request"@ {
        Option::Some("interrupt_reply"@)
    } else if req == "debug_request"@ {
        Option::Some("debug_reply"@)
    } else {
        Option::None
    }
}

impl ControlReply {
    /// The reply wire name for a request wire name, exactly when the
    /// request name is known on this channel.
    pub fn msg_type(request_type: &str) -> (r: Result<&'static str, ()>)
        ensures
            r matches Ok(t) ==> spec_control_reply_type(request_type@) == Option::Some(t@),
            (r is Err) == (spec_control_reply_type(request_type@) is None),
    {
        if str_eq(request_type, "kernel_info_request") {
            Ok("kernel_info_reply")
        } else if str_eq(request_type, "shutdown_request") {
            Ok("shutdown_reply")
        } else if str_eq(request_type, "interrupt_request") {
            Ok("interrupt_reply")
        } else if str_eq(request_type, "debug_request") {
            Ok("debug_reply")
        } else {
            Err(())
        }
    }

    /// The reply as its canonical JSON document.
    #[verifier::rlimit(100)]
    pub fn to_json(self) -> (r: Json)
        ensures
            r@ == control_reply_json(self),
    {
        broadcast use {lemma_view_fields_len, lemma_view_fields_index};

        match self {
            ControlReply::Success(ControlReplyOk::KernelInfo(ki)) => {
                let ghost gki = ki;
                let mut fields: Vec<(Vec<u8>, Json)> = Vec::new();
                fields.push((vec![0x73u8, 0x74u8, 0x61u8, 0x74u8, 0x75u8, 0x73u8], Json::Str(
                    vec![0x6fu8, 0x6bu8])));
                let mut rest = ki.to_json_fields();
                let ghost grest = rest@;
                let mut k: usize = 0;
                while rest.len() > 0
                    invariant
                        k <= grest.len() <= usize::MAX,
                        rest@ == grest.skip(k as int),
                        fields@.len() == 1 + k,
                        view_fields(fields@) =~= seq![
                            (sk_status(), JsonV::Str(tag_ok())),
                        ] + view_fields(grest).take(k as int),
                    decreases grest.len() - k,
                {
                    proof {
                        lemma_view_fields_len(grest);
                        assert(rest@.len() == grest.len() - k);
                        assert(k < grest.len());
                    }
                    let f = rest.remove(0);
                    proof {
                        assert(grest.skip(k as int)[0] == grest[k as int]);
                        assert(f == grest[k as int]);
                    }
                    let ghost prevfields = fields@;
                    fields.push(f);
                    proof {
                        lemma_view_fields_len(grest);
                        lemma_view_fields_index(grest, k as int);
                        crate::json::lemma_view_fields_snoc(prevfields, f.0, f.1);
                        assert(view_fields(fields@) == view_fields(prevfields).push((f.0@,
                            f.1@)));
                        assert((f.0@, f.1@) == view_fields(grest)[k as int]);
                        assert(rest@ =~= grest.skip(k as int + 1));
                        assert(view_fields(grest).take(k as int + 1) =~= view_fields(
                            grest).take(k as int).push(view_fields(grest)[k as int]));
                        assert(view_fields(fields@) =~= seq![
                            (sk_status(), JsonV::Str(tag_ok())),
                        ] + view_fields(grest).take(k as int + 1));
                    }
                    k = k + 1;
                }
                let r = Json::Obj(fields);
                proof {
                    lemma_view_fields_len(grest);
                    assert(view_fields(grest).take(grest.len() as int) =~= view_fields(grest));
                    assert(view_fields(fields@) =~= control_reply_json(ControlReply::Success(
                        ControlReplyOk::KernelInfo(gki)))->Obj_0);
                }
                r
            }
            ControlReply::Success(ControlReplyOk::Shutdown(s)) => {
                let mut fields: Vec<(Vec<u8>, Json)> = Vec::new();
                fields.push((vec![0x73u8, 0x74u8, 0x61u8, 0x74u8, 0x75u8, 0x73u8], Json::Str(
                    vec![0x6fu8, 0x6bu8])));
                fields.push((vec![0x72u8, 0x65u8, 0x73u8, 0x74u8, 0x61u8, 0x72u8, 0x74u8],
                    Json::Bool(s.restart)));
                let r = Json::Obj(fields);
                proof {
                    assert(view_fields(fields@) =~= control_reply_json(ControlReply::Success(
                        ControlReplyOk::Shutdown(s)))->Obj_0);
                }
                r
            }
            ControlReply::Success(ControlReplyOk::Interrupt) => {
                let mut fields: Vec<(Vec<u8>, Json)> = Vec::new();
                fields.push((vec![0x73u8, 0x74u8, 0x61u8, 0x74u8, 0x75u8, 0x73u8], Json::Str(
                    vec![0x6fu8, 0x6bu8])));
                let r = Json::Obj(fields);
                proof {
                    assert(view_fields(fields@) =~= control_reply_json(ControlReply::Success(
                        ControlReplyOk::Interrupt))->Obj_0);
                }
                r
            }
            ControlReply::Success(ControlReplyOk::Debug) => {
                let mut fields: Vec<(Vec<u8>, Json)> = Vec::new();
                fields.push((vec![0x73u8, 0x74u8, 0x61u8, 0x74u8, 0x75u8, 0x73u8], Json::Str(
                    vec![0x6fu8, 0x6bu8])));
                let r = Json::Obj(fields);
                proof {
                    assert(view_fields(fields@) =~= control_reply_json(ControlReply::Success(
                        ControlReplyOk::Debug))->Obj_0);
                }
                r
            }
            ControlReply::Error { name, value, traceback } => {
                let ghost gname = name@;
                let ghost gvalue = value@;
                let ghost gtb = traceback.deep_view();
                let mut fields: Vec<(Vec<u8>, Json)> = Vec::new();
                fields.push((vec![0x73u8, 0x74u8, 0x61u8, 0x74u8, 0x75u8, 0x73u8], Json::Str(
                    vec![0x65u8, 0x72u8, 0x72u8, 0x6fu8, 0x72u8])));
                fields.push((vec![0x65u8, 0x6eu8, 0x61u8, 0x6du8, 0x65u8], jstr(name.as_str())));
                fields.push((vec![0x65u8, 0x76u8, 0x61u8, 0x6cu8, 0x75u8, 0x65u8], jstr(
                    value.as_str())));
                fields.push((vec![0x74u8, 0x72u8, 0x61u8, 0x63u8, 0x65u8, 0x62u8, 0x61u8, 0x63u8,
                    0x6bu8], jstr_list(traceback)));
                let r = Json::Obj(fields);
                proof {
                    assert(view_fields(fields@) =~= error_reply_json(gname, gvalue,
                        gtb)->Obj_0);
                }
                r
            }
        }
    }
}

} // verus!
