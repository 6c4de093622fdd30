//! IOPub channel content: the broadcasts every connected client sees.

use vstd::prelude::*;

use crate::json::{
    Json, JsonV, view_fields, lemma_view_fields_len, lemma_view_fields_index,
};
use crate::messages::{json_str, jstr, jstr_list, jstr_map, str_list_json, str_map_json};

verus! {

/// A broadcast going out on the IOPub channel.
pub enum IopubBroacast {
    Stream(Stream),
    DisplayData(DisplayData),
    UpdateDisplayData,
    ExecuteInput,
    ExecuteResult(ExecuteResult),
    Error(Error),
    Status(Status),
    ClearOutput,
    DebugEvent,
}

/// Which standard stream a text chunk came from.
#[derive(Debug, Clone, Copy, PartialEq, Eq, Structural)]
pub enum StreamName {
    Stdout,
    Stderr,
}

/// A chunk of captured stream output.
pub struct Stream {
    pub name: StreamName,
    pub text: String,
}

/// A rendered value pushed to the clients outside the execution flow.
pub struct DisplayData {
    pub data: Vec<(String, String)>,
    pub metadata: Vec<(String, String)>,
    pub transient: Vec<(String, String)>,
}

/// The rendered result of one successful execution.
pub struct ExecuteResult {
    pub execution_count: u64,
    pub data: Vec<(String, String)>,
    pub metadata: Vec<(String, String)>,
}

/// An error pushed to the clients.
pub struct Error {
    pub name: String,
    pub value: String,
    pub traceback: Vec<String>,
}

/// The kernel's execution state, bracketing every request.
#[derive(Debug, Clone, Copy, PartialEq, Eq, Structural)]
pub enum Status {
    Busy,
    Idle,
    Starting,
}

/// The wire name of an IOPub broadcast.
pub open spec fn iopub_msg_type(b: IopubBroacast) -> Seq<char> {
    match b {
        IopubBroacast::Stream(_) => "stream"@,
        IopubBroacast::DisplayData(_) => "display_data"@,
        IopubBroacast::UpdateDisplayData => "update_display_data"@,
        IopubBroacast::ExecuteInput => "execute_input"@,
        IopubBroacast::ExecuteResult(_) => "execute_result"@,
        IopubBroacast::Error(_) => "error"@,
        IopubBroacast::Status(_) => "status"@,
        IopubBroacast::ClearOutput => "clear_output"@,
        IopubBroacast::DebugEvent => "debug_event"@,
    }
}

/// The tag of an execution state.
pub open spec fn status_tag(s: Status) -> Seq<u8> {
    match s {
        Status::Busy => seq![0x62u8, 0x75u8, 0x73u8, 0x79u8],
        Status::Idle => seq![0x69u8, 0x64u8, 0x6cu8, 0x65u8],
        Status::Starting => seq![0x73u8, 0x74u8, 0x61u8, 0x72u8, 0x74u8, 0x69u8, 0x6eu8, 0x67u8],
    }
}

/// The tag of a stream name.
pub open spec fn stream_name_tag(n: StreamName) -> Seq<u8> {
    match n {
        StreamName::Stdout => seq![0x73u8, 0x74u8, 0x64u8, 0x6fu8, 0x75u8, 0x74u8],
        StreamName::Stderr => seq![0x73u8, 0x74u8, 0x64u8, 0x65u8, 0x72u8, 0x72u8],
    }
}

/// The canonical JSON of an IOPub broadcast body.
pub open spec fn iopub_json(b: IopubBroacast) -> JsonV {
    match b {
        IopubBroacast::Stream(s) => JsonV::Obj(
            seq![
                (seq![0x6eu8, 0x61u8, 0x6du8, 0x65u8], JsonV::Str(stream_name_tag(s.name))),
                (seq![0x74u8, 0x65u8, 0x78u8, 0x74u8], json_str(s.text@)),
            ],
        ),
        IopubBroacast::DisplayData(d) => JsonV::Obj(
            seq![
                (seq![0x64u8, 0x61u8, 0x74u8, 0x61u8], str_map_json(d.data.deep_view())),
                (
                    seq![0x6du8, 0x65u8, 0x74u8, 0x61u8, 0x64u8, 0x61u8, 0x74u8, 0x61u8],
                    str_map_json(d.metadata.deep_view()),
                ),
                (
                    seq![0x74u8, 0x72u8, 0x61u8, 0x6eu8, 0x73u8, 0x69u8, 0x65u8, 0x6eu8, 0x74u8],
                    str_map_json(d.transient.deep_view()),
                ),
            ],
        ),
        IopubBroacast::ExecuteResult(e) => JsonV::Obj(
            seq![
                (
                    seq![0x65u8, 0x78u8, 0x65u8, 0x63u8, 0x75u8, 0x74u8, 0x69u8, 0x6fu8, 0x6eu8,
                        0x5fu8, 0x63u8, 0x6fu8, 0x75u8, 0x6eu8, 0x74u8],
                    JsonV::Int(e.execution_count),
                ),
                (seq![0x64u8, 0x61u8, 0x74u8, 0x61u8], str_map_json(e.data.deep_view())),
                (
                    seq![0x6du8, 0x65u8, 0x74u8, 0x61u8, 0x64u8, 0x61u8, 0x74u8, 0x61u8],
                    str_map_json(e.metadata.deep_view()),
                ),
            ],
        ),
        IopubBroacast::Error(e) => JsonV::Obj(
            seq![
                (seq![0x65u8, 0x6eu8, 0x61u8, 0x6du8, 0x65u8], json_str(e.name@)),
                (seq![0x65u8, 0x76u8, 0x61u8, 0x6cu8, 0x75u8, 0x65u8], json_str(e.value@)),
                (
                    seq![0x74u8, 0x72u8, 0x61u8, 0x63u8, 0x65u8, 0x62u8, 0x61u8, 0x63u8, 0x6bu8],
                    str_list_json(e.traceback.deep_view()),
                ),
            ],
        ),
        IopubBroacast::Status(s) => JsonV::Obj(
            seq![
                (
                    seq![0x65u8, 0x78u8, 0x65u8, 0x63u8, 0x75u8, 0x74u8, 0x69u8, 0x6fu8, 0x6eu8,
                        0x5fu8, 0x73u8, 0x74u8, 0x61u8, 0x74u8, 0x65u8],
                    JsonV::Str(status_tag(s)),
                ),
            ],
        ),
        _ => JsonV::Obj(Seq::empty()),
    }
}

impl IopubBroacast {
    /// The broadcast's wire name.
    pub fn msg_type(&self) -> (r: &'static str)
        ensures
            r@ == iopub_msg_type(*self),
    {
        match self {
            IopubBroacast::Stream(_) => "stream",
            IopubBroacast::DisplayData(_) => "display_data",
            IopubBroacast::UpdateDisplayData => "update_display_data",
            IopubBroacast::ExecuteInput => "execute_input",
            IopubBroacast::ExecuteResult(_) => "execute_result",
            IopubBroacast::Error(_) => "error",
            IopubBroacast::Status(_) => "status",
            IopubBroacast::ClearOutput => "clear_output",
            IopubBroacast::DebugEvent => "debug_event",
        }
    }

    /// The broadcast as its canonical JSON document.
    #[verifier::rlimit(100)]
    pub fn to_json(self) -> (r: Json)
        ensures
            r@ == iopub_json(self),
    {
        broadcast use {lemma_view_fields_len, lemma_view_fields_index};

        match self {
            IopubBroacast::Stream(s) => {
                let ghost gs = s.name;
                let ghost gt = s.text@;
                let mut fields: Vec<(Vec<u8>, Json)> = Vec::new();
                fields.push((vec![0x6eu8, 0x61u8, 0x6du8, 0x65u8], match s.name {
                    StreamName::Stdout => Json::Str(vec![0x73u8, 0x74u8, 0x64u8, 0x6fu8, 0x75u8,
                        0x74u8]),
                    StreamName::Stderr => Json::Str(vec![0x73u8, 0x74u8, 0x64u8, 0x65u8, 0x72u8,
                        0x72u8]),
                }));
                fields.push((vec![0x74u8, 0x65u8, 0x78u8, 0x74u8], jstr(s.text.as_str())));
                let r = Json::Obj(fields);
                proof {
                    assert(view_fields(fields@) =~= iopub_json(IopubBroacast::Stream(Stream {
                        name: gs,
                        text: s.text,
                    }))->Obj_0);
                }
                r
            }
            IopubBroacast::DisplayData(d) => {
                let ghost gdata = d.data.deep_view();
                let ghost gmeta = d.metadata.deep_view();
                let ghost gtrans = d.transient.deep_view();
                let mut fields: Vec<(Vec<u8>, Json)> = Vec::new();
                fields.push((vec![0x64u8, 0x61u8, 0x74u8, 0x61u8], jstr_map(d.data)));
                fields.push((vec![0x6du8, 0x65u8, 0x74u8, 0x61u8, 0x64u8, 0x61u8, 0x74u8, 0x61u8],
                    jstr_map(d.metadata)));
                fields.push((vec![0x74u8, 0x72u8, 0x61u8, 0x6eu8, 0x73u8, 0x69u8, 0x65u8, 0x6eu8,
                    0x74u8], jstr_map(d.transient)));
                let r = Json::Obj(fields);
                proof {
                    assert(view_fields(fields@)[0].1 == str_map_json(gdata));
                    assert(view_fields(fields@)[1].1 == str_map_json(gmeta));
                    assert(view_fields(fields@)[2].1 == str_map_json(gtrans));
                    assert(r@ matches JsonV::Obj(fv) && fv.len() == 3);
                    assert(view_fields(fields@) =~= seq![
                        (seq![0x64u8, 0x61u8, 0x74u8, 0x61u8], str_map_json(gdata)),
                        (
                            seq![0x6du8, 0x65u8, 0x74u8, 0x61u8, 0x64u8, 0x61u8, 0x74u8, 0x61u8],
                            str_map_json(gmeta),
                        ),
                        (
                            seq![0x74u8, 0x72u8, 0x61u8, 0x6eu8, 0x73u8, 0x69u8, 0x65u8, 0x6eu8,
                                0x74u8],
                            str_map_json(gtrans),
                        ),
                    ]);
                }
                r
            }
            IopubBroacast::ExecuteResult(e) => {
                let ghost gn = e.execution_count;
                let ghost gdata = e.data.deep_view();
                let ghost gmeta = e.metadata.deep_view();
                let mut fields: Vec<(Vec<u8>, Json)> = Vec::new();
                fields.push((vec![0x65u8, 0x78u8, 0x65u8, 0x63u8, 0x75u8, 0x74u8, 0x69u8, 0x6fu8,
                    0x6eu8, 0x5fu8, 0x63u8, 0x6fu8, 0x75u8, 0x6eu8, 0x74u8], Json::Int(
                    e.execution_count)));
                fields.push((vec![0x64u8, 0x61u8, 0x74u8, 0x61u8], jstr_map(e.data)));
                fields.push((vec![0x6du8, 0x65u8, 0x74u8, 0x61u8, 0x64u8, 0x61u8, 0x74u8, 0x61u8],
                    jstr_map(e.metadata)));
                let r = Json::Obj(fields);
                proof {
                    assert(view_fields(fields@) =~= seq![
                        (
                            seq![0x65u8, 0x78u8, 0x65u8, 0x63u8, 0x75u8, 0x74u8, 0x69u8, 0x6fu8,
                                0x6eu8, 0x5fu8, 0x63u8, 0x6fu8, 0x75u8, 0x6eu8, 0x74u8],
                            JsonV::Int(gn),
                        ),
                        (seq![0x64u8, 0x61u8, 0x74u8, 0x61u8], str_map_json(gdata)),
                        (
                            seq![0x6du8, 0x65u8, 0x74u8, 0x61u8, 0x64u8, 0x61u8, 0x74u8, 0x61u8],
                            str_map_json(gmeta),
                        ),
                    ]);
                }
                r
            }
            IopubBroacast::Error(e) => {
                let ghost gname = e.name@;
                let ghost gvalue = e.value@;
                let ghost gtb = e.traceback.deep_view();
                let mut fields: Vec<(Vec<u8>, Json)> = Vec::new();
                fields.push((vec![0x65u8, 0x6eu8, 0x61u8, 0x6du8, 0x65u8], jstr(
                    e.name.as_str())));
                fields.push((vec![0x65u8, 0x76u8, 0x61u8, 0x6cu8, 0x75u8, 0x65u8], jstr(
                    e.value.as_str())));
                fields.push((vec![0x74u8, 0x72u8, 0x61u8, 0x63u8, 0x65u8, 0x62u8, 0x61u8, 0x63u8,
                    0x6bu8], jstr_list(e.traceback)));
                let r = Json::Obj(fields);
                proof {
                    assert(view_fields(fields@) =~= seq![
                        (seq![0x65u8, 0x6eu8, 0x61u8, 0x6du8, 0x65u8], json_str(gname)),
                        (seq![0x65u8, 0x76u8, 0x61u8, 0x6cu8, 0x75u8, 0x65u8], json_str(gvalue)),
                        (
                            seq![0x74u8, 0x72u8, 0x61u8, 0x63u8, 0x65u8, 0x62u8, 0x61u8, 0x63u8,
                                0x6bu8],
                            str_list_json(gtb),
                        ),
                    ]);
                }
                r
            }
            IopubBroacast::Status(st) => {
                let mut fields: Vec<(Vec<u8>, Json)> = Vec::new();
                fields.push((vec![0x65u8, 0x78u8, 0x65u8, 0x63u8, 0x75u8, 0x74u8, 0x69u8, 0x6fu8,
                    0x6eu8, 0x5fu8, 0x73u8, 0x74u8, 0x61u8, 0x74u8, 0x65u8], match st {
                    Status::Busy => Json::Str(vec![0x62u8, 0x75u8, 0x73u8, 0x79u8]),
                    Status::Idle => Json::Str(vec![0x69u8, 0x64u8, 0x6cu8, 0x65u8]),
                    Status::Starting => Json::Str(vec![0x73u8, 0x74u8, 0x61u8, 0x72u8, 0x74u8,
                        0x69u8, 0x6eu8, 0x67u8]),
                }));
                let r = Json::Obj(fields);
                proof {
                    assert(view_fields(fields@) =~= iopub_json(IopubBroacast::Status(
                        st))->Obj_0);
                }
                r
            }
            _ => {
                let fields: Vec<(Vec<u8>, Json)> = Vec::new();
                let r = Json::Obj(fields);
                proof {
                    assert(view_fields(fields@) =~= Seq::<(Seq<u8>, JsonV)>::empty());
                }
                r
            }
        }
    }
}

} // verus!
