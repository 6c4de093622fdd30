//! The kernel manifest written at registration time; where the file
//! goes is decided by the installer around the library.

use vstd::prelude::*;

use crate::json::{Json, JsonV, view_fields, view_elems, lemma_view_fields_len,
    lemma_view_fields_index, lemma_view_elems_len, lemma_view_elems_index};
use crate::messages::{json_str, jstr};

verus! {

/// Where the kernel manifest is installed.
#[derive(Debug, Clone, Copy, PartialEq, Eq, Structural)]
pub enum RegisterLocation {
    User,
    System,
}

/// The manifest document for a kernel started through `exec_path`.
pub open spec fn manifest_json(exec_path: Seq<char>) -> JsonV {
    JsonV::Obj(
        seq![
            (
                seq![0x61u8, 0x72u8, 0x67u8, 0x76u8],
                JsonV::Arr(
                    seq![
                        json_str(exec_path),
                        json_str("start"@),
                        json_str("{connection_file}"@),
                    ],
                ),
            ),
            (
                seq![0x64u8, 0x69u8, 0x73u8, 0x70u8, 0x6cu8, 0x61u8, 0x79u8, 0x5fu8, 0x6eu8,
                    0x61u8, 0x6du8, 0x65u8],
                json_str("Nushell"@),
            ),
            (
                seq![0x6cu8, 0x61u8, 0x6eu8, 0x67u8, 0x75u8, 0x61u8, 0x67u8, 0x65u8],
                json_str("nushell"@),
            ),
            (
                seq![0x69u8, 0x6eu8, 0x74u8, 0x65u8, 0x72u8, 0x72u8, 0x75u8, 0x70u8, 0x74u8,
                    0x5fu8, 0x6du8, 0x6fu8, 0x64u8, 0x65u8],
                json_str("message"@),
            ),
        ],
    )
}

/// Build the kernel manifest for this executable.
pub fn kernel_manifest(exec_path: &str) -> (r: Json)
    ensures
        r@ == manifest_json(exec_path@),
{
    broadcast use {
        lemma_view_fields_len,
        lemma_view_fields_index,
        lemma_view_elems_len,
        lemma_view_elems_index,
    };

    let mut argv: Vec<Json> = Vec::new();
    argv.push(jstr(exec_path));
    argv.push(jstr("start"));
    argv.push(jstr("{connection_file}"));
    let mut fields: Vec<(Vec<u8>, Json)> = Vec::new();
    fields.push((vec![0x61u8, 0x72u8, 0x67u8, 0x76u8], Json::Arr(argv)));
    fields.push((vec![0x64u8, 0x69u8, 0x73u8, 0x70u8, 0x6cu8, 0x61u8, 0x79u8, 0x5fu8, 0x6eu8,
        0x61u8, 0x6du8, 0x65u8], jstr("Nushell")));
    fields.push((vec![0x6cu8, 0x61u8, 0x6eu8, 0x67u8, 0x75u8, 0x61u8, 0x67u8, 0x65u8], jstr(
        "nushell")));
    fields.push((vec![0x69u8, 0x6eu8, 0x74u8, 0x65u8, 0x72u8, 0x72u8, 0x75u8, 0x70u8, 0x74u8,
        0x5fu8, 0x6du8, 0x6fu8, 0x64u8, 0x65u8], jstr("message")));
    let r = Json::Obj(fields);
    proof {
        let want = manifest_json(exec_path@);
        assert(view_elems(argv@) =~= want->Obj_0[0].1->Arr_0);
        assert(view_fields(fields@) =~= want->Obj_0);
    }
    r
}

} // verus!
