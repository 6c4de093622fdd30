//! The message model: headers, the session registry that stamps them,
//! and the envelope carrying typed content over the wire.

use vstd::prelude::*;

use crate::json::{
    spec_digits, Json, JsonV, view_fields, lemma_view_fields_len, lemma_view_fields_index,
    obj_get, find_field, lemma_obj_get_at,
};
use vstd::string::StrSliceExecFns;
use vstd::string::StringExecFns;

pub mod control;
pub mod iopub;
pub mod multipart;
pub mod shell;

verus! {

/// The channels a request can arrive on.
#[derive(Debug, Clone, Copy, PartialEq, Eq, Structural)]
pub enum Channel {
    Shell,
    Stdin,
    Control,
}

/// The restart flag carried by a shutdown request and fanned out to
/// every listener.
#[derive(Debug, Clone, Copy, PartialEq, Eq, Structural)]
pub struct Shutdown {
    pub restart: bool,
}

/// The characters of an ASCII byte sequence, one per byte.
pub open spec fn ascii_chars_of(b: Seq<u8>) -> Seq<char> {
    Seq::new(b.len(), |i: int| b[i] as char)
}

/// Decoding an ASCII byte sequence gives its bytes as characters.
pub proof fn lemma_ascii_decode(b: Seq<u8>)
    requires
        forall|k: int| 0 <= k < b.len() ==> b[k] < 0x80,
    ensures
        vstd::utf8::valid_utf8(b),
        vstd::utf8::decode_utf8(b) == ascii_chars_of(b),
        vstd::utf8::encode_utf8(ascii_chars_of(b)) == b,
{
    let cs = ascii_chars_of(b);
    assert(vstd::utf8::is_ascii_chars(cs)) by {
        assert forall|k: int| 0 <= k < cs.len() implies (cs[k] as nat) < 128 by {
            assert(cs[k] == b[k] as char);
        }
    }
    vstd::utf8::is_ascii_chars_encode_utf8(cs);
    assert(vstd::utf8::encode_utf8(cs) =~= b);
    vstd::utf8::encode_utf8_valid_utf8(cs);
    vstd::utf8::encode_utf8_decode_utf8(cs);
}

/// Whether two byte vectors hold the same bytes.
pub fn bytes_eq(a: &Vec<u8>, b: &Vec<u8>) -> (r: bool)
    ensures
        r == (a@ == b@),
{
    if a.len() != b.len() {
        proof {
            assert(a@ != b@);
        }
        return false;
    }
    let mut k: usize = 0;
    while k < a.len()
        invariant
            k <= a@.len(),
            a@.len() == b@.len(),
            forall|j: int| 0 <= j < k ==> a@[j] == b@[j],
        decreases a@.len() - k,
    {
        if a[k] != b[k] {
            proof {
                assert(a@[k as int] != b@[k as int]);
            }
            return false;
        }
        k = k + 1;
    }
    proof {
        assert(a@ =~= b@);
    }
    true
}

/// Whether two string slices hold the same characters.
pub fn str_eq(a: &str, b: &str) -> (r: bool)
    ensures
        r == (a@ == b@),
{
    let ab = a.as_bytes();
    let bb = b.as_bytes();
    proof {
        if a@ == b@ {
            assert(ab@ == bb@);
        }
        vstd::utf8::encode_utf8_decode_utf8(a@);
        vstd::utf8::encode_utf8_decode_utf8(b@);
    }
    if ab.len() != bb.len() {
        return false;
    }
    let mut k: usize = 0;
    while k < ab.len()
        invariant
            k <= ab@.len(),
            ab@.len() == bb@.len(),
            ab@ == vstd::utf8::encode_utf8(a@),
            bb@ == vstd::utf8::encode_utf8(b@),
            forall|j: int| 0 <= j < k ==> ab@[j] == bb@[j],
        decreases ab@.len() - k,
    {
        if ab[k] != bb[k] {
            proof {
                assert(ab@[k as int] != bb@[k as int]);
                if a@ == b@ {
                    assert(ab@ == bb@);
                }
            }
            return false;
        }
        k = k + 1;
    }
    proof {
        assert(ab@ =~= bb@);
        vstd::utf8::encode_utf8_decode_utf8(a@);
        vstd::utf8::encode_utf8_decode_utf8(b@);
    }
    true
}


/// The JSON string of a character sequence.
pub open spec fn json_str(cs: Seq<char>) -> JsonV {
    JsonV::Str(vstd::utf8::encode_utf8(cs))
}

/// The JSON array of a list of strings.
pub open spec fn str_list_json(ts: Seq<Seq<char>>) -> JsonV {
    JsonV::Arr(Seq::new(ts.len(), |i: int| json_str(ts[i])))
}

/// The JSON object of an ordered string-to-string map.
pub open spec fn str_map_json(m: Seq<(Seq<char>, Seq<char>)>) -> JsonV {
    JsonV::Obj(Seq::new(m.len(), |i: int| (vstd::utf8::encode_utf8(m[i].0), json_str(m[i].1))))
}

/// The JSON string holding the bytes of `s`.
pub fn jstr(s: &str) -> (r: Json)
    ensures
        r@ == json_str(s@),
{
    Json::Str(s.as_bytes_vec())
}

/// The JSON array holding the strings of `ts`.
pub fn jstr_list(ts: Vec<String>) -> (r: Json)
    ensures
        r@ == str_list_json(ts.deep_view()),
{
    broadcast use {crate::json::lemma_view_elems_len, crate::json::lemma_view_elems_index};

    let mut items: Vec<Json> = Vec::new();
    let mut k: usize = 0;
    while k < ts.len()
        invariant
            k <= ts@.len(),
            items@.len() == k,
            forall|j: int| 0 <= j < k ==> items@[j]@ == json_str(ts@[j]@),
        decreases ts@.len() - k,
    {
        items.push(jstr(ts[k].as_str()));
        k = k + 1;
    }
    let r = Json::Arr(items);
    proof {
        assert forall|j: int| 0 <= j < ts@.len() implies crate::json::view_elems(items@)[j]
            == str_list_json(ts.deep_view())->Arr_0[j] by {
            assert(ts.deep_view()[j] == ts@[j]@);
        }
        assert(crate::json::view_elems(items@) =~= str_list_json(ts.deep_view())->Arr_0);
    }
    r
}

/// The JSON object holding the entries of `m` in order.
pub fn jstr_map(m: Vec<(String, String)>) -> (r: Json)
    ensures
        r@ == str_map_json(m.deep_view()),
{
    broadcast use {lemma_view_fields_len, lemma_view_fields_index};

    let mut fields: Vec<(Vec<u8>, Json)> = Vec::new();
    let mut k: usize = 0;
    while k < m.len()
        invariant
            k <= m@.len(),
            fields@.len() == k,
            forall|j: int| 0 <= j < k ==> #[trigger] fields@[j].0@ == vstd::utf8::encode_utf8(
                m@[j].0@,
            ) && fields@[j].1@ == json_str(m@[j].1@),
        decreases m@.len() - k,
    {
        fields.push((m[k].0.as_str().as_bytes_vec(), jstr(m[k].1.as_str())));
        k = k + 1;
    }
    let r = Json::Obj(fields);
    proof {
        assert forall|j: int| 0 <= j < m@.len() implies view_fields(fields@)[j] == str_map_json(
            m.deep_view(),
        )->Obj_0[j] by {
            assert(m.deep_view()[j] == (m@[j].0@, m@[j].1@));
        }
        assert(view_fields(fields@) =~= str_map_json(m.deep_view())->Obj_0);
    }
    r
}

/// An owned copy of a string slice.
pub fn str_to_string(s: &str) -> (r: String)
    ensures
        r@ == s@,
{
    String::from_str(s)
}

/// Relies on std String::from_utf8: succeeds exactly on valid UTF-8 and
/// decodes it.
#[verifier::external_body]
pub fn string_from_utf8(v: Vec<u8>) -> (r: Option<String>)
    ensures
        r matches Some(s) ==> vstd::utf8::valid_utf8(v@) && s@ == vstd::utf8::decode_utf8(v@),
        (r is Some) == vstd::utf8::valid_utf8(v@),
{
    String::from_utf8(v).ok()
}

/// Relies on uuid's Uuid::new_v4 and its Display form: a hyphenated,
/// 36-character ASCII identifier; the value itself is random.
#[verifier::external_body]
fn uuid_v4_string() -> (r: String)
    ensures
        r@.len() == 36,
{
    uuid::Uuid::new_v4().to_string()
}

/// Relies on chrono's Utc::now().to_rfc3339(): an RFC 3339 rendering of
/// the current wall-clock time; nothing is promised of its value.
#[verifier::external_body]
fn now_rfc3339() -> (r: String)
    ensures
        r@.len() > 0,
{
    chrono::Utc::now().to_rfc3339()
}

/// The six-field header stamped onto every message.
pub struct Header {
    pub msg_id: String,
    pub session: String,
    pub username: String,
    pub date: String,
    pub msg_type: String,
    pub version: String,
}

impl Clone for Header {
    fn clone(&self) -> (r: Self)
        ensures
            r.msg_id@ == self.msg_id@,
            r.session@ == self.session@,
            r.username@ == self.username@,
            r.date@ == self.date@,
            r.msg_type@ == self.msg_type@,
            r.version@ == self.version@,
    {
        Header {
            msg_id: self.msg_id.clone(),
            session: self.session.clone(),
            username: self.username.clone(),
            date: self.date.clone(),
            msg_type: self.msg_type.clone(),
            version: self.version.clone(),
        }
    }
}

/// The wire keys of the header object.
pub open spec fn hk_msg_id() -> Seq<u8> {
    seq![0x6du8, 0x73u8, 0x67u8, 0x5fu8, 0x69u8, 0x64u8]
}

pub open spec fn hk_session() -> Seq<u8> {
    seq![0x73u8, 0x65u8, 0x73u8, 0x73u8, 0x69u8, 0x6fu8, 0x6eu8]
}

pub open spec fn hk_username() -> Seq<u8> {
    seq![0x75u8, 0x73u8, 0x65u8, 0x72u8, 0x6eu8, 0x61u8, 0x6du8, 0x65u8]
}

pub open spec fn hk_date() -> Seq<u8> {
    seq![0x64u8, 0x61u8, 0x74u8, 0x65u8]
}

pub open spec fn hk_msg_type() -> Seq<u8> {
    seq![0x6du8, 0x73u8, 0x67u8, 0x5fu8, 0x74u8, 0x79u8, 0x70u8, 0x65u8]
}

pub open spec fn hk_version() -> Seq<u8> {
    seq![0x76u8, 0x65u8, 0x72u8, 0x73u8, 0x69u8, 0x6fu8, 0x6eu8]
}

/// A header field entry: the key bytes and the field text as a JSON
/// string.
pub open spec fn hfield(k: Seq<u8>, text: Seq<char>) -> (Seq<u8>, JsonV) {
    (k, JsonV::Str(vstd::utf8::encode_utf8(text)))
}

/// The canonical JSON document of a header: its six fields, in wire
/// order, as strings.
pub open spec fn header_json(h: Header) -> JsonV {
    JsonV::Obj(
        seq![
            hfield(hk_msg_id(), h.msg_id@),
            hfield(hk_session(), h.session@),
            hfield(hk_username(), h.username@),
            hfield(hk_date(), h.date@),
            hfield(hk_msg_type(), h.msg_type@),
            hfield(hk_version(), h.version@),
        ],
    )
}

/// Unfold `header_json` into facts about each entry.
proof fn lemma_header_json_elim(h: Header, fv: Seq<(Seq<u8>, JsonV)>)
    requires
        JsonV::Obj(fv) == header_json(h),
    ensures
        fv.len() == 6,
        fv[0] == hfield(hk_msg_id(), h.msg_id@),
        fv[1] == hfield(hk_session(), h.session@),
        fv[2] == hfield(hk_username(), h.username@),
        fv[3] == hfield(hk_date(), h.date@),
        fv[4] == hfield(hk_msg_type(), h.msg_type@),
        fv[5] == hfield(hk_version(), h.version@),
{
}

/// Assemble `header_json` from facts about each entry.
proof fn lemma_header_json_intro(h: Header, fv: Seq<(Seq<u8>, JsonV)>)
    requires
        fv.len() == 6,
        fv[0] == hfield(hk_msg_id(), h.msg_id@),
        fv[1] == hfield(hk_session(), h.session@),
        fv[2] == hfield(hk_username(), h.username@),
        fv[3] == hfield(hk_date(), h.date@),
        fv[4] == hfield(hk_msg_type(), h.msg_type@),
        fv[5] == hfield(hk_version(), h.version@),
    ensures
        JsonV::Obj(fv) == header_json(h),
{
    assert(fv =~= header_json(h)->Obj_0);
}

/// Each header field stands in the object under its key, whatever
/// else the object carries and in whatever order.
pub open spec fn header_fields_in(v: JsonV, h: Header) -> bool {
    &&& v is Obj
    &&& obj_get(v->Obj_0, hk_msg_id()) == Option::Some(json_str(h.msg_id@))
    &&& obj_get(v->Obj_0, hk_session()) == Option::Some(json_str(h.session@))
    &&& obj_get(v->Obj_0, hk_username()) == Option::Some(json_str(h.username@))
    &&& obj_get(v->Obj_0, hk_date()) == Option::Some(json_str(h.date@))
    &&& obj_get(v->Obj_0, hk_msg_type()) == Option::Some(json_str(h.msg_type@))
    &&& obj_get(v->Obj_0, hk_version()) == Option::Some(json_str(h.version@))
}

/// The canonical header object answers every lookup with its field.
pub proof fn lemma_header_json_lookup(h: Header)
    ensures
        header_fields_in(header_json(h), h),
{
    let fv = header_json(h)->Obj_0;
    lemma_header_json_elim(h, fv);
    assert(hk_msg_id().len() == 6 && hk_session().len() == 7 && hk_username().len() == 8
        && hk_date().len() == 4 && hk_msg_type().len() == 8 && hk_version().len() == 7);
    assert(hk_username()[0] == 0x75 && hk_msg_type()[0] == 0x6d);
    assert(hk_session()[0] == 0x73 && hk_version()[0] == 0x76);
    lemma_obj_get_at(fv, hk_msg_id(), 0);
    lemma_obj_get_at(fv, hk_session(), 1);
    lemma_obj_get_at(fv, hk_username(), 2);
    lemma_obj_get_at(fv, hk_date(), 3);
    lemma_obj_get_at(fv, hk_msg_type(), 4);
    lemma_obj_get_at(fv, hk_version(), 5);
}

/// Two headers drawn from one object agree on every field.
pub proof fn lemma_header_fields_unique(v: JsonV, h1: Header, h2: Header)
    requires
        header_fields_in(v, h1),
        header_fields_in(v, h2),
    ensures
        h1.msg_id@ == h2.msg_id@,
        h1.session@ == h2.session@,
        h1.username@ == h2.username@,
        h1.date@ == h2.date@,
        h1.msg_type@ == h2.msg_type@,
        h1.version@ == h2.version@,
{
    vstd::utf8::encode_utf8_decode_utf8(h1.msg_id@);
    vstd::utf8::encode_utf8_decode_utf8(h2.msg_id@);
    vstd::utf8::encode_utf8_decode_utf8(h1.session@);
    vstd::utf8::encode_utf8_decode_utf8(h2.session@);
    vstd::utf8::encode_utf8_decode_utf8(h1.username@);
    vstd::utf8::encode_utf8_decode_utf8(h2.username@);
    vstd::utf8::encode_utf8_decode_utf8(h1.date@);
    vstd::utf8::encode_utf8_decode_utf8(h2.date@);
    vstd::utf8::encode_utf8_decode_utf8(h1.msg_type@);
    vstd::utf8::encode_utf8_decode_utf8(h2.msg_type@);
    vstd::utf8::encode_utf8_decode_utf8(h1.version@);
    vstd::utf8::encode_utf8_decode_utf8(h2.version@);
}

/// Headers with equal field texts print the same document.
pub proof fn lemma_header_json_congr(h1: Header, h2: Header)
    requires
        h1.msg_id@ == h2.msg_id@,
        h1.session@ == h2.session@,
        h1.username@ == h2.username@,
        h1.date@ == h2.date@,
        h1.msg_type@ == h2.msg_type@,
        h1.version@ == h2.version@,
    ensures
        header_json(h1) == header_json(h2),
{
    assert(header_json(h1)->Obj_0 =~= header_json(h2)->Obj_0);
}

impl Header {
    /// The header's fields as a JSON object in wire order.
    pub fn to_json(&self) -> (r: Json)
        ensures
            r@ == header_json(*self),
    {
        broadcast use {lemma_view_fields_len, lemma_view_fields_index};

        let mut fields: Vec<(Vec<u8>, Json)> = Vec::new();
        fields.push((vec![0x6du8, 0x73u8, 0x67u8, 0x5fu8, 0x69u8, 0x64u8], Json::Str(
            self.msg_id.as_str().as_bytes_vec())));
        fields.push((vec![0x73u8, 0x65u8, 0x73u8, 0x73u8, 0x69u8, 0x6fu8, 0x6eu8], Json::Str(
            self.session.as_str().as_bytes_vec())));
        fields.push((vec![0x75u8, 0x73u8, 0x65u8, 0x72u8, 0x6eu8, 0x61u8, 0x6du8, 0x65u8],
            Json::Str(self.username.as_str().as_bytes_vec())));
        fields.push((vec![0x64u8, 0x61u8, 0x74u8, 0x65u8], Json::Str(
            self.date.as_str().as_bytes_vec())));
        fields.push((vec![0x6du8, 0x73u8, 0x67u8, 0x5fu8, 0x74u8, 0x79u8, 0x70u8, 0x65u8],
            Json::Str(self.msg_type.as_str().as_bytes_vec())));
        fields.push((vec![0x76u8, 0x65u8, 0x72u8, 0x73u8, 0x69u8, 0x6fu8, 0x6eu8], Json::Str(
            self.version.as_str().as_bytes_vec())));
        let r = Json::Obj(fields);
        proof {
            assert(fields@[0].0@ =~= hk_msg_id());
            assert(fields@[1].0@ =~= hk_session());
            assert(fields@[2].0@ =~= hk_username());
            assert(fields@[3].0@ =~= hk_date());
            assert(fields@[4].0@ =~= hk_msg_type());
            assert(fields@[5].0@ =~= hk_version());
            lemma_header_json_intro(*self, view_fields(fields@));
        }
        r
    }

    /// Read a header back from a JSON object: the six fields are found
    /// by key, in any order, and any other fields are ignored.
    #[verifier::rlimit(100)]
    #[verifier::spinoff_prover]
    pub fn from_json(j: Json) -> (r: Option<Header>)
        ensures
            r matches Some(h) ==> header_fields_in(j@, h),
            forall|h: Header| j@ == #[trigger] header_json(h) ==> r is Some,
    {
        let ghost gj = j@;
        let ghost hyp = exists|h: Header| gj == #[trigger] header_json(h);
        let ghost gh: Header = choose|h: Header| gj == #[trigger] header_json(h);
        proof {
            if hyp {
                lemma_header_json_lookup(gh);
            }
        }
        let fields = match j {
            Json::Obj(fields) => fields,
            _ => {
                proof {
                    if hyp {
                        assert(false);
                    }
                }
                return None;
            }
        };
        proof {
            assert(gj == JsonV::Obj(view_fields(fields@)));
        }
        let msg_id = match field_string(&fields, &vec![0x6du8, 0x73u8, 0x67u8, 0x5fu8, 0x69u8,
            0x64u8], Ghost(hk_msg_id())) {
            Some(s) => s,
            None => {
                proof {
                    if hyp {
                        assert(false);
                    }
                }
                return None;
            }
        };
        let session = match field_string(&fields, &vec![0x73u8, 0x65u8, 0x73u8, 0x73u8, 0x69u8,
            0x6fu8, 0x6eu8], Ghost(hk_session())) {
            Some(s) => s,
            None => {
                proof {
                    if hyp {
                        assert(false);
                    }
                }
                return None;
            }
        };
        let username = match field_string(&fields, &vec![0x75u8, 0x73u8, 0x65u8, 0x72u8, 0x6eu8,
            0x61u8, 0x6du8, 0x65u8], Ghost(hk_username())) {
            Some(s) => s,
            None => {
                proof {
                    if hyp {
                        assert(false);
                    }
                }
                return None;
            }
        };
        let date = match field_string(&fields, &vec![0x64u8, 0x61u8, 0x74u8, 0x65u8], Ghost(
            hk_date())) {
            Some(s) => s,
            None => {
                proof {
                    if hyp {
                        assert(false);
                    }
                }
                return None;
            }
        };
        let msg_type = match field_string(&fields, &vec![0x6du8, 0x73u8, 0x67u8, 0x5fu8, 0x74u8,
            0x79u8, 0x70u8, 0x65u8], Ghost(hk_msg_type())) {
            Some(s) => s,
            None => {
                proof {
                    if hyp {
                        assert(false);
                    }
                }
                return None;
            }
        };
        let version = match field_string(&fields, &vec![0x76u8, 0x65u8, 0x72u8, 0x73u8, 0x69u8,
            0x6fu8, 0x6eu8], Ghost(hk_version())) {
            Some(s) => s,
            None => {
                proof {
                    if hyp {
                        assert(false);
                    }
                }
                return None;
            }
        };
        Some(Header { msg_id, session, username, date, msg_type, version })
    }
}

/// Read one string field of an object by key; the key ghost names the
/// spec-level bytes of the exec key.
pub fn field_string(fields: &Vec<(Vec<u8>, Json)>, key: &Vec<u8>, gkey: Ghost<Seq<u8>>) -> (r: Option<
    String,
>)
    requires
        key@ == gkey@,
    ensures
        r matches Some(s) ==> obj_get(view_fields(fields@), gkey@) == Option::Some(json_str(s@)),
        forall|cs: Seq<char>| obj_get(view_fields(fields@), gkey@) == Option::Some(
            #[trigger] json_str(cs),
        ) ==> r is Some,
{
    broadcast use {lemma_view_fields_len, lemma_view_fields_index};

    let ix = match find_field(fields, key) {
        Some(ix) => ix,
        None => {
            return None;
        }
    };
    let b = match &fields[ix].1 {
        Json::Str(b) => b.clone(),
        _ => {
            return None;
        }
    };
    let ghost bv = b@;
    proof {
        assert(fields@[ix as int].1@ == JsonV::Str(bv));
    }
    let r = string_from_utf8(b);
    proof {
        if vstd::utf8::valid_utf8(bv) {
            vstd::utf8::decode_utf8_encode_utf8(bv);
        }
        assert forall|cs: Seq<char>| obj_get(view_fields(fields@), gkey@) == Option::Some(
            #[trigger] json_str(cs),
        ) implies vstd::utf8::valid_utf8(bv) by {
            vstd::utf8::encode_utf8_valid_utf8(cs);
        }
    }
    r
}


/// The decimal rendering of a counter value.
pub fn u64_to_string(n: u64) -> (r: String)
    ensures
        r@ == ascii_chars_of(spec_digits(n)),
{
    let mut v: Vec<u8> = Vec::new();
    crate::json::append_digits(&mut v, n);
    proof {
        crate::json::lemma_digits_shape(n);
        assert(forall|k: int| 0 <= k < v@.len() ==> v@[k] < 0x80);
        lemma_ascii_decode(v@);
    }
    match string_from_utf8(v) {
        Some(s) => s,
        None => vstd::pervasive::unreached(),
    }
}

/// The message identifier stamped for counter value `n` of a session.
pub open spec fn msg_id_chars(session: Seq<char>, n: u64) -> Seq<char> {
    session + seq![':'] + ascii_chars_of(spec_digits(n))
}

/// Two different counter values give two different message identifiers:
/// every stamped header is fresh.
pub proof fn lemma_msg_id_fresh(session: Seq<char>, c1: u64, c2: u64)
    requires
        c1 != c2,
    ensures
        msg_id_chars(session, c1) != msg_id_chars(session, c2),
{
    if msg_id_chars(session, c1) == msg_id_chars(session, c2) {
        let a1 = ascii_chars_of(spec_digits(c1));
        let a2 = ascii_chars_of(spec_digits(c2));
        crate::json::lemma_concat_cancel::<char>(session + seq![':'], a1, session + seq![':'],
            a2);
        crate::json::lemma_digits_shape(c1);
        crate::json::lemma_digits_shape(c2);
        assert forall|k: int| 0 <= k < spec_digits(c1).len() implies spec_digits(c1)[k]
            == spec_digits(c2)[k] by {
            assert(a1[k] == spec_digits(c1)[k] as char);
            assert(a2[k] == spec_digits(c2)[k] as char);
        }
        assert(spec_digits(c1) =~= spec_digits(c2));
        crate::json::lemma_digits_val(c1);
        crate::json::lemma_digits_val(c2);
        assert(false);
    }
}

/// The process-wide session identity and message counter that stamp
/// every outgoing header.
pub struct KernelSession {
    pub id: Option<String>,
    pub counter: u64,
}

impl KernelSession {
    /// A fresh session: no identifier generated yet, counter at zero.
    pub fn new() -> (r: Self)
        ensures
            r.id is None,
            r.counter == 0,
    {
        KernelSession { id: None, counter: 0 }
    }

    /// The session identifier's characters.
    pub open spec fn id_chars(&self) -> Seq<char>
        recommends
            self.id is Some,
    {
        self.id->0@
    }

    /// The session identifier, generated lazily on first use and then
    /// reused for every header.
    pub fn get(&mut self) -> (r: String)
        ensures
            final(self).counter == old(self).counter,
            final(self).id matches Some(s) && s@ == r@,
            old(self).id matches Some(s0) ==> final(self).id == old(self).id && r@ == s0@,
    {
        match &self.id {
            Some(s) => s.clone(),
            None => {
                let s = uuid_v4_string();
                let r = s.clone();
                self.id = Some(s);
                r
            }
        }
    }

    /// Stamp a fresh header: a new message identifier from the session
    /// and the counter, which ticks once per call.
    pub fn header(&mut self, msg_type: String) -> (r: Header)
        requires
            old(self).counter < u64::MAX,
        ensures
            final(self).counter == old(self).counter + 1,
            old(self).id is Some ==> final(self).id == old(self).id,
            final(self).id is Some,
            r.session@ == final(self).id_chars(),
            r.msg_id@ == msg_id_chars(final(self).id_chars(), old(self).counter),
            r.msg_type@ == msg_type@,
            r.username@ == "nu_kernel"@,
            r.version@ == "5.3"@,
    {
        let session = self.get();
        let n = self.counter;
        self.counter = n + 1;
        let num = u64_to_string(n);
        let mut msg_id = session.clone();
        msg_id.append(":");
        msg_id.append(num.as_str());
        proof {
            reveal_strlit(":");
            assert(":"@ =~= seq![':']);
            assert(msg_id@ =~= msg_id_chars(session@, n));
        }
        Header {
            msg_id,
            session,
            username: String::from_str("nu_kernel"),
            date: now_rfc3339(),
            msg_type,
            version: String::from_str("5.3"),
        }
    }
}

/// The opaque metadata document carried by every envelope.
pub struct Metadata(pub Json);

impl Metadata {
    /// The default metadata: an empty object.
    pub fn empty() -> (r: Self)
        ensures
            r.0@ == JsonV::Obj(Seq::<(Seq<u8>, JsonV)>::empty()),
    {
        let v: Vec<(Vec<u8>, Json)> = Vec::new();
        let r = Metadata(Json::Obj(v));
        proof {
            assert(view_fields(v@) =~= Seq::<(Seq<u8>, JsonV)>::empty());
        }
        r
    }
}

/// One envelope: routing identities, headers, metadata, typed content,
/// and raw buffers.
pub struct Message<C> {
    pub zmq_identities: Vec<Vec<u8>>,
    pub header: Header,
    pub parent_header: Option<Header>,
    pub metadata: Metadata,
    pub content: C,
    pub buffers: Vec<Vec<u8>>,
}

/// Typed content decoded from a request channel.
pub enum IncomingContent {
    Shell(crate::messages::shell::ShellRequest),
    Control(crate::messages::control::ControlRequest),
}

/// Typed content bound for the wire.
pub enum OutgoingContent {
    Shell(crate::messages::shell::ShellReply),
    Iopub(crate::messages::iopub::IopubBroacast),
    Control(crate::messages::control::ControlReply),
}

} // verus!
