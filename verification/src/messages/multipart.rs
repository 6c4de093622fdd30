//! The wire framing of envelopes: identity frames, the delimiter, the
//! signature, the four signed JSON fields, and raw buffers.

use vstd::prelude::*;

use crate::crypto::{Digester, spec_signature};
use crate::json::{
    Json, JsonV, spec_print, spec_strip, lemma_strip_print, print_json, parse_json, view_fields,
    lemma_view_fields_len,
};
use crate::messages::{
    Channel, Header, header_json, header_fields_in, lemma_header_json_lookup,
    lemma_header_fields_unique, lemma_header_json_congr, IncomingContent, Message, Metadata,
    OutgoingContent,
};
use crate::messages::shell::{ShellRequest, ShellReply, shell_request_type, shell_request_json,
    shell_body_in, spec_shell_reply_type};
use crate::messages::control::{ControlRequest, ControlReply, control_request_type,
    control_request_json, control_body_in, spec_control_reply_type};
use crate::messages::iopub::{IopubBroacast, iopub_json};

verus! {

/// The frame separating routing identities from the signed payload.
pub open spec fn delim_bytes() -> Seq<u8> {
    seq![0x3cu8, 0x49u8, 0x44u8, 0x53u8, 0x7cu8, 0x4du8, 0x53u8, 0x47u8, 0x3eu8]
}

/// The position of the first delimiter frame, or -1 when none exists.
#[verifier::opaque]
pub open spec fn first_delim(frames: Seq<Seq<u8>>, i: int) -> int
    decreases frames.len() - i,
{
    if i < 0 || i >= frames.len() {
        -1
    } else if frames[i] == delim_bytes() {
        i
    } else {
        first_delim(frames, i + 1)
    }
}

/// A delimiter frame bounds the first match from above.
proof fn lemma_first_delim_found(frames: Seq<Seq<u8>>, i: int)
    requires
        0 <= i < frames.len(),
        frames[i] == delim_bytes(),
    ensures
        0 <= first_delim(frames, 0) <= i,
    decreases i,
{
    reveal(first_delim);
    if first_delim(frames, 0) < 0 || first_delim(frames, 0) > i {
        lemma_first_delim_le(frames, 0, i);
    }
}

/// Below the scan start nothing changes; a delimiter at `i` keeps the
/// first match at or before `i`.
proof fn lemma_first_delim_le(frames: Seq<Seq<u8>>, k: int, i: int)
    requires
        0 <= k <= i < frames.len(),
        frames[i] == delim_bytes(),
    ensures
        0 <= first_delim(frames, k) <= i,
    decreases i - k,
{
    reveal(first_delim);
    if frames[k] != delim_bytes() {
        lemma_first_delim_le(frames, k + 1, i);
    }
}

/// Scanning past non-delimiter frames does not move the first match.
proof fn lemma_first_delim_skip(frames: Seq<Seq<u8>>, i: int)
    requires
        0 <= i <= frames.len(),
        forall|j: int| 0 <= j < i ==> #[trigger] frames[j] != delim_bytes(),
    ensures
        first_delim(frames, 0) == first_delim(frames, i),
    decreases i,
{
    reveal(first_delim);
    if i > 0 {
        lemma_first_delim_skip(frames, i - 1);
    }
}

/// The JSON document standing in the parent-header slot: the header's
/// object, or the empty object when there is no parent.
pub open spec fn parent_json(p: Option<Header>) -> JsonV {
    match p {
        Some(h) => header_json(h),
        None => JsonV::Obj(Seq::empty()),
    }
}

/// The wire name of decoded request content.
pub open spec fn incoming_type(c: IncomingContent) -> Seq<char> {
    match c {
        IncomingContent::Shell(s) => shell_request_type(s),
        IncomingContent::Control(s) => control_request_type(s),
    }
}

/// The canonical body of decoded request content.
pub open spec fn incoming_json(c: IncomingContent) -> JsonV {
    match c {
        IncomingContent::Shell(s) => shell_request_json(s),
        IncomingContent::Control(s) => control_request_json(s),
    }
}

/// The canonical body of outgoing content.
pub open spec fn outgoing_json(c: OutgoingContent) -> JsonV {
    match c {
        OutgoingContent::Shell(s) => crate::messages::shell::shell_reply_json(s),
        OutgoingContent::Iopub(b) => iopub_json(b),
        OutgoingContent::Control(s) => crate::messages::control::control_reply_json(s),
    }
}

/// The full frame list for given parts and signature.
pub open spec fn spec_frames(
    ids: Seq<Seq<u8>>,
    sig: Seq<u8>,
    hb: Seq<u8>,
    pb: Seq<u8>,
    mb: Seq<u8>,
    cb: Seq<u8>,
    bufs: Seq<Seq<u8>>,
) -> Seq<Seq<u8>> {
    ids + seq![delim_bytes(), sig, hb, pb, mb, cb] + bufs
}

/// A well-formed request envelope: content on its own channel, the
/// header's wire name naming the content, and no identity frame equal
/// to the delimiter.
pub open spec fn incoming_wf(m: Message<IncomingContent>, channel: Channel) -> bool {
    &&& match (channel, m.content) {
        (Channel::Shell, IncomingContent::Shell(_)) => true,
        (Channel::Control, IncomingContent::Control(_)) => true,
        _ => false,
    }
    &&& m.header.msg_type@ == incoming_type(m.content)
    &&& forall|k: int| 0 <= k < m.zmq_identities@.len() ==> m.zmq_identities@[k]@
        != delim_bytes()
}

/// The frames of a request envelope, with an arbitrary signature frame.
#[verifier::opaque]
pub open spec fn incoming_frames_sig(m: Message<IncomingContent>, sig: Seq<u8>) -> Seq<Seq<u8>> {
    spec_frames(
        m.zmq_identities.deep_view(),
        sig,
        spec_print(header_json(m.header)),
        spec_print(parent_json(m.parent_header)),
        spec_print(m.metadata.0@),
        spec_print(incoming_json(m.content)),
        m.buffers.deep_view(),
    )
}

/// A signed request frame list is the same list with its own signature
/// in the signature slot.
pub proof fn lemma_incoming_frames_is_sig(m: Message<IncomingContent>, key: Seq<u8>)
    ensures
        incoming_frames(m, key) == incoming_frames_sig(
            m,
            spec_signature(
                key,
                spec_print(header_json(m.header)),
                spec_print(parent_json(m.parent_header)),
                spec_print(m.metadata.0@),
                spec_print(incoming_json(m.content)),
            ),
        ),
{
}

/// The frames of a request envelope, signed under `key`.
pub open spec fn incoming_frames(m: Message<IncomingContent>, key: Seq<u8>) -> Seq<Seq<u8>> {
    incoming_frames_sig(
        m,
        spec_signature(
            key,
            spec_print(header_json(m.header)),
            spec_print(parent_json(m.parent_header)),
            spec_print(m.metadata.0@),
            spec_print(incoming_json(m.content)),
        ),
    )
}

/// The frames of an outgoing envelope, signed under `key`.
pub open spec fn outgoing_frames(m: Message<OutgoingContent>, key: Seq<u8>) -> Seq<Seq<u8>> {
    spec_frames(
        m.zmq_identities.deep_view(),
        spec_signature(
            key,
            spec_print(header_json(m.header)),
            spec_print(parent_json(m.parent_header)),
            spec_print(m.metadata.0@),
            spec_print(outgoing_json(m.content)),
        ),
        spec_print(header_json(m.header)),
        spec_print(parent_json(m.parent_header)),
        spec_print(m.metadata.0@),
        spec_print(outgoing_json(m.content)),
        m.buffers.deep_view(),
    )
}

/// Two decoded envelopes agree on everything the wire carries.
pub open spec fn msg_equiv(a: Message<IncomingContent>, b: Message<IncomingContent>) -> bool {
    &&& a.zmq_identities.deep_view() == b.zmq_identities.deep_view()
    &&& header_json(a.header) == header_json(b.header)
    &&& parent_json(a.parent_header) == parent_json(b.parent_header)
    &&& (a.parent_header is Some) == (b.parent_header is Some)
    &&& a.metadata.0@ == b.metadata.0@
    &&& incoming_type(a.content) == incoming_type(b.content)
    &&& incoming_json(a.content) == incoming_json(b.content)
    &&& a.buffers.deep_view() == b.buffers.deep_view()
}

/// What can go wrong while decoding a multipart message.
#[derive(Debug, Clone, Copy, PartialEq, Eq, Structural)]
pub enum DecodeError {
    MissingDelimiter,
    MissingFrames,
    InvalidJson,
    InvalidHeader,
    InvalidParent,
    UnknownMessageType,
    InvalidContent,
}

/// A frame list ready for the transport.
pub struct Multipart(pub Vec<Vec<u8>>);

/// The deep view of a byte vector is its view.
pub proof fn lemma_bytes_deep(v: Vec<u8>)
    ensures
        v.deep_view() == v@,
{
    assert(v.deep_view() =~= v@);
}

/// Copy a byte vector.
pub fn copy_bytes(v: &Vec<u8>) -> (r: Vec<u8>)
    ensures
        r@ == v@,
{
    let mut r: Vec<u8> = Vec::new();
    let mut k: usize = 0;
    while k < v.len()
        invariant
            k <= v@.len(),
            r@ == v@.take(k as int),
        decreases v@.len() - k,
    {
        r.push(v[k]);
        proof {
            assert(v@.take(k as int + 1) =~= v@.take(k as int).push(v@[k as int]));
        }
        k = k + 1;
    }
    proof {
        assert(v@.take(v@.len() as int) =~= v@);
    }
    r
}

/// Assemble and sign the frame list for one envelope.
fn encode_core(
    ids: Vec<Vec<u8>>,
    header: &Header,
    parent: &Option<Header>,
    metadata: &Metadata,
    content_json: Json,
    buffers: Vec<Vec<u8>>,
    digester: &Digester,
) -> (r: Vec<Vec<u8>>)
    requires
        digester.is_init(),
    ensures
        r.deep_view() == spec_frames(
            ids.deep_view(),
            spec_signature(
                digester.key_view(),
                spec_print(header_json(*header)),
                spec_print(parent_json(*parent)),
                spec_print(metadata.0@),
                spec_print(content_json@),
            ),
            spec_print(header_json(*header)),
            spec_print(parent_json(*parent)),
            spec_print(metadata.0@),
            spec_print(content_json@),
            buffers.deep_view(),
        ),
{
    let hj = header.to_json();
    let hb = print_json(&hj);
    let pb = match parent {
        Some(h) => {
            let pj = h.to_json();
            print_json(&pj)
        }
        None => {
            let v = vec![0x7bu8, 0x7du8];
            proof {
                assert(crate::json::spec_print_fields(Seq::<(Seq<u8>, JsonV)>::empty())
                    == Seq::<u8>::empty());
                assert(spec_print(parent_json(None::<Header>)) =~= seq![0x7bu8, 0x7du8]);
                assert(v@ =~= spec_print(parent_json(None::<Header>)));
            }
            v
        }
    };
    let mb = print_json(&metadata.0);
    let cb = print_json(&content_json);
    let sig = digester.sign(&hb, &pb, &mb, &cb);
    let ghost gids = ids.deep_view();
    let ghost gbufs = buffers.deep_view();
    let ghost gsig = sig@;
    let ghost ghb = hb@;
    let ghost gpb = pb@;
    let ghost gmb = mb@;
    let ghost gcb = cb@;
    let mut frames = ids;
    frames.push(vec![0x3cu8, 0x49u8, 0x44u8, 0x53u8, 0x7cu8, 0x4du8, 0x53u8, 0x47u8, 0x3eu8]);
    frames.push(sig);
    frames.push(hb);
    frames.push(pb);
    frames.push(mb);
    frames.push(cb);
    proof {
        assert(frames.deep_view() =~~= gids + seq![delim_bytes(), gsig, ghb, gpb, gmb, gcb]);
    }
    let ghost mid = frames.deep_view();
    let mut bufs = buffers;
    let nb = bufs.len();
    proof {
        assert(nb == bufs@.len());
        assert(gbufs.len() == bufs@.len());
    }
    let mut k: usize = 0;
    while bufs.len() > 0
        invariant
            k <= gbufs.len() <= usize::MAX,
            bufs@ =~= buffers@.skip(k as int),
            gbufs == buffers.deep_view(),
            frames.deep_view() =~= mid + gbufs.take(k as int),
        decreases gbufs.len() - k,
    {
        proof {
            assert(bufs@.len() == gbufs.len() - k);
        }
        let b = bufs.remove(0);
        proof {
            assert(buffers@.skip(k as int)[0] == buffers@[k as int]);
            assert(b == buffers@[k as int]);
        }
        let ghost prevframes = frames@;
        let ghost prevdeep = frames.deep_view();
        frames.push(b);
        proof {
            assert(bufs@ =~= buffers@.skip(k as int + 1));
            lemma_bytes_deep(b);
            assert(gbufs[k as int] == buffers@[k as int].deep_view());
            assert(b.deep_view() == gbufs[k as int]);
            assert(gbufs.take(k as int + 1) =~= gbufs.take(k as int).push(gbufs[k as int]));
            let newdeep = frames.deep_view();
            assert(newdeep.len() == prevframes.len() + 1);
            assert forall|j: int| 0 <= j < prevframes.len() implies newdeep[j]
                == prevdeep[j] by {
                assert(frames@[j] == prevframes[j]);
                assert(newdeep[j] == frames@[j].deep_view());
                assert(prevdeep[j] == prevframes[j].deep_view());
            }
            assert(newdeep[prevframes.len() as int] == b.deep_view());
            assert(prevdeep == mid + gbufs.take(k as int));
            assert(prevdeep.len() == mid.len() + k);
            assert(prevframes.len() == prevdeep.len());
            assert forall|j: int| 0 <= j < newdeep.len() implies newdeep[j] == (mid
                + gbufs.take(k as int + 1))[j] by {
                if j < mid.len() + k {
                    assert(newdeep[j] == prevdeep[j]);
                    assert(prevdeep[j] == (mid + gbufs.take(k as int))[j]);
                    if j < mid.len() {
                    } else {
                        assert(gbufs.take(k as int)[j - mid.len()] == gbufs[j - mid.len()]);
                        assert(gbufs.take(k as int + 1)[j - mid.len()] == gbufs[j - mid.len()]);
                    }
                } else {
                    assert(j == mid.len() + k);
                    assert(newdeep[j] == gbufs[k as int]);
                    assert(gbufs.take(k as int + 1)[k as int] == gbufs[k as int]);
                }
            }
            assert(newdeep =~= mid + gbufs.take(k as int + 1));
        }
        k = k + 1;
    }
    proof {
        assert(gbufs.take(gbufs.len() as int) =~= gbufs);
        assert(mid + gbufs =~= spec_frames(gids, gsig, ghb, gpb, gmb, gcb, gbufs));
    }
    frames
}

impl Message<OutgoingContent> {
    /// Serialize, sign and frame this envelope for the wire.
    pub fn into_multipart(self, digester: &Digester) -> (r: Multipart)
        requires
            digester.is_init(),
        ensures
            r.0.deep_view() == outgoing_frames(self, digester.key_view()),
    {
        let Message { zmq_identities, header, parent_header, metadata, content, buffers } = self;
        let cj = match content {
            OutgoingContent::Shell(rep) => rep.to_json(),
            OutgoingContent::Iopub(b) => b.to_json(),
            OutgoingContent::Control(rep) => rep.to_json(),
        };
        Multipart(
            encode_core(zmq_identities, &header, &parent_header, &metadata, cj, buffers,
                digester),
        )
    }
}

impl Message<IncomingContent> {
    /// Serialize, sign and frame this request envelope, exactly as its
    /// decoded form came off the wire.
    pub fn into_multipart(self, digester: &Digester) -> (r: Multipart)
        requires
            digester.is_init(),
        ensures
            r.0.deep_view() == incoming_frames(self, digester.key_view()),
    {
        let Message { zmq_identities, header, parent_header, metadata, content, buffers } = self;
        let cj = match content {
            IncomingContent::Shell(req) => req.to_json(),
            IncomingContent::Control(req) => req.to_json(),
        };
        proof {
            reveal(incoming_frames_sig);
        }
        Multipart(
            encode_core(zmq_identities, &header, &parent_header, &metadata, cj, buffers,
                digester),
        )
    }
}

/// Where each part of a well-formed encoded request envelope stands in
/// its frame list.
#[verifier::rlimit(100)]
proof fn lemma_frames_layout(m: Message<IncomingContent>, sig: Seq<u8>, gfr: Seq<Seq<u8>>)
    requires
        gfr == incoming_frames_sig(m, sig),
    ensures
        gfr.len() == m.zmq_identities@.len() + 6 + m.buffers@.len(),
        m.zmq_identities.deep_view().len() == m.zmq_identities@.len(),
        m.buffers.deep_view().len() == m.buffers@.len(),
        gfr[m.zmq_identities@.len() as int] == delim_bytes(),
        forall|j: int| 0 <= j < m.zmq_identities@.len() ==> #[trigger] gfr[j]
            == m.zmq_identities@[j]@,
        gfr[m.zmq_identities@.len() as int + 1] == sig,
        gfr[m.zmq_identities@.len() as int + 2] == spec_print(header_json(m.header)),
        gfr[m.zmq_identities@.len() as int + 3] == spec_print(parent_json(m.parent_header)),
        gfr[m.zmq_identities@.len() as int + 4] == spec_print(m.metadata.0@),
        gfr[m.zmq_identities@.len() as int + 5] == spec_print(incoming_json(m.content)),
        forall|j: int| 0 <= j < m.buffers@.len() ==> #[trigger] gfr[m.zmq_identities@.len() as int + 6
            + j] == m.buffers@[j]@,
        gfr.subrange(0, m.zmq_identities@.len() as int) == m.zmq_identities.deep_view(),
        gfr.subrange(m.zmq_identities@.len() as int + 6, gfr.len() as int) == m.buffers.deep_view(),
{
    reveal(incoming_frames_sig);
    let gids = m.zmq_identities.deep_view();
    let gbufs = m.buffers.deep_view();
    assert(gids.len() == m.zmq_identities@.len());
    assert(gbufs.len() == m.buffers@.len());
    assert(gfr =~= gids + seq![delim_bytes(), sig, spec_print(header_json(m.header)),
        spec_print(parent_json(m.parent_header)), spec_print(m.metadata.0@), spec_print(
        incoming_json(m.content))] + gbufs);
    assert forall|j: int| 0 <= j < m.zmq_identities@.len() implies #[trigger] gfr[j]
        == m.zmq_identities@[j]@ by {
        assert(gfr[j] == gids[j]);
        lemma_bytes_deep(m.zmq_identities@[j]);
    }
    assert forall|j: int| 0 <= j < m.buffers@.len() implies #[trigger] gfr[gids.len() + 6 + j]
        == m.buffers@[j]@ by {
        assert(gfr[gids.len() + 6 + j] == gbufs[j]);
        lemma_bytes_deep(m.buffers@[j]);
    }
    assert(gfr.subrange(0, gids.len() as int) =~= gids);
    assert(gfr.subrange(gids.len() as int + 6, gfr.len() as int) =~= gbufs);
}

/// Printing is injective on documents.
pub proof fn lemma_print_inj(a: JsonV, b: JsonV)
    requires
        spec_print(a) == spec_print(b),
    ensures
        a == b,
{
    assert(spec_print(a) + Seq::<u8>::empty() =~= spec_print(b) + Seq::<u8>::empty());
    crate::json::lemma_print_unique(a, b, Seq::empty(), Seq::empty());
}

/// A header's JSON object is never the empty object.
pub proof fn lemma_header_json_nonempty(h: Header)
    ensures
        header_json(h) != JsonV::Obj(Seq::<(Seq<u8>, JsonV)>::empty()),
{
    if header_json(h) == JsonV::Obj(Seq::<(Seq<u8>, JsonV)>::empty()) {
        assert(header_json(h)->Obj_0.len() == 6);
    }
}

/// Equal header documents carry equal header fields.
pub proof fn lemma_header_json_inj(h1: Header, h2: Header)
    requires
        header_json(h1) == header_json(h2),
    ensures
        h1.msg_id@ == h2.msg_id@,
        h1.session@ == h2.session@,
        h1.username@ == h2.username@,
        h1.date@ == h2.date@,
        h1.msg_type@ == h2.msg_type@,
        h1.version@ == h2.version@,
{
    let f1 = header_json(h1)->Obj_0;
    let f2 = header_json(h2)->Obj_0;
    assert(f1 == f2);
    assert(f1[0].1 == f2[0].1 && f1[1].1 == f2[1].1 && f1[2].1 == f2[2].1 && f1[3].1 == f2[3].1
        && f1[4].1 == f2[4].1 && f1[5].1 == f2[5].1);
    vstd::utf8::encode_utf8_decode_utf8(h1.msg_id@);
    vstd::utf8::encode_utf8_decode_utf8(h2.msg_id@);
    vstd::utf8::encode_utf8_decode_utf8(h1.session@);
    vstd::utf8::encode_utf8_decode_utf8(h2.session@);
    vstd::utf8::encode_utf8_decode_utf8(h1.username@);
    vstd::utf8::encode_utf8_decode_utf8(h2.username@);
    vstd::utf8::encode_utf8_decode_utf8(h1.date@);
    vstd::utf8::encode_utf8_decode_utf8(h2.date@);
    vstd::utf8::encode_utf8_decode_utf8(h1.msg_type@);
    vstd::utf8::encode_utf8_decode_utf8(h2.msg_type@);
    vstd::utf8::encode_utf8_decode_utf8(h1.version@);
    vstd::utf8::encode_utf8_decode_utf8(h2.version@);
}

/// Copy the frames of `v` between two positions.
pub fn copy_frames(v: &Vec<Vec<u8>>, from: usize, to: usize) -> (r: Vec<Vec<u8>>)
    requires
        from <= to <= v@.len(),
    ensures
        r.deep_view() == v.deep_view().subrange(from as int, to as int),
{
    let mut r: Vec<Vec<u8>> = Vec::new();
    let mut k: usize = from;
    proof {
        assert(r.deep_view() =~= v.deep_view().subrange(from as int, from as int));
    }
    while k < to
        invariant
            from <= k <= to <= v@.len(),
            r@.len() == k - from,
            r.deep_view() == v.deep_view().subrange(from as int, k as int),
        decreases to - k,
    {
        let ghost prevdeep = r.deep_view();
        let b = copy_bytes(&v[k]);
        r.push(b);
        proof {
            lemma_bytes_deep(b);
            lemma_bytes_deep(v@[k as int]);
            let newdeep = r.deep_view();
            assert(newdeep.len() == prevdeep.len() + 1);
            assert forall|j: int| 0 <= j < prevdeep.len() implies newdeep[j]
                == prevdeep[j] by {
                assert(newdeep[j] == r@[j].deep_view());
                assert(prevdeep[j] == r@[j].deep_view());
            }
            assert(newdeep[prevdeep.len() as int] == b.deep_view());
            assert(b.deep_view() == v.deep_view()[k as int]);
            assert(newdeep =~= v.deep_view().subrange(from as int, k as int + 1));
        }
        k = k + 1;
    }
    r
}


/// Every Shell request wire name owes a reply wire name.
proof fn lemma_shell_type_known(c: ShellRequest)
    ensures
        spec_shell_reply_type(shell_request_type(c)) is Some,
{
}

/// Every Control request wire name owes a reply wire name.
proof fn lemma_control_type_known(c: ControlRequest)
    ensures
        spec_control_reply_type(control_request_type(c)) is Some,
{
}

/// Content sits on its channel.
pub open spec fn channel_holds(channel: Channel, c: IncomingContent) -> bool {
    match (channel, c) {
        (Channel::Shell, IncomingContent::Shell(_)) => true,
        (Channel::Control, IncomingContent::Control(_)) => true,
        _ => false,
    }
}

/// What the parser guarantees about a decoded content body: a printed
/// document (modulo whitespace) whose fields give the content, except
/// for the request kinds whose body carries no information.
#[verifier::opaque]
pub open spec fn content_sound(c: IncomingContent, bytes: Seq<u8>) -> bool {
    match c {
        IncomingContent::Shell(s) => match s {
            ShellRequest::KernelInfo => true,
            _ => exists|doc: JsonV| spec_strip(bytes) == spec_print(doc)
                && #[trigger] shell_body_in(s, doc),
        },
        IncomingContent::Control(s) => match s {
            ControlRequest::Shutdown(_) => exists|doc: JsonV| spec_strip(bytes) == spec_print(
                doc,
            ) && #[trigger] control_body_in(s, doc),
            _ => true,
        },
    }
}

/// What decoding promises of a header slot: the stripped bytes print
/// some document carrying the header's fields.
#[verifier::opaque]
pub open spec fn header_doc_in(bytes: Seq<u8>, h: Header) -> bool {
    exists|hdoc: JsonV| spec_strip(bytes) == spec_print(hdoc) && #[trigger] header_fields_in(
        hdoc,
        h,
    )
}

/// What decoding promises of a parent slot: the empty object for no
/// parent, a header document otherwise.
#[verifier::opaque]
pub open spec fn parent_doc_in(bytes: Seq<u8>, p: Option<Header>) -> bool {
    match p {
        None => spec_strip(bytes) == spec_print(JsonV::Obj(Seq::empty())),
        Some(h) => header_doc_in(bytes, h),
    }
}

/// Read a header from one frame: any JSON object carrying the six
/// fields, in any order, with other fields ignored.
#[verifier::rlimit(100)]
#[verifier::spinoff_prover]
fn parse_header_frame(frame: &Vec<u8>) -> (r: Result<Header, DecodeError>)
    ensures
        r matches Ok(h) ==> header_doc_in(frame@, h),
        forall|h: Header| spec_strip(frame@) == spec_print(#[trigger] header_json(h)) ==> (
        r matches Ok(h2) && header_json(h2) == header_json(h)),
        r matches Err(e) ==> e == DecodeError::InvalidJson || e == DecodeError::InvalidHeader,
{
    let ghost gb = spec_strip(frame@);
    let hj = match parse_json(frame) {
        Some(j) => j,
        None => {
            proof {
                assert forall|h: Header| gb != spec_print(#[trigger] header_json(h)) by {}
            }
            return Err(DecodeError::InvalidJson);
        }
    };
    proof {
        assert forall|h: Header| gb == spec_print(#[trigger] header_json(h)) implies hj@
            == header_json(h) by {}
    }
    match Header::from_json(hj) {
        Some(h2) => {
            proof {
                reveal(header_doc_in);
                assert(gb == spec_print(hj@));
                assert(header_fields_in(hj@, h2));
                assert(header_doc_in(frame@, h2));
                assert forall|h: Header| gb == spec_print(#[trigger] header_json(h)) implies
                    header_json(h2) == header_json(h) by {
                    lemma_header_json_lookup(h);
                    lemma_header_fields_unique(hj@, h2, h);
                    lemma_header_json_congr(h2, h);
                }
            }
            Ok(h2)
        }
        None => {
            proof {
                assert forall|h: Header| gb != spec_print(#[trigger] header_json(h)) by {
                    if gb == spec_print(header_json(h)) {
                        assert(hj@ == header_json(h));
                    }
                }
            }
            return Err(DecodeError::InvalidHeader);
        }
    }
}

/// Read the parent-header slot from one frame: the empty object means
/// no parent, a header document means that parent.
#[verifier::rlimit(100)]
#[verifier::spinoff_prover]
fn parse_parent_frame(frame: &Vec<u8>) -> (r: Result<Option<Header>, DecodeError>)
    ensures
        r matches Ok(p) ==> parent_doc_in(frame@, p),
        forall|p: Option<Header>| spec_strip(frame@) == spec_print(#[trigger] parent_json(p))
            ==> (r matches Ok(p2) && (p is Some) == (p2 is Some) && parent_json(p2)
            == parent_json(p)),
        r matches Err(e) ==> e == DecodeError::InvalidJson || e == DecodeError::InvalidParent,
{
    broadcast use {lemma_view_fields_len};

    let ghost gb = spec_strip(frame@);
    let pj = match parse_json(frame) {
        Some(j) => j,
        None => {
            proof {
                assert forall|p: Option<Header>| gb != spec_print(#[trigger] parent_json(
                    p)) by {}
            }
            return Err(DecodeError::InvalidJson);
        }
    };
    proof {
        assert forall|p: Option<Header>| gb == spec_print(#[trigger] parent_json(p)) implies pj@
            == parent_json(p) by {}
    }
    let is_empty_obj = match &pj {
        Json::Obj(fobj) => fobj.len() == 0,
        _ => false,
    };
    if is_empty_obj {
        proof {
            reveal(parent_doc_in);
            assert(pj@ matches JsonV::Obj(fv) && fv =~= Seq::<(Seq<u8>, JsonV)>::empty());
            assert(gb == spec_print(JsonV::Obj(Seq::empty())));
            assert forall|p: Option<Header>| gb == spec_print(#[trigger] parent_json(
                p)) implies p is None by {
                if p is Some {
                    lemma_header_json_nonempty(p->0);
                }
            }
        }
        return Ok(None);
    }
    match Header::from_json(pj) {
        Some(h2) => {
            proof {
                reveal(parent_doc_in);
                reveal(header_doc_in);
                assert(gb == spec_print(pj@));
                assert(header_fields_in(pj@, h2));
                assert(header_doc_in(frame@, h2));
                assert forall|p: Option<Header>| gb == spec_print(#[trigger] parent_json(
                    p)) implies (p is Some) && parent_json(Some(h2)) == parent_json(p) by {
                    if p is None {
                        assert(pj@ == JsonV::Obj(Seq::<(Seq<u8>, JsonV)>::empty()));
                        lemma_view_fields_len(pj->Obj_0@);
                        assert(view_fields(pj->Obj_0@) =~= Seq::<(Seq<u8>, JsonV)>::empty());
                        assert(false);
                    }
                    lemma_header_json_lookup(p->0);
                    lemma_header_fields_unique(pj@, h2, p->0);
                    lemma_header_json_congr(h2, p->0);
                }
            }
            Ok(Some(h2))
        }
        None => {
            proof {
                assert forall|p: Option<Header>| gb != spec_print(#[trigger] parent_json(
                    p)) by {
                    if gb == spec_print(parent_json(p)) {
                        if p is None {
                            assert(pj@ == JsonV::Obj(Seq::<(Seq<u8>, JsonV)>::empty()));
                            if pj is Obj {
                                lemma_view_fields_len(pj->Obj_0@);
                                assert(view_fields(pj->Obj_0@) =~= Seq::<(
                                    Seq<u8>,
                                    JsonV,
                                )>::empty());
                            }
                            assert(false);
                        } else {
                            assert(pj@ == header_json(p->0));
                            assert(false);
                        }
                    }
                }
            }
            return Err(DecodeError::InvalidParent);
        }
    }
}

/// Read the content from its frame, dispatching on the channel and the
/// header's wire name.
#[verifier::rlimit(100)]
#[verifier::spinoff_prover]
fn parse_content_frame(frame: &Vec<u8>, channel: Channel, msg_type: &str) -> (r: Result<
    IncomingContent,
    DecodeError,
>)
    ensures
        r matches Ok(c) ==> channel_holds(channel, c) && msg_type@ == incoming_type(c)
            && content_sound(c, frame@),
        forall|c: IncomingContent| channel_holds(channel, c) && msg_type@ == incoming_type(c)
            && spec_strip(frame@) == spec_print(#[trigger] incoming_json(c)) ==> (r matches Ok(
            c2,
        ) && incoming_json(c2) == incoming_json(c) && incoming_type(c2) == incoming_type(c)),
        r matches Err(e) ==> e != DecodeError::MissingDelimiter && e
            != DecodeError::MissingFrames,
{
    let ghost gb = spec_strip(frame@);
    let cj = match parse_json(frame) {
        Some(j) => j,
        None => {
            proof {
                assert forall|c: IncomingContent| gb != spec_print(#[trigger] incoming_json(
                    c)) by {}
            }
            return Err(DecodeError::InvalidJson);
        }
    };
    proof {
        assert forall|c: IncomingContent| gb == spec_print(#[trigger] incoming_json(c)) implies
            cj@ == incoming_json(c) by {}
    }
    match channel {
        Channel::Shell => {
            match ShellReply::msg_type(msg_type) {
                Ok(_) => {}
                Err(_) => {
                    proof {
                        assert forall|c: IncomingContent| !(channel_holds(channel, c)
                            && msg_type@ == incoming_type(c)) by {
                            if channel_holds(channel, c) && msg_type@ == incoming_type(c) {
                                lemma_shell_type_known(c->Shell_0);
                            }
                        }
                    }
                    return Err(DecodeError::UnknownMessageType);
                }
            }
            match ShellRequest::parse_variant(msg_type, cj) {
                Ok(req) => {
                    proof {
                        reveal(content_sound);
                        assert(gb == spec_print(cj@));
                        assert(shell_body_in(req, cj@));
                        assert(content_sound(IncomingContent::Shell(req), frame@));
                    }
                    Ok(IncomingContent::Shell(req))
                }
                Err(_) => {
                    return Err(DecodeError::InvalidContent);
                }
            }
        }
        Channel::Control => {
            match ControlReply::msg_type(msg_type) {
                Ok(_) => {}
                Err(_) => {
                    proof {
                        assert forall|c: IncomingContent| !(channel_holds(channel, c)
                            && msg_type@ == incoming_type(c)) by {
                            if channel_holds(channel, c) && msg_type@ == incoming_type(c) {
                                lemma_control_type_known(c->Control_0);
                            }
                        }
                    }
                    return Err(DecodeError::UnknownMessageType);
                }
            }
            match ControlRequest::parse_variant(msg_type, cj) {
                Ok(req) => {
                    proof {
                        reveal(content_sound);
                        assert(gb == spec_print(cj@));
                        assert(control_body_in(req, cj@));
                        assert(content_sound(IncomingContent::Control(req), frame@));
                    }
                    Ok(IncomingContent::Control(req))
                }
                Err(_) => {
                    return Err(DecodeError::InvalidContent);
                }
            }
        }
        Channel::Stdin => {
            return Err(DecodeError::UnknownMessageType);
        }
    }
}

/// Packages the facts gathered while decoding into the decoder's two
/// promises: the frames reframe the result, and every well-formed
/// encoding of these frames is equivalent to it.
#[verifier::rlimit(100)]
#[verifier::spinoff_prover]
proof fn lemma_decode_finish(
    gfr: Seq<Seq<u8>>,
    i: int,
    m2: Message<IncomingContent>,
    gm: Message<IncomingContent>,
    gsig: Seq<u8>,
    channel: Channel,
    cond: bool,
)
    requires
        0 <= i,
        i + 6 <= gfr.len(),
        gfr[i] == delim_bytes(),
        m2.zmq_identities.deep_view() == gfr.subrange(0, i),
        m2.buffers.deep_view() == gfr.subrange(i + 6, gfr.len() as int),
        header_doc_in(gfr[i + 2], m2.header),
        parent_doc_in(gfr[i + 3], m2.parent_header),
        spec_strip(gfr[i + 4]) == spec_print(m2.metadata.0@),
        channel_holds(channel, m2.content),
        m2.header.msg_type@ == incoming_type(m2.content),
        content_sound(m2.content, gfr[i + 5]),
        cond ==> incoming_wf(gm, channel) && gfr == incoming_frames_sig(gm, gsig) && msg_equiv(
            m2,
            gm,
        ),
    ensures
        exists|sig: Seq<u8>, hb: Seq<u8>, pb: Seq<u8>, mb: Seq<u8>, cb: Seq<u8>|
            gfr == #[trigger] spec_frames(
                m2.zmq_identities.deep_view(),
                sig,
                hb,
                pb,
                mb,
                cb,
                m2.buffers.deep_view(),
            ) && header_doc_in(hb, m2.header) && parent_doc_in(pb, m2.parent_header)
                && spec_strip(mb) == spec_print(m2.metadata.0@) && content_sound(m2.content, cb),
        cond ==> forall|m: Message<IncomingContent>, sig: Seq<u8>|
            incoming_wf(m, channel) && gfr == #[trigger] incoming_frames_sig(m, sig)
                ==> msg_equiv(m2, m),
{
    let sigf = gfr[i + 1];
    let hbf = gfr[i + 2];
    let pbf = gfr[i + 3];
    let mbf = gfr[i + 4];
    let cbf = gfr[i + 5];
    assert(gfr =~= m2.zmq_identities.deep_view() + seq![delim_bytes(), sigf, hbf, pbf, mbf,
        cbf] + m2.buffers.deep_view());
    assert(gfr == spec_frames(m2.zmq_identities.deep_view(), sigf, hbf, pbf, mbf, cbf,
        m2.buffers.deep_view()));
    if cond {
        assert forall|m: Message<IncomingContent>, sig: Seq<u8>|
            incoming_wf(m, channel) && gfr == #[trigger] incoming_frames_sig(m, sig) implies
            msg_equiv(m2, m) by {
            lemma_same_frames_equiv(gm, gsig, m, sig, channel);
        }
    }
}


/// Split a frame list at the first delimiter: the identity frames
/// before it, and its position.  A list without a delimiter, or with
/// fewer than five payload frames after it, is malformed.
#[verifier::rlimit(100)]
#[verifier::spinoff_prover]
fn split_frames(frames: &Vec<Vec<u8>>) -> (r: Result<(Vec<Vec<u8>>, usize), DecodeError>)
    ensures
        r matches Ok(pair) ==> pair.1 + 6 <= frames.deep_view().len() && frames.deep_view()[
            pair.1 as int
        ] == delim_bytes() && (forall|j: int| 0 <= j < pair.1 ==> #[trigger] frames.deep_view()[
            j
        ] != delim_bytes()) && pair.0.deep_view() == frames.deep_view().subrange(
            0,
            pair.1 as int,
        ) && first_delim(frames.deep_view(), 0) == pair.1,
        first_delim(frames.deep_view(), 0) == -1 ==> r == Err::<(Vec<Vec<u8>>, usize),
            DecodeError>(DecodeError::MissingDelimiter),
        r matches Err(e) && e == DecodeError::MissingDelimiter ==> first_delim(
            frames.deep_view(),
            0,
        ) == -1,
        r matches Err(e) && e == DecodeError::MissingFrames ==> first_delim(
            frames.deep_view(),
            0,
        ) >= 0 && frames.deep_view().len() - first_delim(frames.deep_view(), 0) < 6,
        first_delim(frames.deep_view(), 0) >= 0 && frames.deep_view().len() - first_delim(
            frames.deep_view(),
            0,
        ) >= 6 ==> r is Ok,
{
    let ghost gfr = frames.deep_view();
    let delim = vec![0x3cu8, 0x49u8, 0x44u8, 0x53u8, 0x7cu8, 0x4du8, 0x53u8, 0x47u8, 0x3eu8];
    proof {
        assert(delim@ =~= delim_bytes());
    }
    let n = frames.len();
    let mut i: usize = 0;
    while i < n && !crate::messages::bytes_eq(&frames[i], &delim)
        invariant
            i <= n,
            n == frames@.len(),
            gfr == frames.deep_view(),
            delim@ == delim_bytes(),
            forall|j: int| 0 <= j < i ==> #[trigger] gfr[j] != delim_bytes(),
        decreases n - i,
    {
        proof {
            lemma_bytes_deep(frames@[i as int]);
            assert(gfr[i as int] == frames@[i as int]@);
        }
        i = i + 1;
    }
    if i == n {
        proof {
            reveal(first_delim);
            lemma_first_delim_skip(gfr, n as int);
        }
        return Err(DecodeError::MissingDelimiter);
    }
    proof {
        reveal(first_delim);
        lemma_bytes_deep(frames@[i as int]);
        assert(gfr[i as int] == delim_bytes());
        lemma_first_delim_skip(gfr, i as int);
        assert(first_delim(gfr, 0) == i);
    }
    if n - i < 6 {
        return Err(DecodeError::MissingFrames);
    }
    let ids = copy_frames(frames, 0, i);
    Ok((ids, i))
}

impl Message<IncomingContent> {
    /// Decode a frame list arriving on a request channel.
    ///
    /// Splits the frames at the delimiter, reads the four JSON fields,
    /// and dispatches the content on the channel and the header's wire
    /// name.  Every well-formed encoding decodes back to the envelope
    /// it was made from; the signature frame is carried but not checked
    /// here.
    ///
    /// The errors follow the failure classes: a malformed frame list
    /// gives `MissingDelimiter` or `MissingFrames` (pinned below);
    /// unparsable JSON gives `InvalidJson`, a bad header or parent slot
    /// `InvalidHeader` or `InvalidParent`; a wire name unknown on the
    /// channel gives `UnknownMessageType`, and a known name with a bad
    /// body `InvalidContent`.
    #[verifier::rlimit(100)]
    #[verifier::spinoff_prover]
    pub fn from_multipart(frames: &Vec<Vec<u8>>, channel: Channel) -> (r: Result<
        Message<IncomingContent>,
        DecodeError,
    >)
        ensures
            forall|m: Message<IncomingContent>, sig: Seq<u8>|
                incoming_wf(m, channel) && frames.deep_view() == #[trigger] incoming_frames_sig(
                    m,
                    sig,
                ) ==> (r matches Ok(m2) && msg_equiv(m2, m)),
            r matches Ok(m2) ==> channel_holds(channel, m2.content) && m2.header.msg_type@
                == incoming_type(m2.content) && (exists|sig: Seq<u8>, hb: Seq<u8>, pb: Seq<u8>,
                mb: Seq<u8>, cb: Seq<u8>|
                frames.deep_view() == #[trigger] spec_frames(
                    m2.zmq_identities.deep_view(),
                    sig,
                    hb,
                    pb,
                    mb,
                    cb,
                    m2.buffers.deep_view(),
                ) && header_doc_in(hb, m2.header) && parent_doc_in(pb, m2.parent_header)
                    && spec_strip(mb) == spec_print(m2.metadata.0@) && content_sound(
                    m2.content,
                    cb,
                )),
            first_delim(frames.deep_view(), 0) == -1 ==> r == Err::<
                Message<IncomingContent>,
                DecodeError,
            >(DecodeError::MissingDelimiter),
            r matches Err(e) && e == DecodeError::MissingDelimiter ==> first_delim(
                frames.deep_view(),
                0,
            ) == -1,
            r matches Err(e) && e == DecodeError::MissingFrames ==> first_delim(
                frames.deep_view(),
                0,
            ) >= 0 && frames.deep_view().len() - first_delim(frames.deep_view(), 0) < 6,
    {
        let ghost gfr = frames.deep_view();
        let ghost hyp = exists|m: Message<IncomingContent>, sig: Seq<u8>|
            incoming_wf(m, channel) && gfr == #[trigger] incoming_frames_sig(m, sig);
        let ghost (gm, gsig): (Message<IncomingContent>, Seq<u8>) = choose|
            m: Message<IncomingContent>,
            sig: Seq<u8>,
        | incoming_wf(m, channel) && gfr == #[trigger] incoming_frames_sig(m, sig);
        proof {
            if hyp {
                assert(incoming_wf(gm, channel) && gfr == incoming_frames_sig(gm, gsig));
            }
        }
        let (ids, i) = match split_frames(frames) {
            Ok(pair) => pair,
            Err(e) => {
                proof {
                    if hyp {
                        lemma_frames_layout(gm, gsig, gfr);
                        let la = gm.zmq_identities@.len() as int;
                        assert(la + 6 <= gfr.len());
                        assert(gfr[la] == delim_bytes());
                        lemma_first_delim_found(gfr, la);
                        assert(first_delim(gfr, 0) >= 0 && gfr.len() - first_delim(gfr, 0)
                            >= 6);
                        assert(false);
                    }
                }
                return Err(e);
            }
        };
        proof {
            if hyp {
                lemma_frames_layout(gm, gsig, gfr);
                let la = gm.zmq_identities@.len() as int;
                // the first delimiter stands exactly after the identities
                if (i as int) < la {
                    assert(gfr[i as int] == gm.zmq_identities@[i as int]@);
                    lemma_bytes_deep(gm.zmq_identities@[i as int]);
                    assert(false);
                }
                if (i as int) > la {
                    assert(gfr[la] != delim_bytes());
                    assert(false);
                }
            }
        }
        decode_payload(frames, ids, i, channel, Ghost(hyp), Ghost(gm), Ghost(gsig))
    }
}


/// Read one header slot.
#[verifier::rlimit(100)]
#[verifier::spinoff_prover]
fn decode_header_slot(frame: &Vec<u8>, Ghost(cond): Ghost<bool>, Ghost(gh): Ghost<Header>) -> (r:
    Result<Header, DecodeError>)
    requires
        cond ==> frame@ == spec_print(header_json(gh)),
    ensures
        r matches Ok(h) ==> header_doc_in(frame@, h),
        cond ==> (r matches Ok(h2) && header_json(h2) == header_json(gh)),
        r matches Err(e) ==> e != DecodeError::MissingDelimiter && e
            != DecodeError::MissingFrames,
{
    proof {
        if cond {
            lemma_strip_print(header_json(gh));
            assert(spec_strip(frame@) == spec_print(header_json(gh)));
        }
    }
    let r = parse_header_frame(frame);
    proof {
        if cond {
            assert(r matches Ok(h2) && header_json(h2) == header_json(gh));
        }
    }
    r
}

/// Read one parent slot.
#[verifier::rlimit(100)]
#[verifier::spinoff_prover]
fn decode_parent_slot(
    frame: &Vec<u8>,
    Ghost(cond): Ghost<bool>,
    Ghost(gp): Ghost<Option<Header>>,
) -> (r: Result<Option<Header>, DecodeError>)
    requires
        cond ==> frame@ == spec_print(parent_json(gp)),
    ensures
        r matches Ok(p) ==> parent_doc_in(frame@, p),
        cond ==> (r matches Ok(p2) && (p2 is Some) == (gp is Some) && parent_json(p2)
            == parent_json(gp)),
        r matches Err(e) ==> e != DecodeError::MissingDelimiter && e
            != DecodeError::MissingFrames,
{
    proof {
        if cond {
            lemma_strip_print(parent_json(gp));
            assert(spec_strip(frame@) == spec_print(parent_json(gp)));
        }
    }
    let r = parse_parent_frame(frame);
    proof {
        if cond {
            assert(r matches Ok(p2) && (p2 is Some) == (gp is Some) && parent_json(p2)
                == parent_json(gp));
        }
    }
    r
}

/// Read one metadata slot.
#[verifier::rlimit(100)]
#[verifier::spinoff_prover]
fn decode_meta_slot(frame: &Vec<u8>, Ghost(cond): Ghost<bool>, Ghost(gmeta): Ghost<JsonV>) -> (r:
    Result<Json, DecodeError>)
    requires
        cond ==> frame@ == spec_print(gmeta),
    ensures
        r matches Ok(mj) ==> spec_strip(frame@) == spec_print(mj@),
        cond ==> (r matches Ok(mj) && mj@ == gmeta),
        r matches Err(e) ==> e != DecodeError::MissingDelimiter && e
            != DecodeError::MissingFrames,
{
    proof {
        if cond {
            lemma_strip_print(gmeta);
        }
    }
    match parse_json(frame) {
        Some(j) => Ok(j),
        None => Err(DecodeError::InvalidJson),
    }
}

/// Read the five payload frames after the delimiter and assemble the
/// decoded envelope.
#[verifier::rlimit(100)]
#[verifier::spinoff_prover]
fn decode_payload(
    frames: &Vec<Vec<u8>>,
    ids: Vec<Vec<u8>>,
    i: usize,
    channel: Channel,
    Ghost(hyp): Ghost<bool>,
    Ghost(gm): Ghost<Message<IncomingContent>>,
    Ghost(gsig): Ghost<Seq<u8>>,
) -> (r: Result<Message<IncomingContent>, DecodeError>)
    requires
        i + 6 <= frames.deep_view().len(),
        frames.deep_view()[i as int] == delim_bytes(),
        ids.deep_view() == frames.deep_view().subrange(0, i as int),
        hyp == exists|m: Message<IncomingContent>, sig: Seq<u8>|
            incoming_wf(m, channel) && frames.deep_view() == #[trigger] incoming_frames_sig(
                m,
                sig,
            ),
        hyp ==> incoming_wf(gm, channel) && frames.deep_view() == incoming_frames_sig(gm, gsig)
            && i == gm.zmq_identities@.len(),
    ensures
        forall|m: Message<IncomingContent>, sig: Seq<u8>|
            incoming_wf(m, channel) && frames.deep_view() == #[trigger] incoming_frames_sig(
                m,
                sig,
            ) ==> (r matches Ok(m2) && msg_equiv(m2, m)),
        r matches Ok(m2) ==> channel_holds(channel, m2.content) && m2.header.msg_type@
            == incoming_type(m2.content) && (exists|sig: Seq<u8>, hb: Seq<u8>, pb: Seq<u8>,
            mb: Seq<u8>, cb: Seq<u8>|
            frames.deep_view() == #[trigger] spec_frames(
                m2.zmq_identities.deep_view(),
                sig,
                hb,
                pb,
                mb,
                cb,
                m2.buffers.deep_view(),
            ) && header_doc_in(hb, m2.header) && parent_doc_in(pb, m2.parent_header)
                && spec_strip(mb) == spec_print(m2.metadata.0@) && content_sound(
                m2.content,
                cb,
            )),
        r matches Err(e) ==> e != DecodeError::MissingDelimiter && e
            != DecodeError::MissingFrames,
{
    let ghost gfr = frames.deep_view();
    let ghost gids = gm.zmq_identities.deep_view();
    let ghost gbufs = gm.buffers.deep_view();
    let ghost ghb = spec_print(header_json(gm.header));
    let ghost gpb = spec_print(parent_json(gm.parent_header));
    let ghost gmb = spec_print(gm.metadata.0@);
    let ghost gcb = spec_print(incoming_json(gm.content));
    let n = frames.len();
    proof {
        if hyp {
            lemma_frames_layout(gm, gsig, gfr);
            assert(gids.len() == gm.zmq_identities@.len());
            assert(gbufs.len() == gm.buffers@.len());
            assert(gfr[gids.len() as int + 2] == ghb);
            assert(gfr[gids.len() as int + 3] == gpb);
            assert(gfr[gids.len() as int + 4] == gmb);
            assert(gfr[gids.len() as int + 5] == gcb);
            assert(gfr.subrange(0, gids.len() as int) == gids);
            assert(gfr.subrange(gids.len() as int + 6, gfr.len() as int) == gbufs);
        }
    }
        proof {
            lemma_bytes_deep(frames@[i as int + 2]);
            lemma_bytes_deep(frames@[i as int + 3]);
            lemma_bytes_deep(frames@[i as int + 4]);
            lemma_bytes_deep(frames@[i as int + 5]);
        }
        let header = match decode_header_slot(&frames[i + 2], Ghost(hyp), Ghost(gm.header)) {
            Ok(h) => h,
            Err(e) => {
                proof {
                    if hyp {
                        assert(false);
                    }
                }
                return Err(e);
            }
        };
        proof {
            if hyp {
                lemma_header_json_inj(header, gm.header);
            }
        }
        let parent_header = match decode_parent_slot(&frames[i + 3], Ghost(hyp), Ghost(
            gm.parent_header)) {
            Ok(p) => p,
            Err(e) => {
                proof {
                    if hyp {
                        assert(false);
                    }
                }
                return Err(e);
            }
        };
        let mj = match decode_meta_slot(&frames[i + 4], Ghost(hyp), Ghost(gm.metadata.0@)) {
            Ok(j) => j,
            Err(e) => {
                proof {
                    if hyp {
                        assert(false);
                    }
                }
                return Err(e);
            }
        };
        let content = match parse_content_frame(&frames[i + 5], channel, header.msg_type.as_str())
        {
            Ok(c) => c,
            Err(e) => {
                proof {
                    if hyp {
                        assert(frames@[i as int + 5]@ == gcb);
                        lemma_strip_print(incoming_json(gm.content));
                        assert(channel_holds(channel, gm.content));
                        assert(header.msg_type@ == incoming_type(gm.content));
                        assert(false);
                    }
                }
                return Err(e);
            }
        };
        proof {
            if hyp {
                assert(frames@[i as int + 5]@ == gcb);
                lemma_strip_print(incoming_json(gm.content));
                assert(spec_strip(frames@[i as int + 5]@) == gcb);
                assert(channel_holds(channel, gm.content));
                assert(header.msg_type@ == incoming_type(gm.content));
                assert(incoming_json(content) == incoming_json(gm.content));
                assert(incoming_type(content) == incoming_type(gm.content));
            }
        }
        let buffers = copy_frames(frames, i + 6, n);
        let m2 = Message {
            zmq_identities: ids,
            header,
            parent_header,
            metadata: Metadata(mj),
            content,
            buffers,
        };
        proof {
            lemma_bytes_deep(frames@[i as int + 1]);
            lemma_bytes_deep(frames@[i as int + 4]);
            assert(spec_strip(frames@[i as int + 4]@) == spec_print(mj@));
            if hyp {
                assert(m2.buffers.deep_view() == gfr.subrange(gids.len() as int + 6,
                    gfr.len() as int));
                assert(msg_equiv(m2, gm));
            }
            lemma_decode_finish(gfr, i as int, m2, gm, gsig, channel, hyp);
        }
        Ok(m2)
    }

/// Two well-formed envelopes with the same frames agree on everything
/// the wire carries.
#[verifier::rlimit(100)]
#[verifier::spinoff_prover]
proof fn lemma_same_frames_equiv(
    a: Message<IncomingContent>,
    siga: Seq<u8>,
    b: Message<IncomingContent>,
    sigb: Seq<u8>,
    channel: Channel,
)
    requires
        incoming_wf(a, channel),
        incoming_wf(b, channel),
        incoming_frames_sig(a, siga) == incoming_frames_sig(b, sigb),
    ensures
        msg_equiv(a, b),
{
    let fa = incoming_frames_sig(a, siga);
    let fb = incoming_frames_sig(b, sigb);
    lemma_frames_layout(a, siga, fa);
    lemma_frames_layout(b, sigb, fb);
    let la = a.zmq_identities@.len() as int;
    let lb = b.zmq_identities@.len() as int;
    if la < lb {
        assert(fb[la] == b.zmq_identities@[la]@);
        assert(fa[la] == delim_bytes());
        assert(false);
    }
    if lb < la {
        assert(fa[lb] == a.zmq_identities@[lb]@);
        assert(fb[lb] == delim_bytes());
        assert(false);
    }
    assert(la == lb);
    assert(a.zmq_identities.deep_view() == fa.subrange(0, la));
    assert(b.zmq_identities.deep_view() == fb.subrange(0, la));
    assert(fa[la + 2] == fb[la + 2]);
    lemma_print_inj(header_json(a.header), header_json(b.header));
    lemma_header_json_inj(a.header, b.header);
    assert(fa[la + 3] == fb[la + 3]);
    lemma_print_inj(parent_json(a.parent_header), parent_json(b.parent_header));
    if a.parent_header is Some && b.parent_header is None {
        lemma_header_json_nonempty(a.parent_header->0);
        assert(false);
    }
    if a.parent_header is None && b.parent_header is Some {
        lemma_header_json_nonempty(b.parent_header->0);
        assert(false);
    }
    assert(fa[la + 4] == fb[la + 4]);
    lemma_print_inj(a.metadata.0@, b.metadata.0@);
    assert(fa[la + 5] == fb[la + 5]);
    lemma_print_inj(incoming_json(a.content), incoming_json(b.content));
    assert(a.header.msg_type@ == b.header.msg_type@);
    assert(incoming_type(a.content) == incoming_type(b.content));
    assert(fa.len() == fb.len());
    assert(a.buffers.deep_view() == fa.subrange(la + 6, fa.len() as int));
    assert(b.buffers.deep_view() == fb.subrange(la + 6, fb.len() as int));
}

/// Opening the opaque frame list of a request envelope.
pub proof fn lemma_incoming_frames_spec(m: Message<IncomingContent>, sig: Seq<u8>)
    ensures
        incoming_frames_sig(m, sig) == spec_frames(
            m.zmq_identities.deep_view(),
            sig,
            spec_print(header_json(m.header)),
            spec_print(parent_json(m.parent_header)),
            spec_print(m.metadata.0@),
            spec_print(incoming_json(m.content)),
            m.buffers.deep_view(),
        ),
{
    reveal(incoming_frames_sig);
}

/// Where each part of any framed envelope stands in its frame list.
#[verifier::rlimit(100)]
proof fn lemma_spec_frames_layout(
    ids: Seq<Seq<u8>>,
    sig: Seq<u8>,
    hb: Seq<u8>,
    pb: Seq<u8>,
    mb: Seq<u8>,
    cb: Seq<u8>,
    bufs: Seq<Seq<u8>>,
)
    ensures
        ({
            let fr = spec_frames(ids, sig, hb, pb, mb, cb, bufs);
            &&& fr.len() == ids.len() + 6 + bufs.len()
            &&& fr[ids.len() as int] == delim_bytes()
            &&& (forall|j: int| 0 <= j < ids.len() ==> #[trigger] fr[j] == ids[j])
            &&& fr[ids.len() as int + 1] == sig
            &&& fr[ids.len() as int + 2] == hb
            &&& fr[ids.len() as int + 3] == pb
            &&& fr[ids.len() as int + 4] == mb
            &&& fr[ids.len() as int + 5] == cb
        }),
{
    let fr = spec_frames(ids, sig, hb, pb, mb, cb, bufs);
    assert(fr =~= ids + seq![delim_bytes(), sig, hb, pb, mb, cb] + bufs);
}

/// One frame list decomposes only one way into identities, signature,
/// signed fields and buffers, given that no identity is the delimiter.
proof fn lemma_spec_frames_unique(
    ids1: Seq<Seq<u8>>,
    sig1: Seq<u8>,
    hb1: Seq<u8>,
    pb1: Seq<u8>,
    mb1: Seq<u8>,
    cb1: Seq<u8>,
    bufs1: Seq<Seq<u8>>,
    ids2: Seq<Seq<u8>>,
    sig2: Seq<u8>,
    hb2: Seq<u8>,
    pb2: Seq<u8>,
    mb2: Seq<u8>,
    cb2: Seq<u8>,
    bufs2: Seq<Seq<u8>>,
)
    requires
        forall|k: int| 0 <= k < ids1.len() ==> ids1[k] != delim_bytes(),
        forall|k: int| 0 <= k < ids2.len() ==> ids2[k] != delim_bytes(),
        spec_frames(ids1, sig1, hb1, pb1, mb1, cb1, bufs1) == spec_frames(
            ids2,
            sig2,
            hb2,
            pb2,
            mb2,
            cb2,
            bufs2,
        ),
    ensures
        ids1 == ids2,
        sig1 == sig2,
        hb1 == hb2,
        pb1 == pb2,
        mb1 == mb2,
        cb1 == cb2,
        bufs1 == bufs2,
{
    let fr = spec_frames(ids1, sig1, hb1, pb1, mb1, cb1, bufs1);
    lemma_spec_frames_layout(ids1, sig1, hb1, pb1, mb1, cb1, bufs1);
    lemma_spec_frames_layout(ids2, sig2, hb2, pb2, mb2, cb2, bufs2);
    let l1 = ids1.len() as int;
    let l2 = ids2.len() as int;
    if l1 < l2 {
        assert(fr[l1] == ids2[l1]);
        assert(fr[l1] == delim_bytes());
        assert(false);
    }
    if l2 < l1 {
        assert(fr[l2] == ids1[l2]);
        assert(fr[l2] == delim_bytes());
        assert(false);
    }
    assert forall|j: int| 0 <= j < l1 implies ids1[j] == ids2[j] by {
        assert(fr[j] == ids1[j]);
        assert(fr[j] == ids2[j]);
    }
    assert(ids1 =~= ids2);
    assert forall|j: int| 0 <= j < bufs1.len() implies bufs1[j] == bufs2[j] by {
        assert(fr[l1 + 6 + j] == bufs1[j]);
        assert(fr[l1 + 6 + j] == bufs2[j]);
    }
    assert(bufs1.len() == bufs2.len());
    assert(bufs1 =~= bufs2);
}

/// Check the signature frame of a framed envelope against the signing
/// key: recompute the signature of the four signed fields and compare.
/// The check answers exactly whether the carried signature is the one
/// the key produces for these fields; in particular every envelope this
/// kernel signed verifies.  A malformed frame list errs as in decoding:
/// `MissingDelimiter` without a delimiter frame, `MissingFrames` with
/// fewer than five payload frames after it.
#[verifier::rlimit(100)]
#[verifier::spinoff_prover]
pub fn verify_signature(frames: &Vec<Vec<u8>>, digester: &Digester) -> (r: Result<
    bool,
    DecodeError,
>)
    requires
        digester.is_init(),
    ensures
        forall|ids: Seq<Seq<u8>>, sig: Seq<u8>, hb: Seq<u8>, pb: Seq<u8>, mb: Seq<u8>,
            cb: Seq<u8>, bufs: Seq<Seq<u8>>|
            (forall|k: int| 0 <= k < ids.len() ==> ids[k] != delim_bytes())
                && frames.deep_view() == #[trigger] spec_frames(ids, sig, hb, pb, mb, cb, bufs)
                ==> (r matches Ok(b) && b == (sig == spec_signature(
                digester.key_view(),
                hb,
                pb,
                mb,
                cb,
            ))),
        (r matches Err(e) && e == DecodeError::MissingDelimiter) == (first_delim(
            frames.deep_view(),
            0,
        ) == -1),
        r matches Err(e) && e == DecodeError::MissingFrames ==> first_delim(
            frames.deep_view(),
            0,
        ) >= 0 && frames.deep_view().len() - first_delim(frames.deep_view(), 0) < 6,
{
    let ghost gfr = frames.deep_view();
    let ghost hyp = exists|ids: Seq<Seq<u8>>, sig: Seq<u8>, hb: Seq<u8>, pb: Seq<u8>,
        mb: Seq<u8>, cb: Seq<u8>, bufs: Seq<Seq<u8>>|
        (forall|k: int| 0 <= k < ids.len() ==> ids[k] != delim_bytes()) && gfr
            == #[trigger] spec_frames(ids, sig, hb, pb, mb, cb, bufs);
    let ghost (gids, gsig, ghb, gpb, gmb, gcb, gbufs): (
        Seq<Seq<u8>>,
        Seq<u8>,
        Seq<u8>,
        Seq<u8>,
        Seq<u8>,
        Seq<u8>,
        Seq<Seq<u8>>,
    ) = choose|ids: Seq<Seq<u8>>, sig: Seq<u8>, hb: Seq<u8>, pb: Seq<u8>, mb: Seq<u8>,
        cb: Seq<u8>, bufs: Seq<Seq<u8>>|
        (forall|k: int| 0 <= k < ids.len() ==> ids[k] != delim_bytes()) && gfr
            == #[trigger] spec_frames(ids, sig, hb, pb, mb, cb, bufs);
    proof {
        if hyp {
            lemma_spec_frames_layout(gids, gsig, ghb, gpb, gmb, gcb, gbufs);
        }
    }
    let delim = vec![0x3cu8, 0x49u8, 0x44u8, 0x53u8, 0x7cu8, 0x4du8, 0x53u8, 0x47u8, 0x3eu8];
    proof {
        assert(delim@ =~= delim_bytes());
    }
    let n = frames.len();
    let mut i: usize = 0;
    while i < n && !crate::messages::bytes_eq(&frames[i], &delim)
        invariant
            i <= n,
            n == frames@.len(),
            gfr == frames.deep_view(),
            delim@ == delim_bytes(),
            forall|j: int| 0 <= j < i ==> #[trigger] gfr[j] != delim_bytes(),
        decreases n - i,
    {
        proof {
            lemma_bytes_deep(frames@[i as int]);
            assert(gfr[i as int] == frames@[i as int]@);
        }
        i = i + 1;
    }
    if i == n {
        proof {
            reveal(first_delim);
            lemma_first_delim_skip(gfr, n as int);
            if hyp {
                assert(gids.len() < n);
                assert(false);
            }
        }
        return Err(DecodeError::MissingDelimiter);
    }
    proof {
        reveal(first_delim);
        lemma_bytes_deep(frames@[i as int]);
        assert(gfr[i as int] == delim_bytes());
        lemma_first_delim_skip(gfr, i as int);
        assert(first_delim(gfr, 0) == i);
        if hyp {
            if i < gids.len() {
                assert(gfr[i as int] == gids[i as int]);
                assert(false);
            }
            if i > gids.len() {
                assert(gfr[gids.len() as int] != delim_bytes());
                assert(false);
            }
            assert(i == gids.len());
        }
    }
    if n - i < 6 {
        proof {
            if hyp {
                assert(false);
            }
        }
        return Err(DecodeError::MissingFrames);
    }
    proof {
        lemma_bytes_deep(frames@[i as int + 1]);
        lemma_bytes_deep(frames@[i as int + 2]);
        lemma_bytes_deep(frames@[i as int + 3]);
        lemma_bytes_deep(frames@[i as int + 4]);
        lemma_bytes_deep(frames@[i as int + 5]);
    }
    let expected = digester.sign(&frames[i + 2], &frames[i + 3], &frames[i + 4], &frames[i + 5]);
    let b = crate::messages::bytes_eq(&frames[i + 1], &expected);
    proof {
        if hyp {
            assert(frames@[i as int + 1]@ == gsig);
            assert(frames@[i as int + 2]@ == ghb);
            assert(frames@[i as int + 3]@ == gpb);
            assert(frames@[i as int + 4]@ == gmb);
            assert(frames@[i as int + 5]@ == gcb);
            assert(b == (gsig == spec_signature(digester.key_view(), ghb, gpb, gmb, gcb)));
            assert forall|ids: Seq<Seq<u8>>, sig: Seq<u8>, hb: Seq<u8>, pb: Seq<u8>,
                mb: Seq<u8>, cb: Seq<u8>, bufs: Seq<Seq<u8>>|
                (forall|k: int| 0 <= k < ids.len() ==> ids[k] != delim_bytes()) && gfr
                    == #[trigger] spec_frames(ids, sig, hb, pb, mb, cb, bufs) implies b == (sig
                == spec_signature(digester.key_view(), hb, pb, mb, cb)) by {
                lemma_spec_frames_unique(gids, gsig, ghb, gpb, gmb, gcb, gbufs, ids, sig, hb,
                    pb, mb, cb, bufs);
            }
        }
    }
    Ok(b)
}

} // verus!
