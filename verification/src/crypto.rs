//! Message signing: HMAC-SHA-256 over the four signed envelope fields,
//! hex-encoded.  The hash itself is computed by an outside crate behind a
//! trusted wrapper; everything around it is verified.

use vstd::prelude::*;

use crate::json::hex_digit;

verus! {

/// The lower-case hexadecimal digits of a byte sequence, two per byte,
/// high nibble first.
pub open spec fn spec_hex(b: Seq<u8>) -> Seq<u8>
    decreases b.len(),
{
    if b.len() == 0 {
        Seq::empty()
    } else {
        seq![hex_digit(b[0] / 16), hex_digit(b[0] % 16)] + spec_hex(b.drop_first())
    }
}

/// The HMAC-SHA-256 tag of a message under a key: a function of the key
/// and the message alone.
pub uninterp spec fn hmac_sha256_of(key: Seq<u8>, data: Seq<u8>) -> Seq<u8>;

/// Relies on hmac's `Hmac<Sha256>` (with sha2): `new_from_slice` accepts
/// keys of any length, and the finalized tag is a 32-byte function of
/// the key and the fed data alone.
#[verifier::external_body]
fn hmac_sha256(key: &Vec<u8>, data: &Vec<u8>) -> (r: Vec<u8>)
    ensures
        r@ == hmac_sha256_of(key@, data@),
        r@.len() == 32,
{
    let mut mac = <hmac::Hmac<sha2::Sha256> as hmac::KeyInit>::new_from_slice(key.as_slice())
        .expect("HMAC accepts keys of any length");
    hmac::Mac::update(&mut mac, data.as_slice());
    hmac::Mac::finalize(mac).into_bytes().to_vec()
}

/// Relies on hex::encode: two lower-case digits per byte, high nibble
/// first.
#[verifier::external_body]
fn hex_encode(b: &Vec<u8>) -> (r: Vec<u8>)
    ensures
        r@ == spec_hex(b@),
{
    hex::encode(b.as_slice()).into_bytes()
}

/// Append all of `src` to `dst`.
fn append_bytes(dst: &mut Vec<u8>, src: &Vec<u8>)
    ensures
        final(dst)@ == old(dst)@ + src@,
{
    let mut k: usize = 0;
    while k < src.len()
        invariant
            k <= src@.len(),
            dst@ == old(dst)@ + src@.take(k as int),
        decreases src@.len() - k,
    {
        dst.push(src[k]);
        proof {
            assert(src@.take(k as int + 1) =~= src@.take(k as int).push(src@[k as int]));
            assert(dst@ =~= old(dst)@ + src@.take(k as int + 1));
        }
        k = k + 1;
    }
    proof {
        assert(src@.take(src@.len() as int) =~= src@);
    }
}

/// The wire signature of the four signed fields under a key: the
/// hex-encoded HMAC-SHA-256 tag of their concatenation.
pub open spec fn spec_signature(
    key: Seq<u8>,
    header: Seq<u8>,
    parent: Seq<u8>,
    metadata: Seq<u8>,
    content: Seq<u8>,
) -> Seq<u8> {
    spec_hex(hmac_sha256_of(key, header + parent + metadata + content))
}

/// The process-wide signing key, set exactly once from the connection
/// secret before any message is signed.
pub struct Digester {
    pub key: Option<Vec<u8>>,
}

impl Digester {
    /// A digester with no key yet.
    pub fn new() -> (r: Self)
        ensures
            !r.is_init(),
    {
        Digester { key: None }
    }

    /// Whether the signing key has been installed.
    pub open spec fn is_init(&self) -> bool {
        self.key is Some
    }

    /// The installed signing key.
    pub open spec fn key_view(&self) -> Seq<u8>
        recommends
            self.is_init(),
    {
        self.key->0@
    }

    /// Install the signing key; allowed exactly once.
    pub fn key_init(&mut self, key: Vec<u8>)
        requires
            !old(self).is_init(),
        ensures
            final(self).is_init(),
            final(self).key_view() == key@,
    {
        self.key = Some(key);
    }

    /// Sign the four signed envelope fields.
    pub fn sign(&self, header: &Vec<u8>, parent: &Vec<u8>, metadata: &Vec<u8>, content: &Vec<u8>)
        -> (sig: Vec<u8>)
        requires
            self.is_init(),
        ensures
            sig@ == spec_signature(self.key_view(), header@, parent@, metadata@, content@),
    {
        let mut data: Vec<u8> = Vec::new();
        append_bytes(&mut data, header);
        append_bytes(&mut data, parent);
        append_bytes(&mut data, metadata);
        append_bytes(&mut data, content);
        proof {
            assert(data@ =~= header@ + parent@ + metadata@ + content@);
        }
        let key = match &self.key {
            Some(k) => k,
            None => vstd::pervasive::unreached(),
        };
        let tag = hmac_sha256(key, &data);
        hex_encode(&tag)
    }
}


} // verus!
