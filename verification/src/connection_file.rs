//! The typed pieces of the connection file: ports, the signing key and
//! the signature scheme.  Reading the file itself is plain I/O and
//! stays outside the library.

use vstd::prelude::*;

use crate::messages::str_eq;

verus! {

/// One socket port from the connection file.
#[derive(Debug, Clone, Copy, PartialEq, Eq, Structural)]
pub struct PortAddr(pub u16);

impl PortAddr {
    /// The port number.
    pub fn port(&self) -> (r: u16)
        ensures
            r == self.0,
    {
        self.0
    }
}

/// The connection secret as raw bytes.
pub struct Key(pub Vec<u8>);

/// The signature scheme named by the connection file.
#[derive(Debug, Clone, Copy, PartialEq, Eq, Structural)]
pub struct SignatureScheme {
    pub algorithm: SupportedSignatureAlgorithm,
    pub hash_fn: SupportedSignatureHashFunction,
}

/// The signature algorithms this kernel supports.
#[non_exhaustive]
#[derive(Debug, Clone, Copy, PartialEq, Eq, Structural)]
pub enum SupportedSignatureAlgorithm {
    Hmac,
}

/// The signature hash functions this kernel supports.
#[non_exhaustive]
#[derive(Debug, Clone, Copy, PartialEq, Eq, Structural)]
pub enum SupportedSignatureHashFunction {
    Sha256,
}

/// The transports this kernel supports.
#[derive(Debug, Clone, Copy, PartialEq, Eq, Structural)]
pub enum Transport {
    Tcp,
}

impl Transport {
    /// The transport's scheme in an endpoint address.
    pub fn scheme(&self) -> (r: &'static str)
        ensures
            r@ == "tcp"@,
    {
        "tcp"
    }
}

impl SignatureScheme {
    /// Read the scheme named in the connection file: only
    /// `hmac-sha256` is supported.
    pub fn parse(s: &str) -> (r: Result<SignatureScheme, ()>)
        ensures
            (r is Ok) == (s@ == "hmac-sha256"@),
            r matches Ok(scheme) ==> scheme == (SignatureScheme {
                algorithm: SupportedSignatureAlgorithm::Hmac,
                hash_fn: SupportedSignatureHashFunction::Sha256,
            }),
    {
        if str_eq(s, "hmac-sha256") {
            Ok(SignatureScheme {
                algorithm: SupportedSignatureAlgorithm::Hmac,
                hash_fn: SupportedSignatureHashFunction::Sha256,
            })
        } else {
            Err(())
        }
    }
}

} // verus!
