//! Holders of key material for the lattice-based encryption and signature
//! schemes. The keys are made, and used to encrypt and sign, outside this
//! library; here they are carried and handed out.

use vstd::prelude::*;
use vstd::slice::slice_to_vec;

use crate::digest::{sha256, spec_sha256};

verus! {

/// A public key and the private key that belongs to it.
#[derive(Debug)]
pub struct KeyPair {
    pub public_key: Vec<u8>,
    pub private_key: Vec<u8>,
}

/// A key pair as it is exchanged with other programs.
#[derive(Debug)]
pub struct NTRUKeys {
    pub public_key: Vec<u8>,
    pub private_key: Vec<u8>,
}

fn copy_bytes(bytes: &Vec<u8>) -> (copy: Vec<u8>)
    ensures
        copy@ == bytes@,
{
    slice_to_vec(bytes.as_slice())
}

impl NTRUKeys {
    /// The keys of `keypair` in the form in which they are exchanged.
    pub fn from_pair(keypair: &KeyPair) -> (keys: NTRUKeys)
        ensures
            keys.public_key@ == keypair.public_key@,
            keys.private_key@ == keypair.private_key@,
    {
        NTRUKeys {
            public_key: copy_bytes(&keypair.public_key),
            private_key: copy_bytes(&keypair.private_key),
        }
    }
}

/// The keys with which a node encrypts and decrypts.
pub struct NtruEncrypt {
    keypair: KeyPair,
}

impl NtruEncrypt {
    /// Holds `keypair` for encryption.
    pub fn new(keypair: KeyPair) -> (holder: Self)
        ensures
            holder.spec_public_key() == keypair.public_key@,
            holder.spec_private_key() == keypair.private_key@,
    {
        NtruEncrypt { keypair }
    }

    /// The public key.
    pub closed spec fn spec_public_key(&self) -> Seq<u8> {
        self.keypair.public_key@
    }

    /// The private key.
    pub closed spec fn spec_private_key(&self) -> Seq<u8> {
        self.keypair.private_key@
    }

    /// A copy of the public key.
    pub fn get_public_key(&self) -> (key: Vec<u8>)
        ensures
            key@ == self.spec_public_key(),
    {
        copy_bytes(&self.keypair.public_key)
    }

    /// A copy of the private key.
    pub fn get_private_key(&self) -> (key: Vec<u8>)
        ensures
            key@ == self.spec_private_key(),
    {
        copy_bytes(&self.keypair.private_key)
    }
}

/// The key pair that goes with a choice of parameters.
pub struct NtruParam {
    pub keypair: KeyPair,
}

impl NtruParam {
    /// Holds `keypair`.
    pub fn new(keypair: KeyPair) -> (holder: Self)
        ensures
            holder.keypair == keypair,
    {
        NtruParam { keypair }
    }

    /// A copy of the public key.
    pub fn get_public_key(&self) -> (key: Vec<u8>)
        ensures
            key@ == self.keypair.public_key@,
    {
        copy_bytes(&self.keypair.public_key)
    }

    /// A copy of the private key.
    pub fn get_private_key(&self) -> (key: Vec<u8>)
        ensures
            key@ == self.keypair.private_key@,
    {
        copy_bytes(&self.keypair.private_key)
    }

    /// Copies of both keys, the public one first.
    pub fn generate_params(&self) -> (keys: (Vec<u8>, Vec<u8>))
        ensures
            keys.0@ == self.keypair.public_key@,
            keys.1@ == self.keypair.private_key@,
    {
        let public_key = self.get_public_key();
        let private_key = self.get_private_key();
        (public_key, private_key)
    }
}

/// The keys with which a node signs and checks signatures.
pub struct NtruSign {
    pub sign_keypair: KeyPair,
}

impl NtruSign {
    /// Holds `sign_keypair` for signing.
    pub fn new(sign_keypair: KeyPair) -> (holder: Self)
        ensures
            holder.sign_keypair == sign_keypair,
    {
        NtruSign { sign_keypair }
    }

    /// A copy of the public key.
    pub fn get_public_key(&self) -> (key: Vec<u8>)
        ensures
            key@ == self.sign_keypair.public_key@,
    {
        copy_bytes(&self.sign_keypair.public_key)
    }

    /// A copy of the private key.
    pub fn get_private_key(&self) -> (key: Vec<u8>)
        ensures
            key@ == self.sign_keypair.private_key@,
    {
        copy_bytes(&self.sign_keypair.private_key)
    }

    /// What is signed in the place of `message`: its SHA-256 digest.
    pub fn digest_to_sign(&self, message: &[u8]) -> (digest: Vec<u8>)
        ensures
            digest@ == spec_sha256(message@),
            digest@.len() == 32,
    {
        sha256(message)
    }
}

} // verus!
