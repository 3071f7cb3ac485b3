//! The key of this endpoint and the secret of its group, as they are kept on the disk.
use crate::atomic_write::{private_file, AtomicWrite, NoParent};
use crate::bytes::{array16, array32, to_vec};
use crate::path_text::parent_path;
use crate::text::{decimal, decimal_text};
use vstd::prelude::*;

verus! {

/// The number of bytes of the key.
pub const KEY_BYTES: usize = 32;

/// The number of bytes of the secret.
pub const FOLDER_SECRET_BYTES: usize = 16;

/// What the temporary files of this module begin with.
pub const SECRET_PREFIX: &'static str = ".secret.";

/// What came of reading a file.
#[derive(Debug, Clone, PartialEq, Eq)]
pub enum FileRead {
    /// These bytes.
    Bytes(Vec<u8>),
    /// There is no such file.
    Missing,
    /// It could not be read, for this reason.
    Failed(String),
}

/// Why a key or a secret cannot be had.
#[derive(Debug, Clone, PartialEq, Eq)]
pub enum KeystoreError {
    /// The file has another number of bytes.
    Size {
        /// The path of the file.
        path: String,
        /// The number of bytes that it has.
        got: usize,
        /// The number of bytes that it should have.
        expected: usize,
    },
    /// The file could not be read.
    Read {
        /// The path of the file.
        path: String,
        /// The reason.
        reason: String,
    },
    /// The path has no directory to stand in.
    NoParent(NoParent),
}

impl KeystoreError {
    /// The text of the error.
    pub open spec fn message_text(&self) -> Seq<char> {
        match self {
            KeystoreError::Size { path, got, expected } => path@ + " has invalid size: "@
                + decimal_text(*got as nat) + " bytes (expected "@ + decimal_text(
                *expected as nat,
            ) + ")"@,
            KeystoreError::Read { path, reason } => "read "@ + path@ + ": "@ + reason@,
            KeystoreError::NoParent(e) => "target "@ + e.target@ + " has no parent"@,
        }
    }

    /// The text of the error.
    pub fn message(&self) -> (r: String)
        ensures
            r@ == self.message_text(),
    {
        match self {
            KeystoreError::Size { path, got, expected } => {
                let got = decimal(*got as u64);
                let expected = decimal(*expected as u64);
                path.clone().concat(" has invalid size: ").concat(got.as_str()).concat(
                    " bytes (expected ",
                ).concat(expected.as_str()).concat(")")
            },
            KeystoreError::Read { path, reason } => "read ".to_owned().concat(
                path.as_str(),
            ).concat(": ").concat(reason.as_str()),
            KeystoreError::NoParent(e) => "target ".to_owned().concat(
                e.target.as_str(),
            ).concat(" has no parent"),
        }
    }
}

/// Calls `rand::Rng::fill_bytes` of `rand::rng`. Claims that as many bytes come back as were
/// handed in; of the bytes themselves nothing is claimed, they rest on chance.
#[verifier::external_body]
fn fill_random(bytes: &mut Vec<u8>)
    ensures
        final(bytes)@.len() == old(bytes)@.len(),
{
    rand::Rng::fill_bytes(&mut rand::rng(), bytes.as_mut_slice());
}

fn random_bytes(n: usize) -> (r: Vec<u8>)
    ensures
        r@.len() == n,
{
    let mut bytes: Vec<u8> = Vec::new();
    let mut i: usize = 0;
    while i < n
        invariant
            i <= n,
            bytes@.len() == i,
        decreases n - i,
    {
        bytes.push(0);
        i += 1;
    }
    fill_random(&mut bytes);
    bytes
}

/// The key of this endpoint.
#[derive(Debug, Clone, PartialEq, Eq)]
pub struct EndpointKey {
    /// Its bytes.
    pub bytes: [u8; 32],
    /// The file to be written, where the key is new.
    pub write: Option<AtomicWrite>,
}

/// A new key that has to be written to `key_path`.
pub fn new_endpoint_key(key_path: &str, bytes: [u8; 32]) -> (r: Result<EndpointKey, KeystoreError>)
    ensures
        r is Ok <==> parent_path(key_path@) is Some,
        r matches Ok(k) ==> k.bytes == bytes && (k.write matches Some(w) && Some(w.dir@)
            == parent_path(key_path@) && w.private && w.prefix@ == SECRET_PREFIX@ && w.target@
            == key_path@ && w.content@ == bytes@),
        r matches Err(e) ==> (e matches KeystoreError::NoParent(n) && n.target@ == key_path@),
{
    match private_file(key_path, SECRET_PREFIX, to_vec(&bytes)) {
        Ok(w) => Ok(EndpointKey { bytes, write: Some(w) }),
        Err(e) => Err(KeystoreError::NoParent(e)),
    }
}

/// The key of this endpoint, read from `key_path` or, where there is no file, made new.
pub fn load_or_create_endpoint_key(key_path: &str, read: FileRead) -> (r: Result<
    EndpointKey,
    KeystoreError,
>)
    ensures
        match read {
            FileRead::Bytes(bytes) => if bytes@.len() == KEY_BYTES {
                r matches Ok(k) && k.bytes@ == bytes@ && k.write is None
            } else {
                r matches Err(KeystoreError::Size { path, got, expected }) && path@ == key_path@
                    && got == bytes@.len() && expected == KEY_BYTES
            },
            FileRead::Missing => {
                &&& r is Ok <==> parent_path(key_path@) is Some
                &&& r matches Ok(k) ==> (k.write matches Some(w) && Some(w.dir@) == parent_path(
                    key_path@,
                ) && w.private && w.target@ == key_path@ && w.prefix@ == SECRET_PREFIX@
                    && w.content@ == k.bytes@)
                &&& r matches Err(e) ==> (e matches KeystoreError::NoParent(n) && n.target@
                    == key_path@)
            },
            FileRead::Failed(why) => r matches Err(KeystoreError::Read { path, reason }) && path@
                == key_path@ && reason@ == why@,
        },
{
    match read {
        FileRead::Bytes(bytes) => {
            if bytes.len() != KEY_BYTES {
                Err(
                    KeystoreError::Size {
                        path: key_path.to_owned(),
                        got: bytes.len(),
                        expected: KEY_BYTES,
                    },
                )
            } else {
                Ok(EndpointKey { bytes: array32(bytes.as_slice()), write: None })
            }
        },
        FileRead::Missing => {
            let fresh = random_bytes(KEY_BYTES);
            new_endpoint_key(key_path, array32(fresh.as_slice()))
        },
        FileRead::Failed(reason) => Err(
            KeystoreError::Read { path: key_path.to_owned(), reason },
        ),
    }
}

/// The secret of the group, if there is one yet.
pub fn try_load_folder_secret(path: &str, read: FileRead) -> (r: Result<
    Option<[u8; 16]>,
    KeystoreError,
>)
    ensures
        match read {
            FileRead::Bytes(bytes) => if bytes@.len() == FOLDER_SECRET_BYTES {
                r matches Ok(Some(s)) && s@ == bytes@
            } else {
                r matches Err(KeystoreError::Size { path: p, got, expected }) && p@ == path@ && got
                    == bytes@.len() && expected == FOLDER_SECRET_BYTES
            },
            FileRead::Missing => r matches Ok(None),
            FileRead::Failed(why) => r matches Err(KeystoreError::Read { path: p, reason }) && p@
                == path@ && reason@ == why@,
        },
{
    match read {
        FileRead::Bytes(bytes) => {
            if bytes.len() != FOLDER_SECRET_BYTES {
                Err(
                    KeystoreError::Size {
                        path: path.to_owned(),
                        got: bytes.len(),
                        expected: FOLDER_SECRET_BYTES,
                    },
                )
            } else {
                Ok(Some(array16(bytes.as_slice())))
            }
        },
        FileRead::Missing => Ok(None),
        FileRead::Failed(reason) => Err(KeystoreError::Read { path: path.to_owned(), reason }),
    }
}

/// The file that keeps the secret of a group.
pub fn persist_folder_secret(path: &str, folder_secret: &[u8; 16]) -> (r: Result<
    AtomicWrite,
    KeystoreError,
>)
    ensures
        r is Ok <==> parent_path(path@) is Some,
        r matches Ok(w) ==> Some(w.dir@) == parent_path(path@) && w.private && w.prefix@
            == SECRET_PREFIX@ && w.target@ == path@ && w.content@ == folder_secret@,
        r matches Err(e) ==> (e matches KeystoreError::NoParent(n) && n.target@ == path@),
{
    match private_file(path, SECRET_PREFIX, to_vec(folder_secret)) {
        Ok(w) => Ok(w),
        Err(e) => Err(KeystoreError::NoParent(e)),
    }
}

/// A new secret, and the file that keeps it.
pub fn generate_and_persist_folder_secret(path: &str) -> (r: Result<
    ([u8; 16], AtomicWrite),
    KeystoreError,
>)
    ensures
        r is Ok <==> parent_path(path@) is Some,
        r matches Ok(made) ==> Some(made.1.dir@) == parent_path(path@) && made.1.private
            && made.1.prefix@ == SECRET_PREFIX@ && made.1.target@ == path@ && made.1.content@
            == made.0@,
        r matches Err(e) ==> (e matches KeystoreError::NoParent(n) && n.target@ == path@),
{
    let fresh = random_bytes(FOLDER_SECRET_BYTES);
    let secret = array16(fresh.as_slice());
    match persist_folder_secret(path, &secret) {
        Ok(w) => Ok((secret, w)),
        Err(e) => Err(e),
    }
}

} // verus!
