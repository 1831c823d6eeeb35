//! Persistence for the managed-instance registry.
//!
//! The whole registry lives in a single `instances.json` file under the base
//! directory, written atomically through a sibling temporary file. This module
//! holds the file's locations and the decisions made on its bytes; reading,
//! writing and the JSON encoding are the caller's.

use vstd::prelude::*;
use vstd::string::*;
use crate::engine::paths::{join, spec_join};

verus! {

/// A failure reading or writing the registry.
#[derive(Debug)]
pub enum StoreError {
    /// A filesystem operation failed.
    Io(String),
    /// The on-disk registry was not valid JSON.
    Corrupt(String),
}

impl StoreError {
    /// The human-readable message of the error.
    pub open spec fn message(&self) -> Seq<char> {
        match self {
            StoreError::Io(m) => m@,
            StoreError::Corrupt(m) => "instances.json is corrupt: "@ + m@,
        }
    }

    /// The human-readable message of the error (see [`StoreError::message`]).
    pub fn to_string(&self) -> (s: String)
        ensures
            s@ == self.message(),
    {
        match self {
            StoreError::Io(m) => m.clone(),
            StoreError::Corrupt(m) => {
                let mut s = "instances.json is corrupt: ".to_owned();
                s.append(m.as_str());
                s
            },
        }
    }
}

/// The registry file at `<base>/instances.json`.
pub struct Store {
    path: String,
}

impl Store {
    /// Where the registry file lives.
    pub closed spec fn location(&self) -> Seq<char> {
        self.path@
    }

    /// The registry under `base_dir`.
    pub fn new(base_dir: &str) -> (s: Store)
        ensures
            s.location() == spec_join(base_dir@, "instances.json"@),
    {
        Store { path: join(base_dir, "instances.json") }
    }

    /// The path to the backing file.
    pub fn path(&self) -> (r: &str)
        ensures
            r@ == self.location(),
    {
        self.path.as_str()
    }

    /// The sibling temporary file a save is written to before it is renamed
    /// over the registry (the registry's extension `json` becomes `json.tmp`).
    pub fn temp_path(&self) -> (r: String)
        ensures
            r@ == self.location() + ".tmp"@,
    {
        let mut r = self.path.clone();
        r.append(".tmp");
        r
    }
}

/// ASCII whitespace as `u8::is_ascii_whitespace` defines it: space, tab,
/// line feed, form feed and carriage return.
pub open spec fn is_ascii_ws(b: u8) -> bool {
    b == 0x20 || b == 0x09 || b == 0x0A || b == 0x0C || b == 0x0D
}

/// Whether the registry's bytes hold nothing but ASCII whitespace, in which
/// case the registry is empty rather than corrupt.
pub fn is_blank(bytes: &[u8]) -> (r: bool)
    ensures
        r == forall|i: int| 0 <= i < bytes@.len() ==> is_ascii_ws(#[trigger] bytes@[i]),
{
    let mut i: usize = 0;
    while i < bytes.len()
        invariant
            i <= bytes@.len(),
            forall|j: int| 0 <= j < i ==> is_ascii_ws(#[trigger] bytes@[j]),
        decreases bytes@.len() - i,
    {
        let b = bytes[i];
        if !(b == 0x20 || b == 0x09 || b == 0x0A || b == 0x0C || b == 0x0D) {
            return false;
        }
        i = i + 1;
    }
    true
}

} // verus!
