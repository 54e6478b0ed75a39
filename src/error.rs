use vstd::prelude::*;

verus! {

/// What can go wrong in the store.
#[derive(Debug, Clone, Copy, PartialEq, Eq, Structural)]
pub enum StoreError {
    /// The key is absent.
    NotFound,
    /// A snapshot's checksum does not match its data.
    Integrity,
    /// Data could not be encoded or decoded.
    Serialization,
    /// The file system failed.
    Io,
}

/// The description of each error.
pub open spec fn message_of(e: StoreError) -> Seq<char> {
    match e {
        StoreError::NotFound => "key not found"@,
        StoreError::Integrity => "snapshot checksum does not match its data"@,
        StoreError::Serialization => "data could not be encoded or decoded"@,
        StoreError::Io => "file system failure"@,
    }
}

impl StoreError {
    /// A short description of the error.
    pub fn message(&self) -> (r: String)
        ensures
            r@ == message_of(*self),
    {
        let text: &str = match self {
            StoreError::NotFound => "key not found",
            StoreError::Integrity => "snapshot checksum does not match its data",
            StoreError::Serialization => "data could not be encoded or decoded",
            StoreError::Io => "file system failure",
        };
        proof {
            reveal_strlit("key not found");
            reveal_strlit("snapshot checksum does not match its data");
            reveal_strlit("data could not be encoded or decoded");
            reveal_strlit("file system failure");
        }
        String::from_str(text)
    }
}

} // verus!
