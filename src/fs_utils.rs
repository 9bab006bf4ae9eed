//! The filesystem entry of a listening socket.
use vstd::prelude::*;

use std::path::{Path, PathBuf};

verus! {

/// A filesystem path, opaque to the library.
#[verifier::external_type_specification]
#[verifier::external_body]
pub struct ExPathBuf(PathBuf);

/// A borrowed filesystem path, opaque to the library.
#[verifier::external_type_specification]
#[verifier::external_body]
pub struct ExPath(Path);

/// Relies on `PathBuf::as_path`: it borrows the path, which does not change.
pub assume_specification[ PathBuf::as_path ](p: &PathBuf) -> (r: &Path);

/// The path of a filesystem entry that its owner removes when it is dropped.
pub struct UnlinkOnDrop {
    path: PathBuf,
}

impl UnlinkOnDrop {
    /// The path that this value names.
    pub closed spec fn spec_path(&self) -> PathBuf {
        self.path
    }

    pub fn new(path: PathBuf) -> (r: Self)
        ensures
            r.spec_path() == path,
    {
        Self { path }
    }

    pub fn path(&self) -> (r: &Path) {
        self.path.as_path()
    }
}

/// Bytes of the path field of a Unix socket address, its final zero byte
/// included.
pub const SUN_PATH_CAPACITY: usize = 108;

/// Why a path cannot name a Unix socket.
#[derive(Debug, PartialEq, Eq, Structural)]
pub enum SocketPathError {
    /// The path holds a zero byte.
    InteriorNul,
    /// The path and its final zero byte do not fit the address.
    TooLong,
}

/// Judges whether the bytes of a path can name a Unix socket.
pub fn check_socket_path(path: &[u8]) -> (r: Result<(), SocketPathError>)
    ensures
        path@.contains(0u8) ==> r == Err::<(), SocketPathError>(SocketPathError::InteriorNul),
        !path@.contains(0u8) && path@.len() + 1 > SUN_PATH_CAPACITY ==> r == Err::<
            (),
            SocketPathError,
        >(SocketPathError::TooLong),
        !path@.contains(0u8) && path@.len() + 1 <= SUN_PATH_CAPACITY ==> r is Ok,
{
    let mut i: usize = 0;
    while i < path.len()
        invariant
            i <= path@.len(),
            forall|j: int| 0 <= j < i ==> path@[j] != 0u8,
        decreases path@.len() - i,
    {
        if path[i] == 0 {
            return Err(SocketPathError::InteriorNul);
        }
        i += 1;
    }
    if path.len() >= SUN_PATH_CAPACITY {
        return Err(SocketPathError::TooLong);
    }
    Ok(())
}

} // verus!
