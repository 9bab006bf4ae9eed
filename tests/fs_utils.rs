use std::path::{Path, PathBuf};

use libuio::fs_utils::{check_socket_path, SocketPathError, UnlinkOnDrop, SUN_PATH_CAPACITY};

#[test]
fn unlink_on_drop_keeps_its_path() {
    let u = UnlinkOnDrop::new(PathBuf::from("/tmp/uio/socket"));
    assert_eq!(u.path(), Path::new("/tmp/uio/socket"));
}

#[test]
fn ordinary_path_fits() {
    assert_eq!(check_socket_path(b"/tmp/uio/socket"), Ok(()));
    assert_eq!(check_socket_path(b""), Ok(()));
}

#[test]
fn longest_path_that_fits() {
    let p = vec![b'a'; SUN_PATH_CAPACITY - 1];
    assert_eq!(check_socket_path(&p), Ok(()));
    let q = vec![b'a'; SUN_PATH_CAPACITY];
    assert_eq!(check_socket_path(&q), Err(SocketPathError::TooLong));
}

#[test]
fn zero_byte_is_refused() {
    assert_eq!(check_socket_path(b"/tmp/a\0b"), Err(SocketPathError::InteriorNul));
    let mut long = vec![b'a'; 300];
    long[200] = 0;
    assert_eq!(check_socket_path(&long), Err(SocketPathError::InteriorNul));
}
