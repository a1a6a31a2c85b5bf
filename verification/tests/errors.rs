//! Return values, errno numbers and C strings.

use librados::cstring::CString;
use librados::error::{
    check_err, NulError, RadosError, EEXIST, ENOENT, EOVERFLOW, ERANGE, ETIMEDOUT,
};

#[test]
fn errno_numbers_are_those_of_the_system() {
    assert_eq!(ENOENT, libc::ENOENT);
    assert_eq!(EEXIST, libc::EEXIST);
    assert_eq!(ERANGE, libc::ERANGE);
    assert_eq!(EOVERFLOW, libc::EOVERFLOW);
    assert_eq!(ETIMEDOUT, libc::ETIMEDOUT);
}

#[test]
fn a_return_value_that_is_not_negative_is_success() {
    for ret in [0, 1, 34, i32::MAX] {
        assert_eq!(check_err(ret), Ok(()));
    }
}

#[test]
fn a_negative_return_value_is_an_errno() {
    assert_eq!(check_err(-libc::ENOENT), Err(RadosError::NotFound));
    assert_eq!(check_err(-libc::EEXIST), Err(RadosError::AlreadyExists));
    assert_eq!(
        check_err(-libc::EBUSY),
        Err(RadosError::Rados(libc::EBUSY))
    );
    assert_eq!(
        check_err(-libc::ECANCELED),
        Err(RadosError::Rados(libc::ECANCELED))
    );
    assert_eq!(check_err(-108), Err(RadosError::Rados(108)));
    assert_eq!(check_err(-1), Err(RadosError::Rados(1)));
    assert_eq!(check_err(-i32::MAX), Err(RadosError::Rados(i32::MAX)));
}

#[test]
fn different_errnos_are_different_errors() {
    let errors: Vec<RadosError> = (1..200).map(|e| check_err(-e).unwrap_err()).collect();
    for (i, a) in errors.iter().enumerate() {
        for b in &errors[..i] {
            assert_ne!(a, b);
        }
    }
}

#[test]
fn a_c_string_ends_in_one_nul() {
    assert_eq!(CString::new(b"").unwrap().as_bytes_with_nul(), b"\0");
    assert_eq!(CString::new(b"oid").unwrap().as_bytes_with_nul(), b"oid\0");
    assert_eq!(
        CString::new(b"\xff\x80").unwrap().as_bytes_with_nul(),
        b"\xff\x80\0"
    );
}

#[test]
fn a_nul_inside_is_reported_where_it_first_stands() {
    let err = CString::new(b"with\0nul\0s").unwrap_err();
    assert_eq!(err.nul_position(), 4);
    assert_eq!(err.into_vec(), b"with\0nul\0s");
    assert_eq!(
        CString::new(b"\0").unwrap_err(),
        NulError {
            position: 0,
            bytes: vec![0]
        }
    );
    assert_eq!(CString::new(b"a\0").unwrap_err().nul_position(), 1);
}

#[test]
fn only_the_character_nul_is_refused() {
    for s in ["", "plain", "\u{100}\u{2000}\u{10000}", "\u{80}"] {
        let c = CString::new(s.as_bytes()).unwrap();
        let bytes = c.as_bytes_with_nul();
        let end = bytes.iter().position(|&b| b == 0).unwrap();
        assert_eq!(&bytes[..end], s.as_bytes());
        assert_eq!(end + 1, bytes.len());
    }
    assert_eq!(CString::new("\u{100}\0".as_bytes()).unwrap_err().nul_position(), 2);
}
