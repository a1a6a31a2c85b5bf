//! Calls on the objects of a pool.

use librados::error::RadosError;
use librados::ioctx::{BytesCall, GetXattr, IoCall, StatCall};
use librados::{CString, IoCtx, Next, ObjectStat, Rados};

fn c(s: &str) -> CString {
    CString::new(s.as_bytes()).unwrap()
}

fn io() -> IoCtx {
    let rados = Rados::create().created(0, 77).unwrap();
    rados.create_ioctx("pool").unwrap().opened(0, 9).unwrap()
}

#[test]
fn object_calls_go_to_their_ioctx() {
    let io = io();
    assert_eq!(
        io.write("text", b"Hello", 3),
        Ok(IoCall::Write { ioctx: 9, oid: c("text"), data: b"Hello", offset: 3 })
    );
    assert_eq!(
        io.write_full("binary", b"\x00\x01\xff\xfe"),
        Ok(IoCall::WriteFull { ioctx: 9, oid: c("binary"), data: b"\x00\x01\xff\xfe" })
    );
    assert_eq!(
        io.append("empty", b""),
        Ok(IoCall::Append { ioctx: 9, oid: c("empty"), data: b"" })
    );
    assert_eq!(
        io.truncate("text", 0),
        Ok(IoCall::Truncate { ioctx: 9, oid: c("text"), size: 0 })
    );
    assert_eq!(io.remove("text"), Ok(IoCall::Remove { ioctx: 9, oid: c("text") }));
}

#[test]
fn an_object_name_with_a_nul_is_refused() {
    let io = io();
    let oid = "a\0b";
    let refused = |err: RadosError| match err {
        RadosError::Nul(e) => {
            assert_eq!(e.nul_position(), 1);
            assert_eq!(e.into_vec(), b"a\0b");
        }
        other => panic!("{other:?}"),
    };
    refused(io.write(oid, b"", 0).unwrap_err());
    refused(io.write_full(oid, b"").unwrap_err());
    refused(io.append(oid, b"").unwrap_err());
    refused(io.read(oid, 1, 0).unwrap_err());
    refused(io.stat(oid).unwrap_err());
    refused(io.truncate(oid, 0).unwrap_err());
    refused(io.remove(oid).unwrap_err());
    refused(io.omap_set(oid, &[]).unwrap_err());
    refused(io.omap_rm_keys(oid, &[]).unwrap_err());
    refused(io.omap_clear(oid).unwrap_err());
    refused(io.omap_get_vals(oid, None, None, 1).unwrap_err());
    refused(io.omap_get_keys(oid, None, 1).unwrap_err());
    refused(io.omap_get_vals_by_keys(oid, &[]).unwrap_err());
    refused(io.getxattr(oid, "x").unwrap_err());
    refused(io.getxattr("x", oid).unwrap_err());
    refused(io.watch(oid).unwrap_err());
}

#[test]
fn a_read_returns_the_number_of_bytes() {
    let call = io().read("o", 16, 5).unwrap();
    assert_eq!(call, BytesCall { ioctx: 9, oid: c("o"), len: 16, offset: 5 });
    assert_eq!(call.complete(0), Ok(0));
    assert_eq!(call.complete(12), Ok(12));
    assert_eq!(call.complete(-libc::ENOENT), Err(RadosError::NotFound));
    assert_eq!(call.complete(-libc::EIO), Err(RadosError::Rados(libc::EIO)));
}

#[test]
fn a_stat_returns_size_and_time() {
    let call = io().stat("o").unwrap();
    assert_eq!(call, StatCall { ioctx: 9, oid: c("o") });
    assert_eq!(
        call.complete(0, 4, -1),
        Ok(ObjectStat { size: 4, mtime: -1 })
    );
    assert_eq!(call.complete(-2, 4, 1), Err(RadosError::NotFound));
}

#[test]
fn the_buffer_of_an_xattr_doubles_until_the_value_fits() {
    let value = vec![0xab_u8; 4096];
    let mut call = io().getxattr("xattrs", "big").unwrap();
    assert_eq!(
        call,
        GetXattr { ioctx: 9, oid: c("xattrs"), name: c("big"), len: 256 }
    );
    let mut sizes = Vec::new();
    let read = loop {
        sizes.push(call.len);
        let mut buf = vec![0u8; call.len];
        let ret = if call.len < value.len() {
            -libc::ERANGE
        } else {
            buf[..value.len()].copy_from_slice(&value);
            value.len() as i32
        };
        assert!(call.may_grow());
        match call.step(ret, buf) {
            Next::Again(next) => call = next,
            Next::Done(read) => break read,
        }
    };
    assert_eq!(read, Ok(value));
    assert_eq!(sizes, vec![256, 512, 1024, 2048, 4096]);
}

#[test]
fn an_xattr_is_cut_to_its_length() {
    let step = |ret: i32| match io().getxattr("o", "n").unwrap().step(ret, vec![7u8; 256]) {
        Next::Done(value) => value,
        other => panic!("{other:?}"),
    };
    assert_eq!(step(0), Ok(Vec::new()));
    assert_eq!(step(5), Ok(vec![7u8; 5]));
    assert_eq!(step(256), Ok(vec![7u8; 256]));
    assert_eq!(step(300), Ok(vec![7u8; 256]));
    assert_eq!(step(-libc::ENODATA), Err(RadosError::Rados(libc::ENODATA)));
    assert_eq!(step(-libc::ENOENT), Err(RadosError::NotFound));
}

#[test]
fn a_buffer_grows_only_as_far_as_memory_can_be_asked_for() {
    let call = GetXattr { ioctx: 1, oid: c("o"), name: c("n"), len: isize::MAX as usize / 2 };
    assert!(call.may_grow());
    let call = GetXattr { ioctx: 1, oid: c("o"), name: c("n"), len: isize::MAX as usize / 2 + 1 };
    assert!(!call.may_grow());
}

#[test]
fn an_object_call_ends_as_it_returned() {
    let call = io().remove("o").unwrap();
    assert_eq!(call.complete(0), Ok(()));
    assert_eq!(call.complete(-2), Err(librados::RadosError::NotFound));
    assert_eq!(call.complete(-16), Err(librados::RadosError::Rados(16)));
}
