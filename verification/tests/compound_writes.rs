//! The steps of a compound write, and what its outcome says.

use librados::error::RadosError;
use librados::write_op::{first_rejection, WriteCall, WriteStep};
use librados::{CString, CmpHandle, IoCtx, Rados, WriteError, WriteOp, CMPXATTR_OP_EQ};

fn c(s: &str) -> CString {
    CString::new(s.as_bytes()).unwrap()
}

fn io() -> IoCtx {
    let rados = Rados::create().created(0, 77).unwrap();
    rados.create_ioctx("pool").unwrap().opened(0, 9).unwrap()
}

#[test]
fn steps_keep_their_order_and_their_bytes() {
    let mut op = WriteOp::new();
    op.assert_version(7);
    op.assert_exists();
    op.create(true);
    op.create(false);
    op.write(b"abc", 5);
    op.write_full(b"abcdefgh");
    op.append(b"ijkl");
    op.remove();
    op.truncate(3);
    op.omap_set(&[(b"ck", b"cv"), (b"with\0nul", b"")]);
    op.omap_rm_keys(&[b"k1", b"\xff"]);
    op.setxattr("plain", b"value").unwrap();
    op.cmpxattr("plain", CMPXATTR_OP_EQ, b"wrong").unwrap();
    op.omap_cmp(b"epoch", CMPXATTR_OP_EQ, b"1");
    op.omap_rm_range(b"b", b"d");
    op.omap_clear();
    let call = op.operate(&io(), "compound").unwrap();
    assert_eq!(call.ioctx, 9);
    assert_eq!(call.oid, c("compound"));
    assert_eq!(call.cmps, 1);
    assert_eq!(
        call.steps,
        vec![
            WriteStep::AssertVersion { ver: 7 },
            WriteStep::AssertExists,
            WriteStep::Create { mode: 1 },
            WriteStep::Create { mode: 0 },
            WriteStep::Write { data: b"abc".to_vec(), offset: 5 },
            WriteStep::WriteFull { data: b"abcdefgh".to_vec() },
            WriteStep::Append { data: b"ijkl".to_vec() },
            WriteStep::Remove,
            WriteStep::Truncate { offset: 3 },
            WriteStep::OmapSet {
                entries: vec![
                    (b"ck".to_vec(), b"cv".to_vec()),
                    (b"with\0nul".to_vec(), Vec::new()),
                ],
            },
            WriteStep::OmapRmKeys { keys: vec![b"k1".to_vec(), b"\xff".to_vec()] },
            WriteStep::SetXattr { name: c("plain"), value: b"value".to_vec() },
            WriteStep::CmpXattr { name: c("plain"), op: 1, value: b"wrong".to_vec() },
            WriteStep::OmapCmp { key: b"epoch".to_vec(), op: 1, value: b"1".to_vec() },
            WriteStep::OmapRmRange { begin: b"b".to_vec(), end: b"d".to_vec() },
            WriteStep::OmapClear,
        ]
    );
}

#[test]
fn single_omap_writes_are_ops_of_one_step() {
    let io = io();
    let steps = |call: Result<WriteCall, RadosError>| call.unwrap().steps;
    assert_eq!(
        steps(io.omap_set("o", &[(b"k", b"v")])),
        vec![WriteStep::OmapSet { entries: vec![(b"k".to_vec(), b"v".to_vec())] }]
    );
    assert_eq!(
        steps(io.omap_rm_keys("o", &[b"with\0nul"])),
        vec![WriteStep::OmapRmKeys { keys: vec![b"with\0nul".to_vec()] }]
    );
    assert_eq!(steps(io.omap_clear("o")), vec![WriteStep::OmapClear]);
    let call = io.omap_clear("o").unwrap();
    assert_eq!(call.complete(0, &[]), Ok(()));
    assert_eq!(call.complete(-2, &[]), Err(RadosError::NotFound));
}

#[test]
fn an_op_starts_without_steps() {
    assert_eq!(WriteOp::default(), WriteOp::new());
    let call = WriteOp::new().operate(&io(), "o").unwrap();
    assert_eq!(call.steps, Vec::new());
    assert_eq!(call.cmps, 0);
}

#[test]
fn an_xattr_name_with_a_nul_adds_no_step() {
    let mut op = WriteOp::new();
    assert!(matches!(op.setxattr("a\0", b"v"), Err(RadosError::Nul(_))));
    assert!(matches!(op.cmpxattr("\0", CMPXATTR_OP_EQ, b"v"), Err(RadosError::Nul(_))));
    assert_eq!(op, WriteOp::new());
}

#[test]
fn an_object_name_with_a_nul_runs_nothing() {
    let mut op = WriteOp::new();
    op.omap_cmp(b"k", CMPXATTR_OP_EQ, b"v");
    match op.operate_report(&io(), "o\0") {
        Err(WriteError { error: RadosError::Nul(e), failed_cmp: None }) => {
            assert_eq!(e.nul_position(), 1)
        }
        other => panic!("{other:?}"),
    }
    assert!(matches!(WriteOp::new().operate(&io(), "\0"), Err(RadosError::Nul(_))));
}

/// An op with two guards and something between them.
fn guarded() -> (WriteCall, [CmpHandle; 2]) {
    let mut op = WriteOp::new();
    let first = op.omap_cmp(b"epoch", CMPXATTR_OP_EQ, b"1");
    op.cmpxattr("x", CMPXATTR_OP_EQ, b"y").unwrap();
    let second = op.omap_cmp(b"rev", CMPXATTR_OP_EQ, b"8");
    op.omap_set(&[(b"rev", b"99")]);
    (op.operate_report(&io(), "omap_cmp").unwrap(), [first, second])
}

#[test]
fn the_guard_that_failed_is_named() {
    let (call, handles) = guarded();
    assert_eq!(call.cmps, 2);
    assert_ne!(handles[0], handles[1]);
    let canceled = -libc::ECANCELED;
    for (results, index) in [([canceled, 0], 0), ([0, canceled], 1)] {
        let err = call.report(canceled, &results).unwrap_err();
        assert_eq!(err.error, RadosError::Rados(libc::ECANCELED));
        assert_eq!(err.failed_cmp, Some(handles[index]));
        assert_eq!(
            call.complete(canceled, &results),
            Err(RadosError::Rados(libc::ECANCELED))
        );
    }
}

#[test]
fn a_failure_without_a_failed_guard_names_none() {
    let (call, _) = guarded();
    let err = call.report(-libc::ECANCELED, &[0, 0]).unwrap_err();
    assert_eq!(err.failed_cmp, None);
    let err = call.report(-libc::EEXIST, &[0, 0]).unwrap_err();
    assert_eq!(err, WriteError { error: RadosError::AlreadyExists, failed_cmp: None });
    // What the comparisons say matters only where the op failed.
    assert_eq!(call.report(0, &[0, 5]), Ok(()));
}

#[test]
fn the_first_rejection_counts() {
    let (_, handles) = guarded();
    assert_eq!(first_rejection(&[]), None);
    assert_eq!(first_rejection(&[0, 0, 0]), None);
    assert_eq!(first_rejection(&[-125, 3]), Some(handles[0]));
    assert_eq!(first_rejection(&[0, 1, -1]), Some(handles[1]));
}

#[test]
fn an_asserted_version_fails_as_the_osd_says() {
    let mut op = WriteOp::new();
    op.assert_version(4);
    op.write_full(b"v3");
    let call = op.operate(&io(), "assert_version").unwrap();
    assert_eq!(
        call.complete(-libc::ERANGE, &[]),
        Err(RadosError::Rados(libc::ERANGE))
    );
    assert_eq!(
        call.complete(-libc::EOVERFLOW, &[]),
        Err(RadosError::Rados(libc::EOVERFLOW))
    );
    assert_eq!(call.complete(0, &[]), Ok(()));
}

#[test]
fn each_comparison_has_its_place_among_the_results() {
    let (call, handles) = guarded();
    assert_eq!(call.result_places(), vec![Some(0), None, Some(1), None]);
    for (step, handle) in [(0, handles[0]), (2, handles[1])] {
        let mut results = vec![0; call.cmps];
        results[call.result_places()[step].unwrap()] = -libc::ECANCELED;
        assert_eq!(first_rejection(&results), Some(handle));
    }
    let none = WriteOp::new().operate(&io(), "o").unwrap();
    assert_eq!(none.result_places(), Vec::new());
}
