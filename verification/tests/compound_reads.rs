//! The steps of a compound read, and the results it brings back.

use librados::error::RadosError;
use librados::omap::OmapIter;
use librados::read_op::{
    OmapKeysStep, OmapValsStep, ReadCall, ReadStep, ReadStepData, SingleRead, StepSlots,
};
use librados::{CString, IoCtx, OmapKeys, OmapPage, OpNumbers, Rados, ReadOp, ReadResults};

fn c(s: &str) -> CString {
    CString::new(s.as_bytes()).unwrap()
}

fn io() -> IoCtx {
    let rados = Rados::create().created(0, 77).unwrap();
    rados.create_ioctx("pool").unwrap().opened(0, 9).unwrap()
}

fn iter(pairs: &[(&[u8], &[u8])]) -> OmapIter {
    let mut iter = OmapIter::empty();
    for (k, v) in pairs {
        let value = if v.is_empty() { None } else { Some(v.to_vec()) };
        assert!(iter.advance(Some(k.to_vec()), value));
    }
    assert!(!iter.advance(None, None));
    iter
}

fn data(bytes: &[u8], room: usize, prval: i32) -> StepSlots {
    let mut buf = bytes.to_vec();
    buf.resize(room, 0);
    StepSlots::Data(ReadStepData { buf, bytes_read: bytes.len(), prval })
}

fn vals(pairs: &[(&[u8], &[u8])], more: u8, prval: i32) -> StepSlots {
    StepSlots::Vals(OmapValsStep { iter: iter(pairs), more, prval })
}

fn keys(pairs: &[(&[u8], &[u8])], more: u8, prval: i32) -> StepSlots {
    StepSlots::Keys(OmapKeysStep { iter: iter(pairs), more, prval })
}

/// The slots of a call that ran none of its steps.
fn untouched(call: &ReadCall) -> Vec<StepSlots> {
    call.steps.iter().filter_map(|step| step.slots()).collect()
}

#[test]
fn read_steps_keep_their_order() {
    let mut op = ReadOp::new(&mut OpNumbers::new());
    op.assert_version(3);
    op.read(4, 64);
    op.omap_get_vals(None, None, 16).unwrap();
    op.omap_get_vals(Some(b"\x80"), Some("pre"), 1).unwrap();
    op.omap_get_keys(Some(b"key00999"), 1500).unwrap();
    op.omap_get_vals_by_keys(&[b"with\0nul", b""]);
    let call = op.operate(&io(), "compound").unwrap();
    assert_eq!(call.ioctx, 9);
    assert_eq!(call.oid, c("compound"));
    assert_eq!(
        call.steps,
        vec![
            ReadStep::AssertVersion { ver: 3 },
            ReadStep::Read { offset: 4, len: 64 },
            ReadStep::OmapGetVals { start_after: None, filter_prefix: None, max_return: 16 },
            ReadStep::OmapGetVals {
                start_after: Some(CString::new(b"\x80").unwrap()),
                filter_prefix: Some(c("pre")),
                max_return: 1,
            },
            ReadStep::OmapGetKeys { start_after: Some(c("key00999")), max_return: 1500 },
            ReadStep::OmapGetValsByKeys { keys: vec![b"with\0nul".to_vec(), Vec::new()] },
        ]
    );
}

#[test]
fn results_arrive_under_their_handles() {
    let mut op = ReadOp::new(&mut OpNumbers::new());
    op.assert_version(3);
    let first = op.read(0, 64);
    let page = op.omap_get_vals(None, None, 16).unwrap();
    let listed = op.omap_get_keys(None, 16).unwrap();
    let second = op.read(8, 4);
    let call = op.operate(&io(), "compound").unwrap();
    let slots = vec![
        data(b"abcdefghijkl", 64, 0),
        vals(&[(b"ck", b"cv"), (b"a", b"")], 0, 0),
        keys(&[(b"z", b"1"), (b"b", b"2")], 1, 3),
        data(b"ijkl", 4, 0),
    ];
    let mut results = call.complete(0, slots).unwrap();
    assert_eq!(results.prvals(), vec![Some(0), Some(0), Some(3), Some(0)]);

    // The order of taking is free.
    assert_eq!(results.take(second), Ok(b"ijkl".to_vec()));
    let page: OmapPage = results.take(page).unwrap();
    assert!(!page.more);
    assert_eq!(page.entries.len(), 2);
    assert_eq!(page.entries.get(b"ck").map(Vec::as_slice), Some(&b"cv"[..]));
    assert_eq!(page.entries.get(b"a").map(Vec::as_slice), Some(&b""[..]));
    assert_eq!(results.prvals(), vec![Some(0), None, Some(3), None]);
    let listed: OmapKeys = results.take(listed).unwrap();
    assert!(listed.more);
    assert_eq!(listed.keys.to_vec(), vec![b"b".to_vec(), b"z".to_vec()]);
    assert_eq!(results.take(first), Ok(b"abcdefghijkl".to_vec()));
    assert_eq!(results.prvals(), vec![None, None, None, None]);
    assert!(results.is_taken(first) && results.is_taken(second));
}

#[test]
fn a_failed_read_has_no_results() {
    let mut op = ReadOp::new(&mut OpNumbers::new());
    op.read(0, 64);
    let call = op.operate(&io(), "no_such_object").unwrap();
    assert_eq!(call.complete(-2, Vec::new()), Err(RadosError::NotFound));
    let mut op = ReadOp::new(&mut OpNumbers::new());
    op.assert_version(1);
    op.read(0, 8);
    let call = op.operate(&io(), "o").unwrap();
    assert_eq!(
        call.complete(-libc::ERANGE, Vec::new()),
        Err(RadosError::Rados(libc::ERANGE))
    );
}

#[test]
fn a_failed_step_fails_when_its_result_is_taken() {
    let mut op = ReadOp::new(&mut OpNumbers::new());
    let bad = op.read(0, 4);
    let good = op.read(0, 4);
    let call = op.operate(&io(), "o").unwrap();
    let slots = vec![data(b"", 4, -libc::EIO), data(b"ok", 4, 0)];
    let mut results = call.complete(0, slots).unwrap();
    assert_eq!(results.take(bad), Err(RadosError::Rados(libc::EIO)));
    assert!(results.is_taken(bad));
    assert_eq!(results.take(good), Ok(b"ok".to_vec()));
}

#[test]
fn a_step_that_did_not_run_yields_nothing() {
    let mut op = ReadOp::new(&mut OpNumbers::new());
    let bytes = op.read(0, 4);
    let page = op.omap_get_vals(None, None, 4).unwrap();
    let listed = op.omap_get_keys(None, 4).unwrap();
    let by_keys = op.omap_get_vals_by_keys(&[b"k"]);
    let call = op.operate(&io(), "o").unwrap();
    let slots = untouched(&call);
    assert_eq!(slots[0], data(b"", 4, 0));
    let mut results: ReadResults = call.complete(0, slots).unwrap();
    assert_eq!(results.take(bytes), Ok(Vec::new()));
    let page = results.take(page).unwrap();
    assert!(page.entries.is_empty() && !page.more);
    let listed = results.take(listed).unwrap();
    assert!(listed.keys.is_empty() && !listed.more);
    let by_keys = results.take(by_keys).unwrap();
    assert!(by_keys.entries.is_empty() && !by_keys.more);
}

#[test]
fn a_handle_of_another_op_is_refused() {
    let mut numbers = OpNumbers::new();
    let mut first = ReadOp::new(&mut numbers);
    let first_handle = first.read(0, 4);
    let _between = ReadOp::new(&mut numbers);
    let mut second = ReadOp::new(&mut numbers);
    let second_handle = second.read(0, 4);
    let call = first.operate(&io(), "o").unwrap();
    let mut first_results = call.complete(0, vec![data(b"abcd", 4, 0)]).unwrap();
    let call = second.operate(&io(), "o").unwrap();
    let mut second_results = call.complete(0, vec![data(b"wxyz", 4, 0)]).unwrap();
    // The same kind and the same place, and still refused, whichever op came first.
    assert!(!first_results.is_taken(second_handle));
    assert_eq!(first_results.take(second_handle), Err(RadosError::InvalidHandle));
    assert_eq!(second_results.take(first_handle), Err(RadosError::InvalidHandle));
    assert_eq!(first_results.take(first_handle), Ok(b"abcd".to_vec()));
    // It stays refused after the result in the same place was taken.
    assert_eq!(first_results.take(second_handle), Err(RadosError::InvalidHandle));
    assert_eq!(second_results.take(second_handle), Ok(b"wxyz".to_vec()));
}

#[test]
fn a_handle_that_cannot_be_one_of_the_op_is_refused() {
    let mut numbers = OpNumbers::new();
    assert!(numbers.has_next());
    let mut mine = ReadOp::new(&mut numbers);
    let own = mine.read(0, 4);
    let mut other = ReadOp::new(&mut numbers);
    let wrong_kind = other.omap_get_keys(None, 1).unwrap();
    let out_of_range = other.read(0, 4);
    let call = mine.operate(&io(), "o").unwrap();
    let mut results = call.complete(0, vec![data(b"abcd", 4, 0)]).unwrap();
    assert_eq!(results.take(wrong_kind), Err(RadosError::InvalidHandle));
    assert_eq!(results.take(out_of_range), Err(RadosError::InvalidHandle));
    assert_eq!(results.take(own), Ok(b"abcd".to_vec()));
}

#[test]
fn bytes_read_beyond_the_buffer_are_not_there() {
    let slots = StepSlots::Data(ReadStepData { buf: vec![1, 2], bytes_read: 5, prval: 0 });
    let mut op = ReadOp::new(&mut OpNumbers::new());
    let handle = op.read(0, 2);
    let call = op.operate(&io(), "o").unwrap();
    let mut results = call.complete(0, vec![slots]).unwrap();
    assert_eq!(results.take(handle), Ok(vec![1, 2]));
}

#[test]
fn a_cursor_with_a_nul_is_refused_and_adds_no_step() {
    let mut op = ReadOp::new(&mut OpNumbers::new());
    let position = |err: RadosError| match err {
        RadosError::Nul(e) => e.nul_position(),
        other => panic!("{other:?}"),
    };
    assert_eq!(position(op.omap_get_vals(Some(b"with\0nul"), Some("\0"), 1).unwrap_err()), 4);
    assert_eq!(position(op.omap_get_vals(Some(b"fine"), Some("pre\0"), 1).unwrap_err()), 3);
    assert_eq!(position(op.omap_get_vals(None, Some("\0"), 1).unwrap_err()), 0);
    assert_eq!(position(op.omap_get_keys(Some(b"\0"), 1).unwrap_err()), 0);
    assert_eq!(op, ReadOp::new(&mut OpNumbers::new()));
    assert_eq!(
        position(io().omap_get_vals("o\0", Some(b"ab\0"), None, 1).unwrap_err()),
        2
    );
    assert_eq!(position(io().omap_get_keys("o\0", Some(b"\0"), 1).unwrap_err()), 0);
}

#[test]
fn single_omap_reads_yield_their_one_result() {
    let io = io();
    let read: SingleRead<OmapPage> = io.omap_get_vals("o", None, None, 100).unwrap();
    assert_eq!(
        read.call().steps,
        vec![ReadStep::OmapGetVals { start_after: None, filter_prefix: None, max_return: 100 }]
    );
    let page = read.complete(0, vec![vals(&[(b"k", b"v")], 1, 0)]).unwrap();
    assert!(page.more);
    assert_eq!(page.entries.get(b"k").map(Vec::as_slice), Some(&b"v"[..]));

    let read = io.omap_get_keys("o", Some(b"a"), 5).unwrap();
    assert_eq!(
        read.call().steps,
        vec![ReadStep::OmapGetKeys { start_after: Some(c("a")), max_return: 5 }]
    );
    let listed = read.complete(0, vec![keys(&[(b"k", b"")], 0, 0)]).unwrap();
    assert!(!listed.more && listed.keys.contains(b"k"));

    let read = io.omap_get_vals_by_keys("o", &[b"k", b"absent"]).unwrap();
    assert_eq!(
        read.call().steps,
        vec![ReadStep::OmapGetValsByKeys { keys: vec![b"k".to_vec(), b"absent".to_vec()] }]
    );
    let page = read.complete(0, vec![vals(&[(b"k", b"v")], 0, 0)]).unwrap();
    assert!(!page.more);
    assert_eq!(page.entries.len(), 1);
}

#[test]
fn single_omap_reads_fail_as_the_call_or_the_step_did() {
    let io = io();
    let read = io.omap_get_vals("no_such_object", None, None, 100).unwrap();
    assert_eq!(read.complete(-2, Vec::new()), Err(RadosError::NotFound));
    let read = io.omap_get_keys("o", None, 100).unwrap();
    assert_eq!(
        read.complete(0, vec![keys(&[], 0, -libc::EIO)]),
        Err(RadosError::Rados(libc::EIO))
    );
}

#[test]
fn a_value_that_is_null_is_empty() {
    let mut iter = OmapIter::empty();
    assert!(iter.advance(Some(b"k".to_vec()), None));
    assert!(iter.advance(Some(b"l".to_vec()), Some(b"v".to_vec())));
    assert!(!iter.advance(None, Some(b"ignored".to_vec())));
    assert_eq!(
        iter.pairs(),
        vec![(b"k".to_vec(), Vec::new()), (b"l".to_vec(), b"v".to_vec())]
    );
}

#[test]
fn pages_are_read_one_after_the_other() {
    // An omap of three keys, of which each page returns one.
    let all: [(&[u8], &[u8]); 3] = [(b"\x80", b"a"), (b"\x81", b"b"), (b"\x82", b"c")];
    let io = io();
    let mut cursor: Option<Vec<u8>> = None;
    let mut seen: Vec<Vec<u8>> = Vec::new();
    loop {
        let read = io.omap_get_keys("o", cursor.as_deref(), 1).unwrap();
        let after: Vec<(&[u8], &[u8])> = all
            .iter()
            .filter(|(k, _)| cursor.as_deref().is_none_or(|c| *k > c))
            .cloned()
            .collect();
        let more = if after.len() > 1 { 1 } else { 0 };
        let page = read.complete(0, vec![keys(&after[..1], more, 0)]).unwrap();
        let last = page.keys.last().unwrap().clone();
        assert!(!seen.contains(&last));
        seen.push(last.clone());
        cursor = Some(last);
        if !page.more {
            break;
        }
    }
    assert_eq!(seen, vec![b"\x80".to_vec(), b"\x81".to_vec(), b"\x82".to_vec()]);
}
