//! Whole operations, carried out on objects in memory.

use librados::conn::ClusterCall;
use librados::error::RadosError;
use librados::ioctx::IoCall;
use librados::omap::OmapIter;
use librados::read_op::{ReadCall, ReadStep, SingleRead, StepSlots, StepValue};
use librados::write_op::{WriteCall, WriteStep};
use librados::{
    CString, IoCtx, Next, OmapKeys, OmapPage, OpNumbers, Rados, ReadOp, WriteError, WriteOp,
    CMPXATTR_OP_EQ,
};
use std::collections::BTreeMap;

#[derive(Clone, Default)]
struct Object {
    data: Vec<u8>,
    omap: BTreeMap<Vec<u8>, Vec<u8>>,
    xattrs: BTreeMap<Vec<u8>, Vec<u8>>,
    version: u64,
}

/// The objects of one pool, with an OSD that returns at most `cap` omap keys in a page.
struct Pool {
    io: IoCtx,
    objects: BTreeMap<Vec<u8>, Object>,
    cap: usize,
}

fn name(s: &CString) -> Vec<u8> {
    let bytes = s.as_bytes_with_nul();
    bytes[..bytes.len() - 1].to_vec()
}

fn optional(s: &Option<CString>) -> Vec<u8> {
    s.as_ref().map(name).unwrap_or_default()
}

fn put(data: &mut Vec<u8>, bytes: &[u8], offset: usize) {
    if data.len() < offset + bytes.len() {
        data.resize(offset + bytes.len(), 0);
    }
    data[offset..offset + bytes.len()].copy_from_slice(bytes);
}

fn fill(iter: &mut OmapIter, pairs: &[(Vec<u8>, Vec<u8>)]) {
    for (k, v) in pairs {
        let value = if v.is_empty() { None } else { Some(v.clone()) };
        assert!(iter.advance(Some(k.clone()), value));
    }
    assert!(!iter.advance(None, None));
}

impl Pool {
    fn new() -> Pool {
        let rados = Rados::with_id("admin").unwrap().created(0, 1).unwrap();
        let io = rados.create_ioctx("pool").unwrap().opened(0, 2).unwrap();
        Pool { io, objects: BTreeMap::new(), cap: 1024 }
    }

    /// Runs a compound write: all of its steps, or none.
    fn run_write(&mut self, call: &WriteCall) -> (i32, Vec<i32>) {
        let oid = name(&call.oid);
        let mut results = vec![0; call.cmps];
        let mut cmp = 0;
        let mut exists = self.objects.contains_key(&oid);
        let mut object = self.objects.get(&oid).cloned().unwrap_or_default();
        let mut kept = true;
        for step in &call.steps {
            match step {
                WriteStep::AssertVersion { ver } if *ver < object.version => {
                    return (-libc::ERANGE, results)
                }
                WriteStep::AssertVersion { ver } if *ver > object.version => {
                    return (-libc::EOVERFLOW, results)
                }
                WriteStep::AssertVersion { .. } => {}
                WriteStep::AssertExists if !exists => return (-libc::ENOENT, results),
                WriteStep::AssertExists => {}
                WriteStep::Create { mode } if *mode == 1 && exists => {
                    return (-libc::EEXIST, results)
                }
                WriteStep::Create { .. } => exists = true,
                WriteStep::Write { data, offset } => put(&mut object.data, data, *offset as usize),
                WriteStep::WriteFull { data } => object.data = data.clone(),
                WriteStep::Append { data } => object.data.extend_from_slice(data),
                WriteStep::Remove => kept = false,
                WriteStep::Truncate { offset } => object.data.resize(*offset as usize, 0),
                WriteStep::OmapSet { entries } => object.omap.extend(entries.iter().cloned()),
                WriteStep::OmapRmKeys { keys } => {
                    for key in keys {
                        object.omap.remove(key);
                    }
                }
                WriteStep::SetXattr { name: attr, value } => {
                    object.xattrs.insert(name(attr), value.clone());
                }
                WriteStep::CmpXattr { name: attr, op, value } => {
                    assert_eq!(*op, CMPXATTR_OP_EQ);
                    if object.xattrs.get(&name(attr)) != Some(value) {
                        return (-libc::ECANCELED, results);
                    }
                }
                WriteStep::OmapCmp { key, op, value } => {
                    assert_eq!(*op, CMPXATTR_OP_EQ);
                    if object.omap.get(key).cloned().unwrap_or_default() != *value {
                        results[cmp] = -libc::ECANCELED;
                        return (-libc::ECANCELED, results);
                    }
                    cmp += 1;
                }
                WriteStep::OmapRmRange { begin, end } => {
                    object.omap.retain(|k, _| k < begin || k >= end);
                }
                WriteStep::OmapClear => object.omap.clear(),
            }
        }
        object.version += 1;
        if kept {
            self.objects.insert(oid, object);
        } else {
            self.objects.remove(&oid);
        }
        (0, results)
    }

    fn report(&mut self, op: WriteOp, oid: &str) -> Result<(), WriteError> {
        let call = op.operate_report(&self.io, oid)?;
        let (ret, results) = self.run_write(&call);
        call.report(ret, &results)
    }

    fn write(&mut self, op: WriteOp, oid: &str) -> Result<(), RadosError> {
        let call = op.operate(&self.io, oid)?;
        self.complete(Ok(call))
    }

    fn complete(&mut self, call: Result<WriteCall, RadosError>) -> Result<(), RadosError> {
        let call = call?;
        let (ret, results) = self.run_write(&call);
        call.complete(ret, &results)
    }

    /// The keys after `start` with their values, as far as a page goes.
    fn page(
        &self,
        object: &Object,
        start: &[u8],
        prefix: &[u8],
        max: u64,
    ) -> (Vec<(Vec<u8>, Vec<u8>)>, u8) {
        let all: Vec<_> = object
            .omap
            .iter()
            .filter(|(k, _)| k.as_slice() > start && k.starts_with(prefix))
            .map(|(k, v)| (k.clone(), v.clone()))
            .collect();
        let n = all.len().min(self.cap).min(max as usize);
        let more = if n < all.len() { 1 } else { 0 };
        (all[..n].to_vec(), more)
    }

    fn run_read(&self, call: &ReadCall) -> (i32, Vec<StepSlots>) {
        let mut slots = Vec::new();
        let object = match self.objects.get(&name(&call.oid)) {
            Some(object) => object,
            None => return (-libc::ENOENT, Vec::new()),
        };
        for step in &call.steps {
            match (step, step.slots()) {
                (ReadStep::AssertVersion { ver }, _) => {
                    if *ver < object.version {
                        return (-libc::ERANGE, Vec::new());
                    }
                }
                (ReadStep::Read { offset, len }, Some(StepSlots::Data(mut d))) => {
                    let from = (*offset as usize).min(object.data.len());
                    let n = (object.data.len() - from).min(*len);
                    d.buf[..n].copy_from_slice(&object.data[from..from + n]);
                    d.bytes_read = n;
                    slots.push(StepSlots::Data(d));
                }
                (
                    ReadStep::OmapGetVals { start_after, filter_prefix, max_return },
                    Some(StepSlots::Vals(mut v)),
                ) => {
                    let (pairs, more) = self.page(
                        object,
                        &optional(start_after),
                        &optional(filter_prefix),
                        *max_return,
                    );
                    fill(&mut v.iter, &pairs);
                    v.more = more;
                    slots.push(StepSlots::Vals(v));
                }
                (ReadStep::OmapGetKeys { start_after, max_return }, Some(StepSlots::Keys(mut k))) => {
                    let (pairs, more) = self.page(object, &optional(start_after), b"", *max_return);
                    fill(&mut k.iter, &pairs);
                    k.more = more;
                    slots.push(StepSlots::Keys(k));
                }
                (ReadStep::OmapGetValsByKeys { keys }, Some(StepSlots::Vals(mut v))) => {
                    let pairs: Vec<_> = keys
                        .iter()
                        .filter_map(|k| object.omap.get(k).map(|v| (k.clone(), v.clone())))
                        .collect();
                    fill(&mut v.iter, &pairs);
                    slots.push(StepSlots::Vals(v));
                }
                (step, slots) => panic!("{step:?} has the slots {slots:?}"),
            }
        }
        (0, slots)
    }

    fn single<T: StepValue>(
        &self,
        read: Result<SingleRead<T>, RadosError>,
    ) -> Result<T, RadosError> {
        let read = read?;
        let (ret, slots) = self.run_read(read.call());
        read.complete(ret, slots)
    }

    fn get_keys(&self, oid: &str, start: Option<&[u8]>, max: u64) -> Result<OmapKeys, RadosError> {
        self.single(self.io.omap_get_keys(oid, start, max))
    }

    fn get_vals(&self, oid: &str, start: Option<&[u8]>, max: u64) -> Result<OmapPage, RadosError> {
        self.single(self.io.omap_get_vals(oid, start, None, max))
    }

    fn value(&self, oid: &str, key: &[u8]) -> Option<Vec<u8>> {
        self.single(self.io.omap_get_vals_by_keys(oid, &[key])).unwrap().entries.remove(key)
    }

    fn perform(&mut self, call: Result<IoCall<'_>, RadosError>) -> Result<(), RadosError> {
        let call = call?;
        let ret = match &call {
            IoCall::Write { oid, data, offset, .. } => {
                put(&mut self.objects.entry(name(oid)).or_default().data, data, *offset as usize);
                0
            }
            IoCall::WriteFull { oid, data, .. } => {
                self.objects.entry(name(oid)).or_default().data = data.to_vec();
                0
            }
            IoCall::Append { oid, data, .. } => {
                self.objects.entry(name(oid)).or_default().data.extend_from_slice(data);
                0
            }
            IoCall::Truncate { oid, size, .. } => match self.objects.get_mut(&name(oid)) {
                Some(object) => {
                    object.data.resize(*size as usize, 0);
                    0
                }
                None => -libc::ENOENT,
            },
            IoCall::Remove { oid, .. } => match self.objects.remove(&name(oid)) {
                Some(_) => 0,
                None => -libc::ENOENT,
            },
            other => panic!("{other:?}"),
        };
        call.complete(ret)
    }

    fn size(&self, oid: &str) -> Result<u64, RadosError> {
        let call = self.io.stat(oid)?;
        let stat = match self.objects.get(&name(&call.oid)) {
            Some(object) => call.complete(0, object.data.len() as u64, 5),
            None => call.complete(-libc::ENOENT, 0, 0),
        };
        stat.map(|s| s.size)
    }

    fn read(&self, oid: &str, buf: &mut [u8]) -> Result<usize, RadosError> {
        let call = self.io.read(oid, buf.len(), 0)?;
        let data = &self.objects[&name(&call.oid)].data;
        let n = data.len().min(call.len);
        buf[..n].copy_from_slice(&data[..n]);
        call.complete(n as i32)
    }

    fn getxattr(&self, oid: &str, attr: &str) -> Result<Vec<u8>, RadosError> {
        let mut call = self.io.getxattr(oid, attr)?;
        loop {
            let value = &self.objects[&name(&call.oid)].xattrs[&name(&call.name)];
            let mut buf = vec![0u8; call.len];
            let ret = if value.len() > buf.len() {
                -libc::ERANGE
            } else {
                buf[..value.len()].copy_from_slice(value);
                value.len() as i32
            };
            match call.step(ret, buf) {
                Next::Again(next) => call = next,
                Next::Done(res) => return res,
            }
        }
    }
}

#[test]
fn objects_hold_what_was_written() {
    let mut pool = Pool::new();
    let io = pool.io.clone();
    let cases: [(&str, &[u8], &[u8]); 3] = [
        ("empty", b"", b""),
        ("text", b"Hello Ceph RADOS from Rust!", b" and again"),
        ("binary", b"\x00\x01\xff\xfe", b"\x00"),
    ];
    for (oid, body, extra) in cases {
        pool.perform(io.write_full(oid, body)).unwrap();
        pool.perform(io.append(oid, extra)).unwrap();
        let expected: Vec<u8> = [body, extra].concat();
        let mut buf = vec![0u8; expected.len() + 8];
        let read = pool.read(oid, &mut buf).unwrap();
        assert_eq!(read, expected.len(), "{oid}");
        assert_eq!(&buf[..read], &expected[..], "{oid}");
        assert_eq!(pool.size(oid), Ok(expected.len() as u64), "{oid}");
        pool.perform(io.truncate(oid, 0)).unwrap();
        assert_eq!(pool.size(oid), Ok(0), "{oid}");
        pool.perform(io.remove(oid)).unwrap();
        assert_eq!(pool.size(oid), Err(RadosError::NotFound), "{oid}");
    }
}

#[test]
fn omap_entries_come_back() {
    let mut pool = Pool::new();
    let io = pool.io.clone();
    let oid = "omap_round_trip";
    let entries: [(&[u8], &[u8]); 4] = [
        (b"plain", b"value"),
        (b"with\0nul", b"nul value"),
        (b"\xff\xfe non utf8", b"\x00\x01\x02"),
        (b"empty value", b""),
    ];
    pool.complete(io.omap_set(oid, &entries)).unwrap();

    let keys: Vec<&[u8]> = entries.iter().map(|(k, _)| *k).collect();
    let by_keys = pool.single(io.omap_get_vals_by_keys(oid, &keys)).unwrap();
    assert!(!by_keys.more);
    let page = pool.get_vals(oid, None, 100).unwrap();
    assert!(!page.more);
    assert_eq!(page.entries.len(), entries.len());
    let listed = pool.get_keys(oid, None, 100).unwrap();
    assert!(!listed.more);
    assert_eq!(listed.keys.len(), entries.len());
    for (key, val) in entries {
        assert_eq!(by_keys.entries.get(key).map(Vec::as_slice), Some(val));
        assert_eq!(page.entries.get(key).map(Vec::as_slice), Some(val));
        assert!(listed.keys.contains(key), "{key:?}");
    }

    let binary_oid = "binary_omap_cursor";
    pool.complete(io.omap_set(binary_oid, &[(b"\x80", b"a"), (b"\x81", b"b")])).unwrap();
    let first = pool.get_vals(binary_oid, None, 1).unwrap();
    let cursor = first.entries.last_key_value().unwrap().0;
    let second = pool.get_vals(binary_oid, Some(cursor), 1).unwrap();
    assert_eq!(second.entries.as_slice()[0].0, b"\x81");

    pool.complete(io.omap_rm_keys(oid, &[b"with\0nul"])).unwrap();
    let after = pool.get_keys(oid, None, 100).unwrap();
    assert_eq!(after.keys.len(), entries.len() - 1);
    assert!(!after.keys.contains(b"with\0nul"));
    pool.complete(io.omap_clear(oid)).unwrap();
    assert!(pool.get_keys(oid, None, 100).unwrap().keys.is_empty());
    assert_eq!(pool.get_vals("no_such_object", None, 100), Err(RadosError::NotFound));
}

#[test]
fn the_empty_key_is_read_by_keys_alone() {
    let mut pool = Pool::new();
    let io = pool.io.clone();
    pool.complete(io.omap_set("o", &[(b"", b"hidden"), (b"k", b"v")])).unwrap();
    assert_eq!(pool.get_keys("o", None, 10).unwrap().keys.to_vec(), vec![b"k".to_vec()]);
    assert_eq!(pool.value("o", b"").as_deref(), Some(&b"hidden"[..]));
}

#[test]
fn pages_bring_every_key() {
    let mut pool = Pool::new();
    let io = pool.io.clone();
    let oid = "omap_pages";
    let total = 1500;
    let keys: Vec<String> = (0..total).map(|i| format!("key{i:05}")).collect();
    for batch in keys.chunks(300) {
        let entries: Vec<(&[u8], &[u8])> =
            batch.iter().map(|k| (k.as_bytes(), &b"v"[..])).collect();
        pool.complete(io.omap_set(oid, &entries)).unwrap();
    }
    let mut page = pool.get_keys(oid, None, total as u64).unwrap();
    assert!(page.more);
    assert!(page.keys.len() < total);
    let mut seen = page.keys.to_vec();
    while page.more {
        let last = page.keys.last().unwrap().clone();
        page = pool.get_keys(oid, Some(&last), total as u64).unwrap();
        seen.extend(page.keys.to_vec());
    }
    let expected: Vec<Vec<u8>> = keys.iter().map(|k| k.as_bytes().to_vec()).collect();
    assert_eq!(seen, expected);
}

#[test]
fn compound_steps_are_applied_in_their_order() {
    let mut pool = Pool::new();
    let oid = "compound";
    let mut write = WriteOp::new();
    write.write_full(b"abcdefgh");
    write.append(b"ijkl");
    write.omap_set(&[(b"ck", b"cv")]);
    pool.write(write, oid).unwrap();

    let mut read = ReadOp::new(&mut OpNumbers::new());
    let data = read.read(0, 64);
    let vals = read.omap_get_vals(None, None, 16).unwrap();
    let call = read.operate(&pool.io, oid).unwrap();
    let (ret, slots) = pool.run_read(&call);
    let mut results = call.complete(ret, slots).unwrap();
    assert_eq!(results.take(data).unwrap(), b"abcdefghijkl");
    let page = results.take(vals).unwrap();
    assert_eq!(page.entries.get(b"ck").map(Vec::as_slice), Some(&b"cv"[..]));

    let mut absent = ReadOp::new(&mut OpNumbers::new());
    let _ = absent.read(0, 64);
    let call = absent.operate(&pool.io, "no_such_object").unwrap();
    let (ret, slots) = pool.run_read(&call);
    assert_eq!(call.complete(ret, slots), Err(RadosError::NotFound));
}

#[test]
fn a_failed_guard_is_named_and_nothing_is_written() {
    let mut pool = Pool::new();
    let io = pool.io.clone();
    let oid = "omap_cmp";
    pool.complete(io.omap_set(oid, &[(b"epoch", b"1"), (b"rev", b"7")])).unwrap();
    let mut op = WriteOp::new();
    op.omap_cmp(b"epoch", CMPXATTR_OP_EQ, b"1");
    op.omap_set(&[(b"rev", b"8")]);
    pool.report(op, oid).unwrap();
    assert_eq!(pool.value(oid, b"rev").as_deref(), Some(&b"8"[..]));

    let cases: [(&str, &[u8], &[u8], usize); 2] =
        [("first fails", b"9", b"8", 0), ("second fails", b"1", b"9", 1)];
    for (what, epoch, rev, index) in cases {
        let mut op = WriteOp::new();
        let handles = [
            op.omap_cmp(b"epoch", CMPXATTR_OP_EQ, epoch),
            op.omap_cmp(b"rev", CMPXATTR_OP_EQ, rev),
        ];
        op.omap_set(&[(b"rev", b"99")]);
        let err = pool.report(op, oid).unwrap_err();
        assert_eq!(err.error, RadosError::Rados(libc::ECANCELED), "{what}");
        assert_eq!(err.failed_cmp, Some(handles[index]), "{what}");
        assert_eq!(pool.value(oid, b"rev").as_deref(), Some(&b"8"[..]), "{what}");
    }

    let mut op = WriteOp::new();
    op.omap_cmp(b"absent", CMPXATTR_OP_EQ, b"");
    op.omap_set(&[(b"mark", b"set")]);
    pool.report(op, oid).unwrap();
    let mut op = WriteOp::new();
    let guard = op.omap_cmp(b"absent", CMPXATTR_OP_EQ, b"x");
    op.omap_set(&[(b"mark", b"again")]);
    assert_eq!(pool.report(op, oid).unwrap_err().failed_cmp, Some(guard));
    assert_eq!(pool.value(oid, b"mark").as_deref(), Some(&b"set"[..]));
}

#[test]
fn an_asserted_version_pins_the_object() {
    let mut pool = Pool::new();
    let oid = "assert_version";
    let write = |pool: &mut Pool, ver: Option<u64>, data: &[u8]| {
        let mut op = WriteOp::new();
        if let Some(ver) = ver {
            op.assert_version(ver);
        }
        op.write_full(data);
        pool.write(op, oid)
    };
    write(&mut pool, None, b"v1").unwrap();
    write(&mut pool, Some(1), b"v2").unwrap();
    assert_eq!(write(&mut pool, Some(1), b"v3"), Err(RadosError::Rados(libc::ERANGE)));
    assert_eq!(write(&mut pool, Some(3), b"v3"), Err(RadosError::Rados(libc::EOVERFLOW)));
    let mut buf = vec![0u8; 8];
    let n = pool.read(oid, &mut buf).unwrap();
    assert_eq!(&buf[..n], b"v2");

    let mut read = ReadOp::new(&mut OpNumbers::new());
    read.assert_version(1);
    let _ = read.read(0, 8);
    let call = read.operate(&pool.io, oid).unwrap();
    let (ret, slots) = pool.run_read(&call);
    assert_eq!(call.complete(ret, slots), Err(RadosError::Rados(libc::ERANGE)));
}

#[test]
fn an_exclusive_create_fails_on_an_existing_object() {
    let mut pool = Pool::new();
    let create = |pool: &mut Pool, exclusive: bool, data: &[u8]| {
        let mut op = WriteOp::new();
        op.create(exclusive);
        op.write_full(data);
        pool.write(op, "created")
    };
    create(&mut pool, true, b"first").unwrap();
    assert_eq!(create(&mut pool, true, b"second"), Err(RadosError::AlreadyExists));
    let mut buf = vec![0u8; 16];
    let n = pool.read("created", &mut buf).unwrap();
    assert_eq!(&buf[..n], b"first");
    create(&mut pool, false, b"third").unwrap();

    let mut op = WriteOp::new();
    op.assert_exists();
    op.write_full(b"x");
    assert_eq!(pool.write(op, "no_such_object"), Err(RadosError::NotFound));
}

#[test]
fn xattrs_of_every_size_come_back() {
    let mut pool = Pool::new();
    let oid = "xattrs";
    let big = vec![0xab_u8; 4096];
    let cases: [(&str, &[u8]); 4] = [
        ("plain", b"value"),
        ("binary", b"\x00\x01\xff\x00"),
        ("empty", b""),
        ("big", &big),
    ];
    for (attr, value) in cases {
        let mut op = WriteOp::new();
        op.setxattr(attr, value).unwrap();
        pool.write(op, oid).unwrap();
        assert_eq!(pool.getxattr(oid, attr).unwrap(), value, "{attr}");
    }
    let mut op = WriteOp::new();
    op.cmpxattr("plain", CMPXATTR_OP_EQ, b"wrong").unwrap();
    op.write_full(b"must not land");
    assert_eq!(pool.write(op, oid), Err(RadosError::Rados(libc::ECANCELED)));
    assert_eq!(pool.size(oid), Ok(0));
}

#[test]
fn a_removed_range_is_half_open() {
    let mut pool = Pool::new();
    let io = pool.io.clone();
    let entries: [(&[u8], &[u8]); 5] =
        [(b"a", b"1"), (b"b", b"2"), (b"c", b"3"), (b"d", b"4"), (b"e", b"5")];
    pool.complete(io.omap_set("rm_range", &entries)).unwrap();
    let mut op = WriteOp::new();
    op.omap_rm_range(b"b", b"d");
    pool.write(op, "rm_range").unwrap();
    let keys = pool.get_keys("rm_range", None, 100).unwrap();
    assert_eq!(keys.keys.to_vec(), vec![b"a".to_vec(), b"d".to_vec(), b"e".to_vec()]);
}

/// The pools of a cluster in memory.
fn change(pools: &mut Vec<Vec<u8>>, call: Result<ClusterCall, RadosError>) -> Result<(), RadosError> {
    let call = call?;
    let ret = match &call {
        ClusterCall::PoolCreate { name: pool, .. } if pools.contains(&name(pool)) => -libc::EEXIST,
        ClusterCall::PoolCreate { name: pool, .. } => {
            pools.push(name(pool));
            0
        }
        ClusterCall::PoolDelete { name: pool, .. } => {
            let before = pools.len();
            pools.retain(|p| *p != name(pool));
            if pools.len() < before { 0 } else { -libc::ENOENT }
        }
        other => panic!("{other:?}"),
    };
    call.complete(ret)
}

fn list(pools: &[Vec<u8>], rados: &Rados) -> Vec<String> {
    let mut packed: Vec<u8> = Vec::new();
    for pool in pools {
        packed.extend_from_slice(pool);
        packed.push(0);
    }
    packed.push(0);
    let mut call = rados.list_pools();
    let mut calls = 0;
    loop {
        calls += 1;
        assert!(calls <= 2);
        let mut buf = vec![0u8; call.len];
        let n = packed.len().min(buf.len());
        buf[..n].copy_from_slice(&packed[..n]);
        match call.step(packed.len() as i32 + 1, &buf) {
            Next::Again(next) => call = next,
            Next::Done(names) => return names.unwrap(),
        }
    }
}

#[test]
fn a_pool_is_listed_from_its_creation_to_its_deletion() {
    let rados = Rados::create().created(0, 1).unwrap();
    let mut pools: Vec<Vec<u8>> = Vec::new();
    for i in 0..200 {
        change(&mut pools, rados.create_pool(&format!("pool-{i:04}"))).unwrap();
    }
    let name = "gr\u{fc}n";
    assert!(!list(&pools, &rados).contains(&name.to_string()));
    change(&mut pools, rados.create_pool(name)).unwrap();
    assert_eq!(change(&mut pools, rados.create_pool(name)), Err(RadosError::AlreadyExists));
    let listed = list(&pools, &rados);
    assert!(listed.contains(&name.to_string()));
    assert_eq!(listed.len(), 201);
    change(&mut pools, rados.delete_pool(name)).unwrap();
    assert!(!list(&pools, &rados).contains(&name.to_string()));
    assert_eq!(change(&mut pools, rados.delete_pool(name)), Err(RadosError::NotFound));
}

#[test]
fn a_read_by_keys_brings_the_keys_that_are_held() {
    let mut pool = Pool::new();
    let io = pool.io.clone();
    let entries: [(&[u8], &[u8]); 3] = [(b"", b"e"), (b"n\0l", b"n"), (b"other", b"o")];
    pool.complete(io.omap_set("o", &entries)).unwrap();
    let asked: [&[u8]; 4] = [b"n\0l", b"absent", b"", b"n\0l"];
    let page = pool.single(io.omap_get_vals_by_keys("o", &asked)).unwrap();
    assert!(!page.more);
    assert_eq!(
        page.entries.as_slice().to_vec(),
        vec![(b"".to_vec(), b"e".to_vec()), (b"n\0l".to_vec(), b"n".to_vec())]
    );
}

#[test]
fn values_are_read_page_by_page_within_a_prefix() {
    let mut pool = Pool::new();
    let io = pool.io.clone();
    let entries: [(&[u8], &[u8]); 5] =
        [(b"a1", b"1"), (b"b1", b"2"), (b"b2", b""), (b"b3", b"4"), (b"c1", b"5")];
    pool.complete(io.omap_set("o", &entries)).unwrap();
    let mut seen: Vec<(Vec<u8>, Vec<u8>)> = Vec::new();
    let mut start: Option<Vec<u8>> = None;
    loop {
        let page =
            pool.single(io.omap_get_vals("o", start.as_deref(), Some("b"), 2)).unwrap();
        assert!(page.entries.len() <= 2);
        seen.extend(page.entries.as_slice().iter().cloned());
        if !page.more {
            break;
        }
        start = Some(page.entries.last_key_value().unwrap().0.clone());
    }
    let expected: Vec<(Vec<u8>, Vec<u8>)> =
        entries[1..4].iter().map(|(k, v)| (k.to_vec(), v.to_vec())).collect();
    assert_eq!(seen, expected);
}

#[test]
fn a_write_at_an_offset_is_read_back() {
    let mut pool = Pool::new();
    let mut op = WriteOp::new();
    op.write_full(b"abcdef");
    op.write(b"XY", 2);
    op.write(b"Z", 8);
    op.truncate(10);
    pool.write(op, "o").unwrap();
    let mut read = ReadOp::new(&mut OpNumbers::new());
    let all = read.read(0, 64);
    let part = read.read(2, 3);
    let beyond = read.read(99, 3);
    let call = read.operate(&pool.io, "o").unwrap();
    let (ret, slots) = pool.run_read(&call);
    let mut results = call.complete(ret, slots).unwrap();
    assert_eq!(results.take(all), Ok(b"abXYef\0\0Z\0".to_vec()));
    assert_eq!(results.take(part), Ok(b"XYe".to_vec()));
    assert_eq!(results.take(beyond), Ok(Vec::new()));
}
