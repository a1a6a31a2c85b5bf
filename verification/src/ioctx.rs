//! What is done to the objects of one pool.

use crate::cstring::{c_string, CString};
use crate::duration::TimeVal;
use crate::error::{check_err, RadosError, ERANGE};
use crate::next::Next;
use crate::omap::{OmapKeys, OmapPage};
use crate::read_op::{ReadOp, SingleRead};
use crate::write_op::{WriteCall, WriteOp};
use vstd::prelude::*;

verus! {

/// An open pool: the ioctx that librados gave for it, the cluster handle that the ioctx belongs
/// to, and the pool's name.
#[derive(Debug)]
pub struct IoCtx {
    ioctx: usize,
    cluster: usize,
    pool_name: String,
}

impl Clone for IoCtx {
    fn clone(&self) -> (io: IoCtx)
        ensures
            io == *self,
    {
        IoCtx { ioctx: self.ioctx, cluster: self.cluster, pool_name: self.pool_name.clone() }
    }
}

/// The size of an object and when it was last changed.
#[derive(Debug, Clone, Copy, PartialEq, Eq, Structural)]
pub struct ObjectStat {
    pub size: u64,
    pub mtime: i64,
}

/// A call on an ioctx that brings nothing back but its return value.
#[derive(Debug, PartialEq, Eq)]
pub enum IoCall<'a> {
    Write { ioctx: usize, oid: CString, data: &'a [u8], offset: u64 },
    WriteFull { ioctx: usize, oid: CString, data: &'a [u8] },
    Append { ioctx: usize, oid: CString, data: &'a [u8] },
    Truncate { ioctx: usize, oid: CString, size: u64 },
    Remove { ioctx: usize, oid: CString },
    LockExclusive {
        ioctx: usize,
        oid: CString,
        name: CString,
        cookie: CString,
        desc: CString,
        duration: Option<TimeVal>,
        flags: u8,
    },
    Unlock { ioctx: usize, oid: CString, name: CString, cookie: CString },
    BreakLock { ioctx: usize, oid: CString, name: CString, client: CString, cookie: CString },
}

impl<'a> IoCall<'a> {
    /// What came of the call.
    pub fn complete(&self, ret: i32) -> (res: Result<(), RadosError>)
        requires
            ret != i32::MIN,
        ensures
            res == crate::error::status(ret),
    {
        check_err(ret)
    }
}

impl IoCtx {
    /// The ioctx that the calls of this value go to.
    pub closed spec fn ioctx(&self) -> usize {
        self.ioctx
    }

    /// The cluster handle that the ioctx belongs to.
    pub closed spec fn owner(&self) -> usize {
        self.cluster
    }

    /// The name of the pool.
    pub closed spec fn pool(&self) -> Seq<char> {
        self.pool_name@
    }

    pub(crate) fn new(cluster: usize, ioctx: usize, pool_name: String) -> (io: IoCtx)
        ensures
            io.owner() == cluster,
            io.ioctx() == ioctx,
            io.pool() == pool_name@,
    {
        IoCtx { ioctx, cluster, pool_name }
    }

    /// The name of the pool.
    pub fn pool_name(&self) -> (name: &str)
        ensures
            name@ == self.pool(),
    {
        self.pool_name.as_str()
    }

    /// The ioctx as librados gave it.
    pub fn raw(&self) -> (ioctx: usize)
        ensures
            ioctx == self.ioctx(),
    {
        self.ioctx
    }

    /// The cluster handle as librados gave it.
    pub fn cluster(&self) -> (cluster: usize)
        ensures
            cluster == self.owner(),
    {
        self.cluster
    }

    /// The call that writes `data` at `offset`.
    pub fn write<'a>(&self, oid: &str, data: &'a [u8], offset: u64) -> (res: Result<
        IoCall<'a>,
        RadosError,
    >)
        ensures
            crate::cstring::nul_free(vstd::utf8::encode_utf8(oid@)) ==> {
                &&& res matches Ok(IoCall::Write { ioctx, oid: object, data: bytes, offset: at })
                &&& ioctx == self.ioctx()
                &&& object@ == vstd::utf8::encode_utf8(oid@)
                &&& bytes@ == data@
                &&& at == offset
            },
            !crate::cstring::nul_free(vstd::utf8::encode_utf8(oid@)) ==> crate::error::refuses(
                res,
                vstd::utf8::encode_utf8(oid@),
            ),
    {
        let oid = c_string(oid)?;
        Ok(IoCall::Write { ioctx: self.raw(), oid, data, offset })
    }

    /// The call that replaces what the object holds by `data`.
    pub fn write_full<'a>(&self, oid: &str, data: &'a [u8]) -> (res: Result<IoCall<'a>, RadosError>)
        ensures
            crate::cstring::nul_free(vstd::utf8::encode_utf8(oid@)) ==> {
                &&& res matches Ok(IoCall::WriteFull { ioctx, oid: object, data: bytes })
                &&& ioctx == self.ioctx()
                &&& object@ == vstd::utf8::encode_utf8(oid@)
                &&& bytes@ == data@
            },
            !crate::cstring::nul_free(vstd::utf8::encode_utf8(oid@)) ==> crate::error::refuses(
                res,
                vstd::utf8::encode_utf8(oid@),
            ),
    {
        let oid = c_string(oid)?;
        Ok(IoCall::WriteFull { ioctx: self.raw(), oid, data })
    }

    /// The call that adds `data` at the end of the object.
    pub fn append<'a>(&self, oid: &str, data: &'a [u8]) -> (res: Result<IoCall<'a>, RadosError>)
        ensures
            crate::cstring::nul_free(vstd::utf8::encode_utf8(oid@)) ==> {
                &&& res matches Ok(IoCall::Append { ioctx, oid: object, data: bytes })
                &&& ioctx == self.ioctx()
                &&& object@ == vstd::utf8::encode_utf8(oid@)
                &&& bytes@ == data@
            },
            !crate::cstring::nul_free(vstd::utf8::encode_utf8(oid@)) ==> crate::error::refuses(
                res,
                vstd::utf8::encode_utf8(oid@),
            ),
    {
        let oid = c_string(oid)?;
        Ok(IoCall::Append { ioctx: self.raw(), oid, data })
    }

    /// The call that reads up to `len` bytes from `offset` on.
    pub fn read(&self, oid: &str, len: usize, offset: u64) -> (res: Result<BytesCall, RadosError>)
        ensures
            crate::cstring::nul_free(vstd::utf8::encode_utf8(oid@)) ==> {
                &&& res matches Ok(call)
                &&& call.ioctx == self.ioctx()
                &&& call.oid@ == vstd::utf8::encode_utf8(oid@)
                &&& call.len == len
                &&& call.offset == offset
            },
            !crate::cstring::nul_free(vstd::utf8::encode_utf8(oid@)) ==> crate::error::refuses(
                res,
                vstd::utf8::encode_utf8(oid@),
            ),
    {
        let oid = c_string(oid)?;
        Ok(BytesCall { ioctx: self.raw(), oid, len, offset })
    }

    /// The call that asks for the size and the time of the last change.
    pub fn stat(&self, oid: &str) -> (res: Result<StatCall, RadosError>)
        ensures
            crate::cstring::nul_free(vstd::utf8::encode_utf8(oid@)) ==> {
                &&& res matches Ok(call)
                &&& call.ioctx == self.ioctx()
                &&& call.oid@ == vstd::utf8::encode_utf8(oid@)
            },
            !crate::cstring::nul_free(vstd::utf8::encode_utf8(oid@)) ==> crate::error::refuses(
                res,
                vstd::utf8::encode_utf8(oid@),
            ),
    {
        let oid = c_string(oid)?;
        Ok(StatCall { ioctx: self.raw(), oid })
    }

    /// The call that brings the object to `size` bytes.
    pub fn truncate(&self, oid: &str, size: u64) -> (res: Result<IoCall<'static>, RadosError>)
        ensures
            crate::cstring::nul_free(vstd::utf8::encode_utf8(oid@)) ==> {
                &&& res matches Ok(IoCall::Truncate { ioctx, oid: object, size: bytes })
                &&& ioctx == self.ioctx()
                &&& object@ == vstd::utf8::encode_utf8(oid@)
                &&& bytes == size
            },
            !crate::cstring::nul_free(vstd::utf8::encode_utf8(oid@)) ==> crate::error::refuses(
                res,
                vstd::utf8::encode_utf8(oid@),
            ),
    {
        let oid = c_string(oid)?;
        Ok(IoCall::Truncate { ioctx: self.raw(), oid, size })
    }

    /// The call that removes the object.
    pub fn remove(&self, oid: &str) -> (res: Result<IoCall<'static>, RadosError>)
        ensures
            crate::cstring::nul_free(vstd::utf8::encode_utf8(oid@)) ==> {
                &&& res matches Ok(IoCall::Remove { ioctx, oid: object })
                &&& ioctx == self.ioctx()
                &&& object@ == vstd::utf8::encode_utf8(oid@)
            },
            !crate::cstring::nul_free(vstd::utf8::encode_utf8(oid@)) ==> crate::error::refuses(
                res,
                vstd::utf8::encode_utf8(oid@),
            ),
    {
        let oid = c_string(oid)?;
        Ok(IoCall::Remove { ioctx: self.raw(), oid })
    }

    /// The write that gives each key its value in the omap.
    pub fn omap_set(&self, oid: &str, entries: &[(&[u8], &[u8])]) -> (res: Result<
        WriteCall,
        RadosError,
    >)
        ensures
            crate::cstring::nul_free(vstd::utf8::encode_utf8(oid@)) ==> (res matches Ok(call)
                && call.runs(
                seq![
                    crate::write_op::WriteStepSpec::OmapSet {
                        entries: crate::write_op::slice_pairs(entries@),
                    },
                ],
                self.ioctx(),
                vstd::utf8::encode_utf8(oid@),
            )),
            !crate::cstring::nul_free(vstd::utf8::encode_utf8(oid@)) ==> crate::error::refuses(
                res,
                vstd::utf8::encode_utf8(oid@),
            ),
            res matches Ok(call) ==> call.steps@.len() == 1 && (
            call.steps@[0] matches crate::write_op::WriteStep::OmapSet { entries: made } && {
                &&& made@.len() == entries@.len()
                &&& forall|i: int|
                    0 <= i < entries@.len() ==> (#[trigger] made@[i]).0@ == entries@[i].0@
                        && made@[i].1@ == entries@[i].1@
            }),
    {
        let mut op = WriteOp::new();
        op.omap_set(entries);
        assert(op@ =~= seq![op@[0]]);
        let ghost steps = op@;
        let call = op.operate(self, oid)?;
        proof {
            crate::write_op::a_write_has_the_steps_of_its_op(
                call,
                steps,
                self.ioctx(),
                vstd::utf8::encode_utf8(oid@),
            );
            crate::write_op::an_omap_set_carries_every_entry(call.steps@[0], entries@);
        }
        Ok(call)
    }

    /// The write that removes `keys` from the omap.
    pub fn omap_rm_keys(&self, oid: &str, keys: &[&[u8]]) -> (res: Result<WriteCall, RadosError>)
        ensures
            crate::cstring::nul_free(vstd::utf8::encode_utf8(oid@)) ==> (res matches Ok(call)
                && call.runs(
                seq![
                    crate::write_op::WriteStepSpec::OmapRmKeys {
                        keys: crate::write_op::slices(keys@),
                    },
                ],
                self.ioctx(),
                vstd::utf8::encode_utf8(oid@),
            )),
            !crate::cstring::nul_free(vstd::utf8::encode_utf8(oid@)) ==> crate::error::refuses(
                res,
                vstd::utf8::encode_utf8(oid@),
            ),
            res matches Ok(call) ==> call.steps@.len() == 1 && (
            call.steps@[0] matches crate::write_op::WriteStep::OmapRmKeys { keys: made } && {
                &&& made@.len() == keys@.len()
                &&& forall|i: int| 0 <= i < keys@.len() ==> (#[trigger] made@[i])@ == keys@[i]@
            }),
    {
        let mut op = WriteOp::new();
        op.omap_rm_keys(keys);
        assert(op@ =~= seq![op@[0]]);
        let ghost steps = op@;
        let call = op.operate(self, oid)?;
        proof {
            crate::write_op::a_write_has_the_steps_of_its_op(
                call,
                steps,
                self.ioctx(),
                vstd::utf8::encode_utf8(oid@),
            );
            crate::write_op::a_removal_carries_every_key(call.steps@[0], keys@);
        }
        Ok(call)
    }

    /// The write that removes every key of the omap.
    pub fn omap_clear(&self, oid: &str) -> (res: Result<WriteCall, RadosError>)
        ensures
            crate::cstring::nul_free(vstd::utf8::encode_utf8(oid@)) ==> (res matches Ok(call)
                && call.runs(
                seq![crate::write_op::WriteStepSpec::OmapClear],
                self.ioctx(),
                vstd::utf8::encode_utf8(oid@),
            )),
            !crate::cstring::nul_free(vstd::utf8::encode_utf8(oid@)) ==> crate::error::refuses(
                res,
                vstd::utf8::encode_utf8(oid@),
            ),
    {
        let mut op = WriteOp::new();
        op.omap_clear();
        assert(op@ =~= seq![op@[0]]);
        op.operate(self, oid)
    }

    /// The read of up to `max_return` keys that come after `start_after` and begin with
    /// `filter_prefix`, with their values.
    pub fn omap_get_vals(
        &self,
        oid: &str,
        start_after: Option<&[u8]>,
        filter_prefix: Option<&str>,
        max_return: u64,
    ) -> (res: Result<SingleRead<OmapPage>, RadosError>)
        ensures
            ({
                let start = crate::read_op::optional_slice(start_after);
                let prefix = crate::cstring::optional_utf8(filter_prefix);
                let object = vstd::utf8::encode_utf8(oid@);
                if !crate::read_op::can_be_c_string(start) {
                    crate::error::refuses(res, start->0)
                } else if !crate::read_op::can_be_c_string(prefix) {
                    crate::error::refuses(res, prefix->0)
                } else if !crate::cstring::nul_free(object) {
                    crate::error::refuses(res, object)
                } else {
                    &&& res matches Ok(read)
                    &&& read.wf()
                    &&& read.handle().index() == 0
                    &&& read.request().runs(
                        seq![
                            crate::read_op::ReadStepSpec::OmapGetVals {
                                start_after: start,
                                filter_prefix: prefix,
                                max_return,
                            },
                        ],
                        self.ioctx(),
                        object,
                    )
                }
            }),
    {
        let mut op = ReadOp::single();
        let handle = op.omap_get_vals(start_after, filter_prefix, max_return)?;
        proof {
            assert(op@ =~= seq![op@[0]]);
            crate::read_op::nothing_is_answered();
        }
        Ok(SingleRead::new(op.operate(self, oid)?, handle))
    }

    /// The read of up to `max_return` keys that come after `start_after`.
    pub fn omap_get_keys(&self, oid: &str, start_after: Option<&[u8]>, max_return: u64) -> (res:
        Result<SingleRead<OmapKeys>, RadosError>)
        ensures
            ({
                let start = crate::read_op::optional_slice(start_after);
                let object = vstd::utf8::encode_utf8(oid@);
                if !crate::read_op::can_be_c_string(start) {
                    crate::error::refuses(res, start->0)
                } else if !crate::cstring::nul_free(object) {
                    crate::error::refuses(res, object)
                } else {
                    &&& res matches Ok(read)
                    &&& read.wf()
                    &&& read.handle().index() == 0
                    &&& read.request().runs(
                        seq![
                            crate::read_op::ReadStepSpec::OmapGetKeys {
                                start_after: start,
                                max_return,
                            },
                        ],
                        self.ioctx(),
                        object,
                    )
                }
            }),
    {
        let mut op = ReadOp::single();
        let handle = op.omap_get_keys(start_after, max_return)?;
        proof {
            assert(op@ =~= seq![op@[0]]);
            crate::read_op::nothing_is_answered();
        }
        Ok(SingleRead::new(op.operate(self, oid)?, handle))
    }

    /// The read of the values of `keys`.
    pub fn omap_get_vals_by_keys(&self, oid: &str, keys: &[&[u8]]) -> (res: Result<
        SingleRead<OmapPage>,
        RadosError,
    >)
        ensures
            crate::cstring::nul_free(vstd::utf8::encode_utf8(oid@)) ==> {
                &&& res matches Ok(read)
                &&& read.wf()
                &&& read.handle().index() == 0
                &&& read.request().runs(
                    seq![
                        crate::read_op::ReadStepSpec::OmapGetValsByKeys {
                            keys: crate::write_op::slices(keys@),
                        },
                    ],
                    self.ioctx(),
                    vstd::utf8::encode_utf8(oid@),
                )
            },
            !crate::cstring::nul_free(vstd::utf8::encode_utf8(oid@)) ==> crate::error::refuses(
                res,
                vstd::utf8::encode_utf8(oid@),
            ),
            res matches Ok(read) ==> read.request().steps@.len() == 1 && (
            read.request().steps@[0] matches crate::read_op::ReadStep::OmapGetValsByKeys {
                keys: made,
            } && {
                &&& made@.len() == keys@.len()
                &&& forall|i: int| 0 <= i < keys@.len() ==> (#[trigger] made@[i])@ == keys@[i]@
            }),
    {
        let mut op = ReadOp::single();
        let handle = op.omap_get_vals_by_keys(keys);
        proof {
            assert(op@ =~= seq![op@[0]]);
            crate::read_op::nothing_is_answered();
        }
        let ghost steps = op@;
        let call = op.operate(self, oid)?;
        proof {
            crate::read_op::a_read_has_the_steps_of_its_op(
                call,
                steps,
                self.ioctx(),
                vstd::utf8::encode_utf8(oid@),
            );
            crate::read_op::a_read_by_keys_carries_every_key(call.steps@[0], keys@);
        }
        Ok(SingleRead::new(call, handle))
    }

    /// The first call for the xattr `name`. The size of the value is not known beforehand.
    pub fn getxattr(&self, oid: &str, name: &str) -> (res: Result<GetXattr, RadosError>)
        ensures
            ({
                let object = vstd::utf8::encode_utf8(oid@);
                let attribute = vstd::utf8::encode_utf8(name@);
                if !crate::cstring::nul_free(object) {
                    crate::error::refuses(res, object)
                } else if !crate::cstring::nul_free(attribute) {
                    crate::error::refuses(res, attribute)
                } else {
                    &&& res matches Ok(call)
                    &&& call.asks(self.ioctx(), object, attribute)
                    &&& call.len == xattr_buffer(0)
                }
            }),
    {
        let oid = c_string(oid)?;
        let name = c_string(name)?;
        Ok(GetXattr { ioctx: self.raw(), oid, name, len: XATTR_BUFFER })
    }
}

/// A read into one buffer on its way to librados.
#[derive(Debug, PartialEq, Eq)]
pub struct BytesCall {
    pub ioctx: usize,
    pub oid: CString,
    /// The size of the buffer.
    pub len: usize,
    pub offset: u64,
}

impl BytesCall {
    /// What came of the call: the number of bytes that were read.
    pub fn complete(&self, ret: i32) -> (res: Result<usize, RadosError>)
        requires
            ret != i32::MIN,
        ensures
            ret >= 0 ==> (res matches Ok(n) && n == ret),
            ret < 0 ==> crate::error::fails_as(res, ret),
    {
        check_err(ret)?;
        Ok(ret as usize)
    }
}

/// A question for an object's size on its way to librados.
#[derive(Debug, PartialEq, Eq)]
pub struct StatCall {
    pub ioctx: usize,
    pub oid: CString,
}

impl StatCall {
    /// What came of the call.
    pub fn complete(&self, ret: i32, size: u64, mtime: i64) -> (res: Result<ObjectStat, RadosError>)
        requires
            ret != i32::MIN,
        ensures
            ret >= 0 ==> res == Ok::<ObjectStat, RadosError>(ObjectStat { size, mtime }),
            ret < 0 ==> crate::error::fails_as(res, ret),
    {
        check_err(ret)?;
        Ok(ObjectStat { size, mtime })
    }
}

/// The size of the first buffer for an xattr.
pub const XATTR_BUFFER: usize = 256;

/// The size of the buffer for an xattr after a number of tries that were too small.
pub open spec fn xattr_buffer(retries: nat) -> nat
    decreases retries,
{
    if retries == 0 {
        XATTR_BUFFER as nat
    } else {
        2 * xattr_buffer((retries - 1) as nat)
    }
}

/// A question for an xattr on its way to librados. librados reports only that the buffer is too
/// small, never the size that is needed, so the buffer doubles until the value fits.
#[derive(Debug, PartialEq, Eq)]
pub struct GetXattr {
    pub ioctx: usize,
    pub oid: CString,
    pub name: CString,
    /// The size of the buffer.
    pub len: usize,
}

impl GetXattr {
    /// The call is for the xattr `name` of the object `oid` of `ioctx`.
    pub open spec fn asks(&self, ioctx: usize, oid: Seq<u8>, name: Seq<u8>) -> bool {
        &&& self.ioctx == ioctx
        &&& self.oid@ == oid
        &&& self.name@ == name
    }

    /// A buffer of twice the size can be had.
    pub open spec fn can_grow(&self) -> bool {
        self.len * 2 <= isize::MAX
    }

    /// Whether a buffer of twice the size can be had.
    pub fn may_grow(&self) -> (can: bool)
        ensures
            can == self.can_grow(),
    {
        self.len <= isize::MAX as usize / 2
    }

    /// `next` is what follows a call that returned `ret` and left `buf` in the buffer: the same
    /// question with a buffer of twice the size, the error, or as much of the buffer as is in use.
    pub open spec fn leads_to(
        &self,
        ret: i32,
        buf: Seq<u8>,
        next: Next<GetXattr, Vec<u8>>,
    ) -> bool {
        if ret == -ERANGE {
            &&& next matches Next::Again(call)
            &&& call.asks(self.ioctx, self.oid@, self.name@)
            &&& call.len == 2 * self.len
        } else if ret < 0 {
            next matches Next::Done(res) && crate::error::fails_as(res, ret)
        } else {
            &&& next matches Next::Done(Ok(value))
            &&& value@ == buf.take(
                if ret <= self.len {
                    ret as int
                } else {
                    self.len as int
                },
            )
        }
    }

    /// What follows the call: `ret` is what it returned, and `buf` is the buffer.
    pub fn step(self, ret: i32, buf: Vec<u8>) -> (next: Next<GetXattr, Vec<u8>>)
        requires
            ret != i32::MIN,
            buf@.len() == self.len,
            ret == -ERANGE ==> self.can_grow(),
        ensures
            self.leads_to(ret, buf@, next),
    {
        if -ret == ERANGE {
            let len: usize = self.len * 2;
            return Next::Again(GetXattr { ioctx: self.ioctx, oid: self.oid, name: self.name, len });
        }
        match check_err(ret) {
            Ok(()) => {
                let mut value = buf;
                value.truncate(ret as usize);
                assert(value@ =~= buf@.take(
                    if ret <= self.len {
                        ret as int
                    } else {
                        self.len as int
                    },
                ));
                Next::Done(Ok(value))
            },
            Err(e) => Next::Done(Err(e)),
        }
    }
}

/// The buffer for an xattr reaches every size: there is a number of tries after which a value of
/// `size` bytes fits and before which it does not, and the buffer is then the first one or less
/// than twice as large as it need be.
pub proof fn doubling_reaches_every_size(size: nat) -> (retries: nat)
    ensures
        xattr_buffer(retries) >= size,
        forall|earlier: nat| earlier < retries ==> #[trigger] xattr_buffer(earlier) < size,
        retries > 0 ==> xattr_buffer(retries) < 2 * size,
    decreases size,
{
    if size <= XATTR_BUFFER {
        0
    } else {
        let half = ((size + 1) / 2) as nat;
        let less = doubling_reaches_every_size(half);
        let retries = less + 1;
        assert forall|earlier: nat| earlier < retries implies #[trigger] xattr_buffer(earlier)
            < size by {
            if earlier > 0 {
                assert(xattr_buffer((earlier - 1) as nat) < half);
            }
        }
        retries
    }
}

/// What librados answers where the xattr holds `value`: that the buffer is too small, or the value
/// and its length.
pub open spec fn xattr_answer(value: Seq<u8>, ret: i32, buf: Seq<u8>) -> bool {
    if value.len() > buf.len() {
        ret == -ERANGE
    } else {
        ret == value.len() && value.is_prefix_of(buf)
    }
}

/// An xattr is read whole. Where librados answers each of `rounds`, a call with what it returned
/// and left in the buffer, and each call follows from the one before, every buffer but the last
/// was too small for the value, and what the last round ends in is the value.
pub proof fn an_xattr_is_read_whole(
    value: Seq<u8>,
    rounds: Seq<(GetXattr, i32, Seq<u8>)>,
    res: Result<Vec<u8>, RadosError>,
)
    requires
        rounds.len() > 0,
        rounds[0].0.len == xattr_buffer(0),
        forall|i: int|
            0 <= i < rounds.len() ==> (#[trigger] rounds[i]).2.len() == rounds[i].0.len
                && xattr_answer(value, rounds[i].1, rounds[i].2),
        forall|i: int, j: int|
            0 <= i && j == i + 1 && j < rounds.len() ==> (#[trigger] rounds[i]).0.leads_to(
                rounds[i].1,
                rounds[i].2,
                Next::Again((#[trigger] rounds[j]).0),
            ),
        rounds.last().0.leads_to(rounds.last().1, rounds.last().2, Next::Done(res)),
    ensures
        res matches Ok(v) && v@ == value,
        forall|i: int|
            0 <= i < rounds.len() ==> (#[trigger] rounds[i]).0.len == xattr_buffer(i as nat),
        forall|i: int| 0 <= i < rounds.len() - 1 ==> (#[trigger] rounds[i]).0.len < value.len(),
{
    let last = rounds.last();
    assert(last == rounds[rounds.len() - 1]);
    assert(last.2.take(value.len() as int) =~= value);
    assert forall|i: int| 0 <= i < rounds.len() - 1 implies (#[trigger] rounds[i]).0.len
        < value.len() by {
        assert(rounds[i].0.leads_to(rounds[i].1, rounds[i].2, Next::Again(rounds[i + 1].0)));
    }
    assert forall|i: int| 0 <= i < rounds.len() implies (#[trigger] rounds[i]).0.len
        == xattr_buffer(i as nat) by {
        lemma_xattr_buffers(value, rounds, i as nat);
    }
}

proof fn lemma_xattr_buffers(value: Seq<u8>, rounds: Seq<(GetXattr, i32, Seq<u8>)>, i: nat)
    requires
        i < rounds.len(),
        rounds[0].0.len == xattr_buffer(0),
        forall|i: int|
            0 <= i < rounds.len() ==> (#[trigger] rounds[i]).2.len() == rounds[i].0.len
                && xattr_answer(value, rounds[i].1, rounds[i].2),
        forall|i: int, j: int|
            0 <= i && j == i + 1 && j < rounds.len() ==> (#[trigger] rounds[i]).0.leads_to(
                rounds[i].1,
                rounds[i].2,
                Next::Again((#[trigger] rounds[j]).0),
            ),
    ensures
        rounds[i as int].0.len == xattr_buffer(i),
    decreases i,
{
    if i > 0 {
        let before = rounds[i - 1];
        lemma_xattr_buffers(value, rounds, (i - 1) as nat);
        assert(before.0.leads_to(before.1, before.2, Next::Again(rounds[i as int].0)));
    }
}

/// The first buffer for an xattr has 256 bytes, and each further one twice as many as the one
/// before.
pub proof fn each_buffer_has_twice_the_size(retries: nat)
    ensures
        xattr_buffer(0) == 256,
        xattr_buffer(retries + 1) == xattr_buffer(retries) + xattr_buffer(retries),
{
}

/// What follows a question for an xattr: where the buffer was too small, the same question with
/// twice the room; where the call failed otherwise, its error; and else the first bytes of the
/// buffer, as many as the call returned or as there are.
pub proof fn what_follows_a_question_for_an_xattr(
    call: GetXattr,
    ret: i32,
    buf: Seq<u8>,
    next: Next<GetXattr, Vec<u8>>,
)
    requires
        ret != i32::MIN,
        buf.len() == call.len,
        call.leads_to(ret, buf, next),
    ensures
        match next {
            Next::Again(again) => {
                &&& ret == -34
                &&& again.ioctx == call.ioctx
                &&& again.oid@ == call.oid@
                &&& again.name@ == call.name@
                &&& again.len == call.len + call.len
            },
            Next::Done(Ok(value)) => {
                &&& ret >= 0
                &&& ret <= buf.len() ==> value@.len() == ret
                &&& ret > buf.len() ==> value@.len() == buf.len()
                &&& forall|i: int| 0 <= i < value@.len() ==> value@[i] == buf[i]
            },
            Next::Done(Err(e)) => ret < 0 && ret != -34 && crate::error::status(ret) == Err::<
                (),
                RadosError,
            >(e),
        },
{
}

/// A question for an xattr names its ioctx, its object and the xattr, each whole, and its buffer can
/// double as long as twice its size is one that memory can have.
pub proof fn a_question_for_an_xattr_names_it(
    call: GetXattr,
    ioctx: usize,
    oid: Seq<u8>,
    name: Seq<u8>,
)
    ensures
        call.asks(ioctx, oid, name) <==> call.ioctx == ioctx && call.oid@ == oid && call.name@
            == name,
        call.can_grow() <==> call.len + call.len <= isize::MAX,
{
}

} // verus!
