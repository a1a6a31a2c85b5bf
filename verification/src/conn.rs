//! The connection to a cluster, and what is done there beyond single pools.

use crate::cstring::{c_string, CString};
use crate::duration::Duration;
use crate::error::{check_err, RadosError, EOVERFLOW};
use crate::ioctx::IoCtx;
use crate::next::Next;
use crate::packed::filled_strings;
use vstd::prelude::*;
use vstd::slice::slice_subrange;

verus! {

/// A cluster handle as librados gave it.
#[derive(Debug)]
pub struct Rados {
    handle: usize,
}

impl Clone for Rados {
    fn clone(&self) -> (rados: Rados)
        ensures
            rados == *self,
    {
        Rados { handle: self.handle }
    }
}

/// A call on a cluster handle that brings nothing back but its return value.
#[derive(Debug, PartialEq, Eq)]
pub enum ClusterCall {
    ConfReadFile { cluster: usize, path: CString },
    ConfSet { cluster: usize, option: CString, value: CString },
    Connect { cluster: usize },
    PoolCreate { cluster: usize, name: CString },
    PoolDelete { cluster: usize, name: CString },
    BlocklistAdd { cluster: usize, addr: CString, expire_seconds: u32 },
    WaitForLatestOsdmap { cluster: usize },
}

impl ClusterCall {
    /// What the call makes of the pools of the cluster where it succeeds.
    pub open spec fn changes(&self, before: Set<Seq<u8>>, after: Set<Seq<u8>>) -> bool {
        match *self {
            ClusterCall::PoolCreate { name, .. } => after == before.insert(name@),
            ClusterCall::PoolDelete { name, .. } => after == before.remove(name@),
            _ => after == before,
        }
    }

    /// What came of the call.
    pub fn complete(&self, ret: i32) -> (res: Result<(), RadosError>)
        requires
            ret != i32::MIN,
        ensures
            res == crate::error::status(ret),
    {
        check_err(ret)
    }
}

/// The creation of a cluster handle on its way to librados.
#[derive(Debug, PartialEq, Eq)]
pub struct CreateCall {
    /// The client's id, or nothing for the default one.
    pub id: Option<CString>,
}

impl CreateCall {
    /// What came of the call.
    pub fn created(&self, ret: i32, handle: usize) -> (res: Result<Rados, RadosError>)
        requires
            ret != i32::MIN,
        ensures
            ret >= 0 ==> (res matches Ok(rados) && rados.cluster() == handle),
            ret < 0 ==> crate::error::fails_as(res, ret),
    {
        check_err(ret)?;
        Ok(Rados { handle })
    }
}

/// The opening of a pool on its way to librados.
#[derive(Debug, PartialEq, Eq)]
pub struct OpenCall {
    pub cluster: usize,
    pub name: CString,
    pub pool_name: String,
}

impl OpenCall {
    /// What came of the call.
    pub fn opened(self, ret: i32, ioctx: usize) -> (res: Result<IoCtx, RadosError>)
        requires
            ret != i32::MIN,
        ensures
            ret >= 0 ==> {
                &&& res matches Ok(io)
                &&& io.ioctx() == ioctx
                &&& io.owner() == self.cluster
                &&& io.pool() == self.pool_name@
            },
            ret < 0 ==> crate::error::fails_as(res, ret),
    {
        check_err(ret)?;
        Ok(IoCtx::new(self.cluster, ioctx, self.pool_name))
    }
}

impl Rados {
    /// The handle that the calls of this value go to.
    pub closed spec fn cluster(&self) -> usize {
        self.handle
    }

    /// The handle as librados gave it.
    pub fn raw(&self) -> (handle: usize)
        ensures
            handle == self.cluster(),
    {
        self.handle
    }

    /// The call that creates a handle for the default client.
    pub fn create() -> (call: CreateCall)
        ensures
            call.id is None,
    {
        CreateCall { id: None }
    }

    /// The call that creates a handle for the client `id`.
    pub fn with_id(id: &str) -> (res: Result<CreateCall, RadosError>)
        ensures
            crate::cstring::nul_free(vstd::utf8::encode_utf8(id@)) ==> (res matches Ok(call)
                && call.id matches Some(client) && client@ == vstd::utf8::encode_utf8(id@)),
            !crate::cstring::nul_free(vstd::utf8::encode_utf8(id@)) ==> crate::error::refuses(
                res,
                vstd::utf8::encode_utf8(id@),
            ),
    {
        let id = c_string(id)?;
        Ok(CreateCall { id: Some(id) })
    }

    /// The call that reads the configuration file `path`.
    pub fn conf_read_file(&self, path: &str) -> (res: Result<ClusterCall, RadosError>)
        ensures
            crate::cstring::nul_free(vstd::utf8::encode_utf8(path@)) ==> {
                &&& res matches Ok(ClusterCall::ConfReadFile { cluster, path: file })
                &&& cluster == self.cluster()
                &&& file@ == vstd::utf8::encode_utf8(path@)
            },
            !crate::cstring::nul_free(vstd::utf8::encode_utf8(path@)) ==> crate::error::refuses(
                res,
                vstd::utf8::encode_utf8(path@),
            ),
    {
        let path = c_string(path)?;
        Ok(ClusterCall::ConfReadFile { cluster: self.raw(), path })
    }

    /// The call that sets `option` to `value`.
    pub fn conf_set(&self, option: &str, value: &str) -> (res: Result<ClusterCall, RadosError>)
        ensures
            ({
                let key = vstd::utf8::encode_utf8(option@);
                let setting = vstd::utf8::encode_utf8(value@);
                if !crate::cstring::nul_free(key) {
                    crate::error::refuses(res, key)
                } else if !crate::cstring::nul_free(setting) {
                    crate::error::refuses(res, setting)
                } else {
                    &&& res matches Ok(ClusterCall::ConfSet { cluster, option: c_opt, value: c_val })
                    &&& cluster == self.cluster()
                    &&& c_opt@ == key
                    &&& c_val@ == setting
                }
            }),
    {
        let option = c_string(option)?;
        let value = c_string(value)?;
        Ok(ClusterCall::ConfSet { cluster: self.raw(), option, value })
    }

    /// The call that connects.
    pub fn connect(&self) -> (call: ClusterCall)
        ensures
            call matches ClusterCall::Connect { cluster } && cluster == self.cluster(),
    {
        ClusterCall::Connect { cluster: self.raw() }
    }

    /// The call that creates a pool.
    pub fn create_pool(&self, pool_name: &str) -> (res: Result<ClusterCall, RadosError>)
        ensures
            crate::cstring::nul_free(vstd::utf8::encode_utf8(pool_name@)) ==> {
                &&& res matches Ok(ClusterCall::PoolCreate { cluster, name })
                &&& cluster == self.cluster()
                &&& name@ == vstd::utf8::encode_utf8(pool_name@)
            },
            !crate::cstring::nul_free(vstd::utf8::encode_utf8(pool_name@)) ==> crate::error::refuses(
                res,
                vstd::utf8::encode_utf8(pool_name@),
            ),
    {
        let name = c_string(pool_name)?;
        Ok(ClusterCall::PoolCreate { cluster: self.raw(), name })
    }

    /// The call that deletes a pool.
    pub fn delete_pool(&self, pool_name: &str) -> (res: Result<ClusterCall, RadosError>)
        ensures
            crate::cstring::nul_free(vstd::utf8::encode_utf8(pool_name@)) ==> {
                &&& res matches Ok(ClusterCall::PoolDelete { cluster, name })
                &&& cluster == self.cluster()
                &&& name@ == vstd::utf8::encode_utf8(pool_name@)
            },
            !crate::cstring::nul_free(vstd::utf8::encode_utf8(pool_name@)) ==> crate::error::refuses(
                res,
                vstd::utf8::encode_utf8(pool_name@),
            ),
    {
        let name = c_string(pool_name)?;
        Ok(ClusterCall::PoolDelete { cluster: self.raw(), name })
    }

    /// The first call for the names of the pools.
    pub fn list_pools(&self) -> (call: ListPools)
        ensures
            call.cluster == self.cluster(),
            call.len == POOL_BUFFER,
    {
        ListPools { cluster: self.raw(), len: POOL_BUFFER }
    }

    /// The call that blocklists a client address for `expire`, cut to whole seconds. Zero seconds
    /// leave the duration to the cluster's default. `addr` has the shape that `Locker::addr` has.
    pub fn blocklist_add(&self, addr: &str, expire: Duration) -> (res: Result<
        ClusterCall,
        RadosError,
    >)
        ensures
            ({
                let address = vstd::utf8::encode_utf8(addr@);
                let seconds = crate::duration::whole_secs(expire@);
                if !crate::cstring::nul_free(address) {
                    crate::error::refuses(res, address)
                } else if seconds > u32::MAX {
                    res == Err::<ClusterCall, RadosError>(RadosError::Rados(EOVERFLOW))
                } else {
                    &&& res matches Ok(ClusterCall::BlocklistAdd { cluster, addr: c_addr, expire_seconds })
                    &&& cluster == self.cluster()
                    &&& c_addr@ == address
                    &&& expire_seconds == seconds
                }
            }),
    {
        let addr = c_string(addr)?;
        let seconds: u64 = expire.as_secs();
        if seconds > u32::MAX as u64 {
            return Err(RadosError::Rados(EOVERFLOW));
        }
        let expire_seconds: u32 = seconds as u32;
        Ok(ClusterCall::BlocklistAdd { cluster: self.raw(), addr, expire_seconds })
    }

    /// The call that waits until the client has the latest osdmap.
    pub fn wait_for_latest_osdmap(&self) -> (call: ClusterCall)
        ensures
            call matches ClusterCall::WaitForLatestOsdmap { cluster } && cluster == self.cluster(),
    {
        ClusterCall::WaitForLatestOsdmap { cluster: self.raw() }
    }

    /// The call that opens a pool.
    pub fn create_ioctx(&self, pool_name: &str) -> (res: Result<OpenCall, RadosError>)
        ensures
            crate::cstring::nul_free(vstd::utf8::encode_utf8(pool_name@)) ==> {
                &&& res matches Ok(call)
                &&& call.cluster == self.cluster()
                &&& call.name@ == vstd::utf8::encode_utf8(pool_name@)
                &&& call.pool_name@ == pool_name@
            },
            !crate::cstring::nul_free(vstd::utf8::encode_utf8(pool_name@)) ==> crate::error::refuses(
                res,
                vstd::utf8::encode_utf8(pool_name@),
            ),
    {
        let name = c_string(pool_name)?;
        Ok(OpenCall { cluster: self.raw(), name, pool_name: pool_name.to_owned() })
    }
}

/// The size of the first buffer for the names of the pools.
pub const POOL_BUFFER: usize = 1024;

/// A question for the names of the pools on its way to librados, which returns one more than the
/// length that it needs and writes only what fits.
#[derive(Debug, PartialEq, Eq)]
pub struct ListPools {
    pub cluster: usize,
    /// The size of the buffer.
    pub len: usize,
}

impl ListPools {
    /// `next` is what follows a call that returned `ret` and left `buf` in the buffer: the error,
    /// the same question with a buffer of the length that is needed, or the names.
    pub open spec fn leads_to(
        &self,
        ret: i32,
        buf: Seq<u8>,
        next: Next<ListPools, Vec<String>>,
    ) -> bool {
        if ret < 0 {
            next matches Next::Done(res) && crate::error::fails_as(res, ret)
        } else if ret - 1 > self.len {
            &&& next matches Next::Again(call)
            &&& call.cluster == self.cluster
            &&& call.len == ret - 1
        } else {
            &&& next matches Next::Done(Ok(names))
            &&& crate::packed::all_read_as(
                names@,
                crate::packed::filled_fields(buf.take(ret - 1)),
            )
        }
    }

    /// What follows the call: `ret` is what it returned, and `buf` is the buffer.
    pub fn step(self, ret: i32, buf: &[u8]) -> (next: Next<ListPools, Vec<String>>)
        requires
            ret != i32::MIN,
            ret != 0,
            buf@.len() == self.len,
        ensures
            self.leads_to(ret, buf@, next),
    {
        match check_err(ret) {
            Ok(()) => {},
            Err(e) => {
                return Next::Done(Err(e));
            },
        }
        let needed: usize = ret as usize - 1;
        if needed <= buf.len() {
            assert(buf@.subrange(0, needed as int) =~= buf@.take(ret - 1));
            Next::Done(Ok(filled_strings(slice_subrange(buf, 0, needed))))
        } else {
            Next::Again(ListPools { cluster: self.cluster, len: needed })
        }
    }
}

/// What librados answers where the cluster has the pools `names`: the used part of the buffer holds
/// the names, each followed by a NUL byte, and then any number of NUL bytes.
pub open spec fn pools_answer(names: Seq<Seq<u8>>, padding: nat, ret: i32, buf: Seq<u8>) -> bool {
    &&& 0 < ret
    &&& buf.take(ret - 1) == crate::packed::packed(names) + Seq::new(padding, |i: int| 0u8)
    &&& forall|i: int| 0 <= i < names.len() ==> crate::cstring::nul_free(#[trigger] names[i])
}

/// Every pool is listed, each name in its place, but for one with an empty name.
pub proof fn every_pool_is_listed(
    call: ListPools,
    ret: i32,
    buf: Seq<u8>,
    listed: Vec<String>,
    names: Seq<Seq<u8>>,
    padding: nat,
)
    requires
        pools_answer(names, padding, ret, buf),
        call.leads_to(ret, buf, Next::Done(Ok(listed))),
    ensures
        crate::packed::all_read_as(listed@, names.filter(|n: Seq<u8>| n.len() > 0)),
        (forall|i: int| 0 <= i < names.len() ==> (#[trigger] names[i]).len() > 0)
            ==> crate::packed::all_read_as(listed@, names),
{
    crate::packed::packed_names_are_read_back(names, padding);
}

/// A pool that was created is listed: where the pools of the cluster are those that creating it
/// left, its name is in the list. No pool has an empty name.
pub proof fn a_created_pool_is_listed(
    create: ClusterCall,
    before: Set<Seq<u8>>,
    pool_name: Seq<char>,
    call: ListPools,
    ret: i32,
    buf: Seq<u8>,
    listed: Vec<String>,
    names: Seq<Seq<u8>>,
    padding: nat,
)
    requires
        pool_name.len() > 0,
        create matches ClusterCall::PoolCreate { name, .. } && name@ == vstd::utf8::encode_utf8(
            pool_name,
        ),
        create.changes(before, names.to_set()),
        pools_answer(names, padding, ret, buf),
        call.leads_to(ret, buf, Next::Done(Ok(listed))),
    ensures
        exists|i: int| 0 <= i < listed@.len() && (#[trigger] listed@[i])@ == pool_name,
{
    let filled = |n: Seq<u8>| n.len() > 0;
    let bytes = vstd::utf8::encode_utf8(pool_name);
    every_pool_is_listed(call, ret, buf, listed, names, padding);
    vstd::utf8::encode_utf8_decode_utf8(pool_name);
    assert(bytes.len() > 0);
    assert(names.to_set().contains(bytes));
    let at = choose|at: int| 0 <= at < names.len() && names[at] == bytes;
    names.lemma_filter_contains(filled, at);
    let kept = names.filter(filled);
    let i = choose|i: int| 0 <= i < kept.len() && kept[i] == bytes;
    assert(crate::packed::reads_as(listed@[i]@, kept[i]));
    crate::packed::strings_are_kept(listed@[i]@, pool_name);
}

/// A pool that was deleted is not listed: where the pools of the cluster are those that deleting it
/// left, its name is not in the list. Where the name holds the replacement character, that is so
/// unless a name that is not UTF-8 reads as the same text.
pub proof fn a_deleted_pool_is_not_listed(
    delete: ClusterCall,
    before: Set<Seq<u8>>,
    pool_name: Seq<char>,
    call: ListPools,
    ret: i32,
    buf: Seq<u8>,
    listed: Vec<String>,
    names: Seq<Seq<u8>>,
    padding: nat,
)
    requires
        delete matches ClusterCall::PoolDelete { name, .. } && name@ == vstd::utf8::encode_utf8(
            pool_name,
        ),
        delete.changes(before, names.to_set()),
        pools_answer(names, padding, ret, buf),
        call.leads_to(ret, buf, Next::Done(Ok(listed))),
        pool_name.contains('\u{FFFD}') ==> forall|i: int|
            0 <= i < names.len() && !vstd::utf8::valid_utf8(#[trigger] names[i])
                ==> crate::packed::utf8_lossy(names[i]) != pool_name,
    ensures
        forall|i: int| 0 <= i < listed@.len() ==> (#[trigger] listed@[i])@ != pool_name,
{
    let filled = |n: Seq<u8>| n.len() > 0;
    let kept = names.filter(filled);
    every_pool_is_listed(call, ret, buf, listed, names, padding);
    assert forall|i: int| 0 <= i < listed@.len() implies (#[trigger] listed@[i])@ != pool_name by {
        let bytes = kept[i];
        assert(crate::packed::reads_as(listed@[i]@, bytes));
        assert(kept.contains(bytes));
        names.lemma_filter_contains_rev(filled, bytes);
        assert(names.to_set().contains(bytes));
        let at = choose|at: int| 0 <= at < names.len() && names[at] == bytes;
        if vstd::utf8::valid_utf8(bytes) {
            vstd::utf8::decode_utf8_encode_utf8(bytes);
        } else {
            assert(!vstd::utf8::valid_utf8(names[at]));
        }
    }
}

/// The buffer grows once: a second call that needs no more than the first said ends.
pub proof fn the_second_buffer_is_large_enough(
    first: ListPools,
    first_ret: i32,
    first_buf: Seq<u8>,
    second: ListPools,
    second_ret: i32,
    second_buf: Seq<u8>,
    next: Next<ListPools, Vec<String>>,
)
    requires
        0 < second_ret <= first_ret,
        first.leads_to(first_ret, first_buf, Next::Again(second)),
        second.leads_to(second_ret, second_buf, next),
    ensures
        second.cluster == first.cluster,
        next is Done,
{
}

/// What follows a question for the pools: where the buffer was too small, the same question with
/// the room that is needed, one less than what the call returned; where the call failed, its error;
/// and else the texts of what stands between the NUL bytes of the used part, but for what is empty.
pub proof fn what_follows_a_question_for_the_pools(
    call: ListPools,
    ret: i32,
    buf: Seq<u8>,
    next: Next<ListPools, Vec<String>>,
)
    requires
        ret != i32::MIN,
        ret != 0,
        buf.len() == call.len,
        call.leads_to(ret, buf, next),
    ensures
        match next {
            Next::Again(again) => ret - 1 > buf.len() && again.cluster == call.cluster && again.len
                == ret - 1,
            Next::Done(Ok(names)) => {
                let texts = crate::packed::fields(buf.take(ret - 1)).filter(
                    |f: Seq<u8>| f.len() > 0,
                );
                &&& 0 < ret <= buf.len() + 1
                &&& names@.len() == texts.len()
                &&& forall|i: int|
                    0 <= i < texts.len() ==> (#[trigger] names@[i])@ == crate::packed::utf8_lossy(
                        texts[i],
                    )
            },
            Next::Done(Err(e)) => ret < 0 && crate::error::status(ret) == Err::<(), RadosError>(e),
        },
{
    if let Next::Done(Ok(names)) = next {
        let list = crate::packed::filled_fields(buf.take(ret - 1));
        crate::packed::only_empty_fields_are_left_out(buf.take(ret - 1));
        crate::packed::each_text_is_read_from_its_bytes(names@, list);
    }
}

/// The pools are listed under their names: where the used part of the buffer holds the names, each
/// encoded and with a NUL byte behind it, and then any number of NUL bytes, the list is those
/// names, whole and in their order.
pub proof fn pools_are_listed_under_their_names(
    call: ListPools,
    ret: i32,
    buf: Seq<u8>,
    listed: Vec<String>,
    names: Seq<Seq<char>>,
    padding: nat,
)
    requires
        0 < ret,
        forall|i: int|
            0 <= i < names.len() ==> (#[trigger] names[i]).len() > 0 && !names[i].contains('\0'),
        buf.take(ret - 1) == names.map_values(
            |n: Seq<char>| vstd::utf8::encode_utf8(n).push(0),
        ).flatten() + Seq::new(padding, |i: int| 0u8),
        call.leads_to(ret, buf, Next::Done(Ok(listed))),
    ensures
        listed@.len() == names.len(),
        forall|i: int| 0 <= i < names.len() ==> (#[trigger] listed@[i])@ == names[i],
{
    let list = names.map_values(|n: Seq<char>| vstd::utf8::encode_utf8(n));
    crate::packed::texts_are_packed(names);
    assert forall|i: int| 0 <= i < list.len() implies crate::cstring::nul_free(#[trigger] list[i])
        && list[i].len() > 0 by {
        assert(names[i].len() > 0);
        crate::cstring::only_the_nul_character_is_refused(names[i]);
        vstd::utf8::encode_utf8_decode_utf8(names[i]);
    }
    every_pool_is_listed(call, ret, buf, listed, list, padding);
    assert forall|i: int| 0 <= i < names.len() implies (#[trigger] listed@[i])@ == names[i] by {
        assert(crate::packed::reads_as(listed@[i]@, list[i]));
        crate::packed::strings_are_kept(listed@[i]@, names[i]);
    }
}

/// The first buffer for the names of the pools has 1024 bytes.
pub proof fn the_first_buffer_for_the_pools()
    ensures
        POOL_BUFFER == 1024,
{
}

} // verus!
