//! Advisory locks on objects.

use crate::cstring::{c_string, CString};
use crate::duration::Duration;
use crate::error::{check_err, RadosError, ERANGE};
use crate::ioctx::{IoCall, IoCtx};
use crate::next::Next;
use crate::packed::{from_utf8_lossy, strings};
use vstd::prelude::*;
use vstd::slice::slice_subrange;

verus! {

/// `lock_exclusive` renews the lock where the caller holds it already.
pub const LOCK_FLAG_MAY_RENEW: u8 = 1;

/// `lock_exclusive` renews the lock, and fails where the caller does not hold it.
pub const LOCK_FLAG_MUST_RENEW: u8 = 2;

/// The holders of one lock.
#[derive(Debug, PartialEq, Eq)]
pub struct Lockers {
    pub exclusive: bool,
    pub tag: String,
    pub lockers: Vec<Locker>,
}

/// One holder of a lock.
#[derive(Debug, PartialEq, Eq)]
pub struct Locker {
    pub client: String,
    pub cookie: String,
    /// The address that the OSD sees, of the shape `v1:IP:port/nonce`. This is the form that
    /// `Rados::blocklist_add` accepts.
    pub addr: String,
}

impl IoCtx {
    /// The call that takes the lock `name` on `oid`. A `duration` of `None` means no expiry.
    /// `flags` is a mask of `LOCK_FLAG_MAY_RENEW` and `LOCK_FLAG_MUST_RENEW`.
    ///
    /// Another holder makes the call fail with `RadosError::Rados(EBUSY)`, the same client and
    /// cookie without a renew flag with `AlreadyExists`, and `LOCK_FLAG_MUST_RENEW` on an unheld
    /// lock with `NotFound`.
    pub fn lock_exclusive(
        &self,
        oid: &str,
        name: &str,
        cookie: &str,
        desc: &str,
        duration: Option<Duration>,
        flags: u8,
    ) -> (res: Result<IoCall<'static>, RadosError>)
        ensures
            ({
                let object = vstd::utf8::encode_utf8(oid@);
                let lock = vstd::utf8::encode_utf8(name@);
                let token = vstd::utf8::encode_utf8(cookie@);
                let text = vstd::utf8::encode_utf8(desc@);
                if !crate::cstring::nul_free(object) {
                    crate::error::refuses(res, object)
                } else if !crate::cstring::nul_free(lock) {
                    crate::error::refuses(res, lock)
                } else if !crate::cstring::nul_free(token) {
                    crate::error::refuses(res, token)
                } else if !crate::cstring::nul_free(text) {
                    crate::error::refuses(res, text)
                } else {
                    &&& res matches Ok(
                        IoCall::LockExclusive {
                            ioctx,
                            oid: c_oid,
                            name: c_name,
                            cookie: c_cookie,
                            desc: c_desc,
                            duration: tv,
                            flags: mask,
                        },
                    )
                    &&& ioctx == self.ioctx()
                    &&& c_oid@ == object
                    &&& c_name@ == lock
                    &&& c_cookie@ == token
                    &&& c_desc@ == text
                    &&& mask == flags
                    &&& match duration {
                        Some(d) => tv matches Some(t) && crate::duration::is_timeval(t, d@),
                        None => tv is None,
                    }
                }
            }),
    {
        let oid = c_string(oid)?;
        let name = c_string(name)?;
        let cookie = c_string(cookie)?;
        let desc = c_string(desc)?;
        let duration = match duration {
            Some(d) => Some(d.to_timeval()),
            None => None,
        };
        Ok(IoCall::LockExclusive { ioctx: self.raw(), oid, name, cookie, desc, duration, flags })
    }

    /// The call that gives the lock `name` back.
    pub fn unlock(&self, oid: &str, name: &str, cookie: &str) -> (res: Result<
        IoCall<'static>,
        RadosError,
    >)
        ensures
            ({
                let object = vstd::utf8::encode_utf8(oid@);
                let lock = vstd::utf8::encode_utf8(name@);
                let token = vstd::utf8::encode_utf8(cookie@);
                if !crate::cstring::nul_free(object) {
                    crate::error::refuses(res, object)
                } else if !crate::cstring::nul_free(lock) {
                    crate::error::refuses(res, lock)
                } else if !crate::cstring::nul_free(token) {
                    crate::error::refuses(res, token)
                } else {
                    &&& res matches Ok(
                        IoCall::Unlock { ioctx, oid: c_oid, name: c_name, cookie: c_cookie },
                    )
                    &&& ioctx == self.ioctx()
                    &&& c_oid@ == object
                    &&& c_name@ == lock
                    &&& c_cookie@ == token
                }
            }),
    {
        let oid = c_string(oid)?;
        let name = c_string(name)?;
        let cookie = c_string(cookie)?;
        Ok(IoCall::Unlock { ioctx: self.raw(), oid, name, cookie })
    }

    /// The call that takes the lock `name` away from `client`.
    pub fn break_lock(&self, oid: &str, name: &str, client: &str, cookie: &str) -> (res: Result<
        IoCall<'static>,
        RadosError,
    >)
        ensures
            ({
                let object = vstd::utf8::encode_utf8(oid@);
                let lock = vstd::utf8::encode_utf8(name@);
                let holder = vstd::utf8::encode_utf8(client@);
                let token = vstd::utf8::encode_utf8(cookie@);
                if !crate::cstring::nul_free(object) {
                    crate::error::refuses(res, object)
                } else if !crate::cstring::nul_free(lock) {
                    crate::error::refuses(res, lock)
                } else if !crate::cstring::nul_free(holder) {
                    crate::error::refuses(res, holder)
                } else if !crate::cstring::nul_free(token) {
                    crate::error::refuses(res, token)
                } else {
                    &&& res matches Ok(
                        IoCall::BreakLock {
                            ioctx,
                            oid: c_oid,
                            name: c_name,
                            client: c_client,
                            cookie: c_cookie,
                        },
                    )
                    &&& ioctx == self.ioctx()
                    &&& c_oid@ == object
                    &&& c_name@ == lock
                    &&& c_client@ == holder
                    &&& c_cookie@ == token
                }
            }),
    {
        let oid = c_string(oid)?;
        let name = c_string(name)?;
        let client = c_string(client)?;
        let cookie = c_string(cookie)?;
        Ok(IoCall::BreakLock { ioctx: self.raw(), oid, name, client, cookie })
    }

    /// The first call for the holders of the lock `name`.
    pub fn list_lockers(&self, oid: &str, name: &str) -> (res: Result<ListLockers, RadosError>)
        ensures
            ({
                let object = vstd::utf8::encode_utf8(oid@);
                let lock = vstd::utf8::encode_utf8(name@);
                if !crate::cstring::nul_free(object) {
                    crate::error::refuses(res, object)
                } else if !crate::cstring::nul_free(lock) {
                    crate::error::refuses(res, lock)
                } else {
                    &&& res matches Ok(call)
                    &&& call.asks(self.ioctx(), object, lock)
                    &&& call.sizes == LockerSizes { tag: 64, clients: 64, cookies: 64, addrs: 64 }
                }
            }),
    {
        let oid = c_string(oid)?;
        let name = c_string(name)?;
        let sizes = LockerSizes { tag: 64, clients: 64, cookies: 64, addrs: 64 };
        Ok(ListLockers { ioctx: self.raw(), oid, name, sizes })
    }
}

/// The sizes of the four buffers that the holders of a lock are written to, or how much of each is
/// needed or in use.
#[derive(Debug, Clone, Copy, PartialEq, Eq, Structural)]
pub struct LockerSizes {
    pub tag: usize,
    pub clients: usize,
    pub cookies: usize,
    pub addrs: usize,
}

/// A question for the holders of a lock on its way to librados. Where one of the buffers is too
/// small librados reports `ERANGE`, and in each size what it needs.
#[derive(Debug, PartialEq, Eq)]
pub struct ListLockers {
    pub ioctx: usize,
    pub oid: CString,
    pub name: CString,
    /// The sizes of the buffers.
    pub sizes: LockerSizes,
}

/// What librados wrote and returned.
#[derive(Debug, PartialEq, Eq)]
pub struct LockersReply {
    pub ret: isize,
    pub exclusive: i32,
    pub used: LockerSizes,
    pub tag: Vec<u8>,
    pub clients: Vec<u8>,
    pub cookies: Vec<u8>,
    pub addrs: Vec<u8>,
}

/// Of `buf` the first `len` bytes are in use, and the last of them may be missing.
pub open spec fn in_use(buf: Seq<u8>, len: usize) -> bool {
    len > 0 ==> len - 1 <= buf.len()
}

/// The strings in a buffer of which `len` bytes are in use.
pub open spec fn packed_in(buf: Seq<u8>, len: usize) -> Seq<Seq<u8>> {
    if len == 0 {
        Seq::empty()
    } else {
        crate::packed::fields(buf.take(len - 1))
    }
}

impl LockersReply {
    /// Where the call succeeded, each buffer has the bytes that are in use, and the tag is there.
    pub open spec fn is_sound(&self) -> bool {
        &&& self.used.tag > 0
        &&& in_use(self.tag@, self.used.tag)
        &&& in_use(self.clients@, self.used.clients)
        &&& in_use(self.cookies@, self.used.cookies)
        &&& in_use(self.addrs@, self.used.addrs)
    }

    /// Whether `is_sound` holds.
    pub fn check(&self) -> (sound: bool)
        ensures
            sound == self.is_sound(),
    {
        self.used.tag > 0 && self.used.tag - 1 <= self.tag.len() && (self.used.clients == 0
            || self.used.clients - 1 <= self.clients.len()) && (self.used.cookies == 0
            || self.used.cookies - 1 <= self.cookies.len()) && (self.used.addrs == 0
            || self.used.addrs - 1 <= self.addrs.len())
    }

    /// `lockers` is what the reply says. Each holder is made of the strings at one place of the
    /// three lists, as far as all three reach.
    pub open spec fn says(&self, lockers: Lockers) -> bool {
        let clients = packed_in(self.clients@, self.used.clients);
        let cookies = packed_in(self.cookies@, self.used.cookies);
        let addrs = packed_in(self.addrs@, self.used.addrs);
        let list = lockers.lockers@;
        &&& lockers.exclusive == (self.exclusive != 0)
        &&& crate::packed::reads_as(lockers.tag@, self.tag@.take(self.used.tag - 1))
        &&& list.len() == shortest(clients.len(), cookies.len(), addrs.len())
        &&& forall|i: int|
            0 <= i < list.len() ==> {
                &&& crate::packed::reads_as((#[trigger] list[i]).client@, clients[i])
                &&& crate::packed::reads_as(list[i].cookie@, cookies[i])
                &&& crate::packed::reads_as(list[i].addr@, addrs[i])
            }
    }
}

/// The least of three lengths.
pub open spec fn shortest(a: nat, b: nat, c: nat) -> nat {
    if a <= b && a <= c {
        a
    } else if b <= c {
        b
    } else {
        c
    }
}

/// Puts the strings at the same place of the three lists together, as far as all three reach.
pub fn zip_lockers(clients: Vec<String>, cookies: Vec<String>, addrs: Vec<String>) -> (lockers: Vec<
    Locker,
>)
    ensures
        lockers@.len() == shortest(clients@.len(), cookies@.len(), addrs@.len()),
        forall|i: int|
            0 <= i < lockers@.len() ==> {
                &&& (#[trigger] lockers@[i]).client@ == clients@[i]@
                &&& lockers@[i].cookie@ == cookies@[i]@
                &&& lockers@[i].addr@ == addrs@[i]@
            },
{
    let mut lockers: Vec<Locker> = Vec::new();
    let mut i: usize = 0;
    while i < clients.len() && i < cookies.len() && i < addrs.len()
        invariant
            i <= clients@.len(),
            i <= cookies@.len(),
            i <= addrs@.len(),
            lockers@.len() == i,
            forall|j: int|
                0 <= j < i ==> {
                    &&& (#[trigger] lockers@[j]).client@ == clients@[j]@
                    &&& lockers@[j].cookie@ == cookies@[j]@
                    &&& lockers@[j].addr@ == addrs@[j]@
                },
        decreases clients@.len() - i,
    {
        lockers.push(
            Locker {
                client: clients[i].clone(),
                cookie: cookies[i].clone(),
                addr: addrs[i].clone(),
            },
        );
        i += 1;
    }
    lockers
}

impl ListLockers {
    /// The call is for the holders of the lock `name` on the object `oid` of `ioctx`.
    pub open spec fn asks(&self, ioctx: usize, oid: Seq<u8>, name: Seq<u8>) -> bool {
        &&& self.ioctx == ioctx
        &&& self.oid@ == oid
        &&& self.name@ == name
    }

    /// `next` is what follows the reply: the same question with buffers of the sizes that librados
    /// named, the error, or the holders.
    pub open spec fn leads_to(
        &self,
        reply: LockersReply,
        next: Next<ListLockers, Lockers>,
    ) -> bool {
        if reply.ret == -ERANGE {
            &&& next matches Next::Again(call)
            &&& call.asks(self.ioctx, self.oid@, self.name@)
            &&& call.sizes == reply.used
        } else if (reply.ret as i32) < 0 {
            next matches Next::Done(res) && crate::error::fails_as(res, reply.ret as i32)
        } else {
            next matches Next::Done(Ok(lockers)) && reply.says(lockers)
        }
    }

    /// What follows the call. Buffers that were too small are had in the sizes that librados named.
    /// The low half of the return value is the errno of any other failure.
    pub fn step(self, reply: LockersReply) -> (next: Next<ListLockers, Lockers>)
        requires
            reply.ret != isize::MIN,
            reply.ret != -ERANGE ==> reply.ret as i32 != i32::MIN,
            reply.ret != -ERANGE && reply.ret as i32 >= 0 ==> reply.is_sound(),
        ensures
            self.leads_to(reply, next),
    {
        if -reply.ret == ERANGE as isize {
            return Next::Again(
                ListLockers {
                    ioctx: self.ioctx,
                    oid: self.oid,
                    name: self.name,
                    sizes: reply.used,
                },
            );
        }
        match check_err(reply.ret as i32) {
            Ok(()) => {
                let clients = strings(reply.clients.as_slice(), reply.used.clients);
                let cookies = strings(reply.cookies.as_slice(), reply.used.cookies);
                let addrs = strings(reply.addrs.as_slice(), reply.used.addrs);
                let tag = from_utf8_lossy(
                    slice_subrange(reply.tag.as_slice(), 0, reply.used.tag - 1),
                );
                assert(reply.tag@.subrange(0, reply.used.tag - 1) =~= reply.tag@.take(
                    reply.used.tag - 1,
                ));
                Next::Done(
                    Ok(
                        Lockers {
                            exclusive: reply.exclusive != 0,
                            tag,
                            lockers: zip_lockers(clients, cookies, addrs),
                        },
                    ),
                )
            },
            Err(e) => Next::Done(Err(e)),
        }
    }
}

/// One of the buffers is smaller than what is needed.
pub open spec fn too_small(sizes: LockerSizes, needed: LockerSizes) -> bool {
    ||| sizes.tag < needed.tag
    ||| sizes.clients < needed.clients
    ||| sizes.cookies < needed.cookies
    ||| sizes.addrs < needed.addrs
}

/// The buffers grow once: where librados names what it needs, and finds buffers too small only
/// where one of them is, the second call for the same holders ends.
pub proof fn the_second_buffers_are_large_enough(
    first: ListLockers,
    first_reply: LockersReply,
    second: ListLockers,
    second_reply: LockersReply,
    next: Next<ListLockers, Lockers>,
    needed: LockerSizes,
)
    requires
        first_reply.used == needed,
        first.leads_to(first_reply, Next::Again(second)),
        second_reply.ret == -ERANGE ==> too_small(second.sizes, needed),
        second.leads_to(second_reply, next),
    ensures
        second.asks(first.ioctx, first.oid@, first.name@),
        next is Done,
{
}

/// Every holder is listed, with the strings that belong to it: where librados packed the clients,
/// cookies and addresses of a number of holders, that number is listed, and each has its own.
pub proof fn every_holder_is_listed(
    reply: LockersReply,
    lockers: Lockers,
    clients: Seq<Seq<u8>>,
    cookies: Seq<Seq<u8>>,
    addrs: Seq<Seq<u8>>,
)
    requires
        reply.says(lockers),
        clients.len() == cookies.len() == addrs.len(),
        forall|i: int| 0 <= i < clients.len() ==> crate::cstring::nul_free(#[trigger] clients[i]),
        forall|i: int| 0 <= i < cookies.len() ==> crate::cstring::nul_free(#[trigger] cookies[i]),
        forall|i: int| 0 <= i < addrs.len() ==> crate::cstring::nul_free(#[trigger] addrs[i]),
        reply.used.clients == crate::packed::packed(clients).len(),
        reply.used.cookies == crate::packed::packed(cookies).len(),
        reply.used.addrs == crate::packed::packed(addrs).len(),
        crate::packed::packed(clients).is_prefix_of(reply.clients@),
        crate::packed::packed(cookies).is_prefix_of(reply.cookies@),
        crate::packed::packed(addrs).is_prefix_of(reply.addrs@),
    ensures
        lockers.lockers@.len() == clients.len(),
        forall|i: int|
            0 <= i < clients.len() ==> {
                &&& crate::packed::reads_as((#[trigger] lockers.lockers@[i]).client@, clients[i])
                &&& crate::packed::reads_as(lockers.lockers@[i].cookie@, cookies[i])
                &&& crate::packed::reads_as(lockers.lockers@[i].addr@, addrs[i])
            },
{
    lemma_packed_in(clients, reply.clients@, reply.used.clients);
    lemma_packed_in(cookies, reply.cookies@, reply.used.cookies);
    lemma_packed_in(addrs, reply.addrs@, reply.used.addrs);
}

proof fn lemma_packed_in(list: Seq<Seq<u8>>, buf: Seq<u8>, len: usize)
    requires
        forall|i: int| 0 <= i < list.len() ==> crate::cstring::nul_free(#[trigger] list[i]),
        len == crate::packed::packed(list).len(),
        crate::packed::packed(list).is_prefix_of(buf),
    ensures
        packed_in(buf, len) == list,
{
    let packed = crate::packed::packed(list);
    if list.len() == 0 {
        assert(packed_in(buf, len) =~= list);
    } else {
        crate::packed::packed_strings_are_read_back(list);
        assert(buf.take(len - 1) =~= packed.take(packed.len() - 1));
    }
}

/// A list of holders is marked exclusive exactly where librados wrote something other than 0 to its
/// exclusive slot, whoever holds the lock, and its tag is the text of the tag that librados wrote,
/// without the NUL byte that ends it.
pub proof fn a_list_is_exclusive_where_librados_says_so(
    call: ListLockers,
    reply: LockersReply,
    lockers: Lockers,
    tag: Seq<char>,
)
    requires
        call.leads_to(reply, Next::Done(Ok(lockers))),
    ensures
        lockers.exclusive <==> reply.exclusive != 0,
        lockers.tag@ == crate::packed::utf8_lossy(reply.tag@.take(reply.used.tag - 1)),
        vstd::utf8::encode_utf8(tag).push(0).is_prefix_of(reply.tag@) && reply.used.tag
            == vstd::utf8::encode_utf8(tag).len() + 1 ==> lockers.tag@ == tag,
{
    let bytes = reply.tag@.take(reply.used.tag - 1);
    let whole = vstd::utf8::encode_utf8(tag);
    crate::packed::bytes_read_as_one_text(lockers.tag@, lockers.tag@, bytes);
    if whole.push(0).is_prefix_of(reply.tag@) && reply.used.tag == whole.len() + 1 {
        assert(bytes =~= whole) by {
            assert forall|i: int| 0 <= i < whole.len() implies bytes[i] == whole[i] by {
                assert(whole.push(0)[i] == reply.tag@[i]);
            }
        }
        crate::packed::strings_are_kept(lockers.tag@, tag);
    }
}

/// Every holder is listed with its own client, cookie and address: where librados wrote those of a
/// number of holders to the three buffers, each encoded and with a NUL byte behind it, the list is
/// those holders, whole and in their order.
pub proof fn holders_are_listed_with_what_is_theirs(
    call: ListLockers,
    reply: LockersReply,
    lockers: Lockers,
    clients: Seq<Seq<char>>,
    cookies: Seq<Seq<char>>,
    addrs: Seq<Seq<char>>,
)
    requires
        call.leads_to(reply, Next::Done(Ok(lockers))),
        clients.len() == cookies.len() == addrs.len(),
        written_to(clients, reply.clients@, reply.used.clients),
        written_to(cookies, reply.cookies@, reply.used.cookies),
        written_to(addrs, reply.addrs@, reply.used.addrs),
    ensures
        lockers.lockers@.len() == clients.len(),
        forall|i: int|
            0 <= i < clients.len() ==> {
                &&& (#[trigger] lockers.lockers@[i]).client@ == clients[i]
                &&& lockers.lockers@[i].cookie@ == cookies[i]
                &&& lockers.lockers@[i].addr@ == addrs[i]
            },
{
    lemma_written_to(clients, reply.clients@, reply.used.clients);
    lemma_written_to(cookies, reply.cookies@, reply.used.cookies);
    lemma_written_to(addrs, reply.addrs@, reply.used.addrs);
    assert forall|i: int| 0 <= i < clients.len() implies {
        &&& (#[trigger] lockers.lockers@[i]).client@ == clients[i]
        &&& lockers.lockers@[i].cookie@ == cookies[i]
        &&& lockers.lockers@[i].addr@ == addrs[i]
    } by {
        let holder = lockers.lockers@[i];
        crate::packed::strings_are_kept(holder.client@, clients[i]);
        crate::packed::strings_are_kept(holder.cookie@, cookies[i]);
        crate::packed::strings_are_kept(holder.addr@, addrs[i]);
    }
}

/// The first `len` bytes of `buf` hold `texts`, each encoded and with a NUL byte behind it.
pub open spec fn written_to(texts: Seq<Seq<char>>, buf: Seq<u8>, len: usize) -> bool {
    let bytes = texts.map_values(|t: Seq<char>| vstd::utf8::encode_utf8(t).push(0)).flatten();
    &&& forall|i: int| 0 <= i < texts.len() ==> !(#[trigger] texts[i]).contains('\0')
    &&& bytes.is_prefix_of(buf)
    &&& len == bytes.len()
}

proof fn lemma_written_to(texts: Seq<Seq<char>>, buf: Seq<u8>, len: usize)
    requires
        written_to(texts, buf, len),
    ensures
        packed_in(buf, len) == texts.map_values(|t: Seq<char>| vstd::utf8::encode_utf8(t)),
{
    let list = texts.map_values(|t: Seq<char>| vstd::utf8::encode_utf8(t));
    crate::packed::texts_are_packed(texts);
    assert forall|i: int| 0 <= i < list.len() implies crate::cstring::nul_free(
        #[trigger] list[i],
    ) by {
        assert(!texts[i].contains('\0'));
        crate::cstring::only_the_nul_character_is_refused(texts[i]);
    }
    lemma_packed_in(list, buf, len);
}

/// What follows a question for the holders of a lock: where librados found a buffer too small, the
/// same question with buffers of the sizes that it named; where the call failed otherwise, its
/// error; and else as many holders as all three lists of strings have.
pub proof fn what_follows_a_question_for_the_holders(
    call: ListLockers,
    reply: LockersReply,
    next: Next<ListLockers, Lockers>,
)
    requires
        reply.ret != -34 ==> reply.ret as i32 != i32::MIN,
        call.leads_to(reply, next),
    ensures
        match next {
            Next::Again(again) => {
                &&& reply.ret == -34
                &&& again.ioctx == call.ioctx
                &&& again.oid@ == call.oid@
                &&& again.name@ == call.name@
                &&& again.sizes.tag == reply.used.tag
                &&& again.sizes.clients == reply.used.clients
                &&& again.sizes.cookies == reply.used.cookies
                &&& again.sizes.addrs == reply.used.addrs
            },
            Next::Done(Ok(lockers)) => {
                let clients = packed_in(reply.clients@, reply.used.clients);
                let cookies = packed_in(reply.cookies@, reply.used.cookies);
                let addrs = packed_in(reply.addrs@, reply.used.addrs);
                let n = lockers.lockers@.len();
                &&& reply.ret != -34 && reply.ret as i32 >= 0
                &&& n <= clients.len() && n <= cookies.len() && n <= addrs.len()
                &&& n == clients.len() || n == cookies.len() || n == addrs.len()
                &&& forall|i: int|
                    0 <= i < n ==> {
                        let holder = #[trigger] lockers.lockers@[i];
                        &&& holder.client@ == crate::packed::utf8_lossy(clients[i])
                        &&& holder.cookie@ == crate::packed::utf8_lossy(cookies[i])
                        &&& holder.addr@ == crate::packed::utf8_lossy(addrs[i])
                    }
            },
            Next::Done(Err(e)) => reply.ret != -34 && (reply.ret as i32) < 0
                && crate::error::status(reply.ret as i32) == Err::<(), RadosError>(e),
        },
{
    if let Next::Done(Ok(lockers)) = next {
        let clients = packed_in(reply.clients@, reply.used.clients);
        let cookies = packed_in(reply.cookies@, reply.used.cookies);
        let addrs = packed_in(reply.addrs@, reply.used.addrs);
        assert forall|i: int| 0 <= i < lockers.lockers@.len() implies {
            let holder = #[trigger] lockers.lockers@[i];
            &&& holder.client@ == crate::packed::utf8_lossy(clients[i])
            &&& holder.cookie@ == crate::packed::utf8_lossy(cookies[i])
            &&& holder.addr@ == crate::packed::utf8_lossy(addrs[i])
        } by {
            let holder = lockers.lockers@[i];
            crate::packed::bytes_read_as_one_text(holder.client@, holder.client@, clients[i]);
            crate::packed::bytes_read_as_one_text(holder.cookie@, holder.cookie@, cookies[i]);
            crate::packed::bytes_read_as_one_text(holder.addr@, holder.addr@, addrs[i]);
        }
    }
}

/// The strings of a buffer lose nothing of what is in use: with a NUL byte behind each they are the
/// used bytes, the last of which is taken for the NUL byte that it stands for.
pub proof fn the_used_bytes_are_split_without_loss(buf: Seq<u8>, len: usize)
    requires
        in_use(buf, len),
    ensures
        len == 0 <==> packed_in(buf, len).len() == 0,
        len > 0 ==> packed_in(buf, len).map_values(|f: Seq<u8>| f.push(0)).flatten() == buf.take(
            len - 1,
        ).push(0),
        forall|i: int|
            0 <= i < packed_in(buf, len).len() ==> !(#[trigger] packed_in(buf, len)[i]).contains(
                0u8,
            ),
{
    if len > 0 {
        crate::packed::a_split_loses_nothing(buf.take(len - 1));
    }
}

/// The bits by which a lock may and must be renewed are the first and the second.
pub proof fn renew_flags_are_those_of_librados()
    ensures
        LOCK_FLAG_MAY_RENEW == 1,
        LOCK_FLAG_MUST_RENEW == 2,
{
}

/// A question for the holders of a lock names its ioctx, its object and the lock, each whole.
pub proof fn a_question_for_the_holders_names_the_lock(
    call: ListLockers,
    ioctx: usize,
    oid: Seq<u8>,
    name: Seq<u8>,
)
    ensures
        call.asks(ioctx, oid, name) <==> call.ioctx == ioctx && call.oid@ == oid && call.name@
            == name,
{
}

/// A reply is sound where every length fits its buffer, but for the last NUL byte, and the tag has
/// one.
pub proof fn a_sound_reply_has_what_is_in_use(reply: LockersReply)
    ensures
        reply.is_sound() <==> {
            &&& 1 <= reply.used.tag <= reply.tag@.len() + 1
            &&& reply.used.clients <= reply.clients@.len() + 1
            &&& reply.used.cookies <= reply.cookies@.len() + 1
            &&& reply.used.addrs <= reply.addrs@.len() + 1
        },
{
}

} // verus!
