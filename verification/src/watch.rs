//! Watching an object, and notifying those who do.

use crate::cstring::{c_string, CString};
use crate::duration::Duration;
use crate::error::{check_err, RadosError, ETIMEDOUT};
use crate::ioctx::IoCtx;
use crate::nullable::as_elements;
use vstd::prelude::*;

verus! {

/// One notification delivered to a watcher.
#[derive(Debug, PartialEq, Eq)]
pub struct Notification {
    pub notify_id: u64,
    pub notifier_id: u64,
    pub payload: Vec<u8>,
}

/// What the watchers answered to a notification.
#[derive(Debug, PartialEq, Eq)]
pub struct NotifyResponse {
    pub acks: Vec<NotifyAck>,
    pub timeouts: Vec<NotifyTimeout>,
}

/// One watcher's reply. `notifier_id` is the gid of the watcher that acked: an OSD keys the
/// replies by the watcher's gid and cookie.
#[derive(Debug, PartialEq, Eq)]
pub struct NotifyAck {
    pub notifier_id: u64,
    pub cookie: u64,
    pub payload: Vec<u8>,
}

/// A watcher that did not ack in time, identified the same way as in `NotifyAck`.
#[derive(Debug, Clone, Copy, PartialEq, Eq, Structural)]
pub struct NotifyTimeout {
    pub notifier_id: u64,
    pub cookie: u64,
}

impl Notification {
    /// The notification that librados delivers. Data that is null is no data.
    pub fn delivered(notify_id: u64, notifier_id: u64, data: Option<Vec<u8>>) -> (n: Notification)
        ensures
            n.notify_id == notify_id,
            n.notifier_id == notifier_id,
            n.payload@ == crate::nullable::elements(data),
    {
        Notification { notify_id, notifier_id, payload: as_elements(data) }
    }
}

impl IoCtx {
    /// The call that registers a watch on `oid`, with a timeout of 0, which an OSD reads as its
    /// own default.
    pub fn watch(&self, oid: &str) -> (res: Result<WatchCall, RadosError>)
        ensures
            crate::cstring::nul_free(vstd::utf8::encode_utf8(oid@)) ==> {
                &&& res matches Ok(call)
                &&& call.ioctx == self.ioctx()
                &&& call.cluster == self.owner()
                &&& call.oid@ == vstd::utf8::encode_utf8(oid@)
                &&& call.timeout == 0
            },
            !crate::cstring::nul_free(vstd::utf8::encode_utf8(oid@)) ==> crate::error::refuses(
                res,
                vstd::utf8::encode_utf8(oid@),
            ),
    {
        let oid = c_string(oid)?;
        Ok(WatchCall { ioctx: self.raw(), cluster: self.cluster(), oid, timeout: 0 })
    }

    /// The call that notifies every watcher of `oid` and waits for their acks or `timeout`, which
    /// is rounded up to whole seconds.
    pub fn notify<'a>(&self, oid: &str, payload: &'a [u8], timeout: Duration) -> (res: Result<
        NotifyCall<'a>,
        RadosError,
    >)
        requires
            crate::cstring::nul_free(vstd::utf8::encode_utf8(oid@)) ==> crate::duration::notify_timeout(
                timeout@,
            ) <= u64::MAX,
        ensures
            crate::cstring::nul_free(vstd::utf8::encode_utf8(oid@)) ==> {
                &&& res matches Ok(call)
                &&& call.ioctx == self.ioctx()
                &&& call.oid@ == vstd::utf8::encode_utf8(oid@)
                &&& call.payload@ == payload@
                &&& call.payload_len == payload.len() as i32
                &&& call.timeout_ms == crate::duration::notify_timeout(timeout@)
            },
            !crate::cstring::nul_free(vstd::utf8::encode_utf8(oid@)) ==> crate::error::refuses(
                res,
                vstd::utf8::encode_utf8(oid@),
            ),
    {
        let oid = c_string(oid)?;
        let timeout_ms: u64 = timeout.to_notify_timeout();
        Ok(
            NotifyCall {
                ioctx: self.raw(),
                oid,
                payload,
                payload_len: payload.len() as i32,
                timeout_ms,
            },
        )
    }
}

/// The registration of a watch on its way to librados, and then what its callbacks answer with.
#[derive(Debug, PartialEq, Eq)]
pub struct WatchCall {
    pub ioctx: usize,
    pub cluster: usize,
    pub oid: CString,
    pub timeout: u32,
}

/// The answer to a notification on its way to librados.
#[derive(Debug, PartialEq, Eq)]
pub struct AckCall<'a> {
    pub ioctx: usize,
    pub oid: &'a CString,
    pub notify_id: u64,
    pub handle: u64,
    pub reply: Vec<u8>,
    pub reply_len: i32,
}

impl WatchCall {
    /// What came of the registration. Where it failed no callback was registered.
    pub fn registered(&self, ret: i32, handle: u64) -> (res: Result<Watch, RadosError>)
        requires
            ret != i32::MIN,
        ensures
            ret >= 0 ==> (res matches Ok(watch) && watch.closing() == close_plan(
                self.ioctx,
                self.cluster,
                handle,
            ) && watch.closing() == seq![
                CloseStep::Unwatch { ioctx: self.ioctx, handle },
                CloseStep::Flush { cluster: self.cluster },
                CloseStep::Release,
            ]),
            ret < 0 ==> crate::error::fails_as(res, ret),
    {
        check_err(ret)?;
        let watch = Watch {
            handle,
            ioctx: self.ioctx,
            cluster: self.cluster,
            stage: WatchStage::Open,
        };
        assert(watch.closing() =~= close_plan(self.ioctx, self.cluster, handle));
        Ok(watch)
    }

    /// The answer to a notification. Every notification is answered, because a watcher that never
    /// acks keeps the notifier waiting: where the callback came to no reply, with nothing.
    pub fn ack<'a>(&'a self, notify_id: u64, handle: u64, reply: Option<Vec<u8>>) -> (call: AckCall<
        'a,
    >)
        ensures
            call.ioctx == self.ioctx,
            call.oid@ == self.oid@,
            call.notify_id == notify_id,
            call.handle == handle,
            call.reply@ == crate::nullable::elements(reply),
            call.reply_len == call.reply.len() as i32,
    {
        let reply = as_elements(reply);
        let reply_len: i32 = reply.len() as i32;
        AckCall { ioctx: self.ioctx, oid: &self.oid, notify_id, handle, reply, reply_len }
    }
}

/// How far a watch has been closed.
#[derive(Debug, Clone, Copy, PartialEq, Eq, Structural)]
pub enum WatchStage {
    Open,
    Unwatched,
    Flushed,
    Released,
}

/// One step of closing a watch.
#[derive(Debug, Clone, Copy, PartialEq, Eq, Structural)]
pub enum CloseStep {
    /// Unregister the watch: nothing new is dispatched to the callbacks.
    Unwatch { ioctx: usize, handle: u64 },
    /// Wait until every callback that was dispatched has returned.
    Flush { cluster: usize },
    /// Release the callbacks.
    Release,
}

/// The steps of closing a watch. Unregistering does not wait for a callback that is queued, so the
/// callbacks are released only after the flush.
pub open spec fn close_plan(ioctx: usize, cluster: usize, handle: u64) -> Seq<CloseStep> {
    seq![CloseStep::Unwatch { ioctx, handle }, CloseStep::Flush { cluster }, CloseStep::Release]
}

/// A registered watch.
#[derive(Debug, PartialEq, Eq)]
pub struct Watch {
    handle: u64,
    ioctx: usize,
    cluster: usize,
    stage: WatchStage,
}

impl Watch {
    /// The steps of closing the watch that are left.
    pub closed spec fn closing(&self) -> Seq<CloseStep> {
        close_plan(self.ioctx, self.cluster, self.handle).skip(
            match self.stage {
                WatchStage::Open => 0,
                WatchStage::Unwatched => 1,
                WatchStage::Flushed => 2,
                WatchStage::Released => 3,
            },
        )
    }

    /// The next step of closing the watch, or nothing where it is closed.
    pub fn close_step(&mut self) -> (step: Option<CloseStep>)
        ensures
            match step {
                Some(step) => {
                    &&& old(self).closing().len() > 0
                    &&& step == old(self).closing()[0]
                    &&& final(self).closing() == old(self).closing().skip(1)
                },
                None => old(self).closing().len() == 0 && *final(self) == *old(self),
            },
    {
        match self.stage {
            WatchStage::Open => {
                self.stage = WatchStage::Unwatched;
                assert(self.closing() =~= old(self).closing().skip(1));
                Some(CloseStep::Unwatch { ioctx: self.ioctx, handle: self.handle })
            },
            WatchStage::Unwatched => {
                self.stage = WatchStage::Flushed;
                assert(self.closing() =~= old(self).closing().skip(1));
                Some(CloseStep::Flush { cluster: self.cluster })
            },
            WatchStage::Flushed => {
                self.stage = WatchStage::Released;
                assert(self.closing() =~= old(self).closing().skip(1));
                Some(CloseStep::Release)
            },
            WatchStage::Released => None,
        }
    }
}

/// The callbacks of a watch are released exactly once, at the end, after the watch has been
/// unregistered and then flushed.
pub proof fn callbacks_are_released_last(ioctx: usize, cluster: usize, handle: u64, i: int)
    requires
        0 <= i < close_plan(ioctx, cluster, handle).len(),
    ensures
        close_plan(ioctx, cluster, handle)[i] is Release <==> i == close_plan(
            ioctx,
            cluster,
            handle,
        ).len() - 1,
        close_plan(ioctx, cluster, handle)[i] is Flush ==> exists|j: int|
            0 <= j < i && #[trigger] close_plan(ioctx, cluster, handle)[j] is Unwatch,
        close_plan(ioctx, cluster, handle)[i] is Release ==> exists|j: int|
            0 <= j < i && #[trigger] close_plan(ioctx, cluster, handle)[j] is Flush,
{
    let plan = close_plan(ioctx, cluster, handle);
    assert(plan[0] is Unwatch && plan[1] is Flush && plan[2] is Release);
}

/// A notification on its way to librados.
#[derive(Debug, PartialEq, Eq)]
pub struct NotifyCall<'a> {
    pub ioctx: usize,
    pub oid: CString,
    pub payload: &'a [u8],
    pub payload_len: i32,
    pub timeout_ms: u64,
}

/// What follows the return of a notification.
#[derive(Debug, PartialEq, Eq)]
pub enum NotifyNext {
    /// The reply is to be decoded.
    Decode,
    /// This is how it ended.
    Done(Result<NotifyResponse, RadosError>),
}

/// `res` says that nobody answered and nobody was late.
pub open spec fn is_silence(res: Result<NotifyResponse, RadosError>) -> bool {
    res matches Ok(response) && response.acks@.len() == 0 && response.timeouts@.len() == 0
}

impl<'a> NotifyCall<'a> {
    /// What follows the call: `ret` is what it returned, and `reply_len` the length of the reply,
    /// or nothing where the reply is null. A watcher that does not ack in time makes librados
    /// return `ETIMEDOUT` and fill the reply all the same, so that case is decoded like any other.
    pub fn returned(&self, ret: i32, reply_len: Option<usize>) -> (next: NotifyNext)
        requires
            ret != i32::MIN,
        ensures
            ({
                let went_through = ret >= 0 || ret == -ETIMEDOUT;
                let filled = reply_len matches Some(len) && len > 0;
                &&& !went_through ==> (next matches NotifyNext::Done(res) && crate::error::fails_as(
                    res,
                    ret,
                ))
                &&& went_through && !filled ==> (next matches NotifyNext::Done(res) && is_silence(
                    res,
                ))
                &&& went_through && filled ==> next is Decode
            }),
    {
        if -ret != ETIMEDOUT {
            match check_err(ret) {
                Ok(()) => {},
                Err(e) => {
                    return NotifyNext::Done(Err(e));
                },
            }
        }
        let filled = match reply_len {
            Some(len) => len > 0,
            None => false,
        };
        if filled {
            NotifyNext::Decode
        } else {
            NotifyNext::Done(Ok(NotifyResponse { acks: Vec::new(), timeouts: Vec::new() }))
        }
    }
}

/// One ack as librados decodes it. A payload that is empty may be null.
#[derive(Debug, PartialEq, Eq)]
pub struct RawAck {
    pub notifier_id: u64,
    pub cookie: u64,
    pub payload: Option<Vec<u8>>,
}

/// `ack` is what librados decoded.
pub open spec fn ack_says(ack: NotifyAck, raw: RawAck) -> bool {
    &&& ack.notifier_id == raw.notifier_id
    &&& ack.cookie == raw.cookie
    &&& ack.payload@ == crate::nullable::elements(raw.payload)
}

/// The response that librados decoded: `ret` is what decoding returned, and the arrays are null
/// where they have no element.
pub fn decode_notify_response(
    ret: i32,
    acks: Option<Vec<RawAck>>,
    timeouts: Option<Vec<NotifyTimeout>>,
) -> (res: Result<NotifyResponse, RadosError>)
    requires
        ret != i32::MIN,
    ensures
        ret < 0 ==> crate::error::fails_as(res, ret),
        ret >= 0 ==> {
            &&& res matches Ok(response)
            &&& response.acks@.len() == crate::nullable::elements(acks).len()
            &&& forall|i: int|
                0 <= i < response.acks@.len() ==> ack_says(
                    #[trigger] response.acks@[i],
                    crate::nullable::elements(acks)[i],
                )
            &&& response.timeouts@ == crate::nullable::elements(timeouts)
        },
{
    check_err(ret)?;
    let raw = as_elements(acks);
    let ghost all = raw@;
    let mut decoded: Vec<NotifyAck> = Vec::new();
    for ack in it: raw
        invariant
            it.seq() == all,
            decoded@.len() == it.index(),
            forall|i: int| 0 <= i < it.index() ==> ack_says(#[trigger] decoded@[i], all[i]),
    {
        decoded.push(
            NotifyAck {
                notifier_id: ack.notifier_id,
                cookie: ack.cookie,
                payload: as_elements(ack.payload),
            },
        );
    }
    Ok(NotifyResponse { acks: decoded, timeouts: as_elements(timeouts) })
}

/// The steps of closing name what was registered: the one that unregisters has the ioctx and the
/// very handle that librados gave, in all of its 64 bits, and the one that flushes has the cluster.
/// So no two watches are closed by the same steps.
pub proof fn closing_names_what_was_registered(
    ioctx: usize,
    cluster: usize,
    handle: u64,
    other_ioctx: usize,
    other_cluster: usize,
    other_handle: u64,
)
    ensures
        close_plan(ioctx, cluster, handle).len() == 3,
        close_plan(ioctx, cluster, handle)[0] matches CloseStep::Unwatch { ioctx: i, handle: h } && i
            == ioctx && h == handle,
        close_plan(ioctx, cluster, handle)[1] matches CloseStep::Flush { cluster: c } && c
            == cluster,
        close_plan(ioctx, cluster, handle)[2] is Release,
        close_plan(ioctx, cluster, handle) == close_plan(other_ioctx, other_cluster, other_handle)
            <==> ioctx == other_ioctx && cluster == other_cluster && handle == other_handle,
{
    let plan = close_plan(ioctx, cluster, handle);
    let other = close_plan(other_ioctx, other_cluster, other_handle);
    assert(plan[0] == CloseStep::Unwatch { ioctx, handle });
    assert(plan[1] == CloseStep::Flush { cluster });
    assert(other[0] == CloseStep::Unwatch { ioctx: other_ioctx, handle: other_handle });
    assert(other[1] == CloseStep::Flush { cluster: other_cluster });
}

/// A watcher's ack is what librados decoded: who it is, and every byte of the payload.
pub proof fn an_ack_is_what_was_decoded(ack: NotifyAck, raw: RawAck)
    ensures
        ack_says(ack, raw) <==> {
            &&& ack.notifier_id == raw.notifier_id
            &&& ack.cookie == raw.cookie
            &&& match raw.payload {
                Some(payload) => ack.payload@ == payload@,
                None => ack.payload@.len() == 0,
            }
        },
{
    if raw.payload is None && ack.payload@.len() == 0 {
        assert(ack.payload@ =~= Seq::empty());
    }
}

/// Silence is a response without an ack and without a timeout.
pub proof fn silence_has_neither_acks_nor_timeouts(res: Result<NotifyResponse, RadosError>)
    ensures
        is_silence(res) <==> match res {
            Ok(response) => response.acks@.len() == 0 && response.timeouts@.len() == 0,
            Err(_) => false,
        },
{
}

} // verus!
