//! Compound reads: the steps of one, and the results it brings back.

use crate::byte_map::{ByteMap, ByteSet};
use crate::cstring::{c_string, c_string_of_bytes, CString};
use crate::error::{check_err, RadosError};
use crate::ioctx::IoCtx;
use crate::omap::{OmapIter, OmapKeys, OmapPage};
use crate::write_op::copy_slices;
use std::marker::PhantomData;
use vstd::prelude::*;

verus! {

/// What the result of a step is.
#[derive(Debug, Clone, Copy, PartialEq, Eq, Structural)]
pub enum StepKind {
    Data,
    Page,
    Keys,
}

/// One step of a compound read, as librados is to be given it.
#[derive(Debug, PartialEq, Eq)]
pub enum ReadStep {
    AssertVersion { ver: u64 },
    Read { offset: u64, len: usize },
    OmapGetVals {
        start_after: Option<CString>,
        filter_prefix: Option<CString>,
        max_return: u64,
    },
    OmapGetKeys { start_after: Option<CString>, max_return: u64 },
    OmapGetValsByKeys { keys: Vec<Vec<u8>> },
}

/// A step of a compound read in terms of the bytes that it holds.
#[verifier::ext_equal]
pub enum ReadStepSpec {
    AssertVersion { ver: u64 },
    Read { offset: u64, len: usize },
    OmapGetVals {
        start_after: Option<Seq<u8>>,
        filter_prefix: Option<Seq<u8>>,
        max_return: u64,
    },
    OmapGetKeys { start_after: Option<Seq<u8>>, max_return: u64 },
    OmapGetValsByKeys { keys: Seq<Seq<u8>> },
}

/// The bytes of an optional C string.
pub open spec fn optional_bytes(s: Option<CString>) -> Option<Seq<u8>> {
    match s {
        Some(s) => Some(s@),
        None => None,
    }
}

/// The bytes of an optional argument.
pub open spec fn optional_slice(s: Option<&[u8]>) -> Option<Seq<u8>> {
    match s {
        Some(s) => Some(s@),
        None => None,
    }
}

/// An argument that is left out, or that can be a C string.
pub open spec fn can_be_c_string(s: Option<Seq<u8>>) -> bool {
    s matches Some(bytes) ==> crate::cstring::nul_free(bytes)
}

impl View for ReadStep {
    type V = ReadStepSpec;

    open spec fn view(&self) -> ReadStepSpec {
        match *self {
            ReadStep::AssertVersion { ver } => ReadStepSpec::AssertVersion { ver },
            ReadStep::Read { offset, len } => ReadStepSpec::Read { offset, len },
            ReadStep::OmapGetVals { start_after, filter_prefix, max_return } => {
                ReadStepSpec::OmapGetVals {
                    start_after: optional_bytes(start_after),
                    filter_prefix: optional_bytes(filter_prefix),
                    max_return,
                }
            },
            ReadStep::OmapGetKeys { start_after, max_return } => ReadStepSpec::OmapGetKeys {
                start_after: optional_bytes(start_after),
                max_return,
            },
            ReadStep::OmapGetValsByKeys { keys } => ReadStepSpec::OmapGetValsByKeys {
                keys: crate::packed::byte_strings(keys@),
            },
        }
    }
}

impl ReadStepSpec {
    /// What the result of this step is. An assertion has none.
    pub open spec fn kind(self) -> Option<StepKind> {
        match self {
            ReadStepSpec::AssertVersion { .. } => None,
            ReadStepSpec::Read { .. } => Some(StepKind::Data),
            ReadStepSpec::OmapGetVals { .. } => Some(StepKind::Page),
            ReadStepSpec::OmapGetKeys { .. } => Some(StepKind::Keys),
            ReadStepSpec::OmapGetValsByKeys { .. } => Some(StepKind::Page),
        }
    }
}

/// The views of `steps`.
pub open spec fn read_steps(steps: Seq<ReadStep>) -> Seq<ReadStepSpec> {
    steps.map_values(|s: ReadStep| s@)
}

/// The steps that have a result, in their order. A `Handle` is a position among them.
pub open spec fn answered(steps: Seq<ReadStepSpec>) -> Seq<ReadStepSpec> {
    steps.filter(|s: ReadStepSpec| !(s is AssertVersion))
}

/// A step more adds itself to the answered ones where it has a result.
proof fn lemma_answered_push(steps: Seq<ReadStepSpec>, step: ReadStepSpec)
    ensures
        answered(steps.push(step)) == if step is AssertVersion {
            answered(steps)
        } else {
            answered(steps).push(step)
        },
{
    reveal(Seq::filter);
    assert(steps.push(step).drop_last() =~= steps);
}

/// No step, no result.
pub(crate) proof fn nothing_is_answered()
    ensures
        answered(Seq::<ReadStepSpec>::empty()).len() == 0,
{
    reveal(Seq::filter);
}

/// Where a step's result lands in `ReadResults`.
#[derive(Debug)]
pub struct Handle<T> {
    op: u64,
    index: usize,
    marker: PhantomData<T>,
}

impl<T> Clone for Handle<T> {
    fn clone(&self) -> (h: Handle<T>)
        ensures
            h == *self,
    {
        *self
    }
}

impl<T> Copy for Handle<T> {

}

impl<T> Handle<T> {
    /// The number of the op that the handle belongs to.
    pub closed spec fn op(&self) -> u64 {
        self.op
    }

    /// How many steps with a result were added to the op before this one.
    pub closed spec fn index(&self) -> int {
        self.index as int
    }
}

/// The result of a step.
#[derive(Debug, PartialEq, Eq)]
pub enum StepResult {
    Data(Vec<u8>),
    Page(OmapPage),
    Keys(OmapKeys),
}

/// The result of a step in terms of the bytes that it holds.
#[verifier::ext_equal]
pub enum StepResultSpec {
    Data(Seq<u8>),
    Page { entries: Map<Seq<u8>, Seq<u8>>, more: bool },
    Keys { keys: Set<Seq<u8>>, more: bool },
}

impl View for StepResult {
    type V = StepResultSpec;

    open spec fn view(&self) -> StepResultSpec {
        match *self {
            StepResult::Data(data) => StepResultSpec::Data(data@),
            StepResult::Page(page) => StepResultSpec::Page {
                entries: page.entries@,
                more: page.more,
            },
            StepResult::Keys(keys) => StepResultSpec::Keys { keys: keys.keys@, more: keys.more },
        }
    }
}

impl StepResultSpec {
    /// What this result is.
    pub open spec fn kind(self) -> StepKind {
        match self {
            StepResultSpec::Data(_) => StepKind::Data,
            StepResultSpec::Page { .. } => StepKind::Page,
            StepResultSpec::Keys { .. } => StepKind::Keys,
        }
    }

    /// The result of a step that brought nothing back.
    pub open spec fn nothing(kind: StepKind) -> StepResultSpec {
        match kind {
            StepKind::Data => StepResultSpec::Data(Seq::empty()),
            StepKind::Page => StepResultSpec::Page { entries: Map::empty(), more: false },
            StepKind::Keys => StepResultSpec::Keys { keys: Set::empty(), more: false },
        }
    }
}

impl StepResult {
    /// What this result is.
    pub fn kind(&self) -> (kind: StepKind)
        ensures
            kind == self@.kind(),
    {
        match self {
            StepResult::Data(_) => StepKind::Data,
            StepResult::Page(_) => StepKind::Page,
            StepResult::Keys(_) => StepKind::Keys,
        }
    }
}

/// A type that a step's result can be taken as.
pub trait StepValue: Sized {
    /// The results that are of this type.
    spec fn spec_kind() -> StepKind;

    /// The result that this value is.
    spec fn shown(&self) -> StepResultSpec;

    /// The results that are of this type.
    fn kind() -> (kind: StepKind)
        ensures
            kind == Self::spec_kind(),
    ;

    /// The value of a result of this type.
    fn from_result(result: StepResult) -> (value: Option<Self>)
        ensures
            result@.kind() == Self::spec_kind() ==> (value matches Some(v) && v.shown() == result@),
            result@.kind() != Self::spec_kind() ==> value is None,
    ;
}

impl StepValue for Vec<u8> {
    open spec fn spec_kind() -> StepKind {
        StepKind::Data
    }

    open spec fn shown(&self) -> StepResultSpec {
        StepResultSpec::Data(self@)
    }

    fn kind() -> (kind: StepKind) {
        StepKind::Data
    }

    fn from_result(result: StepResult) -> (value: Option<Vec<u8>>) {
        match result {
            StepResult::Data(data) => Some(data),
            _ => None,
        }
    }
}

impl StepValue for OmapPage {
    open spec fn spec_kind() -> StepKind {
        StepKind::Page
    }

    open spec fn shown(&self) -> StepResultSpec {
        StepResultSpec::Page { entries: self.entries@, more: self.more }
    }

    fn kind() -> (kind: StepKind) {
        StepKind::Page
    }

    fn from_result(result: StepResult) -> (value: Option<OmapPage>) {
        match result {
            StepResult::Page(page) => Some(page),
            _ => None,
        }
    }
}

impl StepValue for OmapKeys {
    open spec fn spec_kind() -> StepKind {
        StepKind::Keys
    }

    open spec fn shown(&self) -> StepResultSpec {
        StepResultSpec::Keys { keys: self.keys@, more: self.more }
    }

    fn kind() -> (kind: StepKind) {
        StepKind::Keys
    }

    fn from_result(result: StepResult) -> (value: Option<OmapKeys>) {
        match result {
            StepResult::Keys(keys) => Some(keys),
            _ => None,
        }
    }
}

/// The slots that a data read writes to.
#[derive(Debug, PartialEq, Eq)]
pub struct ReadStepData {
    pub buf: Vec<u8>,
    pub bytes_read: usize,
    pub prval: i32,
}

/// The slots that a read of omap values writes to.
#[derive(Debug, PartialEq, Eq)]
pub struct OmapValsStep {
    pub iter: OmapIter,
    pub more: u8,
    pub prval: i32,
}

/// The slots that a read of omap keys writes to.
#[derive(Debug, PartialEq, Eq)]
pub struct OmapKeysStep {
    pub iter: OmapIter,
    pub more: u8,
    pub prval: i32,
}

/// The slots of a step. librados writes to them while the op runs.
#[derive(Debug, PartialEq, Eq)]
pub enum StepSlots {
    Data(ReadStepData),
    Vals(OmapValsStep),
    Keys(OmapKeysStep),
}

impl StepSlots {
    /// The return value of the step.
    pub open spec fn ret(&self) -> i32 {
        match *self {
            StepSlots::Data(d) => d.prval,
            StepSlots::Vals(v) => v.prval,
            StepSlots::Keys(k) => k.prval,
        }
    }

    /// What the slots hold: the bytes that were read, or the map or set of what the iterator gave.
    pub open spec fn outcome(&self) -> StepResultSpec {
        match *self {
            StepSlots::Data(d) => StepResultSpec::Data(
                if d.bytes_read <= d.buf@.len() {
                    d.buf@.take(d.bytes_read as int)
                } else {
                    d.buf@
                },
            ),
            StepSlots::Vals(v) => StepResultSpec::Page {
                entries: crate::byte_map::collected(v.iter@),
                more: v.more != 0,
            },
            StepSlots::Keys(k) => StepResultSpec::Keys {
                keys: crate::byte_map::keys_of(k.iter@),
                more: k.more != 0,
            },
        }
    }

    /// These can be the slots of `step`. A read by keys has no slot for `more`: it stays 0.
    pub open spec fn belong_to(&self, step: ReadStepSpec) -> bool {
        match step {
            ReadStepSpec::AssertVersion { .. } => false,
            ReadStepSpec::Read { .. } => self is Data,
            ReadStepSpec::OmapGetVals { .. } => self is Vals,
            ReadStepSpec::OmapGetKeys { .. } => self is Keys,
            ReadStepSpec::OmapGetValsByKeys { .. } => self matches StepSlots::Vals(v) && v.more
                == 0,
        }
    }

    /// The return value of the step.
    pub fn prval(&self) -> (prval: i32)
        ensures
            prval == self.ret(),
    {
        match self {
            StepSlots::Data(d) => d.prval,
            StepSlots::Vals(v) => v.prval,
            StepSlots::Keys(k) => k.prval,
        }
    }

    /// The result that the slots hold.
    pub fn into_result(self) -> (result: StepResult)
        ensures
            result@ == self.outcome(),
    {
        match self {
            StepSlots::Data(d) => {
                let mut buf = d.buf;
                buf.truncate(d.bytes_read);
                assert(self.outcome() == StepResultSpec::Data(buf@));
                StepResult::Data(buf)
            },
            StepSlots::Vals(v) => {
                let entries = ByteMap::from_pairs(v.iter.pairs());
                StepResult::Page(OmapPage { entries, more: v.more != 0 })
            },
            StepSlots::Keys(k) => {
                let keys = ByteSet::from_keys_of(k.iter.pairs());
                StepResult::Keys(OmapKeys { keys, more: k.more != 0 })
            },
        }
    }
}

impl ReadStep {
    /// The slots of the step as they are before the op runs. They hold nothing, and a step that
    /// does not run leaves them so.
    pub fn slots(&self) -> (slots: Option<StepSlots>)
        ensures
            slots is None <==> self@ is AssertVersion,
            slots matches Some(s) ==> {
                &&& s.belong_to(self@)
                &&& s.ret() == 0
                &&& s.outcome() == StepResultSpec::nothing(self@.kind()->0)
                &&& (self@ matches ReadStepSpec::Read { len, .. } ==> (s matches StepSlots::Data(d)
                    && d.buf@ == Seq::new(len as nat, |i: int| 0u8)))
            },
    {
        match self {
            ReadStep::AssertVersion { .. } => None,
            ReadStep::Read { len, .. } => {
                let buf = vec![0u8; *len];
                assert(buf@ =~= Seq::new(*len as nat, |i: int| 0u8));
                let data = ReadStepData { buf, bytes_read: 0, prval: 0 };
                assert(data.buf@.take(0) =~= Seq::empty());
                Some(StepSlots::Data(data))
            },
            ReadStep::OmapGetVals { .. } | ReadStep::OmapGetValsByKeys { .. } => Some(
                StepSlots::Vals(OmapValsStep { iter: OmapIter::empty(), more: 0, prval: 0 }),
            ),
            ReadStep::OmapGetKeys { .. } => {
                let keys = OmapKeysStep { iter: OmapIter::empty(), more: 0, prval: 0 };
                assert(crate::byte_map::keys_of(keys.iter@) =~= Set::empty());
                Some(StepSlots::Keys(keys))
            },
        }
    }
}

/// `handle` was given out by an op of the number `op` with the steps `steps`.
pub open spec fn issued<T: StepValue>(
    handle: Handle<T>,
    op: u64,
    steps: Seq<ReadStepSpec>,
) -> bool {
    &&& handle.op() == op
    &&& 0 <= handle.index() < answered(steps).len()
    &&& answered(steps)[handle.index()].kind() == Some(T::spec_kind())
}

/// The number of a read op on its way to librados.
#[derive(Debug, PartialEq, Eq)]
pub struct OpNumber(u64);

impl OpNumber {
    /// The number itself.
    pub closed spec fn value(&self) -> u64 {
        self.0
    }
}

/// The source of the numbers by which read ops know their own handles. No number is given twice, so
/// the ops of one program draw theirs from one source.
#[derive(Debug)]
pub struct OpNumbers {
    next: u64,
}

impl OpNumbers {
    /// The number that the next op will have.
    pub closed spec fn next(&self) -> u64 {
        self.next
    }

    /// A source of which no number has been used.
    pub fn new() -> (numbers: OpNumbers)
        ensures
            numbers.next() == 1,
    {
        OpNumbers { next: 1 }
    }

    /// Whether there is a number left for another op.
    pub fn has_next(&self) -> (more: bool)
        ensures
            more == (self.next() < u64::MAX),
    {
        self.next < u64::MAX
    }
}

/// A compound read. Each step with a result comes with the handle that its result will arrive
/// under.
#[derive(Debug, PartialEq, Eq)]
pub struct ReadOp {
    number: u64,
    steps: Vec<ReadStep>,
    results: usize,
}

impl View for ReadOp {
    type V = Seq<ReadStepSpec>;

    /// The steps in the order in which they were added.
    closed spec fn view(&self) -> Seq<ReadStepSpec> {
        read_steps(self.steps@)
    }
}

impl ReadOp {
    /// The number by which handles are told apart from those of another op.
    pub closed spec fn number(&self) -> u64 {
        self.number
    }

    /// The op knows how many results it will have.
    pub closed spec fn wf(&self) -> bool {
        self.results == answered(self@).len()
    }

    /// `op` is an op without steps, and has the number that was next in `before`. In `after` that
    /// number is used up.
    pub open spec fn drawn(before: OpNumbers, op: ReadOp, after: OpNumbers) -> bool {
        &&& op.wf()
        &&& op@ == Seq::<ReadStepSpec>::empty()
        &&& op.number() == before.next()
        &&& after.next() == before.next() + 1
    }

    /// An op without steps, with a number of its own.
    pub fn new(numbers: &mut OpNumbers) -> (op: ReadOp)
        requires
            old(numbers).next() < u64::MAX,
        ensures
            ReadOp::drawn(*old(numbers), op, *final(numbers)),
    {
        let number: u64 = numbers.next;
        numbers.next = number + 1;
        ReadOp::numbered(number)
    }

    /// An op without steps for a single read, of which no handle is given out. Its number is one
    /// that no source gives.
    pub(crate) fn single() -> (op: ReadOp)
        ensures
            op.wf(),
            op.number() == 0,
            op@ == Seq::<ReadStepSpec>::empty(),
    {
        ReadOp::numbered(0)
    }

    fn numbered(number: u64) -> (op: ReadOp)
        ensures
            op.wf(),
            op.number() == number,
            op@ == Seq::<ReadStepSpec>::empty(),
    {
        let op = ReadOp { number, steps: Vec::new(), results: 0 };
        proof {
            assert(op@ =~= Seq::empty());
            reveal(Seq::filter);
        }
        op
    }

    /// Fails the op unless the object is at version `ver`.
    pub fn assert_version(&mut self, ver: u64)
        requires
            old(self).wf(),
        ensures
            final(self).wf(),
            final(self).number() == old(self).number(),
            final(self)@ == old(self)@.push(ReadStepSpec::AssertVersion { ver }),
    {
        self.steps.push(ReadStep::AssertVersion { ver });
        proof {
            let added = ReadStepSpec::AssertVersion { ver };
            assert(self@ =~= old(self)@.push(added));
            lemma_answered_push(old(self)@, added);
        }
    }

    /// Adds a step that has a result.
    fn push<T: StepValue>(&mut self, step: ReadStep) -> (handle: Handle<T>)
        requires
            old(self).wf(),
            step@.kind() == Some(T::spec_kind()),
        ensures
            final(self).wf(),
            final(self).number() == old(self).number(),
            final(self)@ == old(self)@.push(step@),
            handle.index() == answered(old(self)@).len(),
            issued(handle, final(self).number(), final(self)@),
    {
        let ghost added = step@;
        let handle = Handle { op: self.number, index: self.results, marker: PhantomData };
        self.steps.push(step);
        proof {
            assert(self@ =~= old(self)@.push(added));
            lemma_answered_push(old(self)@, added);
            self@.lemma_filter_len(|s: ReadStepSpec| !(s is AssertVersion));
            assert(self.steps.len() == self@.len());
        }
        self.results = self.results + 1;
        handle
    }

    /// Reads `len` bytes from `offset` on.
    pub fn read(&mut self, offset: u64, len: usize) -> (handle: Handle<Vec<u8>>)
        requires
            old(self).wf(),
        ensures
            final(self).wf(),
            final(self).number() == old(self).number(),
            final(self)@ == old(self)@.push(ReadStepSpec::Read { offset, len }),
            handle.index() == answered(old(self)@).len(),
            issued(handle, final(self).number(), final(self)@),
    {
        self.push(ReadStep::Read { offset, len })
    }

    /// Reads up to `max_return` keys that come after `start_after` and begin with `filter_prefix`,
    /// with their values. Both go to the OSD as C strings, so a key that holds a NUL cannot be
    /// named here. The range excludes `start_after`, and none is taken for the empty key, so an
    /// entry stored under the empty key is never returned: `omap_get_vals_by_keys` reads it.
    pub fn omap_get_vals(
        &mut self,
        start_after: Option<&[u8]>,
        filter_prefix: Option<&str>,
        max_return: u64,
    ) -> (res: Result<Handle<OmapPage>, RadosError>)
        requires
            old(self).wf(),
        ensures
            final(self).wf(),
            final(self).number() == old(self).number(),
            !can_be_c_string(optional_slice(start_after)) ==> {
                &&& crate::error::refuses(res, optional_slice(start_after)->0)
                &&& final(self)@ == old(self)@
            },
            can_be_c_string(optional_slice(start_after)) && !can_be_c_string(
                crate::cstring::optional_utf8(filter_prefix),
            ) ==> {
                &&& crate::error::refuses(res, crate::cstring::optional_utf8(filter_prefix)->0)
                &&& final(self)@ == old(self)@
            },
            can_be_c_string(optional_slice(start_after)) && can_be_c_string(
                crate::cstring::optional_utf8(filter_prefix),
            ) ==> {
                &&& final(self)@ == old(self)@.push(
                    ReadStepSpec::OmapGetVals {
                        start_after: optional_slice(start_after),
                        filter_prefix: crate::cstring::optional_utf8(filter_prefix),
                        max_return,
                    },
                )
                &&& res matches Ok(handle)
                &&& handle.index() == answered(old(self)@).len()
                &&& issued(handle, final(self).number(), final(self)@)
            },
    {
        let start_after = match start_after {
            Some(start_after) => Some(c_string_of_bytes(start_after)?),
            None => None,
        };
        let filter_prefix = match filter_prefix {
            Some(filter_prefix) => Some(c_string(filter_prefix)?),
            None => None,
        };
        Ok(self.push(ReadStep::OmapGetVals { start_after, filter_prefix, max_return }))
    }

    /// Reads up to `max_return` keys that come after `start_after`, with the same two limits as
    /// `omap_get_vals`: it cannot name a key that holds a NUL, and the empty key is never returned.
    pub fn omap_get_keys(
        &mut self,
        start_after: Option<&[u8]>,
        max_return: u64,
    ) -> (res: Result<Handle<OmapKeys>, RadosError>)
        requires
            old(self).wf(),
        ensures
            final(self).wf(),
            final(self).number() == old(self).number(),
            !can_be_c_string(optional_slice(start_after)) ==> {
                &&& crate::error::refuses(res, optional_slice(start_after)->0)
                &&& final(self)@ == old(self)@
            },
            can_be_c_string(optional_slice(start_after)) ==> {
                &&& final(self)@ == old(self)@.push(
                    ReadStepSpec::OmapGetKeys {
                        start_after: optional_slice(start_after),
                        max_return,
                    },
                )
                &&& res matches Ok(handle)
                &&& handle.index() == answered(old(self)@).len()
                &&& issued(handle, final(self).number(), final(self)@)
            },
    {
        let start_after = match start_after {
            Some(start_after) => Some(c_string_of_bytes(start_after)?),
            None => None,
        };
        Ok(self.push(ReadStep::OmapGetKeys { start_after, max_return }))
    }

    /// Reads the values of `keys`. The page never has `more` set.
    pub fn omap_get_vals_by_keys(&mut self, keys: &[&[u8]]) -> (handle: Handle<OmapPage>)
        requires
            old(self).wf(),
        ensures
            final(self).wf(),
            final(self).number() == old(self).number(),
            final(self)@ == old(self)@.push(
                ReadStepSpec::OmapGetValsByKeys { keys: crate::write_op::slices(keys@) },
            ),
            handle.index() == answered(old(self)@).len(),
            issued(handle, final(self).number(), final(self)@),
    {
        self.push(ReadStep::OmapGetValsByKeys { keys: copy_slices(keys) })
    }

    /// The call that runs the op on `oid`.
    pub fn operate(self, io: &IoCtx, oid: &str) -> (res: Result<ReadCall, RadosError>)
        requires
            self.wf(),
        ensures
            crate::cstring::nul_free(vstd::utf8::encode_utf8(oid@)) ==> (res matches Ok(call)
                && call.runs(self@, io.ioctx(), vstd::utf8::encode_utf8(oid@)) && call.number()
                == self.number()),
            !crate::cstring::nul_free(vstd::utf8::encode_utf8(oid@)) ==> crate::error::refuses(
                res,
                vstd::utf8::encode_utf8(oid@),
            ),
    {
        let oid = c_string(oid)?;
        let number = OpNumber(self.number);
        Ok(ReadCall { ioctx: io.raw(), oid, steps: self.steps, number })
    }
}

/// A compound read on its way to librados.
#[derive(Debug, PartialEq, Eq)]
pub struct ReadCall {
    /// The ioctx that the call goes to.
    pub ioctx: usize,
    /// The object that is read.
    pub oid: CString,
    /// The steps, in the order in which they are to be added.
    pub steps: Vec<ReadStep>,
    /// The number of the op.
    pub number: OpNumber,
}

impl ReadCall {
    /// The number of the op.
    pub open spec fn number(&self) -> u64 {
        self.number.value()
    }

    /// The call runs exactly `steps`, in their order, on the object `oid` of `ioctx`.
    pub open spec fn runs(&self, steps: Seq<ReadStepSpec>, ioctx: usize, oid: Seq<u8>) -> bool {
        &&& self.ioctx == ioctx
        &&& self.oid@ == oid
        &&& read_steps(self.steps@) == steps
    }

    /// `slots` can be those of the call after it has succeeded: one for each step with a result.
    pub open spec fn could_fill(&self, slots: Seq<StepSlots>) -> bool {
        let steps = answered(read_steps(self.steps@));
        &&& slots.len() == steps.len()
        &&& forall|i: int|
            0 <= i < slots.len() ==> (#[trigger] slots[i]).belong_to(steps[i]) && slots[i].ret()
                != i32::MIN
    }

    /// `results` are those of the call after it has left `slots`: of each step with a result its
    /// return value and what its slots hold.
    pub open spec fn yields(&self, slots: Seq<StepSlots>, results: ReadResults) -> bool {
        &&& results.number() == self.number()
        &&& results@.len() == slots.len()
        &&& forall|i: int|
            0 <= i < slots.len() ==> #[trigger] results@[i] == Some(
                (slots[i].ret(), slots[i].outcome()),
            )
    }

    /// What came of the call: `ret` is what it returned, and `slots` are those of the steps with a
    /// result. Where the call failed there are no results to take.
    pub fn complete(self, ret: i32, slots: Vec<StepSlots>) -> (res: Result<ReadResults, RadosError>)
        requires
            ret != i32::MIN,
            ret >= 0 ==> self.could_fill(slots@),
        ensures
            ret < 0 ==> crate::error::fails_as(res, ret),
            ret >= 0 ==> (res matches Ok(results) && results.wf() && self.yields(slots@, results)),
    {
        check_err(ret)?;
        let ghost all = slots@;
        let mut results: Vec<Option<(i32, StepResult)>> = Vec::new();
        for slot in it: slots
            invariant
                it.seq() == all,
                ret >= 0,
                self.could_fill(all),
                results@.len() == it.index(),
                forall|i: int|
                    0 <= i < it.index() ==> (#[trigger] results@[i] matches Some(r) && r.0
                        == all[i].ret() && r.1@ == all[i].outcome()),
        {
            assert(all[it.index()].ret() != i32::MIN);
            let prval: i32 = slot.prval();
            results.push(Some((prval, slot.into_result())));
        }
        let results = ReadResults { number: self.number.0, results };
        assert forall|i: int| 0 <= i < all.len() implies #[trigger] results@[i] == Some(
            (all[i].ret(), all[i].outcome()),
        ) && all[i].ret() != i32::MIN by {
            assert(results.results@[i] is Some);
            assert(all[i].belong_to(answered(read_steps(self.steps@))[i]));
        }
        Ok(results)
    }
}

/// The results of a completed read op, in the order in which the steps were added.
#[derive(Debug, PartialEq, Eq)]
pub struct ReadResults {
    number: u64,
    results: Vec<Option<(i32, StepResult)>>,
}

impl View for ReadResults {
    type V = Seq<Option<(i32, StepResultSpec)>>;

    /// Of each step its return value and its result, or nothing where they have been taken.
    closed spec fn view(&self) -> Seq<Option<(i32, StepResultSpec)>> {
        self.results@.map_values(
            |r: Option<(i32, StepResult)>|
                match r {
                    Some((prval, result)) => Some((prval, result@)),
                    None => None,
                },
        )
    }
}

impl ReadResults {
    /// The number of the op that the results are of.
    pub closed spec fn number(&self) -> u64 {
        self.number
    }

    /// Every return value can be negated.
    pub open spec fn wf(&self) -> bool {
        forall|i: int|
            0 <= i < self@.len() ==> (#[trigger] self@[i] matches Some((prval, _)) ==> prval
                != i32::MIN)
    }

    /// `handle` names a result of this op that has been taken.
    pub open spec fn taken<T: StepValue>(&self, handle: Handle<T>) -> bool {
        &&& handle.op() == self.number()
        &&& 0 <= handle.index() < self@.len()
        &&& self@[handle.index()] is None
    }

    /// `handle` names a result that can be taken.
    pub open spec fn holds<T: StepValue>(&self, handle: Handle<T>) -> bool {
        &&& handle.op() == self.number()
        &&& 0 <= handle.index() < self@.len()
        &&& self@[handle.index()] matches Some((_, result))
        &&& result.kind() == T::spec_kind()
    }

    /// Whether `handle` names a result that has been taken.
    pub fn is_taken<T: StepValue>(&self, handle: Handle<T>) -> (taken: bool)
        ensures
            taken == self.taken(handle),
    {
        handle.op == self.number && handle.index < self.results.len()
            && self.results[handle.index].is_none()
    }

    /// Takes the result that `handle` names. The OSD stops at the first failing step, so a step
    /// that did not run reports a return value of 0 and yields its empty result. A handle that
    /// belongs to another operation is refused: each op has a number of its own, and a handle the
    /// number of its op.
    pub fn take<T: StepValue>(&mut self, handle: Handle<T>) -> (res: Result<T, RadosError>)
        requires
            old(self).wf(),
            !old(self).taken(handle),
        ensures
            final(self).wf(),
            final(self).number() == old(self).number(),
            !old(self).holds(handle) ==> res == Err::<T, RadosError>(RadosError::InvalidHandle)
                && final(self)@ == old(self)@,
            old(self).holds(handle) ==> {
                let (prval, result) = old(self)@[handle.index()]->0;
                &&& final(self)@ == old(self)@.update(handle.index(), None)
                &&& prval < 0 ==> crate::error::fails_as(res, prval)
                &&& prval >= 0 ==> (res matches Ok(value) && value.shown() == result)
            },
    {
        if handle.op != self.number || handle.index >= self.results.len() {
            return Err(RadosError::InvalidHandle);
        }
        let i: usize = handle.index;
        match &self.results[i] {
            Some((_, result)) => {
                if result.kind() != T::kind() {
                    return Err(RadosError::InvalidHandle);
                }
            },
            None => {
                return Err(RadosError::InvalidHandle);
            },
        }
        let slot = self.results[i].take();
        assert(self@ =~= old(self)@.update(i as int, None));
        match slot {
            Some((prval, result)) => {
                check_err(prval)?;
                match T::from_result(result) {
                    Some(value) => Ok(value),
                    None => Err(RadosError::InvalidHandle),
                }
            },
            None => Err(RadosError::InvalidHandle),
        }
    }

    /// Of each step its return value, or nothing where its result has been taken.
    pub fn prvals(&self) -> (prvals: Vec<Option<i32>>)
        ensures
            prvals@.len() == self@.len(),
            forall|i: int|
                0 <= i < prvals@.len() ==> #[trigger] prvals@[i] == match self@[i] {
                    Some((prval, _)) => Some(prval),
                    None => None,
                },
    {
        let mut prvals: Vec<Option<i32>> = Vec::new();
        let mut i: usize = 0;
        while i < self.results.len()
            invariant
                i <= self.results@.len(),
                prvals@.len() == i,
                forall|j: int|
                    0 <= j < i ==> #[trigger] prvals@[j] == match self@[j] {
                        Some((prval, _)) => Some(prval),
                        None => None,
                    },
            decreases self.results@.len() - i,
        {
            match &self.results[i] {
                Some((prval, _)) => prvals.push(Some(*prval)),
                None => prvals.push(None),
            }
            i += 1;
        }
        prvals
    }
}

/// A compound read of which one result is wanted.
#[derive(Debug)]
pub struct SingleRead<T> {
    call: ReadCall,
    handle: Handle<T>,
}

impl<T: StepValue> SingleRead<T> {
    /// The call that runs the read.
    pub closed spec fn request(&self) -> ReadCall {
        self.call
    }

    /// Where the result will be.
    pub closed spec fn handle(&self) -> Handle<T> {
        self.handle
    }

    /// The handle is one of the call's.
    pub open spec fn wf(&self) -> bool {
        issued(self.handle(), self.request().number(), read_steps(self.request().steps@))
    }

    pub(crate) fn new(call: ReadCall, handle: Handle<T>) -> (read: SingleRead<T>)
        ensures
            read.request() == call,
            read.handle() == handle,
    {
        SingleRead { call, handle }
    }

    /// The call that runs the read.
    pub fn call(&self) -> (call: &ReadCall)
        ensures
            *call == self.request(),
    {
        &self.call
    }

    /// What came of the call: the result of the one step. It fails as the call failed, or else as
    /// the step did.
    pub fn complete(self, ret: i32, slots: Vec<StepSlots>) -> (res: Result<T, RadosError>)
        requires
            self.wf(),
            ret != i32::MIN,
            ret >= 0 ==> self.request().could_fill(slots@),
        ensures
            ret < 0 ==> crate::error::fails_as(res, ret),
            ret >= 0 ==> {
                let slot = slots@[self.handle().index()];
                &&& slot.ret() < 0 ==> crate::error::fails_as(res, slot.ret())
                &&& slot.ret() >= 0 ==> (res matches Ok(value) && value.shown() == slot.outcome())
            },
    {
        let ghost call = self.call;
        let ghost all = slots@;
        let handle = self.handle;
        let mut results = self.call.complete(ret, slots)?;
        proof {
            a_result_arrives_under_its_handle(handle, call, all, results);
        }
        results.take(handle)
    }
}

/// The slots of a step hold a result of the step's kind.
proof fn lemma_slots_hold_their_kind(slots: StepSlots, step: ReadStepSpec)
    requires
        slots.belong_to(step),
    ensures
        step.kind() == Some(slots.outcome().kind()),
{
}

/// The result of a step arrives under the handle that the step was added with.
pub proof fn a_result_arrives_under_its_handle<T: StepValue>(
    handle: Handle<T>,
    call: ReadCall,
    slots: Seq<StepSlots>,
    results: ReadResults,
)
    requires
        issued(handle, call.number(), read_steps(call.steps@)),
        call.could_fill(slots),
        call.yields(slots, results),
    ensures
        results.holds(handle),
        !results.taken(handle),
        results@[handle.index()] == Some(
            (slots[handle.index()].ret(), slots[handle.index()].outcome()),
        ),
{
    let i = handle.index();
    assert(slots[i].belong_to(answered(read_steps(call.steps@))[i]));
    lemma_slots_hold_their_kind(slots[i], answered(read_steps(call.steps@))[i]);
}

/// A handle names the same step however many steps follow.
pub proof fn handles_keep_their_step(
    earlier: Seq<ReadStepSpec>,
    later: Seq<ReadStepSpec>,
    index: int,
)
    requires
        earlier.is_prefix_of(later),
        0 <= index < answered(earlier).len(),
    ensures
        index < answered(later).len(),
        answered(later)[index] == answered(earlier)[index],
    decreases later.len(),
{
    if earlier.len() < later.len() {
        let less = later.drop_last();
        assert(earlier.is_prefix_of(less));
        handles_keep_their_step(earlier, less, index);
        lemma_answered_push(less, later.last());
        assert(less.push(later.last()) =~= later);
    } else {
        assert(earlier =~= later);
    }
}

/// The step that a new handle names is the one that was added with it.
pub proof fn a_handle_names_its_step(steps: Seq<ReadStepSpec>, step: ReadStepSpec)
    requires
        !(step is AssertVersion),
    ensures
        answered(steps.push(step)).len() == answered(steps).len() + 1,
        answered(steps.push(step))[answered(steps).len() as int] == step,
{
    lemma_answered_push(steps, step);
}

/// A handle of another operation names no result of this one, whether taken or not.
pub proof fn handles_of_another_op_are_refused<T: StepValue>(
    results: ReadResults,
    handle: Handle<T>,
)
    requires
        handle.op() != results.number(),
    ensures
        !results.holds(handle),
        !results.taken(handle),
{
}

/// The ops of one source refuse each other's handles, however many ops were drawn between the two:
/// the results of neither hold anything for a handle of the other.
pub proof fn ops_of_one_source_refuse_each_other<T: StepValue, U: StepValue>(
    at_first: OpNumbers,
    earlier: ReadOp,
    after_earlier: OpNumbers,
    before_later: OpNumbers,
    later: ReadOp,
    at_last: OpNumbers,
    earlier_results: ReadResults,
    later_results: ReadResults,
    earlier_handle: Handle<T>,
    later_handle: Handle<U>,
)
    requires
        ReadOp::drawn(at_first, earlier, after_earlier),
        after_earlier.next() <= before_later.next(),
        ReadOp::drawn(before_later, later, at_last),
        earlier_results.number() == earlier_handle.op() == earlier.number(),
        later_results.number() == later_handle.op() == later.number(),
    ensures
        !earlier_results.holds(later_handle),
        !earlier_results.taken(later_handle),
        !later_results.holds(earlier_handle),
        !later_results.taken(earlier_handle),
{
    handles_of_another_op_are_refused(earlier_results, later_handle);
    handles_of_another_op_are_refused(later_results, earlier_handle);
}

/// Taking a result leaves every other result to be taken, and none to be taken twice.
pub proof fn results_are_taken_one_by_one<T: StepValue, U: StepValue>(
    before: ReadResults,
    after: ReadResults,
    taken: Handle<T>,
    other: Handle<U>,
)
    requires
        before.holds(taken),
        after.number() == before.number(),
        after@ == before@.update(taken.index(), None),
    ensures
        after.taken(taken),
        other.index() != taken.index() ==> after.holds(other) == before.holds(other),
        other.index() != taken.index() && before.holds(other) ==> after@[other.index()]
            == before@[other.index()],
{
}

/// A page that was read by keys is never marked as cut short.
pub proof fn a_page_by_keys_is_complete(slots: StepSlots, keys: Seq<Seq<u8>>)
    requires
        slots.belong_to(ReadStepSpec::OmapGetValsByKeys { keys }),
    ensures
        slots.outcome() matches StepResultSpec::Page { more: false, .. },
{
}

/// Optional arguments are left out, or kept whole, and can be C strings unless they contain the
/// byte 0.
pub proof fn optional_arguments_are_kept_whole(s: Option<&[u8]>, c: Option<CString>)
    ensures
        match s {
            Some(bytes) => optional_slice(s) == Some(bytes@),
            None => optional_slice(s) is None,
        },
        match c {
            Some(bytes) => optional_bytes(c) == Some(bytes@),
            None => optional_bytes(c) is None,
        },
        can_be_c_string(optional_slice(s)) <==> match s {
            Some(bytes) => !bytes@.contains(0u8),
            None => true,
        },
{
    if let Some(bytes) = s {
        crate::cstring::c_strings_do_not_contain_nul(bytes@);
    }
}

/// What is said of a step is what librados is given with it: the same numbers, and every byte
/// string whole.
pub proof fn a_read_step_is_what_it_is_said_to_be(step: ReadStep)
    ensures
        match step@ {
            ReadStepSpec::AssertVersion { ver } => step matches ReadStep::AssertVersion { ver: v }
                && v == ver,
            ReadStepSpec::Read { offset, len } => step matches ReadStep::Read { offset: o, len: l }
                && o == offset && l == len,
            ReadStepSpec::OmapGetVals { start_after, filter_prefix, max_return } => {
                &&& step matches ReadStep::OmapGetVals {
                    start_after: s,
                    filter_prefix: f,
                    max_return: m,
                }
                &&& m == max_return
                &&& s is Some <==> start_after is Some
                &&& s matches Some(c) ==> c@ == start_after->0
                &&& f is Some <==> filter_prefix is Some
                &&& f matches Some(c) ==> c@ == filter_prefix->0
            },
            ReadStepSpec::OmapGetKeys { start_after, max_return } => {
                &&& step matches ReadStep::OmapGetKeys { start_after: s, max_return: m }
                &&& m == max_return
                &&& s is Some <==> start_after is Some
                &&& s matches Some(c) ==> c@ == start_after->0
            },
            ReadStepSpec::OmapGetValsByKeys { keys } => {
                &&& step matches ReadStep::OmapGetValsByKeys { keys: k }
                &&& k@.len() == keys.len()
                &&& forall|i: int| 0 <= i < keys.len() ==> (#[trigger] k@[i])@ == keys[i]
            },
        },
{
    if let ReadStep::OmapGetValsByKeys { keys } = step {
        crate::packed::byte_strings_are_those_of_the_list(keys@);
    }
}

/// A step that reads by keys carries every key that it was given, whole and in their order.
pub proof fn a_read_by_keys_carries_every_key(step: ReadStep, given: Seq<&[u8]>)
    requires
        step@ == (ReadStepSpec::OmapGetValsByKeys { keys: crate::write_op::slices(given) }),
    ensures
        step matches ReadStep::OmapGetValsByKeys { keys } && {
            &&& keys@.len() == given.len()
            &&& forall|i: int|
                0 <= i < given.len() ==> (#[trigger] keys@[i])@.len() == given[i]@.len()
                    && keys@[i]@ == given[i]@
        },
{
    let keys = step->OmapGetValsByKeys_keys;
    crate::packed::byte_strings_are_those_of_the_list(keys@);
    crate::write_op::arguments_are_kept_whole(given, seq![]);
    assert forall|i: int| 0 <= i < given.len() implies (#[trigger] keys@[i])@ == given[i]@ by {
        assert(crate::packed::byte_strings(keys@)[i] == crate::write_op::slices(given)[i]);
        assert(given[i]@ == crate::write_op::slices(given)[i]);
    }
}

/// A call that runs an op goes to its ioctx and its object, and has the steps of the op, one for
/// one.
pub proof fn a_read_has_the_steps_of_its_op(
    call: ReadCall,
    steps: Seq<ReadStepSpec>,
    ioctx: usize,
    oid: Seq<u8>,
)
    requires
        call.runs(steps, ioctx, oid),
    ensures
        call.ioctx == ioctx,
        call.oid@ == oid,
        call.steps@.len() == steps.len(),
        forall|i: int| 0 <= i < steps.len() ==> (#[trigger] call.steps@[i])@ == steps[i],
{
    assert forall|i: int| 0 <= i < steps.len() implies (#[trigger] call.steps@[i])@ == steps[i] by {
        assert(read_steps(call.steps@)[i] == steps[i]);
    }
}

/// Only an assertion has no result: an op without steps has none, an assertion adds none, and every
/// other step adds itself.
pub proof fn only_assertions_have_no_result(steps: Seq<ReadStepSpec>, step: ReadStepSpec)
    ensures
        answered(Seq::empty()).len() == 0,
        answered(steps.push(step)) == if step is AssertVersion {
            answered(steps)
        } else {
            answered(steps).push(step)
        },
{
    lemma_answered_push(steps, step);
    nothing_is_answered();
}

/// What slots hold is what librados left in them: the return value; of a data read the first bytes
/// of the buffer, as many as were read or as there are; of an omap read the keys that the iterator
/// gave and no others, each with the last value given for it, and `more` where it is not 0.
pub proof fn slots_hold_what_librados_left(slots: StepSlots)
    ensures
        match slots {
            StepSlots::Data(d) => {
                &&& slots.ret() == d.prval
                &&& slots.outcome() matches StepResultSpec::Data(bytes)
                &&& d.bytes_read <= d.buf@.len() ==> bytes.len() == d.bytes_read
                &&& d.bytes_read > d.buf@.len() ==> bytes.len() == d.buf@.len()
                &&& forall|i: int| 0 <= i < bytes.len() ==> bytes[i] == d.buf@[i]
            },
            StepSlots::Vals(v) => {
                &&& slots.ret() == v.prval
                &&& slots.outcome() matches StepResultSpec::Page { entries, more }
                &&& more <==> v.more != 0
                &&& forall|k: Seq<u8>|
                    entries.contains_key(k) <==> exists|i: int|
                        0 <= i < v.iter@.len() && (#[trigger] v.iter@[i]).0 == k
                &&& forall|i: int|
                    0 <= i < v.iter@.len() && (forall|j: int|
                        i < j < v.iter@.len() ==> (#[trigger] v.iter@[j]).0 != v.iter@[i].0)
                        ==> entries[(#[trigger] v.iter@[i]).0] == v.iter@[i].1
            },
            StepSlots::Keys(k) => {
                &&& slots.ret() == k.prval
                &&& slots.outcome() matches StepResultSpec::Keys { keys, more }
                &&& more <==> k.more != 0
                &&& forall|key: Seq<u8>|
                    keys.contains(key) <==> exists|i: int|
                        0 <= i < k.iter@.len() && (#[trigger] k.iter@[i]).0 == key
            },
        },
{
    match slots {
        StepSlots::Data(_) => {},
        StepSlots::Vals(v) => {
            let pairs = v.iter@;
            let entries = crate::byte_map::collected(pairs);
            assert forall|k: Seq<u8>|
                entries.contains_key(k) <==> exists|i: int|
                    0 <= i < pairs.len() && (#[trigger] pairs[i]).0 == k by {
                crate::byte_map::collected_keys_are_those_of_the_pairs(pairs, k);
            }
            assert forall|i: int|
                0 <= i < pairs.len() && (forall|j: int|
                    i < j < pairs.len() ==> (#[trigger] pairs[j]).0 != pairs[i].0) implies entries[(
            #[trigger] pairs[i]).0] == pairs[i].1 by {
                crate::byte_map::the_last_value_stays(pairs, i);
            }
        },
        StepSlots::Keys(k) => {
            let pairs = k.iter@;
            assert forall|key: Seq<u8>|
                crate::byte_map::keys_of(pairs).contains(key) <==> exists|i: int|
                    0 <= i < pairs.len() && (#[trigger] pairs[i]).0 == key by {
                crate::byte_map::collected_keys_are_those_of_the_pairs(pairs, key);
            }
        },
    }
}

/// What is said of a result is what the result holds.
pub proof fn a_result_is_what_it_is_said_to_be(result: StepResult)
    ensures
        match result {
            StepResult::Data(data) => result@ matches StepResultSpec::Data(bytes) && bytes == data@,
            StepResult::Page(page) => result@ matches StepResultSpec::Page { entries, more }
                && entries == page.entries@ && more == page.more,
            StepResult::Keys(list) => result@ matches StepResultSpec::Keys { keys, more } && keys
                == list.keys@ && more == list.more,
        },
{
}

/// A value that was taken is the result that it shows, whole.
pub proof fn a_taken_value_is_the_result(data: Vec<u8>, page: OmapPage, list: OmapKeys)
    ensures
        data.shown() matches StepResultSpec::Data(bytes) && bytes == data@,
        page.shown() matches StepResultSpec::Page { entries, more } && entries == page.entries@
            && more == page.more,
        list.shown() matches StepResultSpec::Keys { keys, more } && keys == list.keys@ && more
            == list.more,
        <Vec<u8> as StepValue>::spec_kind() == StepKind::Data,
        <OmapPage as StepValue>::spec_kind() == StepKind::Page,
        <OmapKeys as StepValue>::spec_kind() == StepKind::Keys,
{
}

/// Bytes, pages and keys are told apart, in steps and in results.
pub proof fn kinds_are_told_apart(step: ReadStepSpec, result: StepResultSpec)
    ensures
        step.kind() == Some(StepKind::Data) <==> step is Read,
        step.kind() == Some(StepKind::Page) <==> step is OmapGetVals || step is OmapGetValsByKeys,
        step.kind() == Some(StepKind::Keys) <==> step is OmapGetKeys,
        step.kind() is None <==> step is AssertVersion,
        result.kind() == StepKind::Data <==> result is Data,
        result.kind() == StepKind::Page <==> result is Page,
        result.kind() == StepKind::Keys <==> result is Keys,
{
}

/// The empty result of a step has no byte, no entry and no key, and is not marked as cut short.
pub proof fn the_empty_result_has_nothing(kind: StepKind)
    ensures
        StepResultSpec::nothing(kind).kind() == kind,
        match StepResultSpec::nothing(kind) {
            StepResultSpec::Data(bytes) => bytes.len() == 0,
            StepResultSpec::Page { entries, more } => !more && forall|k: Seq<u8>|
                !entries.contains_key(k),
            StepResultSpec::Keys { keys, more } => !more && forall|k: Seq<u8>| !keys.contains(k),
        },
{
}

/// A result can be taken with a handle of the same op, at its place, of its kind, as long as it is
/// there; it has been taken where it is not.
pub proof fn what_a_handle_can_take<T: StepValue>(results: ReadResults, handle: Handle<T>)
    ensures
        results.holds(handle) <==> {
            &&& handle.op() == results.number()
            &&& 0 <= handle.index() < results@.len()
            &&& results@[handle.index()] is Some
            &&& (results@[handle.index()]->0).1.kind() == T::spec_kind()
        },
        results.taken(handle) <==> {
            &&& handle.op() == results.number()
            &&& 0 <= handle.index() < results@.len()
            &&& results@[handle.index()] is None
        },
{
}

/// The results of a call are those of its steps, one for one: of each the return value and what its
/// slots hold.
pub proof fn results_are_those_of_the_slots(
    call: ReadCall,
    slots: Seq<StepSlots>,
    results: ReadResults,
)
    requires
        call.yields(slots, results),
    ensures
        results@.len() == slots.len(),
        results.number() == call.number(),
        forall|i: int|
            0 <= i < slots.len() ==> (#[trigger] results@[i] matches Some((prval, result)) && prval
                == slots[i].ret() && result == slots[i].outcome()),
{
}

/// The slots of a step are those for its sort of result, and only those, and a read by keys leaves
/// `more` at 0.
pub proof fn slots_are_those_of_their_step(slots: StepSlots, step: ReadStepSpec)
    ensures
        slots.belong_to(step) <==> match slots {
            StepSlots::Data(_) => step is Read,
            StepSlots::Vals(v) => step is OmapGetVals || (step is OmapGetValsByKeys && v.more == 0),
            StepSlots::Keys(_) => step is OmapGetKeys,
        },
{
}

/// A call takes slots that are those of its steps with a result, one for one.
pub proof fn a_call_takes_the_slots_of_its_steps(call: ReadCall, slots: Seq<StepSlots>)
    ensures
        call.could_fill(slots) <==> {
            let steps = answered(read_steps(call.steps@));
            &&& slots.len() == steps.len()
            &&& forall|i: int|
                0 <= i < slots.len() ==> (#[trigger] slots[i]).belong_to(steps[i]) && slots[i].ret()
                    != i32::MIN
        },
{
}

/// A handle of an op has the op's number, and names one of its steps that has a result of the type
/// that the handle is for.
pub proof fn a_handle_is_for_a_step_of_its_op<T: StepValue>(
    handle: Handle<T>,
    op: u64,
    steps: Seq<ReadStepSpec>,
)
    ensures
        issued(handle, op, steps) <==> {
            &&& handle.op() == op
            &&& 0 <= handle.index() < answered(steps).len()
            &&& answered(steps)[handle.index()].kind() == Some(T::spec_kind())
        },
{
}

/// A new op has no steps, and uses up the number that it has.
pub proof fn a_new_op_uses_up_its_number(before: OpNumbers, op: ReadOp, after: OpNumbers)
    requires
        ReadOp::drawn(before, op, after),
    ensures
        op.wf(),
        op@.len() == 0,
        op.number() == before.next(),
        op.number() < after.next(),
{
}

} // verus!
