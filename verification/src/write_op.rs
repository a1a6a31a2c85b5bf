//! Compound writes: the steps of one, and what its outcome says.

use crate::cstring::{c_string, CString};
use crate::error::{check_err, RadosError};
use crate::ioctx::IoCtx;
use vstd::prelude::*;
use vstd::slice::slice_to_vec;

verus! {

/// The equality operator of `cmpxattr` and `omap_cmp`.
pub const CMPXATTR_OP_EQ: u8 = 1;

/// The mode of a create that fails where the object exists.
pub const CREATE_EXCLUSIVE: i32 = 1;

/// The mode of a create that leaves an existing object alone.
pub const CREATE_IDEMPOTENT: i32 = 0;

/// Names one `omap_cmp` by the order it was added to the op.
#[derive(Debug, Clone, Copy, PartialEq, Eq, Structural)]
pub struct CmpHandle(usize);

impl CmpHandle {
    /// How many `omap_cmp`s were added before this one.
    pub closed spec fn position(&self) -> int {
        self.0 as int
    }
}

/// A handle is its position: two handles of the same position are equal.
pub proof fn handles_are_told_apart_by_position(a: CmpHandle, b: CmpHandle)
    ensures
        a == b <==> a.position() == b.position(),
{
}

/// A failed compound write, with the `omap_cmp` that rejected it where one did.
#[derive(Debug, PartialEq, Eq)]
pub struct WriteError {
    pub error: RadosError,
    pub failed_cmp: Option<CmpHandle>,
}

/// One step of a compound write, as librados is to be given it.
#[derive(Debug, PartialEq, Eq)]
pub enum WriteStep {
    AssertVersion { ver: u64 },
    AssertExists,
    Create { mode: i32 },
    Write { data: Vec<u8>, offset: u64 },
    WriteFull { data: Vec<u8> },
    Append { data: Vec<u8> },
    Remove,
    Truncate { offset: u64 },
    OmapSet { entries: Vec<(Vec<u8>, Vec<u8>)> },
    OmapRmKeys { keys: Vec<Vec<u8>> },
    SetXattr { name: CString, value: Vec<u8> },
    CmpXattr { name: CString, op: u8, value: Vec<u8> },
    OmapCmp { key: Vec<u8>, op: u8, value: Vec<u8> },
    OmapRmRange { begin: Vec<u8>, end: Vec<u8> },
    OmapClear,
}

/// A step of a compound write in terms of the bytes that it holds.
#[verifier::ext_equal]
pub enum WriteStepSpec {
    AssertVersion { ver: u64 },
    AssertExists,
    Create { mode: i32 },
    Write { data: Seq<u8>, offset: u64 },
    WriteFull { data: Seq<u8> },
    Append { data: Seq<u8> },
    Remove,
    Truncate { offset: u64 },
    OmapSet { entries: Seq<(Seq<u8>, Seq<u8>)> },
    OmapRmKeys { keys: Seq<Seq<u8>> },
    SetXattr { name: Seq<u8>, value: Seq<u8> },
    CmpXattr { name: Seq<u8>, op: u8, value: Seq<u8> },
    OmapCmp { key: Seq<u8>, op: u8, value: Seq<u8> },
    OmapRmRange { begin: Seq<u8>, end: Seq<u8> },
    OmapClear,
}

impl View for WriteStep {
    type V = WriteStepSpec;

    open spec fn view(&self) -> WriteStepSpec {
        match *self {
            WriteStep::AssertVersion { ver } => WriteStepSpec::AssertVersion { ver },
            WriteStep::AssertExists => WriteStepSpec::AssertExists,
            WriteStep::Create { mode } => WriteStepSpec::Create { mode },
            WriteStep::Write { data, offset } => WriteStepSpec::Write { data: data@, offset },
            WriteStep::WriteFull { data } => WriteStepSpec::WriteFull { data: data@ },
            WriteStep::Append { data } => WriteStepSpec::Append { data: data@ },
            WriteStep::Remove => WriteStepSpec::Remove,
            WriteStep::Truncate { offset } => WriteStepSpec::Truncate { offset },
            WriteStep::OmapSet { entries } => WriteStepSpec::OmapSet {
                entries: crate::byte_map::byte_pairs(entries@),
            },
            WriteStep::OmapRmKeys { keys } => WriteStepSpec::OmapRmKeys {
                keys: crate::packed::byte_strings(keys@),
            },
            WriteStep::SetXattr { name, value } => WriteStepSpec::SetXattr {
                name: name@,
                value: value@,
            },
            WriteStep::CmpXattr { name, op, value } => WriteStepSpec::CmpXattr {
                name: name@,
                op,
                value: value@,
            },
            WriteStep::OmapCmp { key, op, value } => WriteStepSpec::OmapCmp {
                key: key@,
                op,
                value: value@,
            },
            WriteStep::OmapRmRange { begin, end } => WriteStepSpec::OmapRmRange {
                begin: begin@,
                end: end@,
            },
            WriteStep::OmapClear => WriteStepSpec::OmapClear,
        }
    }
}

/// The views of `steps`.
pub open spec fn write_steps(steps: Seq<WriteStep>) -> Seq<WriteStepSpec> {
    steps.map_values(|s: WriteStep| s@)
}

/// The views of byte string arguments.
pub open spec fn slices(list: Seq<&[u8]>) -> Seq<Seq<u8>> {
    list.map_values(|s: &[u8]| s@)
}

/// The views of key and value arguments.
pub open spec fn slice_pairs(list: Seq<(&[u8], &[u8])>) -> Seq<(Seq<u8>, Seq<u8>)> {
    list.map_values(|e: (&[u8], &[u8])| (e.0@, e.1@))
}

/// The omap comparisons among `steps`, in their order. A `CmpHandle` is a position among them.
pub open spec fn comparisons(steps: Seq<WriteStepSpec>) -> Seq<WriteStepSpec> {
    steps.filter(|s: WriteStepSpec| s is OmapCmp)
}

/// `failed` is the first comparison whose result is not 0, if there is one.
pub open spec fn names_first_rejection(failed: Option<CmpHandle>, results: Seq<i32>) -> bool {
    match failed {
        Some(h) => {
            &&& 0 <= h.position() < results.len()
            &&& results[h.position()] != 0
            &&& forall|i: int| 0 <= i < h.position() ==> results[i] == 0
        },
        None => forall|i: int| 0 <= i < results.len() ==> results[i] == 0,
    }
}

/// Copies byte strings.
pub(crate) fn copy_slices(list: &[&[u8]]) -> (out: Vec<Vec<u8>>)
    ensures
        crate::packed::byte_strings(out@) == slices(list@),
        out@.len() == list@.len(),
        forall|i: int| 0 <= i < list@.len() ==> (#[trigger] out@[i])@ == list@[i]@,
{
    let mut out: Vec<Vec<u8>> = Vec::new();
    let mut i: usize = 0;
    while i < list.len()
        invariant
            i <= list@.len(),
            out@.len() == i,
            forall|j: int| 0 <= j < i ==> (#[trigger] out@[j])@ == list@[j]@,
        decreases list@.len() - i,
    {
        out.push(slice_to_vec(list[i]));
        i += 1;
    }
    assert(crate::packed::byte_strings(out@) =~= slices(list@));
    out
}

/// Copies keys and values.
fn copy_pairs(list: &[(&[u8], &[u8])]) -> (out: Vec<(Vec<u8>, Vec<u8>)>)
    ensures
        crate::byte_map::byte_pairs(out@) == slice_pairs(list@),
        out@.len() == list@.len(),
        forall|i: int|
            0 <= i < list@.len() ==> (#[trigger] out@[i]).0@ == list@[i].0@ && out@[i].1@
                == list@[i].1@,
{
    let mut out: Vec<(Vec<u8>, Vec<u8>)> = Vec::new();
    let mut i: usize = 0;
    while i < list.len()
        invariant
            i <= list@.len(),
            out@.len() == i,
            forall|j: int|
                0 <= j < i ==> (#[trigger] out@[j]).0@ == list@[j].0@ && out@[j].1@ == list@[j].1@,
        decreases list@.len() - i,
    {
        let (key, value) = list[i];
        out.push((slice_to_vec(key), slice_to_vec(value)));
        i += 1;
    }
    assert(crate::byte_map::byte_pairs(out@) =~= slice_pairs(list@));
    out
}

/// A compound write. Every step copies its input into the op, so no buffer needs to outlive the
/// call that adds it.
#[derive(Debug, PartialEq, Eq)]
pub struct WriteOp {
    steps: Vec<WriteStep>,
    cmps: usize,
}

impl View for WriteOp {
    type V = Seq<WriteStepSpec>;

    /// The steps in the order in which they were added.
    closed spec fn view(&self) -> Seq<WriteStepSpec> {
        write_steps(self.steps@)
    }
}

impl WriteOp {
    /// The op knows how many comparisons it has.
    pub closed spec fn wf(&self) -> bool {
        self.cmps == comparisons(self@).len()
    }

    /// An op without steps.
    pub fn new() -> (op: WriteOp)
        ensures
            op.wf(),
            op@ == Seq::<WriteStepSpec>::empty(),
    {
        let op = WriteOp { steps: Vec::new(), cmps: 0 };
        proof {
            assert(op@ =~= Seq::empty());
            reveal(Seq::filter);
        }
        op
    }

    /// Adds a step that compares nothing in the omap.
    fn push(&mut self, step: WriteStep)
        requires
            old(self).wf(),
            !(step is OmapCmp),
        ensures
            final(self).wf(),
            final(self)@ == old(self)@.push(step@),
    {
        let ghost added = step@;
        self.steps.push(step);
        proof {
            assert(self@ =~= old(self)@.push(added));
            lemma_comparisons_push(old(self)@, added);
        }
    }

    /// Fails the op unless the object is at version `ver`.
    pub fn assert_version(&mut self, ver: u64)
        requires
            old(self).wf(),
        ensures
            final(self).wf(),
            final(self)@ == old(self)@.push(WriteStepSpec::AssertVersion { ver }),
    {
        self.push(WriteStep::AssertVersion { ver });
    }

    /// Fails the op unless the object exists.
    pub fn assert_exists(&mut self)
        requires
            old(self).wf(),
        ensures
            final(self).wf(),
            final(self)@ == old(self)@.push(WriteStepSpec::AssertExists),
    {
        self.push(WriteStep::AssertExists);
    }

    /// Creates the object. `exclusive` fails an existing one; otherwise the create is idempotent.
    pub fn create(&mut self, exclusive: bool)
        requires
            old(self).wf(),
        ensures
            final(self).wf(),
            exclusive ==> final(self)@ == old(self)@.push(
                WriteStepSpec::Create { mode: CREATE_EXCLUSIVE },
            ),
            !exclusive ==> final(self)@ == old(self)@.push(
                WriteStepSpec::Create { mode: CREATE_IDEMPOTENT },
            ),
    {
        let mode: i32 = if exclusive {
            CREATE_EXCLUSIVE
        } else {
            CREATE_IDEMPOTENT
        };
        self.push(WriteStep::Create { mode });
    }

    /// Writes `data` at `offset`.
    pub fn write(&mut self, data: &[u8], offset: u64)
        requires
            old(self).wf(),
        ensures
            final(self).wf(),
            final(self)@ == old(self)@.push(WriteStepSpec::Write { data: data@, offset }),
    {
        self.push(WriteStep::Write { data: slice_to_vec(data), offset });
    }

    /// Replaces what the object holds by `data`.
    pub fn write_full(&mut self, data: &[u8])
        requires
            old(self).wf(),
        ensures
            final(self).wf(),
            final(self)@ == old(self)@.push(WriteStepSpec::WriteFull { data: data@ }),
    {
        self.push(WriteStep::WriteFull { data: slice_to_vec(data) });
    }

    /// Adds `data` at the end of the object.
    pub fn append(&mut self, data: &[u8])
        requires
            old(self).wf(),
        ensures
            final(self).wf(),
            final(self)@ == old(self)@.push(WriteStepSpec::Append { data: data@ }),
    {
        self.push(WriteStep::Append { data: slice_to_vec(data) });
    }

    /// Removes the object.
    pub fn remove(&mut self)
        requires
            old(self).wf(),
        ensures
            final(self).wf(),
            final(self)@ == old(self)@.push(WriteStepSpec::Remove),
    {
        self.push(WriteStep::Remove);
    }

    /// Cuts the object at `offset`.
    pub fn truncate(&mut self, offset: u64)
        requires
            old(self).wf(),
        ensures
            final(self).wf(),
            final(self)@ == old(self)@.push(WriteStepSpec::Truncate { offset }),
    {
        self.push(WriteStep::Truncate { offset });
    }

    /// Gives each key its value in the omap.
    pub fn omap_set(&mut self, entries: &[(&[u8], &[u8])])
        requires
            old(self).wf(),
        ensures
            final(self).wf(),
            final(self)@ == old(self)@.push(
                WriteStepSpec::OmapSet { entries: slice_pairs(entries@) },
            ),
    {
        self.push(WriteStep::OmapSet { entries: copy_pairs(entries) });
    }

    /// Removes `keys` from the omap.
    pub fn omap_rm_keys(&mut self, keys: &[&[u8]])
        requires
            old(self).wf(),
        ensures
            final(self).wf(),
            final(self)@ == old(self)@.push(WriteStepSpec::OmapRmKeys { keys: slices(keys@) }),
    {
        self.push(WriteStep::OmapRmKeys { keys: copy_slices(keys) });
    }

    /// Sets the xattr `name`.
    pub fn setxattr(&mut self, name: &str, value: &[u8]) -> (res: Result<(), RadosError>)
        requires
            old(self).wf(),
        ensures
            final(self).wf(),
            crate::cstring::nul_free(vstd::utf8::encode_utf8(name@)) ==> {
                &&& res is Ok
                &&& final(self)@ == old(self)@.push(
                    WriteStepSpec::SetXattr { name: vstd::utf8::encode_utf8(name@), value: value@ },
                )
            },
            !crate::cstring::nul_free(vstd::utf8::encode_utf8(name@)) ==> {
                &&& crate::error::refuses(res, vstd::utf8::encode_utf8(name@))
                &&& final(self)@ == old(self)@
            },
    {
        let name = c_string(name)?;
        self.push(WriteStep::SetXattr { name, value: slice_to_vec(value) });
        Ok(())
    }

    /// Fails the op unless the xattr `name` compares to `value` as `op` asks. A failure shows on
    /// the whole op alone: `WriteError::failed_cmp` never names an xattr comparison.
    pub fn cmpxattr(&mut self, name: &str, op: u8, value: &[u8]) -> (res: Result<(), RadosError>)
        requires
            old(self).wf(),
        ensures
            final(self).wf(),
            crate::cstring::nul_free(vstd::utf8::encode_utf8(name@)) ==> {
                &&& res is Ok
                &&& final(self)@ == old(self)@.push(
                    WriteStepSpec::CmpXattr { name: vstd::utf8::encode_utf8(name@), op, value: value@ },
                )
            },
            !crate::cstring::nul_free(vstd::utf8::encode_utf8(name@)) ==> {
                &&& crate::error::refuses(res, vstd::utf8::encode_utf8(name@))
                &&& final(self)@ == old(self)@
            },
    {
        let name = c_string(name)?;
        self.push(WriteStep::CmpXattr { name, op, value: slice_to_vec(value) });
        Ok(())
    }

    /// Fails the op unless the omap value of `key` compares to `value` as `op` asks. A missing key
    /// compares as an empty value, so `CMPXATTR_OP_EQ` against nothing matches both a missing key
    /// and one stored empty.
    pub fn omap_cmp(&mut self, key: &[u8], op: u8, value: &[u8]) -> (handle: CmpHandle)
        requires
            old(self).wf(),
        ensures
            final(self).wf(),
            final(self)@ == old(self)@.push(
                WriteStepSpec::OmapCmp { key: key@, op, value: value@ },
            ),
            handle.position() == comparisons(old(self)@).len(),
    {
        let handle = CmpHandle(self.cmps);
        let step = WriteStep::OmapCmp { key: slice_to_vec(key), op, value: slice_to_vec(value) };
        let ghost added = step@;
        self.steps.push(step);
        proof {
            assert(self@ =~= old(self)@.push(added));
            lemma_comparisons_push(old(self)@, added);
            self@.lemma_filter_len(|s: WriteStepSpec| s is OmapCmp);
            assert(self.steps.len() == self@.len());
        }
        self.cmps = self.cmps + 1;
        handle
    }

    /// Removes the omap keys from `begin` on that come before `end`.
    pub fn omap_rm_range(&mut self, begin: &[u8], end: &[u8])
        requires
            old(self).wf(),
        ensures
            final(self).wf(),
            final(self)@ == old(self)@.push(
                WriteStepSpec::OmapRmRange { begin: begin@, end: end@ },
            ),
    {
        self.push(WriteStep::OmapRmRange { begin: slice_to_vec(begin), end: slice_to_vec(end) });
    }

    /// Removes every omap key.
    pub fn omap_clear(&mut self)
        requires
            old(self).wf(),
        ensures
            final(self).wf(),
            final(self)@ == old(self)@.push(WriteStepSpec::OmapClear),
    {
        self.push(WriteStep::OmapClear);
    }

    /// The call that runs the op on `oid`, with the error alone where it cannot be made.
    pub fn operate(self, io: &IoCtx, oid: &str) -> (res: Result<WriteCall, RadosError>)
        requires
            self.wf(),
        ensures
            crate::cstring::nul_free(vstd::utf8::encode_utf8(oid@)) ==> (res matches Ok(call)
                && call.runs(self@, io.ioctx(), vstd::utf8::encode_utf8(oid@))),
            !crate::cstring::nul_free(vstd::utf8::encode_utf8(oid@)) ==> crate::error::refuses(
                res,
                vstd::utf8::encode_utf8(oid@),
            ),
    {
        match self.operate_report(io, oid) {
            Ok(call) => Ok(call),
            Err(e) => Err(e.error),
        }
    }

    /// The call that runs the op on `oid`. `WriteCall::report` says what came of it.
    pub fn operate_report(self, io: &IoCtx, oid: &str) -> (res: Result<WriteCall, WriteError>)
        requires
            self.wf(),
        ensures
            crate::cstring::nul_free(vstd::utf8::encode_utf8(oid@)) ==> (res matches Ok(call)
                && call.runs(self@, io.ioctx(), vstd::utf8::encode_utf8(oid@))),
            !crate::cstring::nul_free(vstd::utf8::encode_utf8(oid@)) ==> {
                &&& res matches Err(WriteError { error: RadosError::Nul(e), failed_cmp: None })
                &&& e.reports(vstd::utf8::encode_utf8(oid@))
            },
    {
        match c_string(oid) {
            Ok(oid) => Ok(WriteCall { ioctx: io.raw(), oid, steps: self.steps, cmps: self.cmps }),
            Err(error) => Err(WriteError { error, failed_cmp: None }),
        }
    }
}

/// A compound write on its way to librados.
#[derive(Debug, PartialEq, Eq)]
pub struct WriteCall {
    /// The ioctx that the call goes to.
    pub ioctx: usize,
    /// The object that is written.
    pub oid: CString,
    /// The steps, in the order in which they are to be added.
    pub steps: Vec<WriteStep>,
    /// The number of omap comparisons, whose results the call brings back.
    pub cmps: usize,
}

impl WriteCall {
    /// The call runs exactly `steps`, in their order, on the object `oid` of `ioctx`.
    pub open spec fn runs(&self, steps: Seq<WriteStepSpec>, ioctx: usize, oid: Seq<u8>) -> bool {
        &&& self.ioctx == ioctx
        &&& self.oid@ == oid
        &&& write_steps(self.steps@) == steps
        &&& self.cmps == comparisons(steps).len()
    }

    /// Of each step the place of its result among those of the comparisons, where it is one.
    pub fn result_places(&self) -> (places: Vec<Option<usize>>)
        ensures
            places@.len() == self.steps@.len(),
            forall|i: int|
                0 <= i < places@.len() ==> match #[trigger] places@[i] {
                    Some(place) => {
                        &&& write_steps(self.steps@)[i] is OmapCmp
                        &&& place == comparisons(write_steps(self.steps@).take(i)).len()
                        &&& place < comparisons(write_steps(self.steps@)).len()
                        &&& comparisons(write_steps(self.steps@))[place as int] == write_steps(
                            self.steps@,
                        )[i]
                    },
                    None => !(write_steps(self.steps@)[i] is OmapCmp),
                },
    {
        let ghost steps = write_steps(self.steps@);
        let mut places: Vec<Option<usize>> = Vec::new();
        let mut next: usize = 0;
        let mut i: usize = 0;
        assert(comparisons(steps.take(0)).len() == 0) by {
            reveal(Seq::filter);
        }
        while i < self.steps.len()
            invariant
                i <= self.steps@.len(),
                steps == write_steps(self.steps@),
                next == comparisons(steps.take(i as int)).len(),
                next <= i,
                places@.len() == i,
                forall|j: int|
                    0 <= j < i ==> match #[trigger] places@[j] {
                        Some(place) => {
                            &&& steps[j] is OmapCmp
                            &&& place == comparisons(steps.take(j)).len()
                            &&& place < comparisons(steps).len()
                            &&& comparisons(steps)[place as int] == steps[j]
                        },
                        None => !(steps[j] is OmapCmp),
                    },
            decreases self.steps@.len() - i,
        {
            proof {
                assert(steps[i as int] == self.steps@[i as int]@);
                assert(steps.take(i + 1) =~= steps.take(i as int).push(steps[i as int]));
                lemma_comparisons_push(steps.take(i as int), steps[i as int]);
            }
            match &self.steps[i] {
                WriteStep::OmapCmp { .. } => {
                    proof {
                        assert(steps.take(i + 1).is_prefix_of(steps));
                        handles_keep_their_comparison(steps.take(i + 1), steps, next as int);
                    }
                    places.push(Some(next));
                    next = next + 1;
                },
                _ => {
                    places.push(None);
                },
            }
            i += 1;
        }
        places
    }

    /// What came of the call: `ret` is what it returned, and `results` are those of its
    /// comparisons. The OSD stops at the first failing step and leaves the later results at 0, so
    /// the first one that is not 0 is the guard that failed.
    pub fn report(&self, ret: i32, results: &[i32]) -> (res: Result<(), WriteError>)
        requires
            ret != i32::MIN,
        ensures
            match res {
                Ok(()) => ret >= 0,
                Err(e) => {
                    &&& ret < 0
                    &&& crate::error::status(ret) == Err::<(), RadosError>(e.error)
                    &&& names_first_rejection(e.failed_cmp, results@)
                },
            },
    {
        match check_err(ret) {
            Ok(()) => Ok(()),
            Err(error) => Err(WriteError { error, failed_cmp: first_rejection(results) }),
        }
    }

    /// What came of the call, without the comparison that failed.
    pub fn complete(&self, ret: i32, results: &[i32]) -> (res: Result<(), RadosError>)
        requires
            ret != i32::MIN,
        ensures
            res == crate::error::status(ret),
    {
        match self.report(ret, results) {
            Ok(()) => Ok(()),
            Err(e) => Err(e.error),
        }
    }
}

/// The first comparison whose result is not 0.
pub fn first_rejection(results: &[i32]) -> (failed: Option<CmpHandle>)
    ensures
        names_first_rejection(failed, results@),
{
    let mut i: usize = 0;
    while i < results.len()
        invariant
            i <= results@.len(),
            forall|j: int| 0 <= j < i ==> results@[j] == 0,
        decreases results@.len() - i,
    {
        if results[i] != 0 {
            return Some(CmpHandle(i));
        }
        i += 1;
    }
    None
}

impl Default for WriteOp {
    fn default() -> (op: WriteOp)
        ensures
            op.wf(),
            op@ == Seq::<WriteStepSpec>::empty(),
    {
        WriteOp::new()
    }
}

/// A step more adds itself to the comparisons where it is one.
proof fn lemma_comparisons_push(steps: Seq<WriteStepSpec>, step: WriteStepSpec)
    ensures
        comparisons(steps.push(step)) == if step is OmapCmp {
            comparisons(steps).push(step)
        } else {
            comparisons(steps)
        },
{
    reveal(Seq::filter);
    assert(steps.push(step).drop_last() =~= steps);
}

/// A handle names the same comparison however many steps follow: the comparisons of an op are
/// those that it had before, and then the new ones.
pub proof fn handles_keep_their_comparison(
    earlier: Seq<WriteStepSpec>,
    later: Seq<WriteStepSpec>,
    position: int,
)
    requires
        earlier.is_prefix_of(later),
        0 <= position < comparisons(earlier).len(),
    ensures
        position < comparisons(later).len(),
        comparisons(later)[position] == comparisons(earlier)[position],
    decreases later.len(),
{
    if earlier.len() < later.len() {
        let less = later.drop_last();
        assert(earlier.is_prefix_of(less));
        handles_keep_their_comparison(earlier, less, position);
        lemma_comparisons_push(less, later.last());
        assert(less.push(later.last()) =~= later);
    } else {
        assert(earlier =~= later);
    }
}

/// The comparison that a new handle names is the one that was added with it.
pub proof fn a_handle_names_its_comparison(steps: Seq<WriteStepSpec>, step: WriteStepSpec)
    requires
        step is OmapCmp,
    ensures
        comparisons(steps.push(step)).len() == comparisons(steps).len() + 1,
        comparisons(steps.push(step))[comparisons(steps).len() as int] == step,
{
    lemma_comparisons_push(steps, step);
}

/// No handle names anything but an omap comparison of the op.
pub proof fn handles_name_omap_comparisons(steps: Seq<WriteStepSpec>, position: int)
    requires
        0 <= position < comparisons(steps).len(),
    ensures
        comparisons(steps)[position] is OmapCmp,
        steps.contains(comparisons(steps)[position]),
    decreases steps.len(),
{
    reveal(Seq::filter);
    if steps.len() > 0 {
        let less = steps.drop_last();
        lemma_comparisons_push(less, steps.last());
        assert(less.push(steps.last()) =~= steps);
        if position < comparisons(less).len() {
            handles_name_omap_comparisons(less, position);
            let step = comparisons(less)[position];
            let i = choose|i: int| 0 <= i < less.len() && less[i] == step;
            assert(steps[i] == step);
        } else {
            assert(steps[steps.len() - 1] == steps.last());
        }
    }
}

/// Where the OSD rejected the op at one comparison and left the results of all others at 0, that
/// comparison is the one that a failure names.
pub proof fn the_rejecting_comparison_is_named(
    failed: Option<CmpHandle>,
    results: Seq<i32>,
    rejecting: int,
)
    requires
        names_first_rejection(failed, results),
        0 <= rejecting < results.len(),
        results[rejecting] != 0,
        forall|i: int| 0 <= i < results.len() && i != rejecting ==> results[i] == 0,
    ensures
        failed matches Some(h) && h.position() == rejecting,
{
}

/// Where no comparison rejected the op, a failure names none.
pub proof fn no_comparison_is_blamed(failed: Option<CmpHandle>, results: Seq<i32>)
    requires
        names_first_rejection(failed, results),
        forall|i: int| 0 <= i < results.len() ==> results[i] == 0,
    ensures
        failed is None,
{
}

/// The arguments of an operation are the byte strings in them, one for one.
pub proof fn arguments_are_kept_whole(keys: Seq<&[u8]>, entries: Seq<(&[u8], &[u8])>)
    ensures
        slices(keys).len() == keys.len(),
        forall|i: int| 0 <= i < keys.len() ==> slices(keys)[i] == (#[trigger] keys[i])@,
        slice_pairs(entries).len() == entries.len(),
        forall|i: int|
            0 <= i < entries.len() ==> slice_pairs(entries)[i].0 == (#[trigger] entries[i]).0@
                && slice_pairs(entries)[i].1 == entries[i].1@,
{
}

/// A step that sets omap entries carries every key and every value that it was given, each of its
/// own length and with its own bytes, in their order.
pub proof fn an_omap_set_carries_every_entry(step: WriteStep, given: Seq<(&[u8], &[u8])>)
    requires
        step@ == (WriteStepSpec::OmapSet { entries: slice_pairs(given) }),
    ensures
        step matches WriteStep::OmapSet { entries } && {
            &&& entries@.len() == given.len()
            &&& forall|i: int|
                0 <= i < given.len() ==> {
                    &&& (#[trigger] entries@[i]).0@.len() == given[i].0@.len()
                    &&& entries@[i].0@ == given[i].0@
                    &&& entries@[i].1@.len() == given[i].1@.len()
                    &&& entries@[i].1@ == given[i].1@
                }
        },
{
    let entries = step->OmapSet_entries;
    crate::byte_map::byte_pairs_are_those_of_the_list(entries@);
    arguments_are_kept_whole(seq![], given);
    assert forall|i: int| 0 <= i < given.len() implies (#[trigger] entries@[i]).0@ == given[i].0@
        && entries@[i].1@ == given[i].1@ by {
        assert(crate::byte_map::byte_pairs(entries@)[i] == slice_pairs(given)[i]);
        assert(given[i].0@ == slice_pairs(given)[i].0);
    }
}

/// A step that removes omap keys carries every key that it was given, whole and in their order.
pub proof fn a_removal_carries_every_key(step: WriteStep, given: Seq<&[u8]>)
    requires
        step@ == (WriteStepSpec::OmapRmKeys { keys: slices(given) }),
    ensures
        step matches WriteStep::OmapRmKeys { keys } && {
            &&& keys@.len() == given.len()
            &&& forall|i: int|
                0 <= i < given.len() ==> (#[trigger] keys@[i])@.len() == given[i]@.len()
                    && keys@[i]@ == given[i]@
        },
{
    let keys = step->OmapRmKeys_keys;
    crate::packed::byte_strings_are_those_of_the_list(keys@);
    arguments_are_kept_whole(given, seq![]);
    assert forall|i: int| 0 <= i < given.len() implies (#[trigger] keys@[i])@ == given[i]@ by {
        assert(crate::packed::byte_strings(keys@)[i] == slices(given)[i]);
        assert(given[i]@ == slices(given)[i]);
    }
}

/// What is said of a step is what librados is given with it: the same numbers, and every byte
/// string whole.
pub proof fn a_write_step_is_what_it_is_said_to_be(step: WriteStep)
    ensures
        match step@ {
            WriteStepSpec::AssertVersion { ver } => step matches WriteStep::AssertVersion { ver: v }
                && v == ver,
            WriteStepSpec::AssertExists => step is AssertExists,
            WriteStepSpec::Create { mode } => step matches WriteStep::Create { mode: m } && m
                == mode,
            WriteStepSpec::Write { data, offset } => step matches WriteStep::Write {
                data: d,
                offset: o,
            } && d@ == data && o == offset,
            WriteStepSpec::WriteFull { data } => step matches WriteStep::WriteFull { data: d } && d@
                == data,
            WriteStepSpec::Append { data } => step matches WriteStep::Append { data: d } && d@
                == data,
            WriteStepSpec::Remove => step is Remove,
            WriteStepSpec::Truncate { offset } => step matches WriteStep::Truncate { offset: o }
                && o == offset,
            WriteStepSpec::OmapSet { entries } => step matches WriteStep::OmapSet { entries: e } && {
                &&& e@.len() == entries.len()
                &&& forall|i: int|
                    0 <= i < entries.len() ==> (#[trigger] e@[i]).0@ == entries[i].0 && e@[i].1@
                        == entries[i].1
            },
            WriteStepSpec::OmapRmKeys { keys } => step matches WriteStep::OmapRmKeys { keys: k } && {
                &&& k@.len() == keys.len()
                &&& forall|i: int| 0 <= i < keys.len() ==> (#[trigger] k@[i])@ == keys[i]
            },
            WriteStepSpec::SetXattr { name, value } => step matches WriteStep::SetXattr {
                name: n,
                value: v,
            } && n@ == name && v@ == value,
            WriteStepSpec::CmpXattr { name, op, value } => step matches WriteStep::CmpXattr {
                name: n,
                op: o,
                value: v,
            } && n@ == name && o == op && v@ == value,
            WriteStepSpec::OmapCmp { key, op, value } => step matches WriteStep::OmapCmp {
                key: k,
                op: o,
                value: v,
            } && k@ == key && o == op && v@ == value,
            WriteStepSpec::OmapRmRange { begin, end } => step matches WriteStep::OmapRmRange {
                begin: b,
                end: e,
            } && b@ == begin && e@ == end,
            WriteStepSpec::OmapClear => step is OmapClear,
        },
{
    match step {
        WriteStep::OmapSet { entries } => crate::byte_map::byte_pairs_are_those_of_the_list(
            entries@,
        ),
        WriteStep::OmapRmKeys { keys } => crate::packed::byte_strings_are_those_of_the_list(keys@),
        _ => {},
    }
}

/// A call that runs an op goes to its ioctx and its object, and has the steps of the op, one for
/// one, and as many results as there are omap comparisons among them.
pub proof fn a_write_has_the_steps_of_its_op(
    call: WriteCall,
    steps: Seq<WriteStepSpec>,
    ioctx: usize,
    oid: Seq<u8>,
)
    requires
        call.runs(steps, ioctx, oid),
    ensures
        call.ioctx == ioctx,
        call.oid@ == oid,
        call.steps@.len() == steps.len(),
        forall|i: int| 0 <= i < steps.len() ==> (#[trigger] call.steps@[i])@ == steps[i],
        call.cmps == steps.filter(|s: WriteStepSpec| s is OmapCmp).len(),
{
    assert forall|i: int| 0 <= i < steps.len() implies (#[trigger] call.steps@[i])@ == steps[i] by {
        assert(write_steps(call.steps@)[i] == steps[i]);
    }
}

/// Only an omap comparison is counted as one: an op without steps has none, and a step of any other
/// sort adds none.
pub proof fn only_omap_comparisons_are_counted(steps: Seq<WriteStepSpec>, step: WriteStepSpec)
    ensures
        comparisons(Seq::empty()).len() == 0,
        comparisons(steps.push(step)) == if step is OmapCmp {
            comparisons(steps).push(step)
        } else {
            comparisons(steps)
        },
{
    lemma_comparisons_push(steps, step);
    reveal(Seq::filter);
}

/// The comparison that a failure names has a result other than 0, all before it have 0, and where
/// none is named all have.
pub proof fn a_failure_names_the_first_result_that_is_not_zero(
    failed: Option<CmpHandle>,
    results: Seq<i32>,
)
    ensures
        names_first_rejection(failed, results) <==> match failed {
            Some(h) => 0 <= h.position() < results.len() && results[h.position()] != 0 && (forall|
                i: int,
            |
                0 <= i < h.position() ==> results[i] == 0),
            None => forall|i: int| 0 <= i < results.len() ==> results[i] == 0,
        },
{
}

/// An exclusive create has the mode 1 and any other the mode 0, and the operator of equality is 1.
pub proof fn modes_and_operators_are_those_of_librados()
    ensures
        CREATE_EXCLUSIVE == 1,
        CREATE_IDEMPOTENT == 0,
        CMPXATTR_OP_EQ == 1,
{
}

} // verus!
