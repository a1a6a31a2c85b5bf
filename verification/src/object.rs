//! What writes make of an object where they succeed.

use crate::ioctx::IoCall;
use crate::write_op::{WriteCall, WriteStepSpec};
use vstd::prelude::*;

verus! {

/// What an object holds: its bytes, its omap and its xattrs. One that does not exist holds nothing.
#[verifier::ext_equal]
pub struct ObjectState {
    pub data: Seq<u8>,
    pub omap: Map<Seq<u8>, Seq<u8>>,
    pub xattrs: Map<Seq<u8>, Seq<u8>>,
}

impl ObjectState {
    /// An object that holds nothing.
    pub open spec fn nothing() -> ObjectState {
        ObjectState { data: Seq::empty(), omap: Map::empty(), xattrs: Map::empty() }
    }
}

/// `bytes` cut to `size`, or filled up with zeros.
pub open spec fn resized(bytes: Seq<u8>, size: int) -> Seq<u8> {
    Seq::new(
        size as nat,
        |i: int|
            if i < bytes.len() {
                bytes[i]
            } else {
                0u8
            },
    )
}

/// `bytes` with `data` from `offset` on. What is missing before it is filled up with zeros.
pub open spec fn overwritten(bytes: Seq<u8>, data: Seq<u8>, offset: int) -> Seq<u8> {
    let end = offset + data.len();
    Seq::new(
        if end > bytes.len() {
            end as nat
        } else {
            bytes.len()
        },
        |i: int|
            if offset <= i < end {
                data[i - offset]
            } else if i < bytes.len() {
                bytes[i]
            } else {
                0u8
            },
    )
}

/// `key` does not come before `begin` and comes before `end`.
pub open spec fn in_range(key: Seq<u8>, begin: Seq<u8>, end: Seq<u8>) -> bool {
    !crate::byte_map::precedes(key, begin) && crate::byte_map::precedes(key, end)
}

impl WriteStepSpec {
    /// What the step makes of an object.
    pub open spec fn after(self, before: ObjectState) -> ObjectState {
        match self {
            WriteStepSpec::AssertVersion { .. } => before,
            WriteStepSpec::AssertExists => before,
            WriteStepSpec::Create { .. } => before,
            WriteStepSpec::Write { data, offset } => ObjectState {
                data: overwritten(before.data, data, offset as int),
                ..before
            },
            WriteStepSpec::WriteFull { data } => ObjectState { data, ..before },
            WriteStepSpec::Append { data } => ObjectState { data: before.data + data, ..before },
            WriteStepSpec::Remove => ObjectState::nothing(),
            WriteStepSpec::Truncate { offset } => ObjectState {
                data: resized(before.data, offset as int),
                ..before
            },
            WriteStepSpec::OmapSet { entries } => ObjectState {
                omap: before.omap.union_prefer_right(crate::byte_map::collected(entries)),
                ..before
            },
            WriteStepSpec::OmapRmKeys { keys } => ObjectState {
                omap: before.omap.remove_keys(keys.to_set()),
                ..before
            },
            WriteStepSpec::SetXattr { name, value } => ObjectState {
                xattrs: before.xattrs.insert(name, value),
                ..before
            },
            WriteStepSpec::CmpXattr { .. } => before,
            WriteStepSpec::OmapCmp { .. } => before,
            WriteStepSpec::OmapRmRange { begin, end } => ObjectState {
                omap: before.omap.remove_keys(Set::new(|k: Seq<u8>| in_range(k, begin, end))),
                ..before
            },
            WriteStepSpec::OmapClear => ObjectState { omap: Map::empty(), ..before },
        }
    }

    /// `after` is what the step makes of `before`.
    pub open spec fn changes(self, before: ObjectState, after: ObjectState) -> bool {
        after == self.after(before)
    }
}

/// What `steps` make of an object, one after the other.
pub open spec fn state_after(steps: Seq<WriteStepSpec>, before: ObjectState) -> ObjectState
    decreases steps.len(),
{
    if steps.len() == 0 {
        before
    } else {
        steps.last().after(state_after(steps.drop_last(), before))
    }
}

impl WriteCall {
    /// What a compound write that returned `ret` makes of an object: what its steps make of it. One
    /// that failed leaves the object as it was.
    pub open spec fn leaves(&self, ret: i32, before: ObjectState) -> ObjectState {
        if ret < 0 {
            before
        } else {
            state_after(crate::write_op::write_steps(self.steps@), before)
        }
    }

    /// `after` is what a compound write that returned `ret` makes of `before`.
    pub open spec fn changes(&self, ret: i32, before: ObjectState, after: ObjectState) -> bool {
        after == self.leaves(ret, before)
    }
}

impl<'a> IoCall<'a> {
    /// The step that does the same in a compound write. A call on a lock leaves what the object
    /// holds as it is.
    pub open spec fn as_step(&self) -> Option<WriteStepSpec> {
        match *self {
            IoCall::Write { data, offset, .. } => Some(
                WriteStepSpec::Write { data: data@, offset },
            ),
            IoCall::WriteFull { data, .. } => Some(WriteStepSpec::WriteFull { data: data@ }),
            IoCall::Append { data, .. } => Some(WriteStepSpec::Append { data: data@ }),
            IoCall::Truncate { size, .. } => Some(WriteStepSpec::Truncate { offset: size }),
            IoCall::Remove { .. } => Some(WriteStepSpec::Remove),
            _ => None,
        }
    }

    /// `after` is what a call that returned `ret` makes of `before`.
    pub open spec fn changes(&self, ret: i32, before: ObjectState, after: ObjectState) -> bool {
        after == match self.as_step() {
            Some(step) if ret >= 0 => step.after(before),
            _ => before,
        }
    }
}

/// The steps that only look change nothing.
pub proof fn guards_change_nothing(step: WriteStepSpec, before: ObjectState)
    requires
        step is AssertVersion || step is AssertExists || step is CmpXattr || step is OmapCmp,
    ensures
        step.changes(before, before),
{
}

/// Steps are applied in the order in which they were added: those of one op do what two ops do, one
/// with the first and one with the other steps.
pub proof fn steps_are_applied_in_their_order(
    first: Seq<WriteStepSpec>,
    then: Seq<WriteStepSpec>,
    before: ObjectState,
)
    ensures
        state_after(first + then, before) == state_after(then, state_after(first, before)),
    decreases then.len(),
{
    if then.len() == 0 {
        assert(first + then =~= first);
    } else {
        assert((first + then).drop_last() =~= first + then.drop_last());
        steps_are_applied_in_their_order(first, then.drop_last(), before);
    }
}

/// A key that was set has the value it was set to, the last one where there are several, and every
/// other key is as it was.
pub proof fn set_entries_are_held(
    before: ObjectState,
    after: ObjectState,
    entries: Seq<(Seq<u8>, Seq<u8>)>,
    key: Seq<u8>,
)
    requires
        (WriteStepSpec::OmapSet { entries }).changes(before, after),
    ensures
        crate::byte_map::collected(entries).contains_key(key) ==> {
            &&& after.omap.contains_key(key)
            &&& after.omap[key] == crate::byte_map::collected(entries)[key]
        },
        !crate::byte_map::collected(entries).contains_key(key) ==> after.omap.is_equal_on_key(
            before.omap,
            key,
        ),
{
}

/// A key that was removed is gone, and every other key is as it was.
pub proof fn removed_keys_are_gone(
    before: ObjectState,
    after: ObjectState,
    keys: Seq<Seq<u8>>,
    key: Seq<u8>,
)
    requires
        (WriteStepSpec::OmapRmKeys { keys }).changes(before, after),
    ensures
        keys.contains(key) ==> !after.omap.contains_key(key),
        !keys.contains(key) ==> after.omap.is_equal_on_key(before.omap, key),
{
}

/// A range that was removed is half open: the keys from `begin` on that come before `end` are gone,
/// and every other key is as it was, `end` included.
pub proof fn a_removed_range_is_half_open(
    before: ObjectState,
    after: ObjectState,
    begin: Seq<u8>,
    end: Seq<u8>,
    key: Seq<u8>,
)
    requires
        (WriteStepSpec::OmapRmRange { begin, end }).changes(before, after),
    ensures
        (key == begin || crate::byte_map::precedes(begin, key)) && crate::byte_map::precedes(
            key,
            end,
        ) ==> !after.omap.contains_key(key),
        crate::byte_map::precedes(key, begin) || key == end || crate::byte_map::precedes(end, key)
            ==> after.omap.is_equal_on_key(before.omap, key),
{
    crate::byte_map::precedes_is_irreflexive(key);
    if crate::byte_map::precedes(begin, key) && crate::byte_map::precedes(key, begin) {
        crate::byte_map::precedes_is_transitive(key, begin, key);
    }
    if crate::byte_map::precedes(end, key) && crate::byte_map::precedes(key, end) {
        crate::byte_map::precedes_is_transitive(key, end, key);
    }
}

/// No key is left in an omap that was cleared.
pub proof fn a_cleared_omap_is_empty(before: ObjectState, after: ObjectState, key: Seq<u8>)
    requires
        WriteStepSpec::OmapClear.changes(before, after),
    ensures
        !after.omap.contains_key(key),
{
}

/// What was written stands where it was written, and every other byte is as it was.
pub proof fn written_bytes_stand_at_their_offset(
    before: ObjectState,
    after: ObjectState,
    data: Seq<u8>,
    offset: u64,
    i: int,
)
    requires
        (WriteStepSpec::Write { data, offset }).changes(before, after),
    ensures
        after.data.len() >= offset + data.len(),
        after.data.subrange(offset as int, offset + data.len()) == data,
        0 <= i < before.data.len() && !(offset <= i < offset + data.len()) ==> i < after.data.len()
            && after.data[i] == before.data[i],
{
    assert(after.data.subrange(offset as int, offset + data.len()) =~= data);
}

/// A full write and an append leave the two one after the other, whatever the object held.
pub proof fn an_append_follows_a_full_write(before: ObjectState, body: Seq<u8>, extra: Seq<u8>)
    ensures
        state_after(
            seq![
                WriteStepSpec::WriteFull { data: body },
                WriteStepSpec::Append { data: extra },
            ],
            before,
        ).data == body + extra,
{
    let steps = seq![
        WriteStepSpec::WriteFull { data: body },
        WriteStepSpec::Append { data: extra },
    ];
    assert(steps.drop_last() =~= seq![WriteStepSpec::WriteFull { data: body }]);
    assert(steps.drop_last().drop_last() =~= seq![]);
    reveal_with_fuel(state_after, 3);
}

} // verus!
