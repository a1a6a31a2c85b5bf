//! What reads bring back where an OSD answers from what an object holds.

use crate::error::RadosError;
use crate::ioctx::GetXattr;
use crate::next::Next;
use crate::object::ObjectState;
use crate::omap::{OmapKeys, OmapPage};
use crate::read_op::{
    Handle, ReadCall, ReadResults, ReadStepSpec, SingleRead, StepSlots, StepValue,
};
use crate::write_op::{WriteCall, WriteStepSpec};
use vstd::prelude::*;

verus! {

/// `value` is what was taken under `handle`, the handle of `step`, of the results of `call` after
/// it had left `slots`.
pub open spec fn taken_from<T: StepValue>(
    value: T,
    handle: Handle<T>,
    step: ReadStepSpec,
    call: ReadCall,
    slots: Seq<StepSlots>,
    results: ReadResults,
) -> bool {
    let steps = crate::read_op::read_steps(call.steps@);
    &&& crate::read_op::issued(handle, call.number(), steps)
    &&& crate::read_op::answered(steps)[handle.index()] == step
    &&& call.could_fill(slots)
    &&& call.yields(slots, results)
    &&& value.shown() == (results@[handle.index()]->0).1
}

proof fn lemma_taken<T: StepValue>(
    value: T,
    handle: Handle<T>,
    step: ReadStepSpec,
    call: ReadCall,
    slots: Seq<StepSlots>,
    results: ReadResults,
)
    requires
        taken_from(value, handle, step, call, slots, results),
    ensures
        results.holds(handle),
        slots[handle.index()].belong_to(step),
        value.shown() == slots[handle.index()].outcome(),
{
    crate::read_op::a_result_arrives_under_its_handle(handle, call, slots, results);
    assert(slots[handle.index()].belong_to(step));
}

/// The slots are what an OSD leaves for a read from `offset` on where the object holds `bytes`: the
/// bytes that were read are those that stand there.
pub open spec fn answers_read(bytes: Seq<u8>, offset: u64, slots: StepSlots) -> bool {
    &&& slots matches StepSlots::Data(data)
    &&& data.bytes_read <= data.buf@.len()
    &&& data.bytes_read > 0 ==> offset + data.bytes_read <= bytes.len()
    &&& forall|i: int|
        0 <= i < data.bytes_read ==> #[trigger] data.buf@[i] == bytes[offset + i]
}

/// A read brings the bytes of the object from its offset on, as many as were read, and all of them
/// where the buffer had room and the OSD gave all.
pub proof fn a_read_brings_the_bytes_of_the_object(
    bytes: Seq<u8>,
    offset: u64,
    len: usize,
    data: Vec<u8>,
    handle: Handle<Vec<u8>>,
    call: ReadCall,
    slots: Seq<StepSlots>,
    results: ReadResults,
)
    requires
        taken_from(data, handle, ReadStepSpec::Read { offset, len }, call, slots, results),
        answers_read(bytes, offset, slots[handle.index()]),
    ensures
        slots[handle.index()] matches StepSlots::Data(slot) && data@.len() == slot.bytes_read,
        data@.len() > 0 ==> offset + data@.len() <= bytes.len(),
        forall|i: int| 0 <= i < data@.len() ==> #[trigger] data@[i] == bytes[offset + i],
        offset <= bytes.len() && data@.len() == bytes.len() - offset ==> data@ == bytes.skip(
            offset as int,
        ),
{
    lemma_taken(data, handle, ReadStepSpec::Read { offset, len }, call, slots, results);
    let slot = slots[handle.index()]->Data_0;
    assert(data@ == slot.buf@.take(slot.bytes_read as int));
    assert forall|i: int| 0 <= i < data@.len() implies #[trigger] data@[i] == bytes[offset + i] by {
        assert(data@[i] == slot.buf@[i]);
    }
    if offset <= bytes.len() && data@.len() == bytes.len() - offset {
        assert(data@ =~= bytes.skip(offset as int));
    }
}

/// `pairs` are what an OSD gives for `keys` where the omap is `omap`: the keys that it holds, with
/// their values.
pub open spec fn answers_by_keys(
    omap: Map<Seq<u8>, Seq<u8>>,
    keys: Seq<Seq<u8>>,
    pairs: Seq<(Seq<u8>, Seq<u8>)>,
) -> bool {
    &&& forall|i: int|
        0 <= i < pairs.len() ==> {
            &&& keys.contains((#[trigger] pairs[i]).0)
            &&& omap.contains_key(pairs[i].0)
            &&& omap[pairs[i].0] == pairs[i].1
        }
    &&& forall|k: Seq<u8>| #[trigger]
        keys.contains(k) && omap.contains_key(k) ==> exists|i: int|
            0 <= i < pairs.len() && (#[trigger] pairs[i]).0 == k
}

/// Pairs of the omap make a map of which each entry is the omap's.
proof fn lemma_entries_are_the_omaps(
    omap: Map<Seq<u8>, Seq<u8>>,
    pairs: Seq<(Seq<u8>, Seq<u8>)>,
)
    requires
        forall|i: int|
            0 <= i < pairs.len() ==> omap.contains_key((#[trigger] pairs[i]).0)
                && omap[pairs[i].0] == pairs[i].1,
    ensures
        forall|k: Seq<u8>| #[trigger]
            crate::byte_map::collected(pairs).contains_key(k) ==> omap.contains_key(k) && omap[k]
                == crate::byte_map::collected(pairs)[k],
{
    let got = crate::byte_map::collected(pairs);
    assert forall|k: Seq<u8>| #[trigger] got.contains_key(k) implies omap.contains_key(k) && omap[k]
        == got[k] by {
        crate::byte_map::lemma_collected_values(pairs, k);
        let i = choose|i: int| 0 <= i < pairs.len() && pairs[i] == (k, got[k]);
        assert(omap[pairs[i].0] == pairs[i].1);
    }
}

/// Collecting what was given for the keys makes the part of the omap that has them.
proof fn lemma_held(
    omap: Map<Seq<u8>, Seq<u8>>,
    keys: Seq<Seq<u8>>,
    pairs: Seq<(Seq<u8>, Seq<u8>)>,
)
    requires
        answers_by_keys(omap, keys, pairs),
    ensures
        crate::byte_map::collected(pairs) == omap.restrict(keys.to_set()),
{
    let got = crate::byte_map::collected(pairs);
    let held = omap.restrict(keys.to_set());
    crate::byte_map::lemma_collected_keys(pairs);
    lemma_entries_are_the_omaps(omap, pairs);
    assert forall|k: Seq<u8>| got.contains_key(k) <==> held.contains_key(k) by {
        if got.contains_key(k) {
            let i = choose|i: int| 0 <= i < pairs.len() && (#[trigger] pairs[i]).0 == k;
            assert(keys.contains(pairs[i].0));
        }
        if held.contains_key(k) {
            assert(keys.contains(k) && omap.contains_key(k));
            let i = choose|i: int| 0 <= i < pairs.len() && (#[trigger] pairs[i]).0 == k;
            assert(got.contains_key(pairs[i].0));
        }
    }
    assert(got =~= held);
}

/// A read by keys brings exactly the keys that the omap holds, with their values, and its page is
/// never marked as cut short. This is so of every key, the empty one and one with a NUL included.
pub proof fn a_read_by_keys_brings_what_is_held(
    omap: Map<Seq<u8>, Seq<u8>>,
    keys: Seq<Seq<u8>>,
    page: OmapPage,
    handle: Handle<OmapPage>,
    call: ReadCall,
    slots: Seq<StepSlots>,
    results: ReadResults,
)
    requires
        taken_from(
            page,
            handle,
            ReadStepSpec::OmapGetValsByKeys { keys },
            call,
            slots,
            results,
        ),
        slots[handle.index()] matches StepSlots::Vals(vals) && answers_by_keys(
            omap,
            keys,
            vals.iter@,
        ),
    ensures
        !page.more,
        page.entries@ == omap.restrict(keys.to_set()),
{
    let step = ReadStepSpec::OmapGetValsByKeys { keys };
    lemma_taken(page, handle, step, call, slots, results);
    crate::read_op::a_page_by_keys_is_complete(slots[handle.index()], keys);
    lemma_held(omap, keys, slots[handle.index()]->Vals_0.iter@);
}

/// The keys of `all` that begin with `prefix`, where there is one.
pub open spec fn with_prefix(all: Set<Seq<u8>>, prefix: Option<Seq<u8>>) -> Set<Seq<u8>> {
    all.filter(|k: Seq<u8>| prefix matches Some(p) ==> p.is_prefix_of(k))
}

/// The slots are what an OSD leaves for a read of up to `max_return` entries where the omap is
/// `omap`: entries of it whose keys come after `start_after` and begin with `prefix`, none left out
/// before another, and `more` exactly where some are left.
pub open spec fn answers_vals(
    omap: Map<Seq<u8>, Seq<u8>>,
    start_after: Option<Seq<u8>>,
    prefix: Option<Seq<u8>>,
    max_return: u64,
    slots: StepSlots,
) -> bool {
    &&& slots matches StepSlots::Vals(vals)
    &&& vals.iter@.len() <= max_return
    &&& forall|i: int|
        0 <= i < vals.iter@.len() ==> omap.contains_key((#[trigger] vals.iter@[i]).0)
            && omap[vals.iter@[i].0] == vals.iter@[i].1
    &&& crate::omap::is_page(
        with_prefix(omap.dom(), prefix),
        start_after,
        crate::byte_map::keys_of(vals.iter@),
        vals.more != 0,
    )
}

/// `page` is a page of `omap`: each entry is the omap's own, its key comes after `start_after` and
/// begins with `prefix`, there are at most `max_return`, and where `more` is not set no such entry
/// is missing.
pub open spec fn is_vals_page(
    omap: Map<Seq<u8>, Seq<u8>>,
    start_after: Option<Seq<u8>>,
    prefix: Option<Seq<u8>>,
    max_return: u64,
    page: OmapPage,
) -> bool {
    &&& forall|k: Seq<u8>| #[trigger]
        page.entries@.contains_key(k) ==> {
            &&& omap.contains_key(k)
            &&& omap[k] == page.entries@[k]
            &&& crate::omap::comes_after(k, start_after)
            &&& prefix matches Some(p) ==> p.is_prefix_of(k)
        }
    &&& page.entries@.len() <= max_return
    &&& page.more <==> exists|k: Seq<u8>| #[trigger]
        omap.contains_key(k) && crate::omap::comes_after(k, start_after) && (prefix matches Some(p)
            ==> p.is_prefix_of(k)) && !page.entries@.contains_key(k)
}

proof fn lemma_vals_page(
    omap: Map<Seq<u8>, Seq<u8>>,
    start_after: Option<Seq<u8>>,
    prefix: Option<Seq<u8>>,
    max_return: u64,
    slots: StepSlots,
    page: OmapPage,
)
    requires
        answers_vals(omap, start_after, prefix, max_return, slots),
        page.shown() == slots.outcome(),
    ensures
        is_vals_page(omap, start_after, prefix, max_return, page),
{
    let pairs = slots->Vals_0.iter@;
    let all = with_prefix(omap.dom(), prefix);
    let keys = crate::byte_map::keys_of(pairs);
    assert(page.entries@ == crate::byte_map::collected(pairs));
    lemma_entries_are_the_omaps(omap, pairs);
    crate::byte_map::lemma_collected_len(pairs);
    assert forall|k: Seq<u8>| #[trigger] page.entries@.contains_key(k) implies all.contains(k)
        && crate::omap::comes_after(k, start_after) by {
        assert(keys.contains(k));
    }
    if page.more {
        let k = choose|k: Seq<u8>| #[trigger]
            all.contains(k) && crate::omap::comes_after(k, start_after) && !keys.contains(k);
        assert(omap.contains_key(k) && !page.entries@.contains_key(k));
    } else {
        assert forall|k: Seq<u8>| #[trigger]
            omap.contains_key(k) && crate::omap::comes_after(k, start_after) && (
            prefix matches Some(p) ==> p.is_prefix_of(k)) implies page.entries@.contains_key(k) by {
            assert(all.contains(k));
        }
    }
}

/// A read of values brings a page of the omap.
pub proof fn a_read_of_values_brings_a_page(
    omap: Map<Seq<u8>, Seq<u8>>,
    start_after: Option<Seq<u8>>,
    filter_prefix: Option<Seq<u8>>,
    max_return: u64,
    page: OmapPage,
    handle: Handle<OmapPage>,
    call: ReadCall,
    slots: Seq<StepSlots>,
    results: ReadResults,
)
    requires
        taken_from(
            page,
            handle,
            ReadStepSpec::OmapGetVals { start_after, filter_prefix, max_return },
            call,
            slots,
            results,
        ),
        answers_vals(omap, start_after, filter_prefix, max_return, slots[handle.index()]),
    ensures
        is_vals_page(omap, start_after, filter_prefix, max_return, page),
{
    let step = ReadStepSpec::OmapGetVals { start_after, filter_prefix, max_return };
    lemma_taken(page, handle, step, call, slots, results);
    lemma_vals_page(omap, start_after, filter_prefix, max_return, slots[handle.index()], page);
}

/// What one read of a page has shown: the key that it started after, the keys, and whether there
/// are more.
#[verifier::ext_equal]
pub struct Seen {
    pub start_after: Option<Seq<u8>>,
    pub keys: Set<Seq<u8>>,
    pub more: bool,
}

/// The keys of the pages, and whether each was cut short.
pub open spec fn pages_of(seen: Seq<Seen>) -> Seq<(Set<Seq<u8>>, bool)> {
    seen.map_values(|s: Seen| (s.keys, s.more))
}

/// Each read started after the last key of the page before it, as long as that had more, and the
/// last has nothing more.
pub open spec fn reads_on(seen: Seq<Seen>) -> bool {
    &&& seen.len() > 0
    &&& !seen.last().more
    &&& forall|i: int, j: int|
        #![trigger seen[i], seen[j]]
        0 <= i && j == i + 1 && j < seen.len() ==> {
            &&& seen[i].more
            &&& seen[j].start_after matches Some(last)
            &&& crate::omap::is_last(last, seen[i].keys)
        }
}

/// The pages together hold each of the keys `all` that comes after the first start exactly once,
/// and in order: as many are seen as there are, and the keys of a page come before those of a later
/// one. Reads that start after nothing bring all keys but the empty one.
pub open spec fn brings_every_key_once(all: Set<Seq<u8>>, seen: Seq<Seen>) -> bool {
    let together = crate::omap::keys_in(pages_of(seen));
    &&& together == all.filter(|k: Seq<u8>| crate::omap::comes_after(k, seen[0].start_after))
    &&& crate::omap::number_in(pages_of(seen)) == together.len()
    &&& seen[0].start_after is None && !all.contains(Seq::empty()) ==> together == all
    &&& forall|i: int, j: int, k: Seq<u8>, l: Seq<u8>|
        0 <= i < j < seen.len() && #[trigger] seen[i].keys.contains(k)
            && #[trigger] seen[j].keys.contains(l) ==> crate::byte_map::precedes(k, l)
}

proof fn lemma_read_in_turn(all: Set<Seq<u8>>, seen: Seq<Seen>)
    requires
        reads_on(seen),
        forall|i: int|
            0 <= i < seen.len() ==> crate::omap::is_page(
                all,
                (#[trigger] seen[i]).start_after,
                seen[i].keys,
                seen[i].more,
            ),
    ensures
        crate::omap::read_in_turn(all, seen[0].start_after, pages_of(seen)),
    decreases seen.len(),
{
    let pages = pages_of(seen);
    assert(pages[0] == (seen[0].keys, seen[0].more));
    assert(seen.last() == seen[seen.len() - 1]);
    if seen.len() > 1 {
        let rest = seen.skip(1);
        assert(seen[1].start_after is Some && seen[0].more);
        let last = seen[1].start_after->0;
        assert(reads_on(rest)) by {
            assert(rest.last() == seen.last());
            assert forall|i: int, j: int|
                #![trigger rest[i], rest[j]]
                0 <= i && j == i + 1 && j < rest.len() implies {
                &&& rest[i].more
                &&& rest[j].start_after matches Some(last)
                &&& crate::omap::is_last(last, rest[i].keys)
            } by {
                assert(rest[i] == seen[i + 1] && rest[j] == seen[j + 1]);
            }
        }
        assert forall|i: int| 0 <= i < rest.len() implies crate::omap::is_page(
            all,
            (#[trigger] rest[i]).start_after,
            rest[i].keys,
            rest[i].more,
        ) by {
            assert(rest[i] == seen[i + 1]);
        }
        lemma_read_in_turn(all, rest);
        assert(pages.skip(1) =~= pages_of(rest));
        assert(crate::omap::is_last(last, pages[0].0));
    }
}

proof fn lemma_reading_on(all: Set<Seq<u8>>, seen: Seq<Seen>)
    requires
        all.finite(),
        reads_on(seen),
        forall|i: int|
            0 <= i < seen.len() ==> crate::omap::is_page(
                all,
                (#[trigger] seen[i]).start_after,
                seen[i].keys,
                seen[i].more,
            ),
    ensures
        brings_every_key_once(all, seen),
{
    let pages = pages_of(seen);
    lemma_read_in_turn(all, seen);
    crate::omap::pages_bring_every_key_once(all, seen[0].start_after, pages);
    assert forall|i: int, j: int, k: Seq<u8>, l: Seq<u8>|
        0 <= i < j < seen.len() && #[trigger] seen[i].keys.contains(k)
            && #[trigger] seen[j].keys.contains(l) implies crate::byte_map::precedes(k, l) by {
        assert(pages[i].0.contains(k) && pages[j].0.contains(l));
    }
}

/// One read of a page of keys: the read, the key that it starts after, what the slots of its one
/// step hold once an OSD has answered, and the page that came of it.
pub struct KeysRound {
    pub read: SingleRead<OmapKeys>,
    pub start_after: Option<Seq<u8>>,
    pub slots: Seq<StepSlots>,
    pub page: OmapKeys,
}

impl KeysRound {
    /// The read asks for up to `max_return` keys after `start_after`, an OSD answers it from the
    /// omap keys `all`, and the page is what the slots hold.
    pub open spec fn answers(&self, all: Set<Seq<u8>>, max_return: u64) -> bool {
        &&& crate::read_op::read_steps(self.read.request().steps@) == seq![
            ReadStepSpec::OmapGetKeys { start_after: self.start_after, max_return },
        ]
        &&& self.read.handle().index() == 0
        &&& self.slots.len() == 1
        &&& self.slots[0] matches StepSlots::Keys(keys)
        &&& keys.iter@.len() <= max_return
        &&& crate::omap::is_page(
            all,
            self.start_after,
            crate::byte_map::keys_of(keys.iter@),
            keys.more != 0,
        )
        &&& self.page.shown() == self.slots[self.read.handle().index()].outcome()
    }

    /// What the read has shown.
    pub open spec fn seen(&self) -> Seen {
        Seen { start_after: self.start_after, keys: self.page.keys@, more: self.page.more }
    }
}

/// What reads of keys have shown.
pub open spec fn keys_seen(rounds: Seq<KeysRound>) -> Seq<Seen> {
    rounds.map_values(|r: KeysRound| r.seen())
}

/// Reading keys page by page brings every key once, where each read starts after the last key of
/// the page before it and the omap stays as it is. No page has more keys than were asked for, and
/// one that lacks a key which comes later has `more` set.
pub proof fn reading_on_brings_every_key_once(
    all: Set<Seq<u8>>,
    max_return: u64,
    rounds: Seq<KeysRound>,
)
    requires
        all.finite(),
        reads_on(keys_seen(rounds)),
        forall|i: int| 0 <= i < rounds.len() ==> (#[trigger] rounds[i]).answers(all, max_return),
    ensures
        brings_every_key_once(all, keys_seen(rounds)),
        forall|i: int|
            0 <= i < rounds.len() ==> (#[trigger] rounds[i]).page.keys@.len() <= max_return,
        forall|i: int, k: Seq<u8>|
            0 <= i < rounds.len() && #[trigger] all.contains(k) && crate::omap::comes_after(
                k,
                rounds[i].start_after,
            ) && !(#[trigger] rounds[i]).page.keys@.contains(k) ==> rounds[i].page.more,
{
    let seen = keys_seen(rounds);
    assert forall|i: int| 0 <= i < seen.len() implies crate::omap::is_page(
        all,
        (#[trigger] seen[i]).start_after,
        seen[i].keys,
        seen[i].more,
    ) by {
        assert(rounds[i].answers(all, max_return));
        assert(seen[i] == rounds[i].seen());
    }
    lemma_reading_on(all, seen);
    assert forall|i: int| 0 <= i < rounds.len() implies (#[trigger] rounds[i]).page.keys@.len()
        <= max_return by {
        assert(rounds[i].answers(all, max_return));
        crate::byte_map::lemma_collected_len(rounds[i].slots[0]->Keys_0.iter@);
    }
    assert forall|i: int, k: Seq<u8>|
        0 <= i < rounds.len() && #[trigger] all.contains(k) && crate::omap::comes_after(
            k,
            rounds[i].start_after,
        ) && !(#[trigger] rounds[i]).page.keys@.contains(k) implies rounds[i].page.more by {
        assert(rounds[i].answers(all, max_return));
    }
}

/// One read of a page of values: the read, the key that it starts after, what the slots of its one
/// step hold once an OSD has answered, and the page that came of it.
pub struct ValsRound {
    pub read: SingleRead<OmapPage>,
    pub start_after: Option<Seq<u8>>,
    pub slots: Seq<StepSlots>,
    pub page: OmapPage,
}

impl ValsRound {
    /// The read asks for up to `max_return` entries after `start_after` whose keys begin with
    /// `prefix`, an OSD answers it from `omap`, and the page is what the slots hold.
    pub open spec fn answers(
        &self,
        omap: Map<Seq<u8>, Seq<u8>>,
        prefix: Option<Seq<u8>>,
        max_return: u64,
    ) -> bool {
        &&& crate::read_op::read_steps(self.read.request().steps@) == seq![
            ReadStepSpec::OmapGetVals {
                start_after: self.start_after,
                filter_prefix: prefix,
                max_return,
            },
        ]
        &&& self.read.handle().index() == 0
        &&& self.slots.len() == 1
        &&& answers_vals(omap, self.start_after, prefix, max_return, self.slots[0])
        &&& self.page.shown() == self.slots[self.read.handle().index()].outcome()
    }

    /// What the read has shown.
    pub open spec fn seen(&self) -> Seen {
        Seen { start_after: self.start_after, keys: self.page.entries@.dom(), more: self.page.more }
    }
}

/// What reads of values have shown.
pub open spec fn vals_seen(rounds: Seq<ValsRound>) -> Seq<Seen> {
    rounds.map_values(|r: ValsRound| r.seen())
}

/// Reading values page by page brings every entry whose key begins with the prefix once, where each
/// read starts after the last key of the page before it and the omap stays as it is. Each page is
/// one of the omap.
pub proof fn reading_on_brings_every_entry_once(
    omap: Map<Seq<u8>, Seq<u8>>,
    prefix: Option<Seq<u8>>,
    max_return: u64,
    rounds: Seq<ValsRound>,
)
    requires
        omap.dom().finite(),
        reads_on(vals_seen(rounds)),
        forall|i: int|
            0 <= i < rounds.len() ==> (#[trigger] rounds[i]).answers(omap, prefix, max_return),
    ensures
        brings_every_key_once(with_prefix(omap.dom(), prefix), vals_seen(rounds)),
        forall|i: int|
            0 <= i < rounds.len() ==> is_vals_page(
                omap,
                (#[trigger] rounds[i]).start_after,
                prefix,
                max_return,
                rounds[i].page,
            ),
{
    let seen = vals_seen(rounds);
    let all = with_prefix(omap.dom(), prefix);
    assert forall|i: int| 0 <= i < seen.len() implies crate::omap::is_page(
        all,
        (#[trigger] seen[i]).start_after,
        seen[i].keys,
        seen[i].more,
    ) by {
        assert(rounds[i].answers(omap, prefix, max_return));
        assert(seen[i] == rounds[i].seen());
    }
    lemma_reading_on(all, seen);
    assert forall|i: int| 0 <= i < rounds.len() implies is_vals_page(
        omap,
        (#[trigger] rounds[i]).start_after,
        prefix,
        max_return,
        rounds[i].page,
    ) by {
        let round = rounds[i];
        assert(round.answers(omap, prefix, max_return));
        lemma_vals_page(omap, round.start_after, prefix, max_return, round.slots[0], round.page);
    }
}

/// What a write left in the omap is what a read by keys brings: of the keys that its last step set,
/// the values that they were set to; none of those that it removed, alone or in a range; nothing
/// where it cleared the omap; and where the write failed, what was there before.
pub proof fn a_write_is_read_back_by_keys(
    write: WriteCall,
    ret: i32,
    before: ObjectState,
    after: ObjectState,
    keys: Seq<Seq<u8>>,
    page: OmapPage,
    handle: Handle<OmapPage>,
    call: ReadCall,
    slots: Seq<StepSlots>,
    results: ReadResults,
)
    requires
        write.changes(ret, before, after),
        taken_from(
            page,
            handle,
            ReadStepSpec::OmapGetValsByKeys { keys },
            call,
            slots,
            results,
        ),
        slots[handle.index()] matches StepSlots::Vals(vals) && answers_by_keys(
            after.omap,
            keys,
            vals.iter@,
        ),
    ensures
        ret < 0 ==> page.entries@ == before.omap.restrict(keys.to_set()),
        ret >= 0 ==> page.entries@ == crate::object::state_after(
            crate::write_op::write_steps(write.steps@),
            before,
        ).omap.restrict(keys.to_set()),
        ret >= 0 && write.steps@.len() > 0 ==> match crate::write_op::write_steps(
            write.steps@,
        ).last() {
            WriteStepSpec::OmapSet { entries } => forall|k: Seq<u8>| #[trigger]
                keys.contains(k) && crate::byte_map::collected(entries).contains_key(k) ==> {
                    &&& page.entries@.contains_key(k)
                    &&& page.entries@[k] == crate::byte_map::collected(entries)[k]
                },
            WriteStepSpec::OmapRmKeys { keys: removed } => forall|k: Seq<u8>| #[trigger]
                page.entries@.contains_key(k) ==> !removed.contains(k),
            WriteStepSpec::OmapRmRange { begin, end } => forall|k: Seq<u8>| #[trigger]
                page.entries@.contains_key(k) ==> !crate::object::in_range(k, begin, end),
            WriteStepSpec::OmapClear => page.entries@ == Map::<Seq<u8>, Seq<u8>>::empty(),
            _ => true,
        },
{
    a_read_by_keys_brings_what_is_held(after.omap, keys, page, handle, call, slots, results);
    if ret >= 0 && write.steps@.len() > 0 && crate::write_op::write_steps(
        write.steps@,
    ).last() is OmapClear {
        assert(page.entries@ =~= Map::empty());
    }
}

/// What a write left in the object is what a read brings: the bytes from its offset on, as many as
/// were read, and where the write failed those that were there before.
pub proof fn a_write_is_read_back(
    write: WriteCall,
    ret: i32,
    before: ObjectState,
    after: ObjectState,
    offset: u64,
    len: usize,
    data: Vec<u8>,
    handle: Handle<Vec<u8>>,
    call: ReadCall,
    slots: Seq<StepSlots>,
    results: ReadResults,
)
    requires
        write.changes(ret, before, after),
        taken_from(data, handle, ReadStepSpec::Read { offset, len }, call, slots, results),
        answers_read(after.data, offset, slots[handle.index()]),
    ensures
        data@.len() > 0 ==> offset + data@.len() <= write.leaves(ret, before).data.len(),
        forall|i: int|
            0 <= i < data@.len() ==> #[trigger] data@[i] == write.leaves(ret, before).data[offset
                + i],
        offset <= write.leaves(ret, before).data.len() && data@.len() == write.leaves(
            ret,
            before,
        ).data.len() - offset ==> data@ == write.leaves(ret, before).data.skip(offset as int),
{
    a_read_brings_the_bytes_of_the_object(
        after.data,
        offset,
        len,
        data,
        handle,
        call,
        slots,
        results,
    );
}

/// An xattr that was set is read back, of whatever size: where the last step of a write that went
/// through set it, and librados answers each round from what the object then holds, the rounds end
/// in the value that it was set to.
pub proof fn an_xattr_that_was_set_is_read_back(
    write: WriteCall,
    ret: i32,
    before: ObjectState,
    after: ObjectState,
    name: Seq<u8>,
    value: Seq<u8>,
    rounds: Seq<(GetXattr, i32, Seq<u8>)>,
    res: Result<Vec<u8>, RadosError>,
)
    requires
        ret >= 0,
        write.changes(ret, before, after),
        write.steps@.len() > 0,
        crate::write_op::write_steps(write.steps@).last() == (WriteStepSpec::SetXattr {
            name,
            value,
        }),
        rounds.len() > 0,
        rounds[0].0.name@ == name,
        rounds[0].0.len == crate::ioctx::xattr_buffer(0),
        forall|i: int|
            0 <= i < rounds.len() ==> (#[trigger] rounds[i]).2.len() == rounds[i].0.len
                && crate::ioctx::xattr_answer(after.xattrs[name], rounds[i].1, rounds[i].2),
        forall|i: int, j: int|
            0 <= i && j == i + 1 && j < rounds.len() ==> (#[trigger] rounds[i]).0.leads_to(
                rounds[i].1,
                rounds[i].2,
                Next::Again((#[trigger] rounds[j]).0),
            ),
        rounds.last().0.leads_to(rounds.last().1, rounds.last().2, Next::Done(res)),
    ensures
        after.xattrs.contains_key(name),
        res matches Ok(v) && v@ == value,
{
    crate::ioctx::an_xattr_is_read_whole(after.xattrs[name], rounds, res);
}

} // verus!
