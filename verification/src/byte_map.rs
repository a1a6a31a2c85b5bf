//! Maps and sets of byte strings, kept in the order in which an OSD keeps omap keys.

use vstd::prelude::*;

verus! {

/// `a` and `b` agree in their first `k` bytes, and there `a` ends or has the smaller byte.
pub open spec fn precedes_at(a: Seq<u8>, b: Seq<u8>, k: int) -> bool {
    &&& 0 <= k <= a.len()
    &&& k < b.len()
    &&& forall|i: int| 0 <= i < k ==> a[i] == b[i]
    &&& k < a.len() ==> a[k] < b[k]
}

/// `a` comes before `b`, byte by byte.
pub open spec fn precedes(a: Seq<u8>, b: Seq<u8>) -> bool {
    exists|k: int| precedes_at(a, b, k)
}

/// No byte string comes before itself.
pub proof fn precedes_is_irreflexive(a: Seq<u8>)
    ensures
        !precedes(a, a),
{
}

/// What comes before something that comes before `c` comes before `c`.
pub proof fn precedes_is_transitive(a: Seq<u8>, b: Seq<u8>, c: Seq<u8>)
    requires
        precedes(a, b),
        precedes(b, c),
    ensures
        precedes(a, c),
{
    let j = choose|k: int| precedes_at(a, b, k);
    let k = choose|k: int| precedes_at(b, c, k);
    assert(precedes_at(a, c, if j < k { j } else { k }));
}

/// Of two different byte strings one comes before the other.
pub proof fn precedes_is_total(a: Seq<u8>, b: Seq<u8>)
    ensures
        a == b || precedes(a, b) || precedes(b, a),
    decreases a.len(),
{
    if a.len() == 0 {
        if b.len() == 0 {
            assert(a =~= b);
        } else {
            assert(precedes_at(a, b, 0));
        }
    } else if b.len() == 0 {
        assert(precedes_at(b, a, 0));
    } else if a[0] < b[0] {
        assert(precedes_at(a, b, 0));
    } else if b[0] < a[0] {
        assert(precedes_at(b, a, 0));
    } else {
        let x = a.skip(1);
        let y = b.skip(1);
        precedes_is_total(x, y);
        if x == y {
            assert(x.len() == a.len() - 1 && y.len() == b.len() - 1);
            assert forall|i: int| 0 <= i < a.len() implies a[i] == b[i] by {
                if i > 0 {
                    assert(a[i] == x[i - 1] && b[i] == y[i - 1]);
                }
            }
            assert(a =~= b);
        } else if precedes(x, y) {
            let k = choose|k: int| precedes_at(x, y, k);
            lemma_longer(a, b, k);
        } else {
            let k = choose|k: int| precedes_at(y, x, k);
            lemma_longer(b, a, k);
        }
    }
}

proof fn lemma_longer(a: Seq<u8>, b: Seq<u8>, k: int)
    requires
        a.len() > 0,
        b.len() > 0,
        a[0] == b[0],
        precedes_at(a.skip(1), b.skip(1), k),
    ensures
        precedes(a, b),
{
    let x = a.skip(1);
    let y = b.skip(1);
    assert forall|i: int| 0 <= i < k + 1 implies a[i] == b[i] by {
        if i > 0 {
            assert(x[i - 1] == y[i - 1]);
        }
    }
    assert(precedes_at(a, b, k + 1));
}

/// Where a byte string stands with respect to another one.
#[derive(Debug, Clone, Copy, PartialEq, Eq, Structural)]
pub enum Side {
    Before,
    Same,
    After,
}

/// Where `a` stands with respect to `b`.
pub fn side(a: &[u8], b: &[u8]) -> (s: Side)
    ensures
        s == Side::Before <==> precedes(a@, b@),
        s == Side::Same <==> a@ == b@,
        s == Side::After <==> precedes(b@, a@),
{
    proof {
        precedes_is_irreflexive(a@);
        if precedes(a@, b@) && precedes(b@, a@) {
            precedes_is_transitive(a@, b@, a@);
        }
    }
    let mut i: usize = 0;
    while i < a.len() && i < b.len()
        invariant
            i <= a@.len(),
            i <= b@.len(),
            forall|j: int| 0 <= j < i ==> a@[j] == b@[j],
            !(precedes(a@, b@) && precedes(b@, a@)),
            !precedes(a@, a@),
        decreases a@.len() - i,
    {
        if a[i] < b[i] {
            assert(precedes_at(a@, b@, i as int));
            return Side::Before;
        }
        if b[i] < a[i] {
            assert(precedes_at(b@, a@, i as int));
            return Side::After;
        }
        i += 1;
    }
    if i < b.len() {
        assert(precedes_at(a@, b@, i as int));
        Side::Before
    } else if i < a.len() {
        assert(precedes_at(b@, a@, i as int));
        Side::After
    } else {
        assert(a@ =~= b@);
        Side::Same
    }
}

/// The views of the keys and values in `list`.
pub open spec fn byte_pairs(list: Seq<(Vec<u8>, Vec<u8>)>) -> Seq<(Seq<u8>, Seq<u8>)> {
    list.map_values(|e: (Vec<u8>, Vec<u8>)| (e.0@, e.1@))
}

/// The keys ascend, so that none occurs twice.
pub open spec fn ascending(pairs: Seq<(Seq<u8>, Seq<u8>)>) -> bool {
    forall|i: int, j: int|
        0 <= i < j < pairs.len() ==> precedes((#[trigger] pairs[i]).0, (#[trigger] pairs[j]).0)
}

/// The map that `pairs` make when they are entered in their order: of two values for one key the
/// later one stays.
pub open spec fn collected(pairs: Seq<(Seq<u8>, Seq<u8>)>) -> Map<Seq<u8>, Seq<u8>>
    decreases pairs.len(),
{
    if pairs.len() == 0 {
        Map::empty()
    } else {
        collected(pairs.drop_last()).insert(pairs.last().0, pairs.last().1)
    }
}

/// The keys of a collected map are those of the pairs.
pub(crate) proof fn lemma_collected_keys(pairs: Seq<(Seq<u8>, Seq<u8>)>)
    ensures
        forall|k: Seq<u8>| #[trigger]
            collected(pairs).contains_key(k) ==> exists|i: int|
                0 <= i < pairs.len() && (#[trigger] pairs[i]).0 == k,
        forall|i: int| 0 <= i < pairs.len() ==> collected(pairs).contains_key((#[trigger] pairs[i]).0),
        collected(pairs).dom().finite(),
    decreases pairs.len(),
{
    if pairs.len() > 0 {
        let less = pairs.drop_last();
        lemma_collected_keys(less);
        assert forall|k: Seq<u8>| #[trigger] collected(pairs).contains_key(k) implies exists|i: int|
            0 <= i < pairs.len() && (#[trigger] pairs[i]).0 == k by {
            if k == pairs.last().0 {
                assert(pairs[pairs.len() - 1].0 == k);
            } else {
                assert(collected(less).contains_key(k));
                let i = choose|i: int| 0 <= i < less.len() && (#[trigger] less[i]).0 == k;
                assert(pairs[i].0 == k);
            }
        }
        assert forall|i: int| 0 <= i < pairs.len() implies collected(pairs).contains_key(
            (#[trigger] pairs[i]).0,
        ) by {
            if i < less.len() {
                assert(less[i] == pairs[i]);
            }
        }
    }
}

/// The value of a key in a collected map stands beside it in one of the pairs.
pub(crate) proof fn lemma_collected_values(pairs: Seq<(Seq<u8>, Seq<u8>)>, key: Seq<u8>)
    requires
        collected(pairs).contains_key(key),
    ensures
        pairs.contains((key, collected(pairs)[key])),
    decreases pairs.len(),
{
    if key == pairs.last().0 {
        assert(pairs[pairs.len() - 1] == (key, collected(pairs)[key]));
    } else {
        let less = pairs.drop_last();
        lemma_collected_values(less, key);
        let i = choose|i: int|
            0 <= i < less.len() && less[i] == (key, collected(less)[key]);
        assert(pairs[i] == less[i]);
    }
}

/// A collected map has no more keys than there are pairs.
pub(crate) proof fn lemma_collected_len(pairs: Seq<(Seq<u8>, Seq<u8>)>)
    ensures
        collected(pairs).dom().finite(),
        collected(pairs).len() <= pairs.len(),
    decreases pairs.len(),
{
    if pairs.len() > 0 {
        let less = pairs.drop_last();
        lemma_collected_len(less);
        assert(collected(pairs).dom() =~= collected(less).dom().insert(pairs.last().0));
    } else {
        assert(collected(pairs).dom() =~= Set::empty());
    }
}

/// A key has the value of the last pair that it stands in.
pub proof fn the_last_value_stays(pairs: Seq<(Seq<u8>, Seq<u8>)>, i: int)
    requires
        0 <= i < pairs.len(),
        forall|j: int| i < j < pairs.len() ==> (#[trigger] pairs[j]).0 != pairs[i].0,
    ensures
        collected(pairs).contains_key(pairs[i].0),
        collected(pairs)[pairs[i].0] == pairs[i].1,
    decreases pairs.len(),
{
    if i < pairs.len() - 1 {
        let less = pairs.drop_last();
        assert(pairs[pairs.len() - 1].0 != pairs[i].0);
        assert forall|j: int| i < j < less.len() implies (#[trigger] less[j]).0 != less[i].0 by {
            assert(less[j] == pairs[j]);
        }
        the_last_value_stays(less, i);
    }
}

/// In ascending pairs each key has the value that stands beside it.
proof fn lemma_ascending_values(pairs: Seq<(Seq<u8>, Seq<u8>)>)
    requires
        ascending(pairs),
    ensures
        forall|i: int|
            0 <= i < pairs.len() ==> collected(pairs)[(#[trigger] pairs[i]).0] == pairs[i].1,
{
    assert forall|i: int| 0 <= i < pairs.len() implies collected(pairs)[(
    #[trigger] pairs[i]).0] == pairs[i].1 by {
        assert forall|j: int| i < j < pairs.len() implies (#[trigger] pairs[j]).0 != pairs[i].0 by {
            precedes_is_irreflexive(pairs[i].0);
        }
        the_last_value_stays(pairs, i);
    }
}

/// Ascending pairs make a map of as many keys.
proof fn lemma_ascending_len(pairs: Seq<(Seq<u8>, Seq<u8>)>)
    requires
        ascending(pairs),
    ensures
        collected(pairs).dom().finite(),
        collected(pairs).len() == pairs.len(),
    decreases pairs.len(),
{
    if pairs.len() > 0 {
        let less = pairs.drop_last();
        assert(ascending(less)) by {
            assert forall|i: int, j: int| 0 <= i < j < less.len() implies precedes(
                (#[trigger] less[i]).0,
                (#[trigger] less[j]).0,
            ) by {
                assert(less[i] == pairs[i] && less[j] == pairs[j]);
            }
        }
        lemma_ascending_len(less);
        lemma_collected_keys(less);
        let key = pairs.last().0;
        if collected(less).contains_key(key) {
            let i = choose|i: int| 0 <= i < less.len() && (#[trigger] less[i]).0 == key;
            assert(precedes(pairs[i].0, pairs[pairs.len() - 1].0));
            precedes_is_irreflexive(key);
        }
        assert(collected(pairs).dom() =~= collected(less).dom().insert(key));
    } else {
        assert(collected(pairs).dom() =~= Set::empty());
    }
}

/// Replacing the value of a key replaces it in the map.
proof fn lemma_replaced(pairs: Seq<(Seq<u8>, Seq<u8>)>, i: int, value: Seq<u8>)
    requires
        ascending(pairs),
        0 <= i < pairs.len(),
    ensures
        ascending(pairs.update(i, (pairs[i].0, value))),
        collected(pairs.update(i, (pairs[i].0, value))) == collected(pairs).insert(
            pairs[i].0,
            value,
        ),
{
    let key = pairs[i].0;
    let after = pairs.update(i, (key, value));
    assert(ascending(after)) by {
        assert forall|a: int, b: int| 0 <= a < b < after.len() implies precedes(
            (#[trigger] after[a]).0,
            (#[trigger] after[b]).0,
        ) by {
            assert(after[a].0 == pairs[a].0 && after[b].0 == pairs[b].0);
        }
    }
    lemma_collected_keys(pairs);
    lemma_collected_keys(after);
    lemma_ascending_values(pairs);
    lemma_ascending_values(after);
    let expected = collected(pairs).insert(key, value);
    assert forall|k: Seq<u8>| collected(after).contains_key(k) == expected.contains_key(k) by {
        if collected(after).contains_key(k) {
            let a = choose|a: int| 0 <= a < after.len() && (#[trigger] after[a]).0 == k;
            assert(pairs[a].0 == k);
        }
        if collected(pairs).contains_key(k) {
            let a = choose|a: int| 0 <= a < pairs.len() && (#[trigger] pairs[a]).0 == k;
            assert(after[a].0 == k);
        }
        assert(after[i].0 == key);
    }
    assert forall|k: Seq<u8>| collected(after).contains_key(k) implies collected(after)[k]
        == expected[k] by {
        let a = choose|a: int| 0 <= a < after.len() && (#[trigger] after[a]).0 == k;
        if a == i {
        } else {
            precedes_is_irreflexive(k);
            if a < i {
                assert(precedes(pairs[a].0, pairs[i].0));
            } else {
                assert(precedes(pairs[i].0, pairs[a].0));
            }
            assert(pairs[a].0 == k);
        }
    }
    assert(collected(after) =~= expected);
}

/// A key put in its place is put into the map.
proof fn lemma_inserted(pairs: Seq<(Seq<u8>, Seq<u8>)>, i: int, key: Seq<u8>, value: Seq<u8>)
    requires
        ascending(pairs),
        0 <= i <= pairs.len(),
        forall|j: int| 0 <= j < i ==> precedes((#[trigger] pairs[j]).0, key),
        forall|j: int| i <= j < pairs.len() ==> precedes(key, (#[trigger] pairs[j]).0),
    ensures
        ascending(pairs.insert(i, (key, value))),
        collected(pairs.insert(i, (key, value))) == collected(pairs).insert(key, value),
{
    let after = pairs.insert(i, (key, value));
    assert(ascending(after)) by {
        assert forall|a: int, b: int| 0 <= a < b < after.len() implies precedes(
            (#[trigger] after[a]).0,
            (#[trigger] after[b]).0,
        ) by {
            let x = if a < i { a } else { a - 1 };
            let y = if b < i { b } else { b - 1 };
            if a != i && b != i {
                assert(after[a] == pairs[x] && after[b] == pairs[y]);
            } else if a == i {
                assert(after[b] == pairs[y]);
            } else {
                assert(after[a] == pairs[x]);
            }
        }
    }
    lemma_collected_keys(pairs);
    lemma_collected_keys(after);
    lemma_ascending_values(pairs);
    lemma_ascending_values(after);
    let expected = collected(pairs).insert(key, value);
    assert(after[i] == (key, value));
    assert forall|k: Seq<u8>| collected(after).contains_key(k) == expected.contains_key(k) by {
        if collected(after).contains_key(k) {
            let a = choose|a: int| 0 <= a < after.len() && (#[trigger] after[a]).0 == k;
            if a < i {
                assert(pairs[a].0 == k);
            } else if a > i {
                assert(pairs[a - 1].0 == k);
            }
        }
        if collected(pairs).contains_key(k) {
            let a = choose|a: int| 0 <= a < pairs.len() && (#[trigger] pairs[a]).0 == k;
            assert(after[if a < i { a } else { a + 1 }].0 == k);
        }
    }
    assert forall|k: Seq<u8>| collected(after).contains_key(k) implies collected(after)[k]
        == expected[k] by {
        let a = choose|a: int| 0 <= a < after.len() && (#[trigger] after[a]).0 == k;
        precedes_is_irreflexive(k);
        if a < i {
            assert(pairs[a].0 == k);
        } else if a > i {
            assert(pairs[a - 1].0 == k);
        }
    }
    assert(collected(after) =~= expected);
}

/// A key taken out of the pairs is taken out of the map.
proof fn lemma_removed(pairs: Seq<(Seq<u8>, Seq<u8>)>, i: int)
    requires
        ascending(pairs),
        0 <= i < pairs.len(),
    ensures
        ascending(pairs.remove(i)),
        collected(pairs.remove(i)) == collected(pairs).remove(pairs[i].0),
        collected(pairs).contains_key(pairs[i].0),
        collected(pairs)[pairs[i].0] == pairs[i].1,
{
    let key = pairs[i].0;
    let after = pairs.remove(i);
    assert(ascending(after)) by {
        assert forall|a: int, b: int| 0 <= a < b < after.len() implies precedes(
            (#[trigger] after[a]).0,
            (#[trigger] after[b]).0,
        ) by {
            let x = if a < i { a } else { a + 1 };
            let y = if b < i { b } else { b + 1 };
            assert(after[a] == pairs[x] && after[b] == pairs[y]);
        }
    }
    lemma_collected_keys(pairs);
    lemma_collected_keys(after);
    lemma_ascending_values(pairs);
    lemma_ascending_values(after);
    let expected = collected(pairs).remove(key);
    assert forall|k: Seq<u8>| collected(after).contains_key(k) == expected.contains_key(k) by {
        precedes_is_irreflexive(k);
        if collected(after).contains_key(k) {
            let a = choose|a: int| 0 <= a < after.len() && (#[trigger] after[a]).0 == k;
            let x = if a < i { a } else { a + 1 };
            assert(pairs[x].0 == k);
            if x < i {
                assert(precedes(pairs[x].0, pairs[i].0));
            } else {
                assert(precedes(pairs[i].0, pairs[x].0));
            }
        }
        if expected.contains_key(k) {
            let a = choose|a: int| 0 <= a < pairs.len() && (#[trigger] pairs[a]).0 == k;
            assert(after[if a < i { a } else { a - 1 }].0 == k);
        }
    }
    assert forall|k: Seq<u8>| collected(after).contains_key(k) implies collected(after)[k]
        == expected[k] by {
        let a = choose|a: int| 0 <= a < after.len() && (#[trigger] after[a]).0 == k;
        assert(pairs[if a < i { a } else { a + 1 }].0 == k);
    }
    assert(collected(after) =~= expected);
}

/// A map from byte strings to byte strings, in the order of its keys.
#[derive(Debug, PartialEq, Eq)]
pub struct ByteMap {
    entries: Vec<(Vec<u8>, Vec<u8>)>,
}

impl View for ByteMap {
    type V = Map<Seq<u8>, Seq<u8>>;

    closed spec fn view(&self) -> Map<Seq<u8>, Seq<u8>> {
        collected(byte_pairs(self.entries@))
    }
}

impl ByteMap {
    #[verifier::type_invariant]
    spec fn is_ascending(&self) -> bool {
        ascending(byte_pairs(self.entries@))
    }

    /// The empty map.
    pub fn new() -> (m: ByteMap)
        ensures
            m@ == Map::<Seq<u8>, Seq<u8>>::empty(),
    {
        ByteMap { entries: Vec::new() }
    }

    /// The entry of `key`, or the place where it would have to stand.
    fn find(&self, key: &[u8]) -> (at: Result<usize, usize>)
        ensures
            match at {
                Ok(i) => i < self.entries@.len() && self.entries@[i as int].0@ == key@,
                Err(i) => {
                    &&& i <= self.entries@.len()
                    &&& forall|j: int|
                        0 <= j < i ==> precedes(#[trigger] self.entries@[j].0@, key@)
                    &&& forall|j: int|
                        i <= j < self.entries@.len() ==> precedes(
                            key@,
                            #[trigger] self.entries@[j].0@,
                        )
                },
            },
    {
        proof {
            use_type_invariant(self);
        }
        let ghost pairs = byte_pairs(self.entries@);
        let mut low: usize = 0;
        let mut high: usize = self.entries.len();
        while low < high
            invariant
                low <= high <= self.entries@.len(),
                pairs == byte_pairs(self.entries@),
                ascending(pairs),
                forall|j: int| 0 <= j < low ==> precedes(#[trigger] self.entries@[j].0@, key@),
                forall|j: int|
                    high <= j < self.entries@.len() ==> precedes(
                        key@,
                        #[trigger] self.entries@[j].0@,
                    ),
            decreases high - low,
        {
            let middle: usize = low + (high - low) / 2;
            let ghost pivot = pairs[middle as int].0;
            match side(self.entries[middle].0.as_slice(), key) {
                Side::Same => {
                    return Ok(middle);
                },
                Side::Before => {
                    assert forall|j: int| 0 <= j < middle + 1 implies precedes(
                        #[trigger] self.entries@[j].0@,
                        key@,
                    ) by {
                        if j < middle {
                            assert(precedes(pairs[j].0, pairs[middle as int].0));
                            precedes_is_transitive(pairs[j].0, pivot, key@);
                        }
                    }
                    low = middle + 1;
                },
                Side::After => {
                    assert forall|j: int| middle <= j < self.entries@.len() implies precedes(
                        key@,
                        #[trigger] self.entries@[j].0@,
                    ) by {
                        if j > middle {
                            assert(precedes(pairs[middle as int].0, pairs[j].0));
                            precedes_is_transitive(key@, pivot, pairs[j].0);
                        }
                    }
                    high = middle;
                },
            }
        }
        Err(low)
    }

    /// A key that `find` did not meet is in no entry.
    proof fn lemma_absent(&self, key: Seq<u8>, at: int)
        requires
            0 <= at <= self.entries@.len(),
            forall|j: int| 0 <= j < at ==> precedes(#[trigger] self.entries@[j].0@, key),
            forall|j: int|
                at <= j < self.entries@.len() ==> precedes(key, #[trigger] self.entries@[j].0@),
        ensures
            !self@.contains_key(key),
    {
        let pairs = byte_pairs(self.entries@);
        lemma_collected_keys(pairs);
        if self@.contains_key(key) {
            let i = choose|i: int| 0 <= i < pairs.len() && (#[trigger] pairs[i]).0 == key;
            assert(pairs[i].0 == self.entries@[i].0@);
            precedes_is_irreflexive(key);
        }
    }

    /// The value of `key`.
    pub fn get(&self, key: &[u8]) -> (value: Option<&Vec<u8>>)
        ensures
            match value {
                Some(v) => self@.contains_key(key@) && self@[key@] == v@,
                None => !self@.contains_key(key@),
            },
    {
        proof {
            use_type_invariant(self);
        }
        match self.find(key) {
            Ok(i) => {
                proof {
                    let pairs = byte_pairs(self.entries@);
                    lemma_collected_keys(pairs);
                    lemma_ascending_values(pairs);
                    assert(pairs[i as int].0 == key@);
                }
                Some(&self.entries[i].1)
            },
            Err(i) => {
                proof {
                    self.lemma_absent(key@, i as int);
                }
                None
            },
        }
    }

    /// Whether `key` has a value.
    pub fn contains_key(&self, key: &[u8]) -> (found: bool)
        ensures
            found == self@.contains_key(key@),
    {
        self.get(key).is_some()
    }

    /// The number of keys.
    pub fn len(&self) -> (n: usize)
        ensures
            self@.dom().finite(),
            n == self@.len(),
    {
        proof {
            use_type_invariant(self);
            lemma_ascending_len(byte_pairs(self.entries@));
        }
        self.entries.len()
    }

    /// Whether there is no key.
    pub fn is_empty(&self) -> (empty: bool)
        ensures
            empty == (self@ == Map::<Seq<u8>, Seq<u8>>::empty()),
    {
        proof {
            let pairs = byte_pairs(self.entries@);
            lemma_collected_keys(pairs);
            if pairs.len() > 0 {
                assert(self@.contains_key(pairs[0].0));
            }
        }
        self.entries.len() == 0
    }

    /// The entries in the order of their keys.
    pub fn as_slice(&self) -> (entries: &[(Vec<u8>, Vec<u8>)])
        ensures
            ascending(byte_pairs(entries@)),
            collected(byte_pairs(entries@)) == self@,
            entries@.len() == self@.len(),
    {
        proof {
            use_type_invariant(self);
            lemma_ascending_len(byte_pairs(self.entries@));
        }
        self.entries.as_slice()
    }

    /// The entry with the greatest key.
    pub fn last_key_value(&self) -> (last: Option<(&Vec<u8>, &Vec<u8>)>)
        ensures
            match last {
                Some((k, v)) => {
                    &&& self@.contains_key(k@)
                    &&& self@[k@] == v@
                    &&& forall|other: Seq<u8>| #[trigger]
                        self@.contains_key(other) ==> other == k@ || precedes(other, k@)
                },
                None => self@ == Map::<Seq<u8>, Seq<u8>>::empty(),
            },
    {
        if self.entries.len() == 0 {
            return None;
        }
        let end: usize = self.entries.len() - 1;
        proof {
            use_type_invariant(self);
            let pairs = byte_pairs(self.entries@);
            lemma_collected_keys(pairs);
            lemma_ascending_values(pairs);
            let k = pairs[end as int].0;
            assert forall|other: Seq<u8>| #[trigger] self@.contains_key(other) implies other == k
                || precedes(other, k) by {
                let i = choose|i: int| 0 <= i < pairs.len() && (#[trigger] pairs[i]).0 == other;
                if i < end {
                    assert(precedes(pairs[i].0, pairs[end as int].0));
                }
            }
        }
        Some((&self.entries[end].0, &self.entries[end].1))
    }

    /// Gives `key` the value `value`, in place of the one that it had.
    pub fn insert(&mut self, key: Vec<u8>, value: Vec<u8>)
        ensures
            final(self)@ == old(self)@.insert(key@, value@),
    {
        proof {
            use_type_invariant(&*self);
        }
        let at = self.find(key.as_slice());
        let ghost before = self.entries@;
        let ghost k = key@;
        let ghost v = value@;
        let mut entries: Vec<(Vec<u8>, Vec<u8>)> = Vec::new();
        std::mem::swap(&mut entries, &mut self.entries);
        match at {
            Ok(i) => {
                entries.set(i, (key, value));
                proof {
                    let old_pairs = byte_pairs(before);
                    let new_pairs = byte_pairs(entries@);
                    assert(new_pairs =~= old_pairs.update(i as int, (k, v)));
                    lemma_replaced(old_pairs, i as int, v);
                }
            },
            Err(i) => {
                entries.insert(i, (key, value));
                proof {
                    let old_pairs = byte_pairs(before);
                    let new_pairs = byte_pairs(entries@);
                    assert(new_pairs =~= old_pairs.insert(i as int, (k, v)));
                    assert forall|j: int| 0 <= j < i implies precedes(
                        (#[trigger] old_pairs[j]).0,
                        k,
                    ) by {
                        assert(old_pairs[j].0 == before[j].0@);
                    }
                    assert forall|j: int| i <= j < old_pairs.len() implies precedes(
                        k,
                        (#[trigger] old_pairs[j]).0,
                    ) by {
                        assert(old_pairs[j].0 == before[j].0@);
                    }
                    lemma_inserted(old_pairs, i as int, k, v);
                }
            },
        }
        self.entries = entries;
    }

    /// Takes `key` out, with its value.
    pub fn remove(&mut self, key: &[u8]) -> (value: Option<Vec<u8>>)
        ensures
            match value {
                Some(v) => old(self)@.contains_key(key@) && old(self)@[key@] == v@,
                None => !old(self)@.contains_key(key@),
            },
            final(self)@ == old(self)@.remove(key@),
    {
        proof {
            use_type_invariant(&*self);
        }
        match self.find(key) {
            Ok(i) => {
                let ghost before = self.entries@;
                let mut entries: Vec<(Vec<u8>, Vec<u8>)> = Vec::new();
                std::mem::swap(&mut entries, &mut self.entries);
                let (_, value) = entries.remove(i);
                proof {
                    let old_pairs = byte_pairs(before);
                    assert(byte_pairs(entries@) =~= old_pairs.remove(i as int));
                    assert(old_pairs[i as int].0 == key@);
                    lemma_removed(old_pairs, i as int);
                }
                self.entries = entries;
                Some(value)
            },
            Err(i) => {
                proof {
                    self.lemma_absent(key@, i as int);
                    assert(self@.remove(key@) =~= self@);
                }
                None
            },
        }
    }

    /// The map of `pairs`, entered in their order.
    pub fn from_pairs(pairs: Vec<(Vec<u8>, Vec<u8>)>) -> (m: ByteMap)
        ensures
            m@ == collected(byte_pairs(pairs@)),
    {
        let ghost list = byte_pairs(pairs@);
        let mut m = ByteMap::new();
        for pair in it: pairs
            invariant
                list == byte_pairs(it.seq()),
                m@ == collected(list.take(it.index())),
        {
            let ghost i = it.index();
            let (key, value) = pair;
            proof {
                assert(list.take(i + 1).drop_last() =~= list.take(i));
                assert(list[i] == (key@, value@));
            }
            m.insert(key, value);
        }
        assert(list.take(list.len() as int) =~= list);
        m
    }
}

/// The keys of `pairs`.
pub open spec fn keys_of(pairs: Seq<(Seq<u8>, Seq<u8>)>) -> Set<Seq<u8>> {
    collected(pairs).dom()
}

/// A set of byte strings, in their order.
#[derive(Debug, PartialEq, Eq)]
pub struct ByteSet {
    map: ByteMap,
}

impl View for ByteSet {
    type V = Set<Seq<u8>>;

    closed spec fn view(&self) -> Set<Seq<u8>> {
        self.map@.dom()
    }
}

impl ByteSet {
    /// The set of the keys of `pairs`.
    pub fn from_keys_of(pairs: Vec<(Vec<u8>, Vec<u8>)>) -> (s: ByteSet)
        ensures
            s@ == keys_of(byte_pairs(pairs@)),
    {
        let ghost list = byte_pairs(pairs@);
        let mut map = ByteMap::new();
        assert(map@.dom() =~= keys_of(list.take(0)));
        for pair in it: pairs
            invariant
                list == byte_pairs(it.seq()),
                map@.dom() == keys_of(list.take(it.index())),
        {
            let ghost i = it.index();
            let ghost before = map@;
            let (key, _) = pair;
            let ghost k = key@;
            map.insert(key, Vec::new());
            proof {
                assert(list.take(i + 1).drop_last() =~= list.take(i));
                assert(list[i].0 == k);
                assert(map@.dom() =~= before.dom().insert(k));
                assert(keys_of(list.take(i + 1)) =~= keys_of(list.take(i)).insert(k));
            }
        }
        assert(list.take(list.len() as int) =~= list);
        ByteSet { map }
    }

    /// Whether `key` is in the set.
    pub fn contains(&self, key: &[u8]) -> (found: bool)
        ensures
            found == self@.contains(key@),
    {
        self.map.contains_key(key)
    }

    /// The number of keys.
    pub fn len(&self) -> (n: usize)
        ensures
            self@.finite(),
            n == self@.len(),
    {
        self.map.len()
    }

    /// Whether the set is empty.
    pub fn is_empty(&self) -> (empty: bool)
        ensures
            empty == (self@ == Set::<Seq<u8>>::empty()),
    {
        let empty = self.map.is_empty();
        proof {
            if self@ == Set::<Seq<u8>>::empty() {
                assert(self.map@ =~= Map::empty());
            }
            assert(Map::<Seq<u8>, Seq<u8>>::empty().dom() =~= Set::empty());
        }
        empty
    }

    /// The greatest key.
    pub fn last(&self) -> (last: Option<&Vec<u8>>)
        ensures
            match last {
                Some(k) => {
                    &&& self@.contains(k@)
                    &&& forall|other: Seq<u8>| #[trigger]
                        self@.contains(other) ==> other == k@ || precedes(other, k@)
                },
                None => self@ == Set::<Seq<u8>>::empty(),
            },
    {
        match self.map.last_key_value() {
            Some((k, _)) => {
                assert forall|other: Seq<u8>| #[trigger] self@.contains(other) implies other == k@
                    || precedes(other, k@) by {
                    assert(self.map@.contains_key(other));
                }
                Some(k)
            },
            None => {
                assert(self@ =~= Set::empty());
                None
            },
        }
    }

    /// The keys in their order.
    pub fn to_vec(&self) -> (keys: Vec<Vec<u8>>)
        ensures
            keys@.len() == self@.len(),
            forall|i: int| 0 <= i < keys@.len() ==> self@.contains(#[trigger] keys@[i]@),
            forall|i: int, j: int|
                0 <= i < j < keys@.len() ==> precedes(#[trigger] keys@[i]@, #[trigger] keys@[j]@),
    {
        let entries = self.map.as_slice();
        proof {
            lemma_collected_keys(byte_pairs(entries@));
        }
        let mut keys: Vec<Vec<u8>> = Vec::new();
        let ghost pairs = byte_pairs(entries@);
        let mut i: usize = 0;
        while i < entries.len()
            invariant
                i <= entries@.len(),
                pairs == byte_pairs(entries@),
                keys@.len() == i,
                forall|j: int| 0 <= j < i ==> #[trigger] keys@[j]@ == pairs[j].0,
            decreases entries@.len() - i,
        {
            assert(pairs[i as int].0 == entries@[i as int].0@);
            keys.push(vstd::slice::slice_to_vec(entries[i].0.as_slice()));
            i += 1;
        }
        keys
    }
}

/// Single bytes are ordered as the numbers that they are.
pub proof fn single_bytes_are_ordered_as_numbers(x: u8, y: u8)
    ensures
        precedes(seq![x], seq![y]) <==> x < y,
{
    if x < y {
        assert(precedes_at(seq![x], seq![y], 0));
    }
    if precedes(seq![x], seq![y]) {
        let k = choose|k: int| precedes_at(seq![x], seq![y], k);
        assert(k == 0);
    }
}

/// A common beginning changes nothing in the order of two byte strings.
pub proof fn a_common_beginning_changes_nothing(p: Seq<u8>, a: Seq<u8>, b: Seq<u8>)
    ensures
        precedes(p + a, p + b) <==> precedes(a, b),
{
    let x = p + a;
    let y = p + b;
    let n = p.len() as int;
    if precedes(a, b) {
        let k = choose|k: int| precedes_at(a, b, k);
        assert forall|i: int| 0 <= i < n + k implies x[i] == y[i] by {
            if i >= n {
                assert(a[i - n] == b[i - n]);
            }
        }
        assert(precedes_at(x, y, n + k));
    }
    if precedes(x, y) {
        let k = choose|k: int| precedes_at(x, y, k);
        assert(k >= n) by {
            if k < n {
                assert(x[k] == p[k] && y[k] == p[k]);
            }
        }
        assert forall|i: int| 0 <= i < k - n implies a[i] == b[i] by {
            assert(x[n + i] == y[n + i]);
        }
        if k < x.len() {
            assert(x[k] == a[k - n] && y[k] == b[k - n]);
        }
        assert(precedes_at(a, b, k - n));
    }
}

/// The first bytes in which two byte strings differ decide, whatever follows them.
pub proof fn the_first_difference_decides(x: u8, y: u8, a: Seq<u8>, b: Seq<u8>)
    requires
        x != y,
    ensures
        precedes(seq![x] + a, seq![y] + b) <==> x < y,
{
    let s = seq![x] + a;
    let t = seq![y] + b;
    assert(s[0] == x && t[0] == y);
    if x < y {
        assert(precedes_at(s, t, 0));
    }
    if precedes(s, t) {
        let k = choose|k: int| precedes_at(s, t, k);
        assert(k == 0) by {
            if k > 0 {
                assert(s[0] == t[0]);
            }
        }
    }
}

/// A byte string comes before every longer one that it begins, and never after it.
pub proof fn a_beginning_comes_first(a: Seq<u8>, b: Seq<u8>)
    requires
        b.len() > 0,
    ensures
        precedes(a, a + b),
        !precedes(a + b, a),
{
    assert(precedes_at(a, a + b, a.len() as int));
    if precedes(a + b, a) {
        precedes_is_transitive(a, a + b, a);
        precedes_is_irreflexive(a);
    }
}

/// The keys and values of a list are the byte strings in it, one for one.
pub proof fn byte_pairs_are_those_of_the_list(list: Seq<(Vec<u8>, Vec<u8>)>)
    ensures
        byte_pairs(list).len() == list.len(),
        forall|i: int|
            0 <= i < list.len() ==> byte_pairs(list)[i].0 == (#[trigger] list[i]).0@
                && byte_pairs(list)[i].1 == list[i].1@,
{
}

/// In ascending pairs every key comes before every later one, and pairs of which that is true
/// ascend.
pub proof fn ascending_keys_come_one_before_the_other(pairs: Seq<(Seq<u8>, Seq<u8>)>)
    ensures
        ascending(pairs) <==> forall|i: int, j: int|
            0 <= i < j < pairs.len() ==> precedes((#[trigger] pairs[i]).0, (#[trigger] pairs[j]).0),
{
}

/// A collected map has the keys of the pairs and no others, and so has the set of keys.
pub proof fn collected_keys_are_those_of_the_pairs(pairs: Seq<(Seq<u8>, Seq<u8>)>, key: Seq<u8>)
    ensures
        collected(pairs).contains_key(key) <==> exists|i: int|
            0 <= i < pairs.len() && (#[trigger] pairs[i]).0 == key,
        keys_of(pairs).contains(key) <==> exists|i: int|
            0 <= i < pairs.len() && (#[trigger] pairs[i]).0 == key,
{
    lemma_collected_keys(pairs);
    if exists|i: int| 0 <= i < pairs.len() && (#[trigger] pairs[i]).0 == key {
        let i = choose|i: int| 0 <= i < pairs.len() && (#[trigger] pairs[i]).0 == key;
        assert(collected(pairs).contains_key(pairs[i].0));
    }
}

} // verus!
