//! What an omap read brings back.

use crate::byte_map::{ByteMap, ByteSet};
use crate::nullable::as_elements;
use vstd::prelude::*;

verus! {

/// Keys and values returned by an omap read, with `more` set when the OSD cut the answer short.
#[derive(Debug, PartialEq, Eq)]
pub struct OmapPage {
    pub entries: ByteMap,
    pub more: bool,
}

/// Keys returned by an omap read, with `more` set when the OSD cut the answer short.
#[derive(Debug, PartialEq, Eq)]
pub struct OmapKeys {
    pub keys: ByteSet,
    pub more: bool,
}

/// What has been copied out of an omap iterator that librados owns.
#[derive(Debug, PartialEq, Eq)]
pub struct OmapIter {
    copied: Vec<(Vec<u8>, Vec<u8>)>,
}

impl View for OmapIter {
    type V = Seq<(Seq<u8>, Seq<u8>)>;

    /// The keys and values in the order in which they came.
    closed spec fn view(&self) -> Seq<(Seq<u8>, Seq<u8>)> {
        crate::byte_map::byte_pairs(self.copied@)
    }
}

impl OmapIter {
    /// Nothing has been copied yet.
    pub fn empty() -> (iter: OmapIter)
        ensures
            iter@ == Seq::<(Seq<u8>, Seq<u8>)>::empty(),
    {
        let iter = OmapIter { copied: Vec::new() };
        assert(iter@ =~= Seq::empty());
        iter
    }

    /// Takes over one answer of the iterator, and says whether another one is to be asked for. No
    /// key means that the iterator is at its end. An empty value is reported as none.
    pub fn advance(&mut self, key: Option<Vec<u8>>, value: Option<Vec<u8>>) -> (again: bool)
        ensures
            again == (key is Some),
            key matches Some(k) ==> final(self)@ == old(self)@.push(
                (k@, crate::nullable::elements(value)),
            ),
            key is None ==> final(self)@ == old(self)@,
    {
        match key {
            Some(key) => {
                let ghost k = key@;
                let value = as_elements(value);
                let ghost v = value@;
                self.copied.push((key, value));
                assert(self@ =~= old(self)@.push((k, v)));
                true
            },
            None => false,
        }
    }

    /// What was copied.
    pub fn pairs(self) -> (pairs: Vec<(Vec<u8>, Vec<u8>)>)
        ensures
            crate::byte_map::byte_pairs(pairs@) == self@,
    {
        self.copied
    }
}

/// Pages read one after the other share no key: where the last key of one page is the key that
/// the next one starts after, no key of the first page is in the second, and together they have
/// as many keys as both.
pub proof fn consecutive_pages_share_no_key(
    first: Set<Seq<u8>>,
    second: Set<Seq<u8>>,
    start_after: Seq<u8>,
)
    requires
        first.finite(),
        second.finite(),
        forall|k: Seq<u8>| #[trigger]
            first.contains(k) ==> k == start_after || crate::byte_map::precedes(k, start_after),
        forall|k: Seq<u8>| #[trigger]
            second.contains(k) ==> crate::byte_map::precedes(start_after, k),
    ensures
        first.disjoint(second),
        first.union(second).len() == first.len() + second.len(),
{
    assert forall|k: Seq<u8>| #[trigger] first.contains(k) implies !second.contains(k) by {
        if second.contains(k) {
            if k != start_after {
                crate::byte_map::precedes_is_transitive(k, start_after, k);
            }
            crate::byte_map::precedes_is_irreflexive(k);
        }
    }
    vstd::set_lib::lemma_set_disjoint_lens(first, second);
    assert(first.union(second) =~= first + second);
}

/// `key` comes after `cursor`. No cursor is taken for the empty key, so the empty key comes after
/// none.
pub open spec fn comes_after(key: Seq<u8>, cursor: Option<Seq<u8>>) -> bool {
    match cursor {
        Some(cursor) => crate::byte_map::precedes(cursor, key),
        None => crate::byte_map::precedes(Seq::empty(), key),
    }
}

/// What an OSD answers where the omap holds the keys `all`: some of those that come after `cursor`,
/// none left out before another, and `more` exactly where some are left.
pub open spec fn is_page(
    all: Set<Seq<u8>>,
    cursor: Option<Seq<u8>>,
    keys: Set<Seq<u8>>,
    more: bool,
) -> bool {
    &&& forall|k: Seq<u8>| #[trigger] keys.contains(k) ==> all.contains(k) && comes_after(k, cursor)
    &&& forall|k: Seq<u8>, left: Seq<u8>| #[trigger]
        keys.contains(k) && #[trigger] all.contains(left) && comes_after(left, cursor)
            && !keys.contains(left) ==> crate::byte_map::precedes(k, left)
    &&& more <==> exists|left: Seq<u8>| #[trigger]
        all.contains(left) && comes_after(left, cursor) && !keys.contains(left)
}

/// `last` is the greatest of `keys`.
pub open spec fn is_last(last: Seq<u8>, keys: Set<Seq<u8>>) -> bool {
    &&& keys.contains(last)
    &&& forall|k: Seq<u8>| #[trigger]
        keys.contains(k) ==> k == last || crate::byte_map::precedes(k, last)
}

/// `pages` were read one after the other, the first from `cursor` on, each later one from the last
/// key of the page before it, until a page had nothing more.
pub open spec fn read_in_turn(
    all: Set<Seq<u8>>,
    cursor: Option<Seq<u8>>,
    pages: Seq<(Set<Seq<u8>>, bool)>,
) -> bool
    decreases pages.len(),
{
    &&& pages.len() > 0
    &&& is_page(all, cursor, pages[0].0, pages[0].1)
    &&& if pages.len() == 1 {
        !pages[0].1
    } else {
        pages[0].1 && exists|last: Seq<u8>| #[trigger]
            is_last(last, pages[0].0) && read_in_turn(all, Some(last), pages.skip(1))
    }
}

/// The keys of all `pages`.
pub open spec fn keys_in(pages: Seq<(Set<Seq<u8>>, bool)>) -> Set<Seq<u8>>
    decreases pages.len(),
{
    if pages.len() == 0 {
        Set::empty()
    } else {
        pages[0].0.union(keys_in(pages.skip(1)))
    }
}

/// The number of keys in each of `pages`, added up.
pub open spec fn number_in(pages: Seq<(Set<Seq<u8>>, bool)>) -> nat
    decreases pages.len(),
{
    if pages.len() == 0 {
        0
    } else {
        pages[0].0.len() + number_in(pages.skip(1))
    }
}

/// Pages that are read in turn bring every key that comes after the first cursor, and each of them
/// once: as many keys are seen as there are, and the keys of a page come before those of a later
/// one. Without a cursor those are all keys but the empty one.
pub proof fn pages_bring_every_key_once(
    all: Set<Seq<u8>>,
    cursor: Option<Seq<u8>>,
    pages: Seq<(Set<Seq<u8>>, bool)>,
)
    requires
        all.finite(),
        read_in_turn(all, cursor, pages),
    ensures
        keys_in(pages) == all.filter(|k: Seq<u8>| comes_after(k, cursor)),
        number_in(pages) == keys_in(pages).len(),
        forall|i: int, j: int, k: Seq<u8>, l: Seq<u8>|
            0 <= i < j < pages.len() && #[trigger] pages[i].0.contains(k)
                && #[trigger] pages[j].0.contains(l) ==> crate::byte_map::precedes(k, l),
        cursor is None && !all.contains(Seq::empty()) ==> keys_in(pages) == all,
    decreases pages.len(),
{
    let first = pages[0].0;
    let rest = pages.skip(1);
    let wanted = all.filter(|k: Seq<u8>| comes_after(k, cursor));
    assert(first.subset_of(all));
    vstd::set_lib::lemma_len_subset(first, all);
    if pages.len() == 1 {
        assert(keys_in(rest) =~= Set::empty());
        assert(number_in(rest) == 0);
        assert(keys_in(pages) =~= first);
        assert(first =~= wanted);
    } else {
        let last = choose|last: Seq<u8>| #[trigger]
            is_last(last, first) && read_in_turn(all, Some(last), rest);
        pages_bring_every_key_once(all, Some(last), rest);
        let start = match cursor {
            Some(cursor) => cursor,
            None => Seq::empty(),
        };
        assert forall|k: Seq<u8>| wanted.contains(k) <==> keys_in(pages).contains(k) by {
            if keys_in(rest).contains(k) {
                assert(crate::byte_map::precedes(last, k));
                crate::byte_map::precedes_is_transitive(start, last, k);
            }
        }
        assert(keys_in(pages) =~= wanted);
        consecutive_pages_share_no_key(first, keys_in(rest), last);
        assert forall|i: int, j: int, k: Seq<u8>, l: Seq<u8>|
            0 <= i < j < pages.len() && #[trigger] pages[i].0.contains(k)
                && #[trigger] pages[j].0.contains(l) implies crate::byte_map::precedes(k, l) by {
            assert(pages[j] == rest[j - 1]);
            if i == 0 {
                lemma_a_key_of_a_page(rest, j - 1, l);
                if k != last {
                    crate::byte_map::precedes_is_transitive(k, last, l);
                }
            } else {
                assert(pages[i] == rest[i - 1]);
                assert(rest[i - 1].0.contains(k) && rest[j - 1].0.contains(l));
            }
        }
    }
    if cursor is None && !all.contains(Seq::empty()) {
        assert forall|k: Seq<u8>| all.contains(k) implies comes_after(k, cursor) by {
            assert(k.len() > 0) by {
                if k.len() == 0 {
                    assert(k =~= Seq::empty());
                }
            }
            assert(crate::byte_map::precedes_at(Seq::empty(), k, 0));
        }
        assert(wanted =~= all);
    }
}

/// A key of one page is a key of the pages.
proof fn lemma_a_key_of_a_page(pages: Seq<(Set<Seq<u8>>, bool)>, i: int, key: Seq<u8>)
    requires
        0 <= i < pages.len(),
        pages[i].0.contains(key),
    ensures
        keys_in(pages).contains(key),
    decreases pages.len(),
{
    if i > 0 {
        assert(pages.skip(1)[i - 1] == pages[i]);
        lemma_a_key_of_a_page(pages.skip(1), i - 1, key);
    }
}

} // verus!
