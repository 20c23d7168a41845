//! Scroll offsets: the map from node identity to vertical offset that lives
//! as long as the tree does, and the rule that keeps an offset in range.

use vstd::prelude::*;
use crate::arith::{max_int, min_int, sat32, saturate};
use crate::strings::str_eq;

verus! {

/// The furthest a box can be scrolled: by what its content is taller than
/// its viewport, and not at all where the content fits.
pub open spec fn scroll_limit(content_extent: int, viewport_extent: int) -> int {
    max_int(0, content_extent - viewport_extent)
}

/// An offset brought into the range from zero to the limit.
pub open spec fn clamped_offset(offset: int, limit: int) -> int {
    max_int(0, min_int(offset, limit))
}

/// The raw offset after a wheel movement: fifteen pixels per notch, towards
/// the top for a positive movement.
pub open spec fn wheel_offset(offset: i32, delta: i32) -> i32 {
    sat32(offset - 15 * delta)
}

/// The stored offset after `n` wheel movements, each followed by the clamp
/// of the next layout cycle.
pub open spec fn offset_after(
    offset: i32,
    deltas: Seq<i32>,
    content_extent: int,
    viewport_extent: int,
    n: int,
) -> int
    decreases n,
{
    if n <= 0 || n > deltas.len() {
        offset as int
    } else {
        let before = offset_after(offset, deltas, content_extent, viewport_extent, n - 1);
        clamped_offset(
            wheel_offset(sat32(before), deltas[n - 1]) as int,
            scroll_limit(content_extent, viewport_extent),
        )
    }
}

/// Scroll clamp: whatever wheel movements are applied one after the other,
/// the stored offset lies between zero and the scroll limit.
pub proof fn lemma_scroll_clamp(
    offset: i32,
    deltas: Seq<i32>,
    content_extent: int,
    viewport_extent: int,
    n: int,
)
    requires
        0 < n <= deltas.len(),
    ensures
        0 <= offset_after(offset, deltas, content_extent, viewport_extent, n) <= scroll_limit(
            content_extent,
            viewport_extent,
        ),
{
}

/// Clamps a scroll offset to the range from zero to `limit`.
pub fn clamp_scroll(offset: i32, limit: i32) -> (r: i32)
    ensures
        r == clamped_offset(offset as int, limit as int),
        limit >= 0 ==> 0 <= r <= limit,
{
    let low = if offset < limit {
        offset
    } else {
        limit
    };
    if low > 0 {
        low
    } else {
        0
    }
}

/// Applies a wheel movement to an offset.
pub fn scroll_by(offset: i32, delta: i32) -> (r: i32)
    ensures
        r == wheel_offset(offset, delta),
{
    saturate(offset as i128 - 15 * (delta as i128))
}

/// The scroll offsets of a tree, by node identity.
///
/// The entries are searched from the front, so the first entry of an
/// identity is the one that counts.
#[derive(Debug)]
pub struct ScrollMap {
    pub entries: Vec<(String, i32)>,
}

/// The map that the entries from index `i` on stand for.
pub open spec fn entries_map(entries: Seq<(String, i32)>, i: int) -> Map<Seq<char>, i32>
    decreases entries.len() - i,
{
    if i < 0 || i >= entries.len() {
        Map::empty()
    } else {
        entries_map(entries, i + 1).insert(entries[i].0@, entries[i].1)
    }
}

impl View for ScrollMap {
    type V = Map<Seq<char>, i32>;

    open spec fn view(&self) -> Map<Seq<char>, i32> {
        entries_map(self.entries@, 0)
    }
}

/// The offset stored for an identity; zero where none is stored.
pub open spec fn offset_of(map: Map<Seq<char>, i32>, id: Seq<char>) -> i32 {
    if map.contains_key(id) {
        map[id]
    } else {
        0
    }
}

/// An identity that no entry has is not in the map.
proof fn lemma_entries_absent(entries: Seq<(String, i32)>, i: int, id: Seq<char>)
    requires
        0 <= i <= entries.len(),
        forall|j: int| i <= j < entries.len() ==> (#[trigger] entries[j]).0@ != id,
    ensures
        !entries_map(entries, i).contains_key(id),
    decreases entries.len() - i,
{
    if i < entries.len() {
        lemma_entries_absent(entries, i + 1, id);
    }
}

/// The first entry of an identity is the one the map holds.
proof fn lemma_entries_found(entries: Seq<(String, i32)>, i: int, k: int, id: Seq<char>)
    requires
        0 <= i <= k < entries.len(),
        entries[k].0@ == id,
        forall|j: int| i <= j < k ==> (#[trigger] entries[j]).0@ != id,
    ensures
        entries_map(entries, i).contains_key(id),
        entries_map(entries, i)[id] == entries[k].1,
    decreases k - i,
{
    if i < k {
        lemma_entries_found(entries, i + 1, k, id);
    }
}

/// Entries with the same identities and offsets stand for the same map.
proof fn lemma_entries_same_tail(a: Seq<(String, i32)>, b: Seq<(String, i32)>, i: int)
    requires
        a.len() == b.len(),
        0 <= i,
        forall|j: int| i <= j < a.len() ==> (#[trigger] a[j]).0@ == b[j].0@ && a[j].1 == b[j].1,
    ensures
        entries_map(a, i) == entries_map(b, i),
    decreases a.len() - i,
{
    if i < a.len() {
        lemma_entries_same_tail(a, b, i + 1);
    }
}

/// Replacing the first entry of an identity stores the new offset.
proof fn lemma_entries_updated(
    before: Seq<(String, i32)>,
    after: Seq<(String, i32)>,
    i: int,
    k: int,
    id: Seq<char>,
    value: i32,
)
    requires
        0 <= i <= k < before.len(),
        after.len() == before.len(),
        after[k].0@ == id,
        after[k].1 == value,
        before[k].0@ == id,
        forall|j: int| i <= j < k ==> (#[trigger] before[j]).0@ != id,
        forall|j: int|
            0 <= j < before.len() && j != k ==> (#[trigger] after[j]).0@ == before[j].0@ && after[j].1
                == before[j].1,
    ensures
        entries_map(after, i) == entries_map(before, i).insert(id, value),
    decreases k - i,
{
    if i < k {
        lemma_entries_updated(before, after, i + 1, k, id, value);
        assert(entries_map(after, i) =~= entries_map(before, i).insert(id, value));
    } else {
        lemma_entries_same_tail(after, before, k + 1);
        assert(entries_map(after, i) =~= entries_map(before, i).insert(id, value));
    }
}

/// Adding an entry for an identity that has none stores the offset.
proof fn lemma_entries_pushed(before: Seq<(String, i32)>, entry: (String, i32), i: int)
    requires
        0 <= i <= before.len(),
        forall|j: int| i <= j < before.len() ==> (#[trigger] before[j]).0@ != entry.0@,
    ensures
        entries_map(before.push(entry), i) == entries_map(before, i).insert(entry.0@, entry.1),
    decreases before.len() - i,
{
    let after = before.push(entry);
    if i < before.len() {
        lemma_entries_pushed(before, entry, i + 1);
        assert(after[i] == before[i]);
        assert(entries_map(after, i) =~= entries_map(before, i).insert(entry.0@, entry.1));
    } else {
        assert(entries_map(after, i + 1) =~= Map::<Seq<char>, i32>::empty());
        assert(entries_map(after, i) =~= entries_map(before, i).insert(entry.0@, entry.1));
    }
}

impl ScrollMap {
    /// A map without entries.
    pub fn new() -> (r: ScrollMap)
        ensures
            r@ == Map::<Seq<char>, i32>::empty(),
    {
        ScrollMap { entries: Vec::new() }
    }

    /// The index of the entry that counts for `id`.
    fn position(&self, id: &str) -> (r: Option<usize>)
        ensures
            match r {
                Some(k) => k < self.entries.len() && self.entries@[k as int].0@ == id@ && forall|j: int|
                    0 <= j < k ==> (#[trigger] self.entries@[j]).0@ != id@,
                None => forall|j: int| 0 <= j < self.entries.len() ==> (#[trigger] self.entries@[j]).0@ != id@,
            },
    {
        let mut i: usize = 0;
        while i < self.entries.len()
            invariant
                i <= self.entries.len(),
                forall|j: int| 0 <= j < i ==> (#[trigger] self.entries@[j]).0@ != id@,
            decreases self.entries.len() - i,
        {
            if str_eq(self.entries[i].0.as_str(), id) {
                return Some(i);
            }
            i += 1;
        }
        None
    }

    /// The offset stored for `id`, if there is one.
    pub fn get(&self, id: &str) -> (r: Option<i32>)
        ensures
            r is Some <==> self@.contains_key(id@),
            r matches Some(offset) ==> offset == self@[id@],
    {
        match self.position(id) {
            Some(k) => {
                proof {
                    lemma_entries_found(self.entries@, 0, k as int, id@);
                }
                Some(self.entries[k].1)
            },
            None => {
                proof {
                    lemma_entries_absent(self.entries@, 0, id@);
                }
                None
            },
        }
    }

    /// The offset stored for `id`; zero where none is stored.
    pub fn offset(&self, id: &str) -> (r: i32)
        ensures
            r == offset_of(self@, id@),
    {
        match self.get(id) {
            Some(offset) => offset,
            None => 0,
        }
    }

    /// Stores an offset for `id`, in place of the one stored before.
    pub fn insert(&mut self, id: &str, offset: i32)
        ensures
            final(self)@ == old(self)@.insert(id@, offset),
    {
        let ghost before = self.entries@;
        match self.position(id) {
            Some(k) => {
                self.entries.set(k, (id.to_owned(), offset));
                proof {
                    lemma_entries_updated(before, self.entries@, 0, k as int, id@, offset);
                }
            },
            None => {
                let entry = (id.to_owned(), offset);
                self.entries.push(entry);
                proof {
                    lemma_entries_pushed(before, entry, 0);
                }
            },
        }
    }
}

} // verus!
