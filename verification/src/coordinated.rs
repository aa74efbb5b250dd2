//! A draw batch whose entries can be found again by grid coordinate.
//!
//! A batch of the drawing engine is addressed by slot only: entries are
//! appended, overwritten at a slot, or replaced wholesale. The coordinated
//! batch keeps, beside the draw entries, the grid coordinate of each slot, so
//! that an entry can be updated, removed or moved to another batch by
//! coordinate.

use vstd::prelude::*;
use crate::geometry::Point;

verus! {

/// The overlay of a sprite: dark while the cell is unknown, none once it has
/// been revealed.
#[derive(Clone, Copy, Debug, PartialEq, Eq, Structural, Hash)]
pub enum Tint {
    Hidden,
    Revealed,
}

/// What the engine needs to draw one sprite of a batch: its world position
/// and its overlay.
#[derive(Clone, Copy, Debug, PartialEq, Eq, Structural, Hash)]
pub struct DrawEntry {
    pub dest: Point,
    pub tint: Tint,
}

/// Why an update was not carried out.
#[derive(Clone, Copy, Debug, PartialEq, Eq, Structural, Hash)]
pub enum VisualizerError {
    /// A coordinate that should have an entry in a batch has none.
    MissingElement,
    /// An update does not fit the grid: a change of content lies off the
    /// grid, or a snapshot has another size.
    OutOfBounds,
}

/// `i` is the first position of `needle` in `s`.
pub open spec fn is_slot_of<T>(s: Seq<T>, needle: T, i: int) -> bool {
    &&& 0 <= i < s.len()
    &&& s[i] == needle
    &&& forall|j: int| 0 <= j < i ==> s[j] != needle
}

/// The first position of `needle` in `s`, where it occurs.
pub open spec fn slot_of<T>(s: Seq<T>, needle: T) -> int {
    choose|i: int| is_slot_of(s, needle, i)
}

/// `s` after the element at `i` has been replaced by the last one and the
/// sequence shortened by one.
pub open spec fn swap_removed<T>(s: Seq<T>, i: int) -> Seq<T> {
    s.update(i, s.last()).drop_last()
}

/// The first position of an element is unique.
pub proof fn lemma_slot_unique<T>(s: Seq<T>, needle: T, i: int)
    requires
        is_slot_of(s, needle, i),
    ensures
        slot_of(s, needle) == i,
{
    let j = slot_of(s, needle);
    assert(is_slot_of(s, needle, j));
    if j < i {
        assert(s[j] != needle);
    }
    if i < j {
        assert(s[i] != needle);
    }
}

/// An element that occurs has a first position.
pub proof fn lemma_slot_exists<T>(s: Seq<T>, needle: T)
    requires
        s.contains(needle),
    ensures
        is_slot_of(s, needle, slot_of(s, needle)),
    decreases s.len(),
{
    let k = choose|k: int| 0 <= k < s.len() && s[k] == needle;
    if exists|j: int| 0 <= j < k && s[j] == needle {
        let j = choose|j: int| 0 <= j < k && s[j] == needle;
        let t = s.subrange(0, k);
        assert(t[j] == needle);
        lemma_slot_exists(t, needle);
        let i = slot_of(t, needle);
        assert(is_slot_of(t, needle, i));
        assert(s[i] == t[i]);
        assert forall|m: int| 0 <= m < i implies s[m] != needle by {
            assert(t[m] != needle);
        }
        assert(is_slot_of(s, needle, i));
    } else {
        assert(is_slot_of(s, needle, k));
    }
}

/// Appending keeps every first position, and gives a new element the new
/// slot.
pub proof fn lemma_push_slots<T>(s: Seq<T>, added: T, needle: T)
    ensures
        s.push(added).contains(needle) <==> (s.contains(needle) || needle == added),
        s.contains(needle) ==> slot_of(s.push(added), needle) == slot_of(s, needle),
        !s.contains(needle) && needle == added ==> slot_of(s.push(added), needle) == s.len(),
        s.no_duplicates() && !s.contains(added) ==> s.push(added).no_duplicates(),
{
    let p = s.push(added);
    if s.contains(needle) {
        lemma_slot_exists(s, needle);
        let i = slot_of(s, needle);
        assert(p[i] == needle);
        assert forall|j: int| 0 <= j < i implies p[j] != needle by {
            assert(s[j] != needle);
        }
        lemma_slot_unique(p, needle, i);
    }
    if needle == added {
        assert(p[s.len() as int] == needle);
        if !s.contains(needle) {
            assert forall|j: int| 0 <= j < s.len() implies p[j] != needle by {
                assert(s[j] == p[j]);
            }
            lemma_slot_unique(p, needle, s.len() as int);
        }
    }
    if p.contains(needle) && needle != added {
        let k = choose|k: int| 0 <= k < p.len() && p[k] == needle;
        assert(s[k] == needle);
    }
}

/// In a sequence without repetition, removing by swap keeps every other
/// element, moves only the last one, and leaves no repetition.
pub proof fn lemma_swap_remove_slots<T>(s: Seq<T>, i: int, needle: T)
    requires
        s.no_duplicates(),
        0 <= i < s.len(),
    ensures
        swap_removed(s, i).len() == s.len() - 1,
        swap_removed(s, i).no_duplicates(),
        swap_removed(s, i).contains(needle) <==> (s.contains(needle) && needle != s[i]),
        s.contains(needle) && needle != s[i] ==> slot_of(swap_removed(s, i), needle) == (if slot_of(
            s,
            needle,
        ) == s.len() - 1 {
            i
        } else {
            slot_of(s, needle)
        }),
{
    let r = swap_removed(s, i);
    let last = s.len() - 1;
    assert forall|a: int| 0 <= a < r.len() implies #[trigger] r[a] == (if a == i {
        s[last]
    } else {
        s[a]
    }) by {}
    assert forall|a: int, b: int| 0 <= a < r.len() && 0 <= b < r.len() && a != b implies r[a]
        != r[b] by {
        let sa = if a == i { last } else { a };
        let sb = if b == i { last } else { b };
        assert(r[a] == s[sa]);
        assert(r[b] == s[sb]);
        assert(sa != sb);
    }
    if r.contains(needle) {
        let a = choose|a: int| 0 <= a < r.len() && r[a] == needle;
        let sa = if a == i { last } else { a };
        assert(s[sa] == needle);
        assert(sa != i);
    }
    if s.contains(needle) && needle != s[i] {
        lemma_slot_exists(s, needle);
        let j = slot_of(s, needle);
        let nj = if j == last { i } else { j };
        assert(j != i);
        assert(r[nj] == needle);
        assert forall|m: int| 0 <= m < nj implies r[m] != needle by {
            let sm = if m == i { last } else { m };
            assert(r[m] == s[sm]);
            assert(sm != j);
        }
        lemma_slot_unique(r, needle, nj);
    }
}

/// Moving the element at `i` from one sequence to the end of another neither
/// loses nor repeats anything: the two sequences hold between them what
/// they held before. This is so of the coordinates and of the draw entries
/// of two batches when an entry moves from one to the other.
pub proof fn lemma_move_keeps_elements<T>(from: Seq<T>, to: Seq<T>, i: int)
    requires
        0 <= i < from.len(),
    ensures
        swap_removed(from, i).to_multiset().add(to.push(from[i]).to_multiset())
            =~= from.to_multiset().add(to.to_multiset()),
        swap_removed(from, i).len() + to.push(from[i]).len() == from.len() + to.len(),
{
    broadcast use vstd::seq_lib::group_to_multiset_ensures;
    broadcast use vstd::multiset::group_multiset_axioms;

    let last = from.len() - 1;
    let swapped = from.update(i, from.last());
    assert(swap_removed(from, i) =~= swapped.remove(last));
    assert(swapped[last] == from.last());
    assert(from.contains(from[i]));
    assert(from.contains(from.last()));
    assert(swapped.to_multiset() == from.to_multiset().insert(from.last()).remove(from[i]));
    assert(swapped.remove(last).to_multiset() == swapped.to_multiset().remove(from.last()));
    assert(swap_removed(from, i).to_multiset().insert(from[i]) =~= from.to_multiset());
}

/// A draw batch together with the grid coordinate of each of its slots.
#[derive(Debug)]
pub struct CoordinatedInstance {
    array: Vec<DrawEntry>,
    elements: Vec<(usize, usize)>,
}

impl CoordinatedInstance {
    /// The draw entries, by slot.
    pub closed spec fn entries(&self) -> Seq<DrawEntry> {
        self.array@
    }

    /// The grid coordinates, by slot.
    pub closed spec fn coords(&self) -> Seq<(usize, usize)> {
        self.elements@
    }

    /// The two lists run in parallel: every slot has an entry and a
    /// coordinate.
    pub open spec fn wf(&self) -> bool {
        self.entries().len() == self.coords().len()
    }

    /// Number of slots.
    pub open spec fn spec_len(&self) -> nat {
        self.coords().len()
    }

    /// No coordinate has two slots.
    pub open spec fn distinct(&self) -> bool {
        self.coords().no_duplicates()
    }

    /// Whether a coordinate has a slot.
    pub open spec fn holds(&self, coord: (usize, usize)) -> bool {
        self.coords().contains(coord)
    }

    /// The draw entry of a coordinate: that of its first slot.
    pub open spec fn lookup(&self, coord: (usize, usize)) -> Option<DrawEntry> {
        if self.coords().contains(coord) {
            Some(self.entries()[slot_of(self.coords(), coord)])
        } else {
            None
        }
    }

    /// An empty batch.
    pub fn new() -> (batch: CoordinatedInstance)
        ensures
            batch.wf(),
            batch.coords() == Seq::<(usize, usize)>::empty(),
            batch.entries() == Seq::<DrawEntry>::empty(),
            batch.distinct(),
            forall|c: (usize, usize)| !batch.holds(c),
    {
        CoordinatedInstance { array: Vec::new(), elements: Vec::new() }
    }

    /// Number of slots.
    pub fn len(&self) -> (len: usize)
        requires
            self.wf(),
        ensures
            len == self.spec_len(),
            len == self.entries().len(),
    {
        self.elements.len()
    }

    /// Whether the batch has no slot.
    pub fn is_empty(&self) -> (empty: bool)
        requires
            self.wf(),
        ensures
            empty <==> self.spec_len() == 0,
    {
        self.elements.len() == 0
    }

    /// The draw entries, by slot, as the engine takes them.
    pub fn instances(&self) -> (entries: &Vec<DrawEntry>)
        ensures
            entries@ == self.entries(),
    {
        &self.array
    }

    /// The grid coordinates, by slot.
    pub fn elements(&self) -> (coords: &Vec<(usize, usize)>)
        ensures
            coords@ == self.coords(),
    {
        &self.elements
    }

    /// Appends an entry for `coord` in a new last slot.
    pub fn append(&mut self, coord: (usize, usize), entry: DrawEntry)
        requires
            old(self).wf(),
        ensures
            final(self).wf(),
            final(self).coords() == old(self).coords().push(coord),
            final(self).entries() == old(self).entries().push(entry),
            final(self).spec_len() == old(self).spec_len() + 1,
            final(self).holds(coord),
            forall|c: (usize, usize)| c != coord ==> final(self).holds(c) == old(self).holds(c),
            forall|c: (usize, usize)| old(self).holds(c) ==> final(self).lookup(c) == old(self).lookup(c),
            !old(self).holds(coord) ==> final(self).lookup(coord) == Some(entry),
            old(self).distinct() && !old(self).holds(coord) ==> final(self).distinct(),
    {
        proof {
            let coords = self.elements@;
            assert forall|c: (usize, usize)|
                (coords.push(coord).contains(c) <==> (coords.contains(c) || c == coord)) && (
                coords.contains(c) ==> slot_of(coords.push(coord), c) == slot_of(coords, c)) by {
                lemma_push_slots(coords, coord, c);
                if coords.contains(c) {
                    lemma_slot_exists(coords, c);
                }
            }
            lemma_push_slots(coords, coord, coord);
            assert forall|c: (usize, usize)| coords.contains(c) implies 0 <= slot_of(coords, c)
                < coords.len() by {
                lemma_slot_exists(coords, c);
            }
        }
        self.array.push(entry);
        self.elements.push(coord);
    }

    /// The first slot that holds `coord`, by a scan of the coordinates.
    pub fn find(&self, coord: (usize, usize)) -> (slot: Option<usize>)
        ensures
            slot is Some <==> self.holds(coord),
            slot matches Some(i) ==> is_slot_of(self.coords(), coord, i as int) && i as int
                == slot_of(self.coords(), coord),
    {
        let mut i: usize = 0;
        while i < self.elements.len()
            invariant
                i <= self.elements@.len(),
                forall|j: int| 0 <= j < i ==> self.elements@[j] != coord,
            decreases self.elements@.len() - i,
        {
            let element = self.elements[i];
            if element.0 == coord.0 && element.1 == coord.1 {
                proof {
                    lemma_slot_unique(self.elements@, coord, i as int);
                }
                return Some(i);
            }
            i += 1;
        }
        None
    }

    /// The draw entry of `coord`, if it has a slot.
    pub fn get(&self, coord: (usize, usize)) -> (entry: Option<DrawEntry>)
        requires
            self.wf(),
        ensures
            entry == self.lookup(coord),
    {
        match self.find(coord) {
            Some(i) => Some(self.array[i]),
            None => None,
        }
    }

    /// Overwrites the draw entry of `coord` in place. No slot changes hands.
    /// Fails, and changes nothing, when `coord` has no slot.
    pub fn update(&mut self, coord: (usize, usize), entry: DrawEntry) -> (result: Result<
        (),
        VisualizerError,
    >)
        requires
            old(self).wf(),
        ensures
            final(self).wf(),
            final(self).coords() == old(self).coords(),
            result is Ok <==> old(self).holds(coord),
            result is Ok ==> final(self).entries() == old(self).entries().update(
                slot_of(old(self).coords(), coord),
                entry,
            ) && final(self).lookup(coord) == Some(entry),
            result matches Err(e) ==> e == VisualizerError::MissingElement && final(self).entries()
                == old(self).entries(),
            forall|c: (usize, usize)| c != coord ==> final(self).lookup(c) == old(self).lookup(c),
    {
        match self.find(coord) {
            Some(i) => {
                proof {
                    let coords = self.elements@;
                    assert forall|c: (usize, usize)| c != coord && coords.contains(c) implies 0
                        <= slot_of(coords, c) < coords.len() && slot_of(coords, c) != i by {
                        lemma_slot_exists(coords, c);
                    }
                }
                self.array[i] = entry;
                Ok(())
            },
            None => Err(VisualizerError::MissingElement),
        }
    }

    /// Removes the entry of `coord`: the last slot's entry and coordinate
    /// take its place and the batch shrinks by one. Returns the entry, or
    /// `None`, with nothing changed, when `coord` has no slot.
    pub fn remove(&mut self, coord: (usize, usize)) -> (removed: Option<DrawEntry>)
        requires
            old(self).wf(),
        ensures
            final(self).wf(),
            removed == old(self).lookup(coord),
            removed is Some ==> {
                let i = slot_of(old(self).coords(), coord);
                &&& final(self).coords() == swap_removed(old(self).coords(), i)
                &&& final(self).entries() == swap_removed(old(self).entries(), i)
                &&& final(self).spec_len() == old(self).spec_len() - 1
            },
            removed is None ==> final(self).coords() == old(self).coords() && final(self).entries()
                == old(self).entries(),
            old(self).distinct() ==> {
                &&& final(self).distinct()
                &&& !final(self).holds(coord)
                &&& forall|c: (usize, usize)|
                    c != coord ==> final(self).holds(c) == old(self).holds(c)
                        && final(self).lookup(c) == old(self).lookup(c)
            },
    {
        match self.find(coord) {
            Some(i) => {
                proof {
                    let coords = self.elements@;
                    let entries = self.array@;
                    if coords.no_duplicates() {
                        assert forall|c: (usize, usize)|
                            (swap_removed(coords, i as int).contains(c) <==> (coords.contains(c)
                                && c != coord)) && (c != coord && coords.contains(c)
                                ==> swap_removed(entries, i as int)[slot_of(
                                swap_removed(coords, i as int),
                                c,
                            )] == entries[slot_of(coords, c)]) by {
                            lemma_swap_remove_slots(coords, i as int, c);
                            if c != coord && coords.contains(c) {
                                lemma_slot_exists(coords, c);
                            }
                        }
                        lemma_swap_remove_slots(coords, i as int, coord);
                    }
                }
                let entry = self.array.swap_remove(i);
                let _ = self.elements.swap_remove(i);
                Some(entry)
            },
            None => None,
        }
    }

    /// Moves the entry of `coord` to `other`: it is removed here as `remove`
    /// does, and appended there with the same coordinate. Fails, and changes
    /// neither batch, when `coord` has no slot here.
    pub fn remove_and_move_to(
        &mut self,
        coord: (usize, usize),
        other: &mut CoordinatedInstance,
    ) -> (result: Result<(), VisualizerError>)
        requires
            old(self).wf(),
            old(other).wf(),
        ensures
            final(self).wf(),
            final(other).wf(),
            final(self).spec_len() + final(other).spec_len() == old(self).spec_len() + old(other).spec_len(),
            result is Ok <==> old(self).holds(coord),
            result is Ok ==> {
                let i = slot_of(old(self).coords(), coord);
                &&& final(self).coords() == swap_removed(old(self).coords(), i)
                &&& final(self).entries() == swap_removed(old(self).entries(), i)
                &&& final(other).coords() == old(other).coords().push(coord)
                &&& final(other).entries() == old(other).entries().push(old(self).entries()[i])
                &&& final(other).holds(coord)
            },
            result matches Err(e) ==> {
                &&& e == VisualizerError::MissingElement
                &&& final(self).coords() == old(self).coords()
                &&& final(self).entries() == old(self).entries()
                &&& final(other).coords() == old(other).coords()
                &&& final(other).entries() == old(other).entries()
            },
            old(self).distinct() ==> {
                &&& final(self).distinct()
                &&& !final(self).holds(coord)
                &&& forall|c: (usize, usize)|
                    c != coord ==> final(self).holds(c) == old(self).holds(c)
                        && final(self).lookup(c) == old(self).lookup(c)
            },
            forall|c: (usize, usize)| c != coord ==> final(other).holds(c) == old(other).holds(c),
            forall|c: (usize, usize)|
                old(other).holds(c) ==> final(other).lookup(c) == old(other).lookup(c),
            result is Ok && !old(other).holds(coord) ==> final(other).lookup(coord) == old(self).lookup(coord),
            result is Ok && old(other).distinct() && !old(other).holds(coord) ==> final(other).distinct(),
    {
        match self.remove(coord) {
            Some(entry) => {
                other.append(coord, entry);
                Ok(())
            },
            None => Err(VisualizerError::MissingElement),
        }
    }
}

} // verus!
