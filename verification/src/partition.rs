//! Partitions: named ranges of entity ids, each with a cursor that says
//! which id is allocated next.

use vstd::prelude::*;
use vstd::string::StringExecFns;
use crate::db::Entid;
use crate::text::str_equal;

verus! {

/// A range of entity ids from `start` up to, but not including, `end`.
/// The ids below `next` are allocated.
#[derive(Debug, Clone, Copy, PartialEq, Eq, Hash)]
pub struct Partition {
    pub start: Entid,
    pub end: Entid,
    next_entid_to_allocate: Entid,
    pub allow_excision: bool,
}

/// What a [`Partition`] holds.
pub struct PartitionView {
    pub start: int,
    pub end: int,
    pub next: int,
    pub allow_excision: bool,
}

impl PartitionView {
    /// The cursor lies in the range.
    pub open spec fn well_formed(self) -> bool {
        self.start <= self.next <= self.end
    }

    /// Whether the id is allocated in the partition.
    pub open spec fn contains(self, e: int) -> bool {
        self.start <= e < self.next
    }

    /// Whether the ranges of two partitions share an id.
    pub open spec fn overlaps(self, other: PartitionView) -> bool {
        self.start < other.end && other.start < self.end
    }

    /// The partition after `n` more ids were allocated.
    pub open spec fn allocated(self, n: int) -> PartitionView {
        PartitionView { next: self.next + n, ..self }
    }
}

impl View for Partition {
    type V = PartitionView;

    closed spec fn view(&self) -> PartitionView {
        PartitionView {
            start: self.start as int,
            end: self.end as int,
            next: self.next_entid_to_allocate as int,
            allow_excision: self.allow_excision,
        }
    }
}

impl Partition {
    /// The partition with the given range and cursor, which must lie in
    /// the range.
    pub fn new(start: Entid, end: Entid, next: Entid, allow_excision: bool) -> (r: Partition)
        requires
            start <= next <= end,
        ensures
            r@ == (PartitionView {
                start: start as int,
                end: end as int,
                next: next as int,
                allow_excision,
            }),
            r@.well_formed(),
    {
        Partition { start, end, next_entid_to_allocate: next, allow_excision }
    }

    /// The partition with the given range and cursor, if the cursor lies
    /// in the range.
    pub fn checked(start: Entid, end: Entid, next: Entid, allow_excision: bool) -> (r: Option<
        Partition,
    >)
        ensures
            match r {
                Some(p) => start <= next <= end && p@ == (PartitionView {
                    start: start as int,
                    end: end as int,
                    next: next as int,
                    allow_excision,
                }),
                None => !(start <= next <= end),
            },
    {
        if start <= next && next <= end {
            Some(Partition::new(start, end, next, allow_excision))
        } else {
            None
        }
    }

    /// Whether the id is allocated in the partition.
    pub fn contains_entid(&self, e: Entid) -> (r: bool)
        ensures
            r == self@.contains(e as int),
    {
        e >= self.start && e < self.next_entid_to_allocate
    }

    /// Whether the cursor may be set to the id.
    pub fn allows_entid(&self, e: Entid) -> (r: bool)
        ensures
            r == (self@.start <= e <= self@.end),
    {
        e >= self.start && e <= self.end
    }

    /// The id that is allocated next.
    pub fn next_entid(&self) -> (r: Entid)
        ensures
            r == self@.next,
    {
        self.next_entid_to_allocate
    }

    /// Moves the cursor forward to `e`, which must lie in the range and
    /// not before the cursor.
    pub fn set_next_entid(&mut self, e: Entid)
        requires
            old(self)@.next <= e <= old(self)@.end,
        ensures
            final(self)@ == (PartitionView { next: e as int, ..old(self)@ }),
    {
        self.next_entid_to_allocate = e;
    }

    /// Allocates `n` ids in a row: the first of them and the one after the
    /// last. Nothing is allocated where the partition has not that many
    /// left.
    pub fn allocate_entids(&mut self, n: usize) -> (r: Option<(Entid, Entid)>)
        requires
            old(self)@.well_formed(),
        ensures
            final(self)@.well_formed(),
            match r {
                Some((first, after)) => {
                    &&& old(self)@.next + n <= old(self)@.end
                    &&& first == old(self)@.next
                    &&& after == first + n
                    &&& final(self)@ == old(self)@.allocated(n as int)
                },
                None => old(self)@.next + n > old(self)@.end && final(self)@ == old(self)@,
            },
    {
        let room = (self.end as i128) - (self.next_entid_to_allocate as i128);
        if (n as u128) > (room as u128) {
            return None;
        }
        let first = self.next_entid_to_allocate;
        let after = ((first as i128) + (n as i128)) as i64;
        self.next_entid_to_allocate = after;
        Some((first, after))
    }
}

/// Ids that are allocated one after the other increase: an allocation
/// starts where the one before it ended.
pub proof fn lemma_allocations_increase(p: PartitionView, n: int, m: int)
    requires
        p.well_formed(),
        n >= 1,
        m >= 0,
    ensures
        p.allocated(n).next > p.next,
        p.allocated(n).allocated(m) == p.allocated(n + m),
        forall|e: int| p.contains(e) ==> e < p.allocated(n).next && p.allocated(n).contains(e),
{
}

/// The partitions of a store by name.
#[derive(Debug, PartialEq, Eq)]
pub struct PartitionMap {
    names: Vec<String>,
    parts: Vec<Partition>,
}

/// The partitions of a map with their names, in the order in which they
/// were put in.
pub type PartitionMapView = Seq<(Seq<char>, PartitionView)>;

/// The position of the partition with the given name, or the number of
/// partitions if there is none.
pub open spec fn position_of(map: PartitionMapView, name: Seq<char>) -> int
    decreases map.len(),
{
    if map.len() == 0 {
        0
    } else if map[0].0 == name {
        0
    } else {
        1 + position_of(map.drop_first(), name)
    }
}

/// The position of a name is that of the first entry with the name.
pub proof fn lemma_position_of(map: PartitionMapView, name: Seq<char>)
    ensures
        0 <= position_of(map, name) <= map.len(),
        position_of(map, name) < map.len() ==> map[position_of(map, name)].0 == name,
        forall|i: int| 0 <= i < position_of(map, name) ==> (#[trigger] map[i]).0 != name,
    decreases map.len(),
{
    if map.len() > 0 && map[0].0 != name {
        lemma_position_of(map.drop_first(), name);
        assert forall|i: int| 0 <= i < position_of(map, name) implies (#[trigger] map[i]).0
            != name by {
            if i > 0 {
                assert(map[i] == map.drop_first()[i - 1]);
            }
        }
    }
}

/// Whether the map is in order: no name twice, every cursor in its
/// range, and no two ranges that share an id.
pub open spec fn map_well_formed(map: PartitionMapView) -> bool {
    &&& forall|i: int| 0 <= i < map.len() ==> (#[trigger] map[i]).1.well_formed()
    &&& forall|i: int, j: int|
        0 <= i < j < map.len() ==> (#[trigger] map[i]).0 != (#[trigger] map[j]).0 && !map[i].1.overlaps(
            map[j].1,
        )
}

/// Whether a partition can join the map: its cursor lies in its range,
/// its name is new, and its range shares no id with a range of the map.
pub open spec fn can_join(map: PartitionMapView, name: Seq<char>, p: PartitionView) -> bool {
    &&& p.well_formed()
    &&& forall|i: int|
        0 <= i < map.len() ==> (#[trigger] map[i]).0 != name && !map[i].1.overlaps(p)
}

impl View for PartitionMap {
    type V = PartitionMapView;

    closed spec fn view(&self) -> PartitionMapView {
        Seq::new(self.parts@.len(), |i: int| (self.names@[i]@, self.parts@[i]@))
    }
}

impl PartitionMap {
    /// The map is in order, and holds a name for each partition.
    pub closed spec fn well_formed(&self) -> bool {
        &&& self.names@.len() == self.parts@.len()
        &&& map_well_formed(self@)
    }

    /// A map without partitions.
    pub fn new() -> (r: PartitionMap)
        ensures
            r@ == Seq::<(Seq<char>, PartitionView)>::empty(),
            r.well_formed(),
    {
        let r = PartitionMap { names: Vec::new(), parts: Vec::new() };
        assert(r@ =~= Seq::empty());
        r
    }

    /// The number of partitions.
    pub fn len(&self) -> (r: usize)
        requires
            self.well_formed(),
        ensures
            r == self@.len(),
    {
        self.parts.len()
    }

    fn find(&self, name: &str) -> (r: usize)
        requires
            self.well_formed(),
        ensures
            r == position_of(self@, name@),
            r <= self@.len(),
    {
        let mut i: usize = 0;
        proof {
            assert(self@.skip(0) =~= self@);
        }
        while i < self.names.len()
            invariant
                i <= self.names@.len(),
                self.names@.len() == self.parts@.len(),
                position_of(self@, name@) == i + position_of(self@.skip(i as int), name@),
            decreases self.names@.len() - i,
        {
            proof {
                assert(self@.skip(i as int)[0] == self@[i as int]);
                assert(self@.skip(i as int).drop_first() =~= self@.skip(i + 1));
            }
            if str_equal(self.names[i].as_str(), name) {
                return i;
            }
            i += 1;
        }
        proof {
            assert(self@.skip(i as int) =~= Seq::empty());
        }
        i
    }

    /// The partition with the given name, if there is one.
    pub fn get(&self, name: &str) -> (r: Option<Partition>)
        requires
            self.well_formed(),
        ensures
            match r {
                Some(p) => position_of(self@, name@) < self@.len() && p@ == self@[position_of(
                    self@,
                    name@,
                )].1,
                None => position_of(self@, name@) == self@.len(),
            },
    {
        let i = self.find(name);
        if i < self.parts.len() {
            Some(self.parts[i])
        } else {
            None
        }
    }

    /// Puts a partition into the map, if it can join it. Says whether it
    /// did.
    pub fn insert(&mut self, name: &str, partition: Partition) -> (r: bool)
        requires
            old(self).well_formed(),
        ensures
            final(self).well_formed(),
            r == can_join(old(self)@, name@, partition@),
            r ==> final(self)@ == old(self)@.push((name@, partition@)),
            !r ==> final(self)@ == old(self)@,
    {
        if !(partition.start <= partition.next_entid_to_allocate
            && partition.next_entid_to_allocate <= partition.end) {
            return false;
        }
        let mut i: usize = 0;
        while i < self.parts.len()
            invariant
                *self == *old(self),
                self.well_formed(),
                i <= self.parts@.len(),
                forall|j: int|
                    0 <= j < i ==> (#[trigger] self@[j]).0 != name@ && !self@[j].1.overlaps(
                        partition@,
                    ),
            decreases self.parts@.len() - i,
        {
            let other = &self.parts[i];
            assert(self@[i as int].1 == other@);
            assert(self@[i as int].0 == self.names@[i as int]@);
            if str_equal(self.names[i].as_str(), name) || (other.start < partition.end && partition.start
                < other.end) {
                return false;
            }
            i += 1;
        }
        self.names.push(String::from_str(name));
        self.parts.push(partition);
        proof {
            assert(self@ =~= old(self)@.push((name@, partition@)));
        }
        true
    }

    /// Whether the id is allocated in one of the partitions.
    pub fn contains_entid(&self, e: Entid) -> (r: bool)
        requires
            self.well_formed(),
        ensures
            r == exists|i: int| 0 <= i < self@.len() && (#[trigger] self@[i]).1.contains(e as int),
    {
        self.partition_of(e).is_some()
    }

    /// The position of the partition in which the id is allocated, if it
    /// is allocated. There is at most one such partition.
    pub fn partition_of(&self, e: Entid) -> (r: Option<usize>)
        requires
            self.well_formed(),
        ensures
            match r {
                Some(i) => i < self@.len() && self@[i as int].1.contains(e as int),
                None => forall|i: int| 0 <= i < self@.len() ==> !(#[trigger] self@[i]).1.contains(
                    e as int,
                ),
            },
    {
        let mut i: usize = 0;
        while i < self.parts.len()
            invariant
                self.well_formed(),
                i <= self.parts@.len(),
                forall|j: int| 0 <= j < i ==> !(#[trigger] self@[j]).1.contains(e as int),
            decreases self.parts@.len() - i,
        {
            assert(self@[i as int].1 == self.parts@[i as int]@);
            if self.parts[i].contains_entid(e) {
                return Some(i);
            }
            i += 1;
        }
        None
    }

    /// The name of the partition at a position.
    pub fn name_at(&self, i: usize) -> (r: &str)
        requires
            self.well_formed(),
            i < self@.len(),
        ensures
            r@ == self@[i as int].0,
    {
        self.names[i].as_str()
    }

    /// Allocates `n` ids in a row in the partition with the given name:
    /// the first of them and the one after the last. Nothing is allocated
    /// where there is no such partition or it has not that many ids left.
    pub fn allocate_entids(&mut self, name: &str, n: usize) -> (r: Option<(Entid, Entid)>)
        requires
            old(self).well_formed(),
        ensures
            final(self).well_formed(),
            final(self)@.len() == old(self)@.len(),
            match r {
                Some((first, after)) => {
                    let i = position_of(old(self)@, name@);
                    &&& i < old(self)@.len()
                    &&& old(self)@[i].1.next + n <= old(self)@[i].1.end
                    &&& first == old(self)@[i].1.next
                    &&& after == first + n
                    &&& final(self)@ == old(self)@.update(
                        i,
                        (old(self)@[i].0, old(self)@[i].1.allocated(n as int)),
                    )
                },
                None => {
                    let i = position_of(old(self)@, name@);
                    &&& final(self)@ == old(self)@
                    &&& i < old(self)@.len() ==> old(self)@[i].1.next + n > old(self)@[i].1.end
                },
            },
    {
        let i = self.find(name);
        if i >= self.parts.len() {
            return None;
        }
        let mut partition = self.parts[i];
        assert(partition@ == self@[i as int].1);
        match partition.allocate_entids(n) {
            Some(range) => {
                self.parts.set(i, partition);
                proof {
                    assert(self@ =~= old(self)@.update(
                        i as int,
                        (old(self)@[i as int].0, old(self)@[i as int].1.allocated(n as int)),
                    ));
                    assert forall|a: int, b: int| 0 <= a < b < self@.len() implies (
                    #[trigger] self@[a]).0 != (#[trigger] self@[b]).0 && !self@[a].1.overlaps(
                        self@[b].1,
                    ) by {
                        assert(old(self)@[a].0 != old(self)@[b].0 && !old(self)@[a].1.overlaps(
                            old(self)@[b].1,
                        ));
                    }
                }
                Some(range)
            },
            None => None,
        }
    }

    /// Allocates one id in the partition with the given name: the id at
    /// its cursor, which moves on by one. There is no id where no
    /// partition has the name, or the partition has no id left; the map
    /// then stays as it was.
    pub fn allocate_entid(&mut self, name: &str) -> (r: Option<Entid>)
        requires
            old(self).well_formed(),
        ensures
            final(self).well_formed(),
            match r {
                Some(e) => {
                    let i = position_of(old(self)@, name@);
                    &&& i < old(self)@.len()
                    &&& e == old(self)@[i].1.next
                    &&& e < old(self)@[i].1.end
                    &&& final(self)@ == old(self)@.update(
                        i,
                        (old(self)@[i].0, old(self)@[i].1.allocated(1)),
                    )
                },
                None => {
                    let i = position_of(old(self)@, name@);
                    &&& final(self)@ == old(self)@
                    &&& i < old(self)@.len() ==> old(self)@[i].1.next >= old(self)@[i].1.end
                },
            },
    {
        match self.allocate_entids(name, 1) {
            Some((first, _)) => Some(first),
            None => None,
        }
    }

    /// Takes over what a map from elsewhere knows; see [`merged`]. Says
    /// how many partitions of the other map were left out.
    pub fn merge(&mut self, other: &PartitionMap) -> (left_out: usize)
        requires
            old(self).well_formed(),
            other.well_formed(),
        ensures
            final(self).well_formed(),
            final(self)@ == merged(old(self)@, other@),
            left_out == left_out_of(old(self)@, other@),
    {
        let mut left_out: usize = 0;
        let mut k: usize = 0;
        proof {
            assert(other@.skip(0) =~= other@);
        }
        while k < other.parts.len()
            invariant
                self.well_formed(),
                other.well_formed(),
                k <= other.parts@.len(),
                left_out <= k,
                merged(old(self)@, other@) == merged(self@, other@.skip(k as int)),
                left_out_of(old(self)@, other@) == left_out + left_out_of(
                    self@,
                    other@.skip(k as int),
                ),
            decreases other.parts@.len() - k,
        {
            let name = other.names[k].as_str();
            let theirs = other.parts[k];
            let ghost before = self@;
            proof {
                assert(other@[k as int].1 == theirs@);
                assert(other@.skip(k as int)[0] == other@[k as int]);
                assert(other@.skip(k as int).drop_first() =~= other@.skip(k + 1));
                lemma_position_of(before, name@);
            }
            let i = self.find(name);
            if i < self.parts.len() {
                let mut ours = self.parts[i];
                assert(self@[i as int].1 == ours@);
                if ours.start == theirs.start && ours.end == theirs.end {
                    if theirs.next_entid_to_allocate > ours.next_entid_to_allocate {
                        ours.next_entid_to_allocate = theirs.next_entid_to_allocate;
                        self.parts.set(i, ours);
                        proof {
                            assert(self@ =~= before.update(i as int, (before[i as int].0, ours@)));
                            assert forall|a: int, b: int|
                                0 <= a < b < self@.len() implies (#[trigger] self@[a]).0 != (
                            #[trigger] self@[b]).0 && !self@[a].1.overlaps(self@[b].1) by {
                                assert(before[a].0 != before[b].0 && !before[a].1.overlaps(
                                    before[b].1,
                                ));
                            }
                        }
                    } else {
                        proof {
                            assert(before.update(i as int, (before[i as int].0, ours@))
                                =~= before);
                        }
                    }
                } else {
                    left_out += 1;
                }
            } else if !self.insert(name, theirs) {
                left_out += 1;
            }
            k += 1;
        }
        proof {
            assert(other@.skip(k as int) =~= Seq::empty());
        }
        left_out
    }

    /// The map of the given partitions, if they make a map that is in
    /// order.
    pub fn from_rows(rows: &Vec<PartitionRow>) -> (r: Option<PartitionMap>)
        ensures
            match r {
                Some(map) => map.well_formed() && map@ == rows_view(rows@) && map_well_formed(
                    rows_view(rows@),
                ),
                None => !map_well_formed(rows_view(rows@)),
            },
    {
        let mut map = PartitionMap::new();
        let mut k: usize = 0;
        while k < rows.len()
            invariant
                k <= rows.len(),
                map.well_formed(),
                map@ == rows_view(rows@).take(k as int),
            decreases rows.len() - k,
        {
            let row = &rows[k];
            let ghost all = rows_view(rows@);
            match Partition::checked(row.start, row.end, row.next, row.allow_excision) {
                Some(p) => {
                    assert(all[k as int] == (row.name@, p@));
                    if !map.insert(row.name.as_str(), p) {
                        proof {
                            let before = all.take(k as int);
                            let i = choose|i: int|
                                0 <= i < before.len() && !((#[trigger] before[i]).0 != row.name@
                                    && !before[i].1.overlaps(p@));
                            assert(all[i] == before[i]);
                        }
                        return None;
                    }
                    proof {
                        assert(all.take(k + 1) =~= all.take(k as int).push(all[k as int]));
                    }
                },
                None => {
                    assert(!all[k as int].1.well_formed());
                    return None;
                },
            }
            k += 1;
        }
        proof {
            assert(rows_view(rows@).take(k as int) =~= rows_view(rows@));
        }
        Some(map)
    }
}

/// One partition as a table holds it.
#[derive(Debug, PartialEq, Eq)]
pub struct PartitionRow {
    pub name: String,
    pub start: Entid,
    pub end: Entid,
    pub next: Entid,
    pub allow_excision: bool,
}

/// The partitions that rows describe, with their names.
pub open spec fn rows_view(rows: Seq<PartitionRow>) -> PartitionMapView {
    Seq::new(
        rows.len(),
        |i: int|
            (
                rows[i].name@,
                PartitionView {
                    start: rows[i].start as int,
                    end: rows[i].end as int,
                    next: rows[i].next as int,
                    allow_excision: rows[i].allow_excision,
                },
            ),
    )
}

/// Whether a partition from elsewhere is left out of a map: it has the
/// name of a partition of the map but not its range, or it has a new name
/// and cannot join the map.
pub open spec fn is_left_out(map: PartitionMapView, name: Seq<char>, p: PartitionView) -> bool {
    let i = position_of(map, name);
    if i < map.len() {
        !(map[i].1.start == p.start && map[i].1.end == p.end)
    } else {
        !can_join(map, name, p)
    }
}

/// A map after it has taken over one partition from elsewhere. A
/// partition that has the name and the range of one of the map moves that
/// one's cursor forward to its own, if its own is further. A partition
/// with a new name joins the map if it can. Any other leaves the map as it
/// is.
pub open spec fn merged_one(map: PartitionMapView, name: Seq<char>, p: PartitionView)
    -> PartitionMapView {
    let i = position_of(map, name);
    if is_left_out(map, name, p) {
        map
    } else if i < map.len() {
        map.update(
            i,
            (
                map[i].0,
                PartitionView {
                    next: if p.next > map[i].1.next {
                        p.next
                    } else {
                        map[i].1.next
                    },
                    ..map[i].1
                },
            ),
        )
    } else {
        map.push((name, p))
    }
}

/// A map after it has taken over the partitions of another, one after the
/// other.
pub open spec fn merged(map: PartitionMapView, other: PartitionMapView) -> PartitionMapView
    decreases other.len(),
{
    if other.len() == 0 {
        map
    } else {
        merged(merged_one(map, other[0].0, other[0].1), other.drop_first())
    }
}

/// The number of partitions of another map that a map leaves out when it
/// takes the other over.
pub open spec fn left_out_of(map: PartitionMapView, other: PartitionMapView) -> nat
    decreases other.len(),
{
    if other.len() == 0 {
        0
    } else {
        (if is_left_out(map, other[0].0, other[0].1) {
            1nat
        } else {
            0
        }) + left_out_of(merged_one(map, other[0].0, other[0].1), other.drop_first())
    }
}

/// Taking over a partition moves no cursor back, and keeps the names and
/// ranges that the map has.
pub proof fn lemma_merge_is_monotonic(map: PartitionMapView, name: Seq<char>, p: PartitionView)
    ensures
        merged_one(map, name, p).len() >= map.len(),
        forall|i: int|
            0 <= i < map.len() ==> {
                &&& (#[trigger] merged_one(map, name, p)[i]).0 == map[i].0
                &&& merged_one(map, name, p)[i].1.start == map[i].1.start
                &&& merged_one(map, name, p)[i].1.end == map[i].1.end
                &&& merged_one(map, name, p)[i].1.next >= map[i].1.next
            },
{
    lemma_position_of(map, name);
}

} // verus!
