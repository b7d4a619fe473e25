//! The spatial hash grid.
//!
//! A `Grid` partitions a fixed set of particle identities — the indices
//! `0 .. particle_count` of the owning particle store — into cells addressed
//! by integer coordinate pairs. Each cell holds the ordered list of the
//! identities currently in it, and the grid records, for every placed
//! identity, which cell it is in and at which position of that cell's list
//! (its slot), so removal is O(1) by swap-with-last.
//!
//! The consistency invariant `wf` states that the recorded slot of every
//! placed identity is exactly its position in its cell's list, and that
//! every listed identity is placed and is listed nowhere else. Every
//! operation requires and re-establishes it.

use std::collections::HashMap;
use vstd::prelude::*;
use crate::cell_key::cell_code;
use crate::cell_key::encode_cell_key;

verus! {

broadcast use vstd::seq_lib::group_seq_properties;

/// The coordinate pair `key` shifted by `(dx, dy)`; meaningful while the
/// shift stays within the `i32` range.
pub open spec fn shifted_key(key: (i32, i32), dx: int, dy: int) -> (i32, i32) {
    (((key.0 + dx) as i32), ((key.1 + dy) as i32))
}

/// The identities among `0 .. keys.len()` whose key has packed code `c`,
/// in ascending order: the cell contents after placing every identity at
/// its key, one after the other.
pub open spec fn identities_in_cell(keys: Seq<(i32, i32)>, c: u64) -> Seq<usize>
    decreases keys.len(),
{
    if keys.len() == 0 {
        Seq::empty()
    } else {
        identities_in_cell(keys.drop_last(), c) + if cell_code(keys.last()) == c {
            seq![(keys.len() - 1) as usize]
        } else {
            Seq::empty()
        }
    }
}

/// The distinct packed codes of `keys`, in order of first appearance:
/// the cell creation order after placing every identity at its key.
pub open spec fn first_seen_codes(keys: Seq<(i32, i32)>) -> Seq<u64>
    decreases keys.len(),
{
    if keys.len() == 0 {
        Seq::empty()
    } else {
        let p = first_seen_codes(keys.drop_last());
        if p.contains(cell_code(keys.last())) {
            p
        } else {
            p.push(cell_code(keys.last()))
        }
    }
}

/// The packed codes of the 3x3 block of cells centered on `key`, in
/// reading order: the row below, the center row, the row above.
pub open spec fn neighborhood_codes(key: (i32, i32)) -> Seq<u64> {
    seq![
        cell_code(shifted_key(key, -1, -1)),
        cell_code(shifted_key(key, 0, -1)),
        cell_code(shifted_key(key, 1, -1)),
        cell_code(shifted_key(key, -1, 0)),
        cell_code(shifted_key(key, 0, 0)),
        cell_code(shifted_key(key, 1, 0)),
        cell_code(shifted_key(key, -1, 1)),
        cell_code(shifted_key(key, 0, 1)),
        cell_code(shifted_key(key, 1, 1)),
    ]
}

#[derive(Debug)]
pub struct Grid {
    /// Cell lists, keyed by the packed cell code. An entry, once created,
    /// stays even when its list becomes empty.
    cells: HashMap<u64, Vec<usize>>,
    /// The packed codes of all cells ever created, in creation order.
    /// Gives callers a deterministic iteration order over the cells.
    key_list: Vec<u64>,
    /// For each placed identity, its position within its cell's list.
    slot_of: Vec<usize>,
    /// For each placed identity, the packed code of the cell holding it.
    code_of: Vec<u64>,
    /// Whether each identity is currently in some cell.
    placed: Vec<bool>,
}

impl Grid {
    /// How many particle identities this grid manages.
    pub closed spec fn count(self) -> int {
        self.placed@.len() as int
    }

    /// Whether identity `i` is currently in some cell.
    pub closed spec fn is_placed(self, i: int) -> bool {
        0 <= i < self.count() && self.placed@[i]
    }

    /// The packed code of the cell holding identity `i` (meaningful only
    /// while `i` is placed).
    pub closed spec fn code_at(self, i: int) -> u64 {
        self.code_of@[i]
    }

    /// The recorded slot of identity `i` within its cell's list
    /// (meaningful only while `i` is placed).
    pub closed spec fn slot_at(self, i: int) -> int {
        self.slot_of@[i] as int
    }

    /// The list of identities in the cell with packed code `c`;
    /// empty if that cell was never created.
    pub closed spec fn cell_seq(self, c: u64) -> Seq<usize> {
        if self.cells@.contains_key(c) {
            self.cells@[c]@
        } else {
            Seq::empty()
        }
    }

    /// The list of identities in the cell at coordinate pair `key`.
    pub open spec fn cell_at(self, key: (i32, i32)) -> Seq<usize> {
        self.cell_seq(cell_code(key))
    }

    /// The packed codes of all cells ever created, in creation order.
    pub closed spec fn keys_seq(self) -> Seq<u64> {
        self.key_list@
    }

    /// The grid consistency invariant.
    ///
    /// Every placed identity's recorded slot is its actual position in its
    /// recorded cell's list, and every identity listed anywhere is placed
    /// with exactly that cell and slot on record — so the cell lists are
    /// pairwise disjoint and free of duplicates. The created-cell codes on
    /// record are exactly the keys of the cell table, without duplicates.
    pub closed spec fn wf(self) -> bool {
        &&& self.slot_of@.len() == self.placed@.len()
        &&& self.code_of@.len() == self.placed@.len()
        &&& (forall|i: int|
            #![trigger self.placed@[i]]
            0 <= i < self.placed@.len() && self.placed@[i] ==> {
                &&& (self.slot_of@[i] as int) < self.cell_seq(self.code_of@[i]).len()
                &&& self.cell_seq(self.code_of@[i])[self.slot_of@[i] as int] == i
            })
        &&& (forall|c: u64, s: int|
            #![trigger self.cells@[c]@[s]]
            self.cells@.contains_key(c) && 0 <= s < self.cells@[c]@.len() ==> {
                let p = self.cells@[c]@[s] as int;
                &&& 0 <= p < self.placed@.len()
                &&& self.placed@[p]
                &&& self.code_of@[p] == c
                &&& self.slot_of@[p] as int == s
            })
        &&& (forall|c: u64| #[trigger]
            self.cells@.contains_key(c) <==> self.key_list@.contains(c))
        &&& self.key_list@.no_duplicates()
    }

    /// Creates a grid for `count` particle identities, none of them placed
    /// and no cell created yet.
    pub fn new(count: usize) -> (g: Grid)
        ensures
            g.wf(),
            g.count() == count,
            forall|i: int| !g.is_placed(i),
            forall|c: u64| g.cell_seq(c) == Seq::<usize>::empty(),
            g.keys_seq() == Seq::<u64>::empty(),
    {
        let mut slot_of: Vec<usize> = Vec::new();
        let mut code_of: Vec<u64> = Vec::new();
        let mut placed: Vec<bool> = Vec::new();
        let mut i: usize = 0;
        while i < count
            invariant
                i <= count,
                slot_of@.len() == i,
                code_of@.len() == i,
                placed@.len() == i,
                forall|j: int| 0 <= j < i ==> !placed@[j],
            decreases count - i,
        {
            slot_of.push(0);
            code_of.push(0);
            placed.push(false);
            i = i + 1;
        }
        Grid { cells: HashMap::new(), key_list: Vec::new(), slot_of, code_of, placed }
    }

    /// Appends identity `index` to the list of the cell with packed code
    /// `code`, creating the cell if absent, and records the new last
    /// position as the identity's slot.
    fn add_code(&mut self, index: usize, code: u64)
        requires
            old(self).wf(),
            index < old(self).count(),
            !old(self).is_placed(index as int),
        ensures
            final(self).wf(),
            final(self).count() == old(self).count(),
            final(self).is_placed(index as int),
            final(self).code_at(index as int) == code,
            final(self).slot_at(index as int) == old(self).cell_seq(code).len(),
            forall|i: int|
                i != index ==> final(self).is_placed(i) == old(self).is_placed(i),
            forall|i: int|
                i != index && old(self).is_placed(i) ==> final(self).code_at(i) == old(
                    self,
                ).code_at(i) && final(self).slot_at(i) == old(self).slot_at(i),
            final(self).cell_seq(code) == old(self).cell_seq(code).push(index),
            forall|c: u64|
                c != code ==> final(self).cell_seq(c) == old(self).cell_seq(c),
            final(self).keys_seq() == if old(self).keys_seq().contains(code) {
                old(self).keys_seq()
            } else {
                old(self).keys_seq().push(code)
            },
    {
        let slot: usize;
        match self.cells.remove(&code) {
            Some(mut cell) => {
                slot = cell.len();
                cell.push(index);
                self.cells.insert(code, cell);
            },
            None => {
                slot = 0;
                let mut cell: Vec<usize> = Vec::new();
                cell.push(index);
                self.cells.insert(code, cell);
                self.key_list.push(code);
            },
        }
        self.slot_of.set(index, slot);
        self.code_of.set(index, code);
        self.placed.set(index, true);
    }

    /// Removes identity `index` from the cell holding it, by overwriting
    /// its slot with the cell's last element and truncating, and records
    /// the vacated slot as the moved element's new slot.
    fn remove_code(&mut self, index: usize)
        requires
            old(self).wf(),
            old(self).is_placed(index as int),
        ensures
            final(self).wf(),
            final(self).count() == old(self).count(),
            !final(self).is_placed(index as int),
            ({
                let c = old(self).code_at(index as int);
                let q = old(self).cell_seq(c);
                let s = old(self).slot_at(index as int);
                let m = q.last();
                &&& final(self).cell_seq(c) == q.update(s, m).drop_last()
                &&& (forall|c2: u64|
                    c2 != c ==> final(self).cell_seq(c2) == old(self).cell_seq(c2))
                &&& (forall|i: int|
                    i != index ==> final(self).is_placed(i) == old(self).is_placed(i))
                &&& (forall|i: int|
                    i != index && i != m && old(self).is_placed(i) ==> final(self).code_at(i)
                        == old(self).code_at(i) && final(self).slot_at(i) == old(self).slot_at(
                        i,
                    ))
                &&& (m != index ==> final(self).code_at(m as int) == c && final(self).slot_at(
                    m as int,
                ) == s)
            }),
            final(self).keys_seq() == old(self).keys_seq(),
    {
        let code = self.code_of[index];
        let s = self.slot_of[index];
        let mut cell = self.cells.remove(&code).unwrap();
        let last = cell[cell.len() - 1];
        self.slot_of.set(last, s);
        let _ = cell.swap_remove(s);
        self.placed.set(index, false);
        self.cells.insert(code, cell);
    }

    /// Removes identity `index` from the cell at coordinate pair `key`,
    /// which must be the cell it was inserted into, by swap-with-last:
    /// the cell's last element takes over the vacated slot.
    pub fn remove_from_cell(&mut self, index: usize, key: (i32, i32))
        requires
            old(self).wf(),
            old(self).is_placed(index as int),
            old(self).code_at(index as int) == cell_code(key),
        ensures
            final(self).wf(),
            final(self).count() == old(self).count(),
            !final(self).is_placed(index as int),
            ({
                let q = old(self).cell_at(key);
                let s = old(self).slot_at(index as int);
                let m = q.last();
                &&& final(self).cell_at(key) == q.update(s, m).drop_last()
                &&& (forall|c2: u64|
                    c2 != cell_code(key) ==> final(self).cell_seq(c2) == old(self).cell_seq(c2))
                &&& (forall|i: int|
                    i != index ==> final(self).is_placed(i) == old(self).is_placed(i))
                &&& (forall|i: int|
                    i != index && i != m && old(self).is_placed(i) ==> final(self).code_at(i)
                        == old(self).code_at(i) && final(self).slot_at(i) == old(self).slot_at(
                        i,
                    ))
                &&& (m != index ==> final(self).code_at(m as int) == cell_code(key)
                    && final(self).slot_at(m as int) == s)
            }),
            final(self).keys_seq() == old(self).keys_seq(),
    {
        self.remove_code(index);
    }

    /// Appends identity `index` to the cell at coordinate pair `key`:
    /// the identity must not currently be in any cell.
    pub fn add_to_cell(&mut self, index: usize, key: (i32, i32))
        requires
            old(self).wf(),
            index < old(self).count(),
            !old(self).is_placed(index as int),
        ensures
            final(self).wf(),
            final(self).count() == old(self).count(),
            final(self).is_placed(index as int),
            final(self).code_at(index as int) == cell_code(key),
            final(self).slot_at(index as int) == old(self).cell_at(key).len(),
            forall|i: int|
                i != index ==> final(self).is_placed(i) == old(self).is_placed(i),
            forall|i: int|
                i != index && old(self).is_placed(i) ==> final(self).code_at(i) == old(
                    self,
                ).code_at(i) && final(self).slot_at(i) == old(self).slot_at(i),
            final(self).cell_at(key) == old(self).cell_at(key).push(index),
            forall|c: u64|
                c != cell_code(key) ==> final(self).cell_seq(c) == old(self).cell_seq(c),
            final(self).keys_seq() == if old(self).keys_seq().contains(cell_code(key)) {
                old(self).keys_seq()
            } else {
                old(self).keys_seq().push(cell_code(key))
            },
    {
        let code = encode_cell_key(key);
        self.add_code(index, code);
    }

    /// The identities in the 3x3 block of cells centered on `key`, as the
    /// concatenation of the nine cell lists in reading order.
    pub open spec fn neighborhood_seq(self, key: (i32, i32)) -> Seq<usize> {
        self.cell_seq(neighborhood_codes(key)[0]) + self.cell_seq(neighborhood_codes(key)[1])
            + self.cell_seq(neighborhood_codes(key)[2]) + self.cell_seq(neighborhood_codes(key)[3])
            + self.cell_seq(neighborhood_codes(key)[4]) + self.cell_seq(neighborhood_codes(key)[5])
            + self.cell_seq(neighborhood_codes(key)[6]) + self.cell_seq(neighborhood_codes(key)[7])
            + self.cell_seq(neighborhood_codes(key)[8])
    }

    /// Appends a copy of the cell list at `key` to `res`.
    fn append_cell(&self, res: &mut Vec<usize>, key: (i32, i32))
        ensures
            final(res)@ == old(res)@ + self.cell_at(key),
    {
        let ghost res0 = old(res)@;
        let code = encode_cell_key(key);
        match self.cells.get(&code) {
            Some(cell) => {
                let mut j: usize = 0;
                while j < cell.len()
                    invariant
                        j <= cell@.len(),
                        res@ == res0 + cell@.take(j as int),
                    decreases cell@.len() - j,
                {
                    res.push(cell[j]);
                    proof {
                        assert(cell@.take(j + 1) =~= cell@.take(j as int).push(cell@[j as int]));
                    }
                    j = j + 1;
                }
                proof {
                    assert(cell@.take(cell@.len() as int) =~= cell@);
                }
            },
            None => {
                proof {
                    assert(res0 + Seq::<usize>::empty() =~= res0);
                }
            },
        }
    }

    /// The identities stored in the 3x3 block of cells centered on `key`:
    /// the cell itself and its 8 immediate neighbors, diagonals included,
    /// concatenated in reading order. The coordinates must not sit on the
    /// edge of the `i32` range, so that the whole block is addressable.
    pub fn neighbors_from_cell(&self, key: (i32, i32)) -> (res: Vec<usize>)
        requires
            i32::MIN < key.0 < i32::MAX,
            i32::MIN < key.1 < i32::MAX,
        ensures
            res@ == self.neighborhood_seq(key),
    {
        let mut res: Vec<usize> = Vec::new();
        self.append_cell(&mut res, (key.0 - 1, key.1 - 1));
        self.append_cell(&mut res, (key.0, key.1 - 1));
        self.append_cell(&mut res, (key.0 + 1, key.1 - 1));
        self.append_cell(&mut res, (key.0 - 1, key.1));
        self.append_cell(&mut res, (key.0, key.1));
        self.append_cell(&mut res, (key.0 + 1, key.1));
        self.append_cell(&mut res, (key.0 - 1, key.1 + 1));
        self.append_cell(&mut res, (key.0, key.1 + 1));
        self.append_cell(&mut res, (key.0 + 1, key.1 + 1));
        proof {
            assert(Seq::<usize>::empty() + self.cell_seq(neighborhood_codes(key)[0])
                =~= self.cell_seq(neighborhood_codes(key)[0]));
        }
        res
    }

    /// A copy of the cell list at coordinate pair `key`.
    pub fn cell(&self, key: (i32, i32)) -> (res: Vec<usize>)
        ensures
            res@ == self.cell_at(key),
    {
        let mut res: Vec<usize> = Vec::new();
        self.append_cell(&mut res, key);
        proof {
            assert(Seq::<usize>::empty() + self.cell_at(key) =~= self.cell_at(key));
        }
        res
    }

    /// Moves identity `index` to the cell at coordinate pair `key`, if it
    /// is not already there: it is swap-removed from its current cell and
    /// appended to the one at `key`. When the key is unchanged the grid is
    /// left untouched.
    pub fn reindex(&mut self, index: usize, key: (i32, i32))
        requires
            old(self).wf(),
            old(self).is_placed(index as int),
        ensures
            final(self).wf(),
            final(self).count() == old(self).count(),
            final(self).is_placed(index as int),
            final(self).code_at(index as int) == cell_code(key),
            cell_code(key) == old(self).code_at(index as int) ==> *final(self) == *old(self),
            cell_code(key) != old(self).code_at(index as int) ==> ({
                let c0 = old(self).code_at(index as int);
                let q = old(self).cell_seq(c0);
                let s = old(self).slot_at(index as int);
                let m = q.last();
                &&& final(self).cell_seq(c0) == q.update(s, m).drop_last()
                &&& final(self).cell_at(key) == old(self).cell_at(key).push(index)
                &&& (forall|c2: u64|
                    c2 != c0 && c2 != cell_code(key) ==> final(self).cell_seq(c2) == old(
                        self,
                    ).cell_seq(c2))
                &&& final(self).slot_at(index as int) == old(self).cell_at(key).len()
                &&& (m != index ==> final(self).code_at(m as int) == c0
                    && final(self).slot_at(m as int) == s)
                &&& (forall|i: int|
                    i != index ==> final(self).is_placed(i) == old(self).is_placed(i))
                &&& (forall|i: int|
                    i != index && i != m && old(self).is_placed(i) ==> final(self).code_at(i)
                        == old(self).code_at(i) && final(self).slot_at(i) == old(self).slot_at(
                        i,
                    ))
                &&& final(self).keys_seq() == if old(self).keys_seq().contains(cell_code(key)) {
                    old(self).keys_seq()
                } else {
                    old(self).keys_seq().push(cell_code(key))
                }
            }),
    {
        let code = encode_cell_key(key);
        if code != self.code_of[index] {
            self.remove_code(index);
            self.add_code(index, code);
        }
    }

    /// Places every identity `0 .. keys.len()` into the cell at its key,
    /// in ascending order of identity. The grid must be empty; afterwards
    /// its cells are exactly the partition of the identities by key.
    pub fn populate(&mut self, keys: &Vec<(i32, i32)>)
        requires
            old(self).wf(),
            keys@.len() == old(self).count(),
            forall|i: int| !old(self).is_placed(i),
            forall|c: u64| old(self).cell_seq(c) == Seq::<usize>::empty(),
            old(self).keys_seq() == Seq::<u64>::empty(),
        ensures
            final(self).wf(),
            final(self).count() == old(self).count(),
            forall|i: int|
                0 <= i < final(self).count() ==> final(self).is_placed(i) && final(self).code_at(i)
                    == cell_code(keys@[i]),
            forall|c: u64| final(self).cell_seq(c) == identities_in_cell(keys@, c),
            final(self).keys_seq() == first_seen_codes(keys@),
    {
        let n = keys.len();
        let mut i: usize = 0;
        while i < n
            invariant
                self.wf(),
                i <= n,
                n == keys@.len(),
                self.count() == n,
                forall|j: int|
                    0 <= j < i ==> self.is_placed(j) && self.code_at(j) == cell_code(keys@[j]),
                forall|j: int| i <= j ==> !self.is_placed(j),
                forall|c: u64| self.cell_seq(c) == identities_in_cell(keys@.take(i as int), c),
                self.keys_seq() == first_seen_codes(keys@.take(i as int)),
            decreases n - i,
        {
            self.add_to_cell(i, keys[i]);
            proof {
                let t = keys@.take(i + 1);
                assert(t.drop_last() =~= keys@.take(i as int));
                assert(t.last() == keys@[i as int]);
                assert forall|c: u64| self.cell_seq(c) == identities_in_cell(t, c) by {
                    if c == cell_code(keys@[i as int]) {
                        assert(identities_in_cell(keys@.take(i as int), c).push(i)
                            =~= identities_in_cell(keys@.take(i as int), c) + seq![i]);
                    } else {
                        assert(identities_in_cell(keys@.take(i as int), c) + Seq::<usize>::empty()
                            =~= identities_in_cell(keys@.take(i as int), c));
                    }
                }
            }
            i = i + 1;
        }
        proof {
            assert(keys@.take(n as int) =~= keys@);
        }
    }

    /// How many particle identities this grid manages.
    pub fn particle_count(&self) -> (n: usize)
        ensures
            n == self.count(),
    {
        self.placed.len()
    }

    /// How many cells have been created so far.
    pub fn cell_count(&self) -> (n: usize)
        ensures
            n == self.keys_seq().len(),
    {
        self.key_list.len()
    }

    /// The coordinate pair of the `i`-th created cell, in creation order.
    pub fn cell_key_at(&self, i: usize) -> (key: (i32, i32))
        requires
            i < self.keys_seq().len(),
        ensures
            cell_code(key) == self.keys_seq()[i as int],
    {
        crate::cell_key::decode_cell_key(self.key_list[i])
    }

    /// Whether identity `index` is currently in some cell.
    pub fn in_cell(&self, index: usize) -> (b: bool)
        requires
            index < self.count(),
        ensures
            b == self.is_placed(index as int),
    {
        self.placed[index]
    }

    /// The recorded slot of identity `index` within its cell's list.
    pub fn cell_slot(&self, index: usize) -> (s: usize)
        requires
            self.wf(),
            self.is_placed(index as int),
        ensures
            s == self.slot_at(index as int),
    {
        self.slot_of[index]
    }

    /// The coordinate pair of the cell holding identity `index`.
    pub fn cell_key_of(&self, index: usize) -> (key: (i32, i32))
        requires
            self.wf(),
            self.is_placed(index as int),
        ensures
            cell_code(key) == self.code_at(index as int),
    {
        crate::cell_key::decode_cell_key(self.code_of[index])
    }
}

/// Grid consistency: under the invariant, every placed identity's
/// recorded slot is exactly its position in its recorded cell's list;
/// conversely every identity listed in any cell is placed, with that cell
/// and position on record; and in consequence no identity occurs at two
/// distinct positions of the cell lists, so the union of the cell lists
/// is the set of placed identities, without duplicates.
pub proof fn lemma_grid_consistency(g: Grid)
    requires
        g.wf(),
    ensures
        forall|i: int|
            g.is_placed(i) ==> 0 <= #[trigger] g.slot_at(i) < g.cell_seq(g.code_at(i)).len()
                && g.cell_seq(g.code_at(i))[g.slot_at(i)] == i,
        forall|c: u64, s: int|
            0 <= s < g.cell_seq(c).len() ==> ({
                let p = #[trigger] g.cell_seq(c)[s] as int;
                g.is_placed(p) && g.code_at(p) == c && g.slot_at(p) == s
            }),
        forall|c1: u64, s1: int, c2: u64, s2: int|
            0 <= s1 < g.cell_seq(c1).len() && 0 <= s2 < g.cell_seq(c2).len() && #[trigger] g
                .cell_seq(c1)[s1] == #[trigger] g.cell_seq(c2)[s2] ==> c1 == c2 && s1 == s2,
{
}

/// A member of a cell list is a placed identity recorded in that cell.
proof fn lemma_cell_member(g: Grid, c: u64, p: usize)
    requires
        g.wf(),
        g.cell_seq(c).contains(p),
    ensures
        g.is_placed(p as int),
        g.code_at(p as int) == c,
{
    let j = choose|j: int| 0 <= j < g.cell_seq(c).len() && g.cell_seq(c)[j] == p;
    assert(g.cells@[c]@[j] == p);
}

/// Neighbor completeness: a neighborhood query at `key` returns exactly
/// the placed identities whose recorded cell is one of the 3x3 block of
/// cells centered on `key` — no others.
pub proof fn lemma_neighborhood_complete(g: Grid, key: (i32, i32))
    requires
        g.wf(),
    ensures
        forall|p: usize|
            #[trigger] g.neighborhood_seq(key).contains(p) <==> (g.is_placed(p as int)
                && neighborhood_codes(key).contains(g.code_at(p as int))),
{
    let codes = neighborhood_codes(key);
    assert forall|p: usize| g.neighborhood_seq(key).contains(p) implies (g.is_placed(p as int)
        && codes.contains(g.code_at(p as int))) by {
        if g.cell_seq(codes[0]).contains(p) {
            lemma_cell_member(g, codes[0], p);
            assert(codes.contains(codes[0]));
        } else if g.cell_seq(codes[1]).contains(p) {
            lemma_cell_member(g, codes[1], p);
            assert(codes.contains(codes[1]));
        } else if g.cell_seq(codes[2]).contains(p) {
            lemma_cell_member(g, codes[2], p);
            assert(codes.contains(codes[2]));
        } else if g.cell_seq(codes[3]).contains(p) {
            lemma_cell_member(g, codes[3], p);
            assert(codes.contains(codes[3]));
        } else if g.cell_seq(codes[4]).contains(p) {
            lemma_cell_member(g, codes[4], p);
            assert(codes.contains(codes[4]));
        } else if g.cell_seq(codes[5]).contains(p) {
            lemma_cell_member(g, codes[5], p);
            assert(codes.contains(codes[5]));
        } else if g.cell_seq(codes[6]).contains(p) {
            lemma_cell_member(g, codes[6], p);
            assert(codes.contains(codes[6]));
        } else if g.cell_seq(codes[7]).contains(p) {
            lemma_cell_member(g, codes[7], p);
            assert(codes.contains(codes[7]));
        } else {
            assert(g.cell_seq(codes[8]).contains(p));
            lemma_cell_member(g, codes[8], p);
            assert(codes.contains(codes[8]));
        }
    }
    assert forall|p: usize| (g.is_placed(p as int) && codes.contains(g.code_at(
        p as int,
    ))) implies g.neighborhood_seq(key).contains(p) by {
        let k = choose|k: int| 0 <= k < codes.len() && codes[k] == g.code_at(p as int);
        let s = g.slot_at(p as int);
        assert(g.cell_seq(codes[k])[s] == p);
        assert(g.cell_seq(codes[k]).contains(p));
    }
}

} // verus!

