//! The id bookkeeping of the in-memory vector store: the vectors stand in slots 0, 1, ... of
//! an index that removes a vector by moving the last one into its slot, and each slot is known
//! by the id of the record it holds.
use vstd::prelude::*;
use crate::text::{str_eq, usize_to_decimal, decimal};

verus! {

/// Which record id each slot of the index holds.
pub struct VectorSlots {
    ids: Vec<String>,
}

/// The ids of records added in turn to slots holding `ids`: an id already held is skipped,
/// any other takes the next slot.
pub open spec fn ids_after_adding(ids: Seq<Seq<char>>, new_ids: Seq<Seq<char>>) -> Seq<Seq<char>>
    decreases new_ids.len(),
{
    if new_ids.len() == 0 {
        ids
    } else {
        let prev = ids_after_adding(ids, new_ids.drop_last());
        if prev.contains(new_ids.last()) {
            prev
        } else {
            prev.push(new_ids.last())
        }
    }
}

/// The slots after the record in slot `i` is removed: the last record moves into slot `i`.
pub open spec fn ids_after_removing(ids: Seq<Seq<char>>, i: int) -> Seq<Seq<char>> {
    ids.update(i, ids.last()).drop_last()
}

/// The index of the first record whose vector is not `dim` long.
pub open spec fn first_wrong_length(lens: Seq<usize>, dim: usize) -> Option<int> {
    if exists|k: int| 0 <= k < lens.len() && lens[k] != dim {
        Some(choose|k: int| 0 <= k < lens.len() && lens[k] != dim && forall|j: int| 0 <= j < k ==> lens[j] == dim)
    } else {
        None
    }
}

/// The message refusing a vector of length `got` in a store of dimension `dim`.
pub open spec fn dimension_message(dim: usize, got: usize) -> Seq<char> {
    "Vector dimension mismatch: expected "@ + decimal(dim as nat) + ", got "@ + decimal(got as nat)
}

impl VectorSlots {
    /// The ids of the slots, in slot order.
    pub closed spec fn view(&self) -> Seq<Seq<char>> {
        self.ids@.map_values(|s: String| s@)
    }

    /// No id stands in two slots.
    #[verifier::type_invariant]
    spec fn ids_distinct(self) -> bool {
        self.ids@.map_values(|s: String| s@).no_duplicates()
    }

    /// No slots.
    pub fn new() -> (s: Self)
        ensures
            s.view() == Seq::<Seq<char>>::empty(),
    {
        let s = VectorSlots { ids: Vec::new() };
        assert(s.ids@.map_values(|x: String| x@) =~= Seq::<Seq<char>>::empty());
        s
    }

    /// The number of vectors held.
    pub fn len(&self) -> (n: usize)
        ensures
            n == self.view().len(),
    {
        self.ids.len()
    }

    /// The slot holding `id`.
    pub fn slot_of(&self, id: &str) -> (r: Option<usize>)
        ensures
            match r {
                Some(i) => i < self.view().len() && self.view()[i as int] == id@,
                None => !self.view().contains(id@),
            },
    {
        let mut i: usize = 0;
        while i < self.ids.len()
            invariant
                i <= self.ids@.len(),
                forall|j: int| 0 <= j < i ==> self.ids@[j]@ != id@,
            decreases self.ids@.len() - i,
        {
            if str_eq(self.ids[i].as_str(), id) {
                return Some(i);
            }
            i = i + 1;
        }
        proof {
            if self.view().contains(id@) {
                let j = choose|j: int| 0 <= j < self.view().len() && self.view()[j] == id@;
                assert(self.ids@[j]@ == id@);
            }
        }
        None
    }

    /// Removes the record `id`: the last slot's record moves into its slot. `ID not found`
    /// when no slot holds it, and nothing changes.
    pub fn remove(&mut self, id: &str) -> (r: Result<(), String>)
        ensures
            match r {
                Ok(()) => exists|i: int| 0 <= i < old(self).view().len() && old(self).view()[i] == id@
                    && final(self).view() == ids_after_removing(old(self).view(), i),
                Err(m) => {
                    &&& !old(self).view().contains(id@)
                    &&& m@ == "ID not found"@
                    &&& final(self).view() == old(self).view()
                },
            },
    {
        proof {
            use_type_invariant(&*self);
        }
        let i = match self.slot_of(id) {
            Some(i) => i,
            None => {
                return Err(String::from_str("ID not found"));
            },
        };
        let ghost before = self.view();
        let mut all: Vec<String> = Vec::new();
        std::mem::swap(&mut all, &mut self.ids);
        let last = all.pop().unwrap();
        if i < all.len() {
            all.set(i, last);
        }
        proof {
            let after = ids_after_removing(before, i as int);
            assert(all@.map_values(|x: String| x@) =~= after);
            assert(after.no_duplicates()) by {
                assert forall|a: int, b: int| 0 <= a < after.len() && 0 <= b < after.len() && a != b implies after[a]
                    != after[b] by {
                    let sa = if a == i { before.len() - 1 } else { a };
                    let sb = if b == i { before.len() - 1 } else { b };
                    assert(after[a] == before[sa]);
                    assert(after[b] == before[sb]);
                }
            }
        }
        self.ids = all;
        Ok(())
    }

    /// Adds records, given as their ids and the lengths of their vectors, in turn: a record
    /// whose id is held already is skipped, any other takes the next slot. The first vector
    /// that is not `dim` long stops the call with the dimension error; the records before it
    /// stay added.
    pub fn add(&mut self, ids: &Vec<String>, lens: &Vec<usize>, dim: usize) -> (r: Result<(), String>)
        requires
            ids@.len() == lens@.len(),
        ensures
            match first_wrong_length(lens@, dim) {
                Some(k) => {
                    &&& final(self).view() == ids_after_adding(
                        old(self).view(),
                        ids@.map_values(|s: String| s@).take(k),
                    )
                    &&& r matches Err(m) && m@ == dimension_message(dim, lens@[k])
                },
                None => {
                    &&& final(self).view() == ids_after_adding(old(self).view(), ids@.map_values(|s: String| s@))
                    &&& r is Ok
                },
            },
    {
        let ghost nv = ids@.map_values(|s: String| s@);
        let mut k: usize = 0;
        while k < ids.len()
            invariant
                k <= ids@.len(),
                ids@.len() == lens@.len(),
                nv == ids@.map_values(|s: String| s@),
                self.view() == ids_after_adding(old(self).view(), nv.take(k as int)),
                forall|j: int| 0 <= j < k ==> lens@[j] == dim,
            decreases ids@.len() - k,
        {
            proof {
                use_type_invariant(&*self);
            }
            assert(nv.take(k + 1).drop_last() =~= nv.take(k as int));
            if lens[k] != dim {
                let m = String::from_str("Vector dimension mismatch: expected ").concat(usize_to_decimal(dim).as_str()).concat(
                    ", got ",
                ).concat(usize_to_decimal(lens[k]).as_str());
                proof {
                    let c = choose|c: int| 0 <= c < lens@.len() && lens@[c] != dim && forall|j: int| 0 <= j < c ==> lens@[j] == dim;
                    if c < k {
                    } else if c > k {
                        assert(lens@[k as int] == dim);
                    }
                    assert(first_wrong_length(lens@, dim) == Some(k as int));
                }
                return Err(m);
            }
            let held = self.slot_of(ids[k].as_str());
            if held.is_none() {
                let ghost before = self.view();
                let mut all: Vec<String> = Vec::new();
                std::mem::swap(&mut all, &mut self.ids);
                all.push(ids[k].clone());
                proof {
                    assert(all@.map_values(|x: String| x@) =~= before.push(nv[k as int]));
                    assert(before.push(nv[k as int]).no_duplicates()) by {
                        assert forall|a: int, b: int| 0 <= a < b < before.len() + 1 implies before.push(nv[k as int])[a]
                            != before.push(nv[k as int])[b] by {
                            if b == before.len() {
                                assert(before.contains(before[a]));
                            }
                        }
                    }
                }
                self.ids = all;
            }
            k = k + 1;
        }
        assert(nv.take(k as int) =~= nv);
        assert(first_wrong_length(lens@, dim) is None);
        Ok(())
    }
}

} // verus!
