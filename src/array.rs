use vstd::prelude::*;

verus! {

/// No two entries are for the same index.
pub open spec fn distinct_indices<T>(e: Seq<(usize, T)>) -> bool {
    forall|a: int, b: int|
        0 <= a < e.len() && 0 <= b < e.len() && a != b ==> #[trigger] e[a].0 != #[trigger] e[b].0
}

/// Some entry is for index `i`.
pub open spec fn has_entry<T>(e: Seq<(usize, T)>, i: usize) -> bool {
    exists|a: int| 0 <= a < e.len() && #[trigger] e[a].0 == i
}

/// What index `i` holds: its entry's value, or the zero value where it has none.
pub open spec fn cell<T: crate::default::Default>(e: Seq<(usize, T)>, i: usize) -> T {
    if has_entry(e, i) {
        e[choose|a: int| 0 <= a < e.len() && #[trigger] e[a].0 == i].1
    } else {
        T::spec_default()
    }
}

/// The array in which every index holds the zero value.
pub open spec fn zero_map<T: crate::default::Default>() -> Map<usize, T> {
    Map::new(|i: usize| true, |i: usize| T::spec_default())
}

/// Where some entry is for `i`, index `i` holds that entry's value.
proof fn lemma_cell_at<T: crate::default::Default>(e: Seq<(usize, T)>, a: int)
    requires
        distinct_indices(e),
        0 <= a < e.len(),
    ensures
        cell(e, e[a].0) == e[a].1,
{
    assert(has_entry(e, e[a].0));
}

/// A total map from `usize` indices to values, with value semantics: every
/// index holds a value, those never written hold the zero value, and an update
/// makes a new array and leaves the old one as it was.
pub struct Array<T> {
    entries: Vec<(usize, T)>,
}

impl<T: crate::default::Default> View for Array<T> {
    type V = Map<usize, T>;

    closed spec fn view(&self) -> Map<usize, T> {
        Map::new(|i: usize| true, |i: usize| cell(self.entries@, i))
    }
}

impl<T: Copy + crate::default::Default> Array<T> {
    /// The entries are for distinct indices.
    pub closed spec fn wf(&self) -> bool {
        distinct_indices(self.entries@)
    }

    /// The array in which every index holds the zero value.
    pub fn zeroed() -> (r: Array<T>)
        ensures
            r.wf(),
            r@ == zero_map::<T>(),
    {
        let r = Array { entries: Vec::new() };
        proof {
            assert(r@ =~= zero_map::<T>());
        }
        r
    }

    /// The value at `idx`.
    pub fn lookup(&self, idx: usize) -> (r: T)
        requires
            self.wf(),
        ensures
            r == self@[idx],
    {
        let mut j: usize = 0;
        while j < self.entries.len()
            invariant
                self.wf(),
                j <= self.entries@.len(),
                forall|t: int| 0 <= t < j ==> #[trigger] self.entries@[t].0 != idx,
            decreases self.entries@.len() - j,
        {
            if self.entries[j].0 == idx {
                proof {
                    lemma_cell_at(self.entries@, j as int);
                }
                return self.entries[j].1;
            }
            j = j + 1;
        }
        T::default()
    }

    /// A new array that holds `x` at `idx` and agrees with `self` everywhere
    /// else. `self` is left as it was.
    pub fn update(&self, idx: usize, x: T) -> (r: Self)
        requires
            self.wf(),
        ensures
            r.wf(),
            r@ == self@.insert(idx, x),
    {
        let ghost e = self.entries@;
        let mut entries: Vec<(usize, T)> = Vec::new();
        let mut found = false;
        let mut j: usize = 0;
        while j < self.entries.len()
            invariant
                e == self.entries@,
                distinct_indices(e),
                j <= e.len(),
                entries@.len() == j,
                forall|t: int|
                    0 <= t < j ==> #[trigger] entries@[t] == if e[t].0 == idx {
                        (idx, x)
                    } else {
                        e[t]
                    },
                found <==> exists|t: int| 0 <= t < j && #[trigger] e[t].0 == idx,
            decreases e.len() - j,
        {
            let (k, v) = self.entries[j];
            if k == idx {
                entries.push((idx, x));
                found = true;
            } else {
                entries.push((k, v));
            }
            j = j + 1;
        }
        if !found {
            entries.push((idx, x));
        }
        let r = Array { entries };
        proof {
            let n = r.entries@;
            assert(forall|t: int| 0 <= t < e.len() ==> #[trigger] n[t].0 == e[t].0);
            assert(distinct_indices(n)) by {
                assert forall|a: int, b: int|
                    0 <= a < n.len() && 0 <= b < n.len() && a != b implies #[trigger] n[a].0
                    != #[trigger] n[b].0 by {
                    if a < e.len() && b < e.len() {
                        assert(e[a].0 != e[b].0);
                    } else if a < e.len() {
                        assert(n[a].0 == e[a].0);
                    } else {
                        assert(n[b].0 == e[b].0);
                    }
                }
            }
            assert forall|i: usize| #[trigger] r@[i] == self@.insert(idx, x)[i] by {
                if i == idx {
                    let a = if found {
                        choose|t: int| 0 <= t < e.len() && #[trigger] e[t].0 == idx
                    } else {
                        e.len() as int
                    };
                    lemma_cell_at(n, a);
                } else if has_entry(e, i) {
                    let a = choose|t: int| 0 <= t < e.len() && #[trigger] e[t].0 == i;
                    lemma_cell_at(e, a);
                    lemma_cell_at(n, a);
                } else {
                    assert(!has_entry(n, i)) by {
                        if has_entry(n, i) {
                            let a = choose|t: int| 0 <= t < n.len() && #[trigger] n[t].0 == i;
                            assert(a < e.len());
                            assert(e[a].0 == i);
                        }
                    }
                }
            }
            assert(r@ =~= self@.insert(idx, x));
        }
        r
    }
}

/// A copy is an array of its own: it reads as the array it was copied from, and later
/// updates of either make new arrays that leave the other alone.
impl<T: Copy + crate::default::Default> Clone for Array<T> {
    fn clone(&self) -> (r: Self)
        ensures
            r@ == self@,
            self.wf() ==> r.wf(),
    {
        let mut entries: Vec<(usize, T)> = Vec::new();
        let mut j: usize = 0;
        while j < self.entries.len()
            invariant
                j <= self.entries@.len(),
                entries@ == self.entries@.subrange(0, j as int),
            decreases self.entries@.len() - j,
        {
            let (k, v) = self.entries[j];
            entries.push((k, v));
            proof {
                assert(entries@ =~= self.entries@.subrange(0, j + 1));
            }
            j = j + 1;
        }
        proof {
            assert(entries@ =~= self.entries@);
        }
        let r = Array { entries };
        proof {
            assert(r@ =~= self@);
        }
        r
    }
}

/// Every index of a zeroed array holds the zero value.
pub proof fn lemma_zeroed_total<T: crate::default::Default>(i: usize)
    ensures
        zero_map::<T>().dom().contains(i),
        zero_map::<T>()[i] == T::spec_default(),
{
}

/// An array holds a value at every index, and an update changes the one index
/// it names: that index then holds the new value, every other one what it held.
pub proof fn lemma_update_local<T: Copy + crate::default::Default>(
    a: Array<T>,
    i: usize,
    j: usize,
    x: T,
)
    ensures
        a@.dom().contains(j),
        a@.insert(i, x)[i] == x,
        i != j ==> a@.insert(i, x)[j] == a@[j],
{
}

} // verus!
