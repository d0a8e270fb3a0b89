//! Duplicate detection over a fixed sequence of optional digits: which slots
//! hold a digit that some other slot holds as well. Empty slots never take
//! part in a duplicate group, and a whole group is reported, not just a pair.

use vstd::prelude::*;

verus! {

/// How many slots of `s` hold exactly the digit `v`.
pub open spec fn count_value(s: Seq<Option<u8>>, v: u8) -> nat
    decreases s.len(),
{
    if s.len() == 0 {
        0
    } else {
        count_value(s.drop_last(), v) + (if s.last() == Some(v) {
            1nat
        } else {
            0nat
        })
    }
}

/// Slot `i` belongs to a duplicate group: it holds a digit that appears in
/// more than one slot of `s`.
pub open spec fn duplicate_at(s: Seq<Option<u8>>, i: int) -> bool {
    &&& 0 <= i < s.len()
    &&& s[i] is Some
    &&& count_value(s, s[i]->0) >= 2
}

/// `dups` holds each duplicate slot of `s` exactly once, and nothing else.
pub open spec fn duplicate_indices_result(s: Seq<Option<u8>>, dups: Seq<usize>) -> bool {
    &&& dups.no_duplicates()
    &&& forall|k: usize| dups.contains(k) <==> duplicate_at(s, k as int)
}

/// Extending the counted prefix by one slot raises the count by one exactly
/// when the new slot holds the counted digit.
proof fn lemma_count_value_step(s: Seq<Option<u8>>, v: u8, i: int)
    requires
        0 <= i < s.len(),
    ensures
        count_value(s.subrange(0, i + 1), v) == count_value(s.subrange(0, i), v) + (if s[i]
            == Some(v) {
            1int
        } else {
            0int
        }),
{
    assert(s.subrange(0, i + 1).drop_last() =~= s.subrange(0, i));
    assert(s.subrange(0, i + 1).last() == s[i]);
}

/// How many slots of `cells` hold exactly the digit `v`.
fn count_matches(cells: &Vec<Option<u8>>, v: u8) -> (n: usize)
    ensures
        n == count_value(cells@, v),
{
    let mut n: usize = 0;
    let mut i: usize = 0;
    while i < cells.len()
        invariant
            i <= cells@.len(),
            n <= i,
            n == count_value(cells@.subrange(0, i as int), v),
        decreases cells@.len() - i,
    {
        proof {
            lemma_count_value_step(cells@, v, i as int);
        }
        if let Some(x) = cells[i] {
            if x == v {
                n = n + 1;
            }
        }
        i = i + 1;
    }
    proof {
        assert(cells@.subrange(0, cells@.len() as int) =~= cells@);
    }
    n
}

/// Every slot of `cells` whose digit appears in more than one slot, as a list
/// of slot indices without repetition. Whole groups are reported: if a digit
/// fills three slots, all three indices are returned.
pub fn keys_with_duplicate_values(cells: &Vec<Option<u8>>) -> (dups: Vec<usize>)
    ensures
        duplicate_indices_result(cells@, dups@),
{
    let mut dups: Vec<usize> = Vec::new();
    let mut i: usize = 0;
    while i < cells.len()
        invariant
            i <= cells@.len(),
            dups@.no_duplicates(),
            forall|k: usize| dups@.contains(k) <==> (k < i && duplicate_at(cells@, k as int)),
        decreases cells@.len() - i,
    {
        if let Some(v) = cells[i] {
            let n = count_matches(cells, v);
            if n >= 2 {
                let ghost old_dups = dups@;
                dups.push(i);
                proof {
                    assert(!old_dups.contains(i));
                    assert forall|j1: int, j2: int|
                        0 <= j1 < j2 < dups@.len() implies dups@[j1] != dups@[j2] by {
                        if j2 == dups@.len() - 1 {
                            assert(old_dups[j1] == dups@[j1]);
                            assert(old_dups.contains(old_dups[j1]));
                        }
                    }
                    assert forall|k: usize| dups@.contains(k) implies (k < i + 1 && duplicate_at(
                        cells@,
                        k as int,
                    )) by {
                        if k != i {
                            assert(old_dups.contains(k));
                        }
                    }
                    assert forall|k: usize| (k < i + 1 && duplicate_at(cells@, k as int)) implies dups@.contains(
                        k,
                    ) by {
                        if k < i {
                            assert(old_dups.contains(k));
                            assert(dups@[old_dups.index_of(k)] == k);
                        } else {
                            assert(dups@[dups@.len() - 1] == i);
                        }
                    }
                }
            }
        }
        i = i + 1;
    }
    dups
}

} // verus!
