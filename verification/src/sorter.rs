//! Ordering of a collected file list by descending size.

use vstd::prelude::*;
use vstd::seq_lib::group_to_multiset_ensures;
use vstd::seq_lib::to_multiset_insert;
use vstd::seq_lib::to_multiset_remove;
use vstd::multiset::group_multiset_axioms;
use crate::entry::FileInfo;

verus! {

broadcast use group_to_multiset_ensures, group_multiset_axioms;

/// Non-increasing by size.
pub open spec fn sorted_by_size_desc(s: Seq<FileInfo>) -> bool {
    forall|i: int, j: int| 0 <= i <= j < s.len() ==> s[i].size >= s[j].size
}

/// Reorders `files` in place into non-increasing size order.
///
/// The result holds the same entries (as a multiset) in an order whose sizes
/// never increase. The sort is stable: an already sorted list comes back
/// unchanged, so applying the sort twice gives the order of applying it
/// once.
pub fn sort_by_largest(files: &mut Vec<FileInfo>)
    ensures
        final(files)@.to_multiset() == old(files)@.to_multiset(),
        sorted_by_size_desc(final(files)@),
        sorted_by_size_desc(old(files)@) ==> final(files)@ == old(files)@,
{
    if files.len() <= 1 {
        return ;
    }
    let mut i: usize = 1;
    while i < files.len()
        invariant
            1 <= i <= files@.len(),
            files@.len() == old(files)@.len(),
            files@.to_multiset() == old(files)@.to_multiset(),
            sorted_by_size_desc(files@.take(i as int)),
            sorted_by_size_desc(old(files)@) ==> files@ == old(files)@,
        decreases files@.len() - i,
    {
        let mut j: usize = i;
        while j > 0 && files[j - 1].size < files[i].size
            invariant
                j <= i < files@.len(),
                forall|k: int| j <= k < i ==> (#[trigger] files@[k]).size < files@[i as int].size,
                sorted_by_size_desc(files@.take(i as int)),
                sorted_by_size_desc(old(files)@) ==> files@ == old(files)@,
            decreases j,
        {
            j = j - 1;
        }
        proof {
            if sorted_by_size_desc(old(files)@) && j < i {
                assert(files@[j as int].size < files@[i as int].size);
                assert(files@[j as int].size >= files@[i as int].size);
            }
        }
        let ghost before = files@;
        let moved = files.remove(i);
        files.insert(j, moved);
        proof {
            to_multiset_remove(before, i as int);
            to_multiset_insert(before.remove(i as int), j as int, moved);
            assert(before.contains(moved));
            assert(files@.to_multiset() =~= before.to_multiset());
            assert(files@.take(i as int + 1) =~= before.take(i as int).insert(j as int, moved));
            assert(sorted_by_size_desc(files@.take(i as int + 1))) by {
                let taken = files@.take(i as int + 1);
                assert forall|p: int, q: int| 0 <= p <= q < taken.len() implies taken[p].size
                    >= taken[q].size by {
                    if j > 0 {
                        assert(before.take(i as int)[j - 1].size >= moved.size);
                    }
                }
            }
            if sorted_by_size_desc(old(files)@) {
                assert(files@ =~= before);
            }
        }
        i = i + 1;
    }
    proof {
        assert(files@.take(files@.len() as int) =~= files@);
    }
}

} // verus!
