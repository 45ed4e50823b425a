//! The bounded depth-first walk and the scan orchestration.
//!
//! A scan enumerates a directory tree, collects one [`FileInfo`] per regular
//! file, keeps a running total of their sizes, and stops collecting once a
//! configured entry cap is reached, in which case the result is flagged as
//! `limited`. Directories are never emitted as entries; children that cannot
//! be inspected are skipped silently.
//!
//! The walk's decisions live in [`Walker`]: the caller enumerates the real
//! tree and feeds each observation in. [`walk_directory`] runs the same
//! decisions over an in-memory snapshot ([`FsNode`]), which pins down the
//! whole walk: which files are collected, in which order, and when the
//! `limited` flag is raised.

use vstd::prelude::*;
use vstd::string::StringExecFns;
use crate::entry::FileInfo;

verus! {

/// Entry cap applied by a scan when the caller does not choose one:
/// bounds latency and memory on huge trees.
pub const DEFAULT_MAX_FILES: usize = 50000;

/// Sum of the sizes of the listed entries.
pub open spec fn sum_sizes(files: Seq<FileInfo>) -> int
    decreases files.len(),
{
    if files.len() == 0 {
        0
    } else {
        files[0].size + sum_sizes(files.subrange(1, files.len() as int))
    }
}

proof fn lemma_sum_sizes_nonneg(files: Seq<FileInfo>)
    ensures
        sum_sizes(files) >= 0,
    decreases files.len(),
{
    if files.len() != 0 {
        lemma_sum_sizes_nonneg(files.subrange(1, files.len() as int));
    }
}

proof fn lemma_sum_sizes_concat(a: Seq<FileInfo>, b: Seq<FileInfo>)
    ensures
        sum_sizes(a + b) == sum_sizes(a) + sum_sizes(b),
    decreases a.len(),
{
    if a.len() == 0 {
        assert(a + b =~= b);
    } else {
        assert((a + b).subrange(1, (a + b).len() as int) =~= a.subrange(1, a.len() as int) + b);
        assert((a + b)[0] == a[0]);
        lemma_sum_sizes_concat(a.subrange(1, a.len() as int), b);
    }
}

proof fn lemma_sum_sizes_push(files: Seq<FileInfo>, info: FileInfo)
    ensures
        sum_sizes(files.push(info)) == sum_sizes(files) + info.size,
{
    assert(files.push(info) =~= files + seq![info]);
    lemma_sum_sizes_concat(files, seq![info]);
    assert(seq![info].subrange(1, 1) =~= Seq::<FileInfo>::empty());
    assert(sum_sizes(Seq::<FileInfo>::empty()) == 0);
    assert(sum_sizes(seq![info]) == info.size);
}

/// `s` cut to at most `n` entries, counted from the front.
pub open spec fn clipped(s: Seq<FileInfo>, n: int) -> Seq<FileInfo> {
    if s.len() <= n {
        s
    } else if n < 0 {
        Seq::empty()
    } else {
        s.take(n)
    }
}

proof fn lemma_clipped_concat(a: Seq<FileInfo>, b: Seq<FileInfo>, n: int)
    requires
        n >= 0,
    ensures
        clipped(a + b, n) == clipped(a, n) + clipped(b, n - clipped(a, n).len()),
{
    if a.len() <= n {
        if a.len() + b.len() <= n {
            assert(clipped(a + b, n) =~= clipped(a, n) + clipped(b, n - a.len() as int));
        } else {
            assert((a + b).take(n) =~= a + b.take(n - a.len() as int));
        }
    } else {
        assert((a + b).take(n) =~= a.take(n) + Seq::<FileInfo>::empty());
    }
}

proof fn lemma_sum_sizes_clipped(s: Seq<FileInfo>, n: int)
    ensures
        sum_sizes(clipped(s, n)) <= sum_sizes(s),
{
    if s.len() <= n {
    } else if n < 0 {
        lemma_sum_sizes_nonneg(s);
    } else {
        assert(s =~= s.take(n) + s.skip(n));
        lemma_sum_sizes_concat(s.take(n), s.skip(n));
        lemma_sum_sizes_nonneg(s.skip(n));
    }
}

/// State of one bounded walk: the entries collected so far, their total
/// size, the entry cap, and whether the cap cut the walk short.
pub struct Walker {
    pub files: Vec<FileInfo>,
    pub total_size: u64,
    pub limited: bool,
    pub max_files: usize,
}

/// The walk's decision on one enumerated child.
pub enum ChildStep {
    /// A regular file: appended to the collected entries.
    Recorded,
    /// A directory: the caller enumerates it next; nothing is emitted for it.
    Descend,
    /// The child could not be inspected: skipped silently.
    Skipped,
}

impl Walker {
    /// The walk's invariant: the running total is the sum of the collected
    /// sizes, the cap is respected, `limited` is raised only at the cap, and
    /// every collected entry is a well-formed non-directory.
    pub open spec fn wf(self) -> bool {
        &&& self.total_size as int == sum_sizes(self.files@)
        &&& self.files@.len() <= self.max_files
        &&& (self.limited ==> self.files@.len() == self.max_files)
        &&& forall|i: int|
            0 <= i < self.files@.len() ==> !(#[trigger] self.files@[i]).is_directory
                && self.files@[i].wf()
    }

    /// A fresh walk under the given entry cap.
    pub fn new(max_files: usize) -> (w: Walker)
        ensures
            w.wf(),
            w.files@ == Seq::<FileInfo>::empty(),
            w.total_size == 0,
            !w.limited,
            w.max_files == max_files,
    {
        Walker { files: Vec::new(), total_size: 0, limited: false, max_files }
    }

    /// The cap gate, checked when a directory is entered and before each of
    /// its children: once the cap is reached the walk is flagged as limited
    /// and descends no further, without raising an error.
    pub fn proceed(&mut self) -> (go: bool)
        requires
            old(self).wf(),
        ensures
            final(self).wf(),
            go == (old(self).files@.len() < old(self).max_files),
            final(self).files@ == old(self).files@,
            final(self).total_size == old(self).total_size,
            final(self).max_files == old(self).max_files,
            final(self).limited == (old(self).limited || !go),
    {
        if self.files.len() >= self.max_files {
            self.limited = true;
            false
        } else {
            true
        }
    }

    /// One enumerated child, as the caller inspected it, and the walk's
    /// decision on it: record a file, descend into a directory, or skip a
    /// child whose inspection failed.
    pub fn observe(&mut self, inspected: Result<FileInfo, String>) -> (step: ChildStep)
        requires
            old(self).wf(),
            old(self).files@.len() < old(self).max_files,
            match inspected {
                Ok(info) => !info.is_directory ==> info.wf() && old(self).total_size + info.size
                    <= u64::MAX,
                Err(_) => true,
            },
        ensures
            final(self).wf(),
            final(self).max_files == old(self).max_files,
            final(self).limited == old(self).limited,
            match inspected {
                Ok(info) => if info.is_directory {
                    step is Descend && final(self).files@ == old(self).files@ && final(self).total_size == old(self).total_size
                } else {
                    step is Recorded && final(self).files@ == old(self).files@.push(info)
                        && final(self).total_size == old(self).total_size + info.size
                },
                Err(_) => step is Skipped && final(self).files@ == old(self).files@ && final(self).total_size == old(self).total_size,
            },
    {
        match inspected {
            Ok(info) => {
                if info.is_directory {
                    ChildStep::Descend
                } else {
                    proof {
                        lemma_sum_sizes_push(self.files@, info);
                    }
                    self.total_size = self.total_size + info.size;
                    self.files.push(info);
                    ChildStep::Recorded
                }
            },
            Err(_) => ChildStep::Skipped,
        }
    }
}

/// An in-memory snapshot of one filesystem object, as a walk would observe
/// it: a regular file with its metadata, a directory with the children its
/// enumeration yields in order, or a child whose inspection fails.
pub enum FsNode {
    File(FileInfo),
    Dir(Vec<FsNode>),
    Unreadable,
}

/// The files one node contributes to a walk, in discovery order.
pub open spec fn node_files(node: FsNode) -> Seq<FileInfo>
    decreases node, 0int,
{
    match node {
        FsNode::File(info) => seq![info],
        FsNode::Dir(children) => files_of(children@),
        FsNode::Unreadable => Seq::empty(),
    }
}

/// The files an uncapped depth-first walk of `nodes` would collect, in
/// discovery order: regular files as they stand, directories flattened into
/// their own files, unreadable children skipped.
pub open spec fn files_of(nodes: Seq<FsNode>) -> Seq<FileInfo>
    decreases nodes, 1int,
{
    if nodes.len() == 0 {
        Seq::empty()
    } else {
        node_files(nodes[0]) + files_of(nodes.subrange(1, nodes.len() as int))
    }
}

/// Well-formedness of one snapshot node: file metadata carries the derived
/// extension and is not flagged as a directory.
pub open spec fn node_wf(node: FsNode) -> bool
    decreases node, 0int,
{
    match node {
        FsNode::File(info) => info.wf() && !info.is_directory,
        FsNode::Dir(children) => tree_wf(children@),
        FsNode::Unreadable => true,
    }
}

/// Well-formedness of a snapshot level: every node is well-formed.
pub open spec fn tree_wf(nodes: Seq<FsNode>) -> bool
    decreases nodes, 1int,
{
    if nodes.len() == 0 {
        true
    } else {
        node_wf(nodes[0]) && tree_wf(nodes.subrange(1, nodes.len() as int))
    }
}

proof fn lemma_tree_wf_skip(nodes: Seq<FsNode>, i: int)
    requires
        tree_wf(nodes),
        0 <= i <= nodes.len(),
    ensures
        tree_wf(nodes.skip(i)),
    decreases i,
{
    if i == 0 {
        assert(nodes.skip(0) =~= nodes);
    } else {
        assert(nodes.subrange(1, nodes.len() as int).skip(i - 1) =~= nodes.skip(i));
        lemma_tree_wf_skip(nodes.subrange(1, nodes.len() as int), i - 1);
    }
}

proof fn lemma_files_of_skip(nodes: Seq<FsNode>, i: int)
    requires
        0 <= i < nodes.len(),
    ensures
        files_of(nodes.skip(i)) == node_files(nodes[i]) + files_of(nodes.skip(i + 1)),
{
    let s = nodes.skip(i);
    assert(s.len() > 0);
    assert(s[0] == nodes[i]);
    assert(s.subrange(1, s.len() as int) =~= nodes.skip(i + 1));
}

/// Depth-first walk of one snapshot level under the walk's cap: mirrors the
/// walk over a real tree, and pins down exactly which files are collected
/// and when the `limited` flag is raised.
///
/// With `room` the number of entries still allowed below the cap on entry:
/// the walk appends exactly the first `room` eligible files (all of them if
/// fewer), raises `limited` whenever more than `room` were eligible, and
/// leaves `limited` clear whenever fewer than `room` were eligible.
pub fn walk_directory(nodes: &Vec<FsNode>, walk: &mut Walker)
    requires
        old(walk).wf(),
        tree_wf(nodes@),
        old(walk).total_size + sum_sizes(files_of(nodes@)) <= u64::MAX,
    ensures
        final(walk).wf(),
        final(walk).max_files == old(walk).max_files,
        final(walk).files@ == old(walk).files@ + clipped(
            files_of(nodes@),
            old(walk).max_files - old(walk).files@.len(),
        ),
        old(walk).limited ==> final(walk).limited,
        files_of(nodes@).len() > old(walk).max_files - old(walk).files@.len() ==> final(walk).limited,
        !old(walk).limited && files_of(nodes@).len() < old(walk).max_files - old(
            walk,
        ).files@.len() ==> !final(walk).limited,
    decreases nodes@, nodes@.len() + 1,
{
    if !walk.proceed() {
        proof {
            lemma_clipped_trivial(files_of(nodes@), 0);
        }
        return ;
    }
    proof {
        assert(nodes@.skip(0) =~= nodes@);
    }
    walk_from(nodes, 0, walk);
}

proof fn lemma_clipped_trivial(s: Seq<FileInfo>, n: int)
    requires
        n <= 0,
    ensures
        clipped(s, n) == Seq::<FileInfo>::empty(),
{
    if s.len() <= n {
        assert(s =~= Seq::<FileInfo>::empty());
    } else if n == 0 {
        assert(s.take(0) =~= Seq::<FileInfo>::empty());
    }
}

/// The walk of one level from child `i` on: checks the cap gate before each
/// child, records files, descends into directories, skips unreadable
/// children.
fn walk_from(nodes: &Vec<FsNode>, i: usize, walk: &mut Walker)
    requires
        i <= nodes@.len(),
        old(walk).wf(),
        tree_wf(nodes@),
        old(walk).total_size + sum_sizes(files_of(nodes@.skip(i as int))) <= u64::MAX,
    ensures
        final(walk).wf(),
        final(walk).max_files == old(walk).max_files,
        final(walk).files@ == old(walk).files@ + clipped(
            files_of(nodes@.skip(i as int)),
            old(walk).max_files - old(walk).files@.len(),
        ),
        old(walk).limited ==> final(walk).limited,
        files_of(nodes@.skip(i as int)).len() > old(walk).max_files - old(walk).files@.len()
            ==> final(walk).limited,
        !old(walk).limited && files_of(nodes@.skip(i as int)).len() < old(walk).max_files - old(
            walk,
        ).files@.len() ==> !final(walk).limited,
    decreases nodes@, nodes@.len() - i,
{
    let ghost rem = old(walk).max_files - old(walk).files@.len();
    if i == nodes.len() {
        proof {
            assert(nodes@.skip(i as int) =~= Seq::<FsNode>::empty());
            assert(clipped(Seq::<FileInfo>::empty(), rem) =~= Seq::<FileInfo>::empty());
            assert(walk.files@ =~= walk.files@ + Seq::<FileInfo>::empty());
        }
        return ;
    }
    if !walk.proceed() {
        proof {
            lemma_clipped_trivial(files_of(nodes@.skip(i as int)), 0);
            assert(walk.files@ =~= walk.files@ + Seq::<FileInfo>::empty());
            lemma_sum_sizes_nonneg(files_of(nodes@.skip(i as int)));
        }
        return ;
    }
    proof {
        lemma_files_of_skip(nodes@, i as int);
        lemma_tree_wf_skip(nodes@, i as int);
        assert(nodes@.skip(i as int)[0] == nodes@[i as int]);
        assert(tree_wf(nodes@.skip(i as int)));
        assert(node_wf(nodes@[i as int]));
        lemma_sum_sizes_concat(node_files(nodes@[i as int]), files_of(nodes@.skip(i as int + 1)));
        lemma_sum_sizes_nonneg(node_files(nodes@[i as int]));
        lemma_sum_sizes_nonneg(files_of(nodes@.skip(i as int + 1)));
    }
    let ghost head = node_files(nodes@[i as int]);
    let ghost tail = files_of(nodes@.skip(i as int + 1));
    match &nodes[i] {
        FsNode::File(info) => {
            let owned = info.clone();
            proof {
                assert(head =~= seq![*info]);
                assert(sum_sizes(head) == info.size) by {
                    assert(head.subrange(1, 1) =~= Seq::<FileInfo>::empty());
                    assert(sum_sizes(Seq::<FileInfo>::empty()) == 0);
                }
            }
            walk.observe(Ok(owned));
            proof {
                assert(clipped(head, rem) =~= head);
                lemma_clipped_concat(head, tail, rem);
                assert(old(walk).files@.push(*info) =~= old(walk).files@ + head);
            }
            walk_from(nodes, i + 1, walk);
            proof {
                assert((old(walk).files@ + head) + clipped(tail, rem - 1) =~= old(walk).files@ + (
                head + clipped(tail, rem - 1)));
            }
        },
        FsNode::Dir(children) => {
            proof {
                assert(head == files_of(children@));
                assert(decreases_to!(nodes@, nodes@.len() - i => nodes@[i as int], 0int));
            }
            walk_directory(children, walk);
            proof {
                lemma_clipped_concat(head, tail, rem);
                lemma_sum_sizes_clipped(head, rem);
                lemma_sum_sizes_concat(old(walk).files@, clipped(head, rem));
            }
            walk_from(nodes, i + 1, walk);
            proof {
                assert((old(walk).files@ + clipped(head, rem)) + clipped(
                    tail,
                    rem - clipped(head, rem).len(),
                ) =~= old(walk).files@ + (clipped(head, rem) + clipped(
                    tail,
                    rem - clipped(head, rem).len(),
                )));
            }
        },
        FsNode::Unreadable => {
            walk.observe(Err(String::new()));
            proof {
                assert(head =~= Seq::<FileInfo>::empty());
                assert(head + tail =~= tail);
            }
            walk_from(nodes, i + 1, walk);
        },
    }
}

/// The outcome of one scan: entry count and total size agree with the
/// collected list, which holds only regular files, in discovery order unless
/// re-sorted.
#[derive(Debug)]
pub struct ScanResult {
    pub total_files: usize,
    pub total_size: u64,
    pub files: Vec<FileInfo>,
    pub scan_path: String,
    pub limited: bool,
    pub max_files: usize,
}

impl ScanResult {
    /// The record's invariant: the count is the length of the list, the
    /// total is the sum of the listed sizes, the cap is respected, and no
    /// directory is listed.
    pub open spec fn consistent(self) -> bool {
        &&& self.total_files == self.files@.len()
        &&& self.total_size as int == sum_sizes(self.files@)
        &&& self.files@.len() <= self.max_files
        &&& forall|i: int|
            0 <= i < self.files@.len() ==> !(#[trigger] self.files@[i]).is_directory
                && self.files@[i].wf()
    }
}

proof fn lemma_sum_sizes_remove(s: Seq<FileInfo>, i: int)
    requires
        0 <= i < s.len(),
    ensures
        sum_sizes(s.remove(i)) == sum_sizes(s) - s[i].size,
{
    assert(s =~= s.take(i) + s.skip(i));
    assert(s.remove(i) =~= s.take(i) + s.skip(i + 1));
    lemma_sum_sizes_concat(s.take(i), s.skip(i));
    lemma_sum_sizes_concat(s.take(i), s.skip(i + 1));
    assert(s.skip(i).subrange(1, s.skip(i).len() as int) =~= s.skip(i + 1));
    assert(s.skip(i)[0] == s[i]);
}

/// The sum of the listed sizes depends only on which entries are listed,
/// not on their order.
pub proof fn lemma_sum_sizes_multiset(a: Seq<FileInfo>, b: Seq<FileInfo>)
    requires
        a.to_multiset() == b.to_multiset(),
    ensures
        sum_sizes(a) == sum_sizes(b),
    decreases a.len(),
{
    broadcast use vstd::seq_lib::group_to_multiset_ensures;
    broadcast use vstd::multiset::group_multiset_axioms;

    if a.len() == 0 {
        assert(b.to_multiset().len() == 0);
    } else {
        let x = a[0];
        assert(a.contains(x));
        assert(b.to_multiset().count(x) > 0);
        assert(b.contains(x));
        let i = choose|i: int| 0 <= i < b.len() && b[i] == x;
        vstd::seq_lib::to_multiset_remove(a, 0);
        vstd::seq_lib::to_multiset_remove(b, i);
        assert(a.remove(0).to_multiset() =~= b.remove(i).to_multiset());
        lemma_sum_sizes_multiset(a.remove(0), b.remove(i));
        lemma_sum_sizes_remove(a, 0);
        lemma_sum_sizes_remove(b, i);
    }
}

/// Reordering a result's entry list, as the sorter does, keeps the record
/// consistent: the count and the total depend only on which entries are
/// listed.
pub proof fn lemma_consistent_after_reorder(before: ScanResult, after: ScanResult)
    requires
        before.consistent(),
        after.files@.to_multiset() == before.files@.to_multiset(),
        after.total_files == before.total_files,
        after.total_size == before.total_size,
        after.max_files == before.max_files,
    ensures
        after.consistent(),
{
    broadcast use vstd::seq_lib::group_to_multiset_ensures;
    broadcast use vstd::multiset::group_multiset_axioms;

    vstd::seq_lib::to_multiset_len(after.files@);
    vstd::seq_lib::to_multiset_len(before.files@);
    assert(after.files@.len() == before.files@.len());
    lemma_sum_sizes_multiset(after.files@, before.files@);
    assert forall|i: int| 0 <= i < after.files@.len() implies !(#[trigger] after.files@[i]).is_directory
        && after.files@[i].wf() by {
        let x = after.files@[i];
        assert(after.files@.contains(x));
        assert(before.files@.to_multiset().count(x) > 0);
        assert(before.files@.contains(x));
        let j = choose|j: int| 0 <= j < before.files@.len() && before.files@[j] == x;
        assert(!before.files@[j].is_directory && before.files@[j].wf());
    }
}

/// Validates the requested path and assembles the final record from a
/// completed walk.
///
/// The caller reports whether the path exists and is a directory, and hands
/// in the walk's outcome: the walk state on success, or the walk's failure
/// when the top-level directory could not be enumerated. A missing path and
/// a non-directory path are rejected with descriptive messages before any
/// walk outcome is consulted.
pub fn scan_directory(
    path: &str,
    path_exists: bool,
    path_is_directory: bool,
    walked: Result<Walker, String>,
) -> (r: Result<ScanResult, String>)
    requires
        walked matches Ok(w) ==> w.wf(),
    ensures
        !path_exists ==> (r matches Err(m) && m@ == "Path does not exist: "@ + path@),
        path_exists && !path_is_directory ==> (r matches Err(m) && m@
            == "Path is not a directory: "@ + path@),
        path_exists && path_is_directory ==> match walked {
            Ok(w) => r matches Ok(res) && res.files@ == w.files@ && res.total_files
                == w.files@.len() && res.total_size == w.total_size && res.scan_path@ == path@
                && res.limited == w.limited && res.max_files == w.max_files && res.consistent(),
            Err(e) => r matches Err(m) && m == e,
        },
{
    if !path_exists {
        let mut m = "Path does not exist: ".to_owned();
        m.append(path);
        return Err(m);
    }
    if !path_is_directory {
        let mut m = "Path is not a directory: ".to_owned();
        m.append(path);
        return Err(m);
    }
    match walked {
        Ok(w) => {
            let total_files = w.files.len();
            Ok(
                ScanResult {
                    total_files,
                    total_size: w.total_size,
                    files: w.files,
                    scan_path: path.to_owned(),
                    limited: w.limited,
                    max_files: w.max_files,
                },
            )
        },
        Err(e) => Err(e),
    }
}

} // verus!
