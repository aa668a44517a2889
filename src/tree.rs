//! The aggregation state of a scan: one record per retained directory, with
//! its direct statistics, its child directories in discovery order, its
//! recorded files, and running totals over the whole subtree.

use crate::filter::{dir_pruned, file_passes, opt_text, should_include_file, should_skip_dir, FilterConfig, FilterView};
use crate::largest::{duplicate_files, offered, LargestFiles, ScanFile};
use crate::snapshot::{aggregated, insert_by_size, metric, nodes_sorted, stable_perm, sum_nodes, ScanNode, ScanSummary};
use vstd::prelude::*;

verus! {

/// One retained directory.
pub struct DirNode {
    pub path: String,
    pub name: String,
    /// Index of the parent directory; the root is its own parent.
    pub parent: usize,
    /// Indices of the child directories, in discovery order.
    pub children: Vec<usize>,
    /// Files recorded directly in this directory.
    pub files: Vec<ScanFile>,
    pub direct_bytes: u64,
    pub direct_files: u64,
    /// Bytes, files and directories of the whole subtree below.
    pub total_bytes: u64,
    pub total_files: u64,
    pub total_dirs: u64,
}

/// Total of the sizes of `files`.
pub open spec fn sum_sizes(files: Seq<ScanFile>) -> int
    decreases files.len(),
{
    if files.len() == 0 {
        0
    } else {
        sum_sizes(files.drop_last()) + files.last().size_bytes
    }
}

/// The subtree total of a node: bytes (0), files (1) or directories (2).
pub open spec fn tot(n: DirNode, m: int) -> int {
    if m == 0 {
        n.total_bytes as int
    } else if m == 1 {
        n.total_files as int
    } else {
        n.total_dirs as int
    }
}

/// What a node holds directly: bytes (0), files (1) or directories (2).
pub open spec fn direct(n: DirNode, m: int) -> int {
    if m == 0 {
        n.direct_bytes as int
    } else if m == 1 {
        n.direct_files as int
    } else {
        n.children@.len() as int
    }
}

/// Sum of the subtree totals of the nodes `ks`.
pub open spec fn sum_kids(d: Seq<DirNode>, ks: Seq<usize>, m: int) -> int
    decreases ks.len(),
{
    if ks.len() == 0 {
        0
    } else {
        sum_kids(d, ks.drop_last(), m) + tot(d[ks.last() as int], m)
    }
}

pub open spec fn no_dups(ks: Seq<usize>) -> bool {
    forall|a: int, b: int| 0 <= a < b < ks.len() ==> ks[a] != ks[b]
}

/// The parent and child links form a tree rooted at node 0, children
/// discovered after their parents.
#[verifier::opaque]
pub open spec fn tree_shaped(d: Seq<DirNode>) -> bool {
    &&& d.len() >= 1
    &&& forall|i: int| 0 < i < d.len() ==> (#[trigger] d[i]).parent < i
    &&& forall|i: int, k: int|
        0 <= i < d.len() && 0 <= k < d[i].children@.len() ==> {
            let c = #[trigger] d[i].children@[k];
            &&& i < c < d.len()
            &&& d[c as int].parent == i
        }
    &&& forall|i: int| 0 <= i < d.len() ==> no_dups(#[trigger] d[i].children@)
    &&& forall|i: int|
        0 < i < d.len() ==> d[(#[trigger] d[i]).parent as int].children@.contains(i as usize)
}

/// Each total is the direct amount plus the totals of the children, and
/// each direct amount matches the recorded files.
#[verifier::opaque]
pub open spec fn totals_consistent(d: Seq<DirNode>) -> bool {
    &&& forall|i: int, m: int|
        0 <= i < d.len() && 0 <= m < 3 ==> #[trigger] tot(d[i], m) == direct(d[i], m) + sum_kids(
            d,
            d[i].children@,
            m,
        )
    &&& forall|i: int, m: int| 0 <= i < d.len() && 0 <= m < 3 ==> #[trigger] tot(d[i], m) <= tot(d[0], m)
    &&& forall|i: int|
        0 <= i < d.len() ==> (#[trigger] d[i]).direct_bytes == sum_sizes(d[i].files@)
            && d[i].direct_files == d[i].files@.len()
}

/// `o` is a path of directories from the root downwards.
#[verifier::opaque]
pub open spec fn is_chain(d: Seq<DirNode>, o: Seq<usize>) -> bool {
    &&& o.len() >= 1
    &&& o[0] == 0
    &&& forall|j: int| 0 <= j < o.len() ==> (#[trigger] o[j]) < d.len()
    &&& forall|j: int| 0 < j < o.len() ==> o[j - 1] < #[trigger] o[j] && d[o[j] as int].parent == o[j - 1]
}

proof fn lemma_sum_same(d: Seq<DirNode>, d2: Seq<DirNode>, ks: Seq<usize>, m: int)
    requires
        forall|k: int| 0 <= k < ks.len() ==> tot(d2[#[trigger] ks[k] as int], m) == tot(d[ks[k] as int], m),
    ensures
        sum_kids(d2, ks, m) == sum_kids(d, ks, m),
    decreases ks.len(),
{
    if ks.len() > 0 {
        lemma_sum_same(d, d2, ks.drop_last(), m);
    }
}

proof fn lemma_sum_bump(d: Seq<DirNode>, d2: Seq<DirNode>, ks: Seq<usize>, m: int, x: usize, a: int)
    requires
        no_dups(ks),
        ks.contains(x),
        forall|k: int| 0 <= k < ks.len() && #[trigger] ks[k] != x ==> tot(d2[ks[k] as int], m) == tot(d[ks[k] as int], m),
        tot(d2[x as int], m) == tot(d[x as int], m) + a,
    ensures
        sum_kids(d2, ks, m) == sum_kids(d, ks, m) + a,
    decreases ks.len(),
{
    let init = ks.drop_last();
    if ks.last() == x {
        assert(!init.contains(x)) by {
            if init.contains(x) {
                let k = choose|k: int| 0 <= k < init.len() && init[k] == x;
                assert(ks[k] == ks[ks.len() - 1]);
            }
        }
        assert forall|k: int| 0 <= k < init.len() implies tot(d2[#[trigger] init[k] as int], m) == tot(d[init[k] as int], m) by {
            assert(init[k] == ks[k]);
        }
        lemma_sum_same(d, d2, init, m);
    } else {
        let k0 = choose|k: int| 0 <= k < ks.len() && ks[k] == x;
        assert(init[k0] == x);
        lemma_sum_bump(d, d2, init, m, x, a);
    }
}

proof fn lemma_sum_push(d: Seq<DirNode>, ks: Seq<usize>, q: usize, m: int)
    ensures
        sum_kids(d, ks.push(q), m) == sum_kids(d, ks, m) + tot(d[q as int], m),
{
    assert(ks.push(q).drop_last() =~= ks);
}

/// Only the chain's next element among the children of a chain node lies on
/// the chain; no other node has a chain element as a child.
proof fn lemma_chain_kids(d: Seq<DirNode>, o: Seq<usize>, i: int, k: int) -> (j: int)
    requires
        tree_shaped(d),
        is_chain(d, o),
        0 <= i < d.len(),
        0 <= k < d[i].children@.len(),
        o.contains(d[i].children@[k]),
    ensures
        0 < j < o.len() && o[j - 1] == i && o[j] == d[i].children@[k],
{
    reveal(tree_shaped);
    reveal(is_chain);
    let c = d[i].children@[k];
    let j = choose|j: int| 0 <= j < o.len() && o[j] == c;
    assert(d[c as int].parent == i);
    if j == 0 {
        assert(c > i);
    } else {
        assert(o[j - 1] == i);
    }
    j
}

proof fn lemma_chain_increasing(d: Seq<DirNode>, o: Seq<usize>, a: int, b: int)
    requires
        is_chain(d, o),
        0 <= a < b < o.len(),
    ensures
        o[a] < o[b],
    decreases b - a,
{
    reveal(is_chain);
    if b > a + 1 {
        lemma_chain_increasing(d, o, a, b - 1);
    }
    assert(o[b - 1] < o[b]);
}

/// How the totals of the nodes on a chain change: every total on the chain
/// grows by the given amounts, and nothing else changes.
pub open spec fn bumped(n: DirNode, b: u64, f: u64, k: u64) -> DirNode {
    DirNode {
        total_bytes: (n.total_bytes + b) as u64,
        total_files: (n.total_files + f) as u64,
        total_dirs: (n.total_dirs + k) as u64,
        ..n
    }
}

pub open spec fn amount(b: u64, f: u64, k: u64, m: int) -> int {
    if m == 0 {
        b as int
    } else if m == 1 {
        f as int
    } else {
        k as int
    }
}

/// The balance of totals holds at every node other than `p`, the chain's
/// last node, once the chain's totals have grown by `a`.
#[verifier::spinoff_prover]
#[verifier::rlimit(60)]
proof fn lemma_balance_off_tip(
    d: Seq<DirNode>,
    d2: Seq<DirNode>,
    o: Seq<usize>,
    a: int,
    i: int,
    m: int,
)
    requires
        tree_shaped(d),
        is_chain(d, o),
        d2.len() >= d.len(),
        d.len() <= usize::MAX,
        0 <= i < d.len(),
        i != o.last(),
        tot(d[i], m) == direct(d[i], m) + sum_kids(d, d[i].children@, m),
        d2[i].children@ == d[i].children@,
        direct(d2[i], m) == direct(d[i], m),
        o.contains(i as usize) ==> tot(d2[i], m) == tot(d[i], m) + a,
        !o.contains(i as usize) ==> tot(d2[i], m) == tot(d[i], m),
        forall|x: int|
            0 <= x < d.len() && !o.contains(x as usize) ==> #[trigger] tot(d2[x], m) == tot(d[x], m),
        forall|j: int| 0 <= j < o.len() ==> #[trigger] tot(d2[o[j] as int], m) == tot(d[o[j] as int], m) + a,
    ensures
        tot(d2[i], m) == direct(d2[i], m) + sum_kids(d2, d2[i].children@, m),
{
    let ks = d[i].children@;
    if o.contains(i as usize) {
        lemma_balance_on_chain(d, d2, o, a, i, m);
    } else {
        assert forall|x: int| 0 <= x < ks.len() implies tot(d2[#[trigger] ks[x] as int], m) == tot(
            d[ks[x] as int],
            m,
        ) by {
            reveal(tree_shaped);
            assert(ks[x] < d.len());
            if o.contains(ks[x]) {
                let j2 = lemma_chain_kids(d, o, i, x);
            }
        }
        lemma_sum_same(d, d2, ks, m);
    }
}

#[verifier::spinoff_prover]
#[verifier::rlimit(60)]
proof fn lemma_balance_on_chain(
    d: Seq<DirNode>,
    d2: Seq<DirNode>,
    o: Seq<usize>,
    a: int,
    i: int,
    m: int,
)
    requires
        tree_shaped(d),
        is_chain(d, o),
        d2.len() >= d.len(),
        d.len() <= usize::MAX,
        0 <= i < d.len(),
        i != o.last(),
        o.contains(i as usize),
        forall|x: int|
            0 <= x < d.len() && !o.contains(x as usize) ==> #[trigger] tot(d2[x], m) == tot(d[x], m),
        forall|j: int| 0 <= j < o.len() ==> #[trigger] tot(d2[o[j] as int], m) == tot(d[o[j] as int], m) + a,
    ensures
        sum_kids(d2, d[i].children@, m) == sum_kids(d, d[i].children@, m) + a,
{
    let ks = d[i].children@;
    let j = choose|j: int| 0 <= j < o.len() && o[j] == i;
    assert(o.last() == o[o.len() - 1]);
    assert(j < o.len() - 1);
    let nxt = o[j + 1];
    lemma_chain_step(d, o, j);
    lemma_in_parent_kids(d, nxt as int);
    assert(ks.contains(nxt));
    assert(tot(d2[nxt as int], m) == tot(d[nxt as int], m) + a);
    assert forall|x: int| 0 <= x < ks.len() && #[trigger] ks[x] != nxt implies tot(
        d2[ks[x] as int],
        m,
    ) == tot(d[ks[x] as int], m) by {
        lemma_kid_bounds(d, i, x);
        if o.contains(ks[x]) {
            let j2 = lemma_chain_kids(d, o, i, x);
            if j2 - 1 < j {
                lemma_chain_increasing(d, o, j2 - 1, j);
            } else if j2 - 1 > j {
                lemma_chain_increasing(d, o, j, j2 - 1);
            }
        }
    }
    lemma_no_dups(d, i);
    lemma_sum_bump(d, d2, ks, m, nxt, a);
}

proof fn lemma_no_dups(d: Seq<DirNode>, i: int)
    requires
        tree_shaped(d),
        0 <= i < d.len(),
    ensures
        no_dups(d[i].children@),
{
    reveal(tree_shaped);
}

proof fn lemma_chain_step(d: Seq<DirNode>, o: Seq<usize>, j: int)
    requires
        is_chain(d, o),
        0 <= j < o.len() - 1,
    ensures
        o[j] < o[j + 1] < d.len(),
        d[o[j + 1] as int].parent == o[j],
{
    reveal(is_chain);
    assert(o[j + 1] < d.len());
}

proof fn lemma_in_parent_kids(d: Seq<DirNode>, c: int)
    requires
        tree_shaped(d),
        0 < c < d.len(),
    ensures
        d[d[c].parent as int].children@.contains(c as usize),
        d[c].parent < c,
{
    reveal(tree_shaped);
}

proof fn lemma_kid_bounds(d: Seq<DirNode>, i: int, x: int)
    requires
        tree_shaped(d),
        0 <= i < d.len(),
        0 <= x < d[i].children@.len(),
    ensures
        i < d[i].children@[x] < d.len(),
        d[d[i].children@[x] as int].parent == i,
{
    reveal(tree_shaped);
}

/// No child of the chain's last node lies on the chain.
proof fn lemma_tip_kids_off_chain(d: Seq<DirNode>, o: Seq<usize>, x: int)
    requires
        tree_shaped(d),
        is_chain(d, o),
        0 <= x < d[o.last() as int].children@.len(),
    ensures
        !o.contains(d[o.last() as int].children@[x]),
{
    reveal(is_chain);
    if o.contains(d[o.last() as int].children@[x]) {
        let j2 = lemma_chain_kids(d, o, o.last() as int, x);
        if j2 - 1 < o.len() - 1 {
            lemma_chain_increasing(d, o, j2 - 1, o.len() - 1);
        }
    }
}

proof fn lemma_sum_nonneg(d: Seq<DirNode>, ks: Seq<usize>, m: int)
    ensures
        sum_kids(d, ks, m) >= 0,
    decreases ks.len(),
{
    if ks.len() > 0 {
        lemma_sum_nonneg(d, ks.drop_last(), m);
    }
}

/// The chain's totals grew by `a(m)`; off the chain nothing changed, and on
/// it everything but the totals is as before, except at the tip.
pub open spec fn chain_grown(
    d: Seq<DirNode>,
    d2: Seq<DirNode>,
    o: Seq<usize>,
    b: u64,
    f: u64,
    k: u64,
) -> bool {
    &&& d2.len() >= d.len()
    &&& forall|x: int| 0 <= x < d.len() && !o.contains(x as usize) ==> #[trigger] d2[x] == d[x]
    &&& forall|j: int|
        0 <= j < o.len() ==> {
            let x = #[trigger] o[j] as int;
            &&& d2[x].parent == d[x].parent
            &&& d2[x].total_bytes == d[x].total_bytes + b
            &&& d2[x].total_files == d[x].total_files + f
            &&& d2[x].total_dirs == d[x].total_dirs + k
        }
    &&& forall|j: int|
        0 <= j < o.len() - 1 ==> {
            let x = #[trigger] o[j] as int;
            &&& d2[x].children@ == d[x].children@
            &&& d2[x].files@ == d[x].files@
            &&& d2[x].direct_bytes == d[x].direct_bytes
            &&& d2[x].direct_files == d[x].direct_files
        }
}

#[verifier::spinoff_prover]
#[verifier::rlimit(60)]
proof fn lemma_off_tip_all(d: Seq<DirNode>, d2: Seq<DirNode>, o: Seq<usize>, b: u64, f: u64, k: u64)
    requires
        tree_shaped(d),
        totals_consistent(d),
        is_chain(d, o),
        d.len() <= usize::MAX,
        chain_grown(d, d2, o, b, f, k),
    ensures
        forall|i: int, m: int|
            0 <= i < d.len() && i != o.last() && 0 <= m < 3 ==> #[trigger] tot(d2[i], m) == direct(
                d2[i],
                m,
            ) + sum_kids(d2, d2[i].children@, m),
{
    reveal(totals_consistent);
    assert forall|i: int, m: int|
        0 <= i < d.len() && i != o.last() && 0 <= m < 3 implies #[trigger] tot(d2[i], m) == direct(
            d2[i],
            m,
        ) + sum_kids(d2, d2[i].children@, m) by {
        let a = amount(b, f, k, m);
        assert(tot(d[i], m) == direct(d[i], m) + sum_kids(d, d[i].children@, m));
        assert forall|j: int| 0 <= j < o.len() implies #[trigger] tot(d2[o[j] as int], m) == tot(
            d[o[j] as int],
            m,
        ) + a by {}
        if o.contains(i as usize) {
            let j = choose|j: int| 0 <= j < o.len() && o[j] == i;
            assert(o.last() == o[o.len() - 1]);
            assert(j < o.len() - 1);
        }
        lemma_balance_off_tip(d, d2, o, a, i, m);
    }
}

proof fn lemma_shape_kept(d: Seq<DirNode>, d2: Seq<DirNode>)
    requires
        tree_shaped(d),
        d2.len() == d.len(),
        forall|x: int|
            0 <= x < d.len() ==> (#[trigger] d2[x]).parent == d[x].parent && d2[x].children@
                == d[x].children@,
    ensures
        tree_shaped(d2),
{
    reveal(tree_shaped);
    assert forall|i: int| 0 < i < d2.len() implies d2[(#[trigger] d2[i]).parent as int].children@.contains(
        i as usize,
    ) by {
        assert(d[d[i].parent as int].children@.contains(i as usize));
    }
    assert forall|i: int, k: int|
        0 <= i < d2.len() && 0 <= k < d2[i].children@.len() implies {
        let c = #[trigger] d2[i].children@[k];
        &&& i < c < d2.len()
        &&& d2[c as int].parent == i
    } by {
        assert(d[i].children@[k] == d2[i].children@[k]);
    }
}

/// Recording a file in the chain's last directory keeps the state consistent.
#[verifier::spinoff_prover]
#[verifier::rlimit(80)]
proof fn lemma_after_file(d: Seq<DirNode>, d2: Seq<DirNode>, o: Seq<usize>, file: ScanFile)
    requires
        tree_shaped(d),
        totals_consistent(d),
        is_chain(d, o),
        d.len() <= usize::MAX,
        d2.len() == d.len(),
        chain_grown(d, d2, o, file.size_bytes, 1, 0),
        d2[o.last() as int].children@ == d[o.last() as int].children@,
        d2[o.last() as int].files@ == d[o.last() as int].files@.push(file),
        d2[o.last() as int].direct_bytes == d[o.last() as int].direct_bytes + file.size_bytes,
        d2[o.last() as int].direct_files == d[o.last() as int].direct_files + 1,
    ensures
        tree_shaped(d2),
        totals_consistent(d2),
        is_chain(d2, o),
{
    reveal(totals_consistent);
    reveal(is_chain);
    let p = o.last() as int;
    assert(o.last() == o[o.len() - 1]);
    assert(o.contains(o[0]));
    assert forall|x: int| 0 <= x < d.len() implies (#[trigger] d2[x]).parent == d[x].parent
        && d2[x].children@ == d[x].children@ by {
        if o.contains(x as usize) {
            let j = choose|j: int| 0 <= j < o.len() && o[j] == x;
            assert(o[j] == x);
        }
    }
    lemma_shape_kept(d, d2);
    lemma_off_tip_all(d, d2, o, file.size_bytes, 1, 0);
    let ks = d[p].children@;
    assert forall|m: int| 0 <= m < 3 implies #[trigger] tot(d2[p], m) == direct(d2[p], m) + sum_kids(
        d2,
        d2[p].children@,
        m,
    ) by {
        assert(tot(d[p], m) == direct(d[p], m) + sum_kids(d, ks, m));
        assert forall|x: int| 0 <= x < ks.len() implies tot(d2[#[trigger] ks[x] as int], m) == tot(
            d[ks[x] as int],
            m,
        ) by {
            reveal(tree_shaped);
            lemma_tip_kids_off_chain(d, o, x);
            assert(ks[x] < d.len());
        }
        lemma_sum_same(d, d2, ks, m);
    }
    assert forall|i: int, m: int| 0 <= i < d2.len() && 0 <= m < 3 implies #[trigger] tot(d2[i], m)
        <= tot(d2[0], m) by {
        assert(tot(d[i], m) <= tot(d[0], m));
        if o.contains(i as usize) {
            let j = choose|j: int| 0 <= j < o.len() && o[j] == i;
            assert(o[j] == i);
        }
    }
    assert forall|i: int| 0 <= i < d2.len() implies (#[trigger] d2[i]).direct_bytes == sum_sizes(
        d2[i].files@,
    ) && d2[i].direct_files == d2[i].files@.len() by {
        assert(d[i].direct_bytes == sum_sizes(d[i].files@));
        if i == p {
            assert(d2[p].files@.drop_last() =~= d[p].files@);
        } else if o.contains(i as usize) {
            let j = choose|j: int| 0 <= j < o.len() && o[j] == i;
            assert(o[j] == i);
        }
    }
}

/// Adding a new directory below the chain's last directory keeps the state
/// consistent, and the chain extended by it is a chain.
#[verifier::spinoff_prover]
#[verifier::rlimit(80)]
proof fn lemma_after_dir(d: Seq<DirNode>, d2: Seq<DirNode>, o: Seq<usize>)
    requires
        tree_shaped(d),
        totals_consistent(d),
        is_chain(d, o),
        d.len() < usize::MAX,
        d2.len() == d.len() + 1,
        chain_grown(d, d2, o, 0, 0, 1),
        d2[o.last() as int].children@ == d[o.last() as int].children@.push(d.len() as usize),
        d2[o.last() as int].files@ == d[o.last() as int].files@,
        d2[o.last() as int].direct_bytes == d[o.last() as int].direct_bytes,
        d2[o.last() as int].direct_files == d[o.last() as int].direct_files,
        d2[d.len() as int].parent == o.last(),
        d2[d.len() as int].children@.len() == 0,
        d2[d.len() as int].files@.len() == 0,
        d2[d.len() as int].direct_bytes == 0,
        d2[d.len() as int].direct_files == 0,
        d2[d.len() as int].total_bytes == 0,
        d2[d.len() as int].total_files == 0,
        d2[d.len() as int].total_dirs == 0,
    ensures
        tree_shaped(d2),
        totals_consistent(d2),
        is_chain(d2, o.push(d.len() as usize)),
{
    reveal(totals_consistent);
    reveal(tree_shaped);
    reveal(is_chain);
    let p = o.last() as int;
    let q = d.len() as int;
    assert(o.last() == o[o.len() - 1]);
    assert(o.contains(o[0]));
    assert forall|x: int| 0 <= x < d.len() && x != p implies (#[trigger] d2[x]).parent == d[x].parent
        && d2[x].children@ == d[x].children@ by {
        if o.contains(x as usize) {
            let j = choose|j: int| 0 <= j < o.len() && o[j] == x;
            assert(o[j] == x);
            assert(j < o.len() - 1);
        }
    }
    assert(d2[p].parent == d[p].parent);
    // shape
    assert forall|i: int| 0 < i < d2.len() implies d2[(#[trigger] d2[i]).parent as int].children@.contains(
        i as usize,
    ) by {
        if i == q {
            assert(d2[p].children@[d[p].children@.len() as int] == q);
        } else {
            assert(d[d[i].parent as int].children@.contains(i as usize));
            let par = d[i].parent as int;
            if par == p {
                let k = choose|k: int| 0 <= k < d[p].children@.len() && d[p].children@[k] == i;
                assert(d2[p].children@[k] == i);
            }
        }
    }
    assert forall|i: int, k: int|
        0 <= i < d2.len() && 0 <= k < d2[i].children@.len() implies {
        let c = #[trigger] d2[i].children@[k];
        &&& i < c < d2.len()
        &&& d2[c as int].parent == i
    } by {
        if i != p && i != q {
            assert(d[i].children@[k] == d2[i].children@[k]);
        } else if i == p && k < d[p].children@.len() {
            assert(d[p].children@[k] == d2[p].children@[k]);
        }
    }
    assert forall|i: int| 0 <= i < d2.len() implies no_dups(#[trigger] d2[i].children@) by {
        if i == p {
            let ks = d[p].children@;
            assert forall|a: int, b: int| 0 <= a < b < d2[p].children@.len() implies d2[p].children@[a]
                != d2[p].children@[b] by {
                assert(d2[p].children@[a] == ks[a]);
                if b < ks.len() {
                    assert(d2[p].children@[b] == ks[b]);
                } else {
                    assert(ks[a] < d.len());
                }
            }
        }
    }
    assert forall|i: int| 0 < i < d2.len() implies (#[trigger] d2[i]).parent < i by {
        if i < q {
            assert(d[i].parent < i);
        }
    }
    // balance
    lemma_off_tip_all(d, d2, o, 0, 0, 1);
    let ks = d[p].children@;
    assert forall|m: int| 0 <= m < 3 implies #[trigger] tot(d2[p], m) == direct(d2[p], m) + sum_kids(
        d2,
        d2[p].children@,
        m,
    ) by {
        assert(tot(d[p], m) == direct(d[p], m) + sum_kids(d, ks, m));
        assert forall|x: int| 0 <= x < ks.len() implies tot(d2[#[trigger] ks[x] as int], m) == tot(
            d[ks[x] as int],
            m,
        ) by {
            reveal(tree_shaped);
            lemma_tip_kids_off_chain(d, o, x);
            assert(ks[x] < d.len());
        }
        lemma_sum_same(d, d2, ks, m);
        lemma_sum_push(d2, ks, q as usize, m);
    }
    assert forall|m: int| 0 <= m < 3 implies #[trigger] tot(d2[q], m) == direct(d2[q], m) + sum_kids(
        d2,
        d2[q].children@,
        m,
    ) by {}
    assert forall|i: int, m: int| 0 <= i < d2.len() && 0 <= m < 3 implies #[trigger] tot(d2[i], m)
        <= tot(d2[0], m) by {
        if i < q {
            assert(tot(d[i], m) <= tot(d[0], m));
            if o.contains(i as usize) {
                let j = choose|j: int| 0 <= j < o.len() && o[j] == i;
                assert(o[j] == i);
            }
        }
    }
    assert forall|i: int| 0 <= i < d2.len() implies (#[trigger] d2[i]).direct_bytes == sum_sizes(
        d2[i].files@,
    ) && d2[i].direct_files == d2[i].files@.len() by {
        if i < q {
            assert(d[i].direct_bytes == sum_sizes(d[i].files@));
            if o.contains(i as usize) && i != p {
                let j = choose|j: int| 0 <= j < o.len() && o[j] == i;
                assert(o[j] == i);
            }
        }
    }
    let o2 = o.push(q as usize);
    assert forall|j: int| 0 < j < o2.len() implies o2[j - 1] < #[trigger] o2[j] && d2[o2[j] as int].parent
        == o2[j - 1] by {
        if j < o.len() {
            assert(o[j - 1] < o[j] && d[o[j] as int].parent == o[j - 1]);
        }
    }
}

/// The state after a file is recorded at the tip `p` of chain `o`: `d1` is
/// `d` with the chain's totals grown, `d2` is `d1` with the file added at `p`.
#[verifier::spinoff_prover]
#[verifier::rlimit(80)]
proof fn lemma_file_step(
    d: Seq<DirNode>,
    d1: Seq<DirNode>,
    d2: Seq<DirNode>,
    o: Seq<usize>,
    p: usize,
    entry: WalkEntry,
)
    requires
        tree_shaped(d),
        totals_consistent(d),
        is_chain(d, o),
        d.len() <= usize::MAX,
        p == o.last(),
        d[0].total_bytes + entry.size_bytes <= u64::MAX,
        d[0].total_files + 1 <= u64::MAX,
        d1.len() == d.len(),
        d2.len() == d.len(),
        forall|x: int|
            0 <= x < d.len() ==> #[trigger] d1[x] == if o.take(o.len() as int).contains(x as usize) {
                bumped(d[x], entry.size_bytes, 1, 0)
            } else {
                d[x]
            },
        forall|x: int| 0 <= x < d.len() && x != p ==> #[trigger] d2[x] == d1[x],
        d2[p as int].parent == d1[p as int].parent,
        d2[p as int].path == d1[p as int].path,
        d2[p as int].children@ == d1[p as int].children@,
        d2[p as int].total_bytes == d1[p as int].total_bytes,
        d2[p as int].total_files == d1[p as int].total_files,
        d2[p as int].total_dirs == d1[p as int].total_dirs,
        d2[p as int].files@ == d[p as int].files@.push(file_record(entry)),
        d2[p as int].direct_bytes == d[p as int].direct_bytes + entry.size_bytes,
        d2[p as int].direct_files == d[p as int].direct_files + 1,
    ensures
        tree_shaped(d2),
        totals_consistent(d2),
        is_chain(d2, o),
        forall|x: int|
            0 <= x < d.len() ==> (#[trigger] d2[x]).children@ == d[x].children@ && d2[x].path
                == d[x].path,
        forall|x: int| 0 <= x < d.len() && x != p ==> (#[trigger] d2[x]).files@ == d[x].files@,
        d2[0].total_bytes == d[0].total_bytes + entry.size_bytes,
        d2[0].total_files == d[0].total_files + 1,
        d2[0].total_dirs == d[0].total_dirs,
{
    reveal(totals_consistent);
    assert(o.take(o.len() as int) =~= o);
    reveal(is_chain);
    assert(o.last() == o[o.len() - 1]);
    assert(o.contains(p));
    assert forall|x: int| 0 <= x < d.len() && x != p implies #[trigger] d2[x] == d1[x] by {}
    assert forall|x: int| 0 <= x < d.len() && !o.contains(x as usize) implies #[trigger] d2[x]
        == d[x] by {
        assert(d1[x] == d[x]);
    }
    assert forall|j: int| 0 <= j < o.len() implies {
        let x = #[trigger] o[j] as int;
        &&& d2[x].parent == d[x].parent
        &&& d2[x].total_bytes == d[x].total_bytes + entry.size_bytes
        &&& d2[x].total_files == d[x].total_files + 1
        &&& d2[x].total_dirs == d[x].total_dirs + 0
    } by {
        assert(o[j] < d.len());
        assert(o.contains(o[j]));
        let x = o[j] as int;
        assert(tot(d[x], 0) <= tot(d[0], 0));
        assert(tot(d[x], 1) <= tot(d[0], 1));
        assert(d1[x] == bumped(d[x], entry.size_bytes, 1, 0));
    }
    assert forall|j: int| 0 <= j < o.len() - 1 implies {
        let x = #[trigger] o[j] as int;
        &&& d2[x].children@ == d[x].children@
        &&& d2[x].files@ == d[x].files@
        &&& d2[x].direct_bytes == d[x].direct_bytes
        &&& d2[x].direct_files == d[x].direct_files
    } by {
        assert(o[j] < d.len());
        assert(o.contains(o[j]));
        lemma_chain_increasing(d, o, j, o.len() - 1);
    }
    lemma_after_file(d, d2, o, file_record(entry));
    assert(o.contains(0usize)) by {
        assert(o[0] == 0);
    }
    assert forall|x: int| 0 <= x < d.len() implies (#[trigger] d2[x]).children@ == d[x].children@
        && d2[x].path == d[x].path by {
        if o.contains(x as usize) {
            let j = choose|j: int| 0 <= j < o.len() && o[j] == x;
            assert(o[j] == x);
        }
    }
    assert forall|x: int| 0 <= x < d.len() && x != p implies (#[trigger] d2[x]).files@ == d[x].files@ by {
        if o.contains(x as usize) {
            let j = choose|j: int| 0 <= j < o.len() && o[j] == x;
            assert(o[j] == x);
            assert(j < o.len() - 1);
        }
    }
}

/// The state after a directory is added below the tip `p` of chain `o`: `d1`
/// is `d` with the chain's directory totals grown, `d2` is `d1` with the new
/// node linked under `p` and appended.
#[verifier::spinoff_prover]
#[verifier::rlimit(80)]
proof fn lemma_dir_step(
    d: Seq<DirNode>,
    d1: Seq<DirNode>,
    d2: Seq<DirNode>,
    o: Seq<usize>,
    p: usize,
)
    requires
        tree_shaped(d),
        totals_consistent(d),
        is_chain(d, o),
        d.len() < usize::MAX,
        p == o.last(),
        d[0].total_dirs + 1 <= u64::MAX,
        d1.len() == d.len(),
        d2.len() == d.len() + 1,
        forall|x: int|
            0 <= x < d.len() ==> #[trigger] d1[x] == if o.take(o.len() as int).contains(x as usize) {
                bumped(d[x], 0, 0, 1)
            } else {
                d[x]
            },
        forall|x: int| 0 <= x < d.len() && x != p ==> #[trigger] d2[x] == d1[x],
        d2[p as int].parent == d1[p as int].parent,
        d2[p as int].path == d1[p as int].path,
        d2[p as int].files == d1[p as int].files,
        d2[p as int].direct_bytes == d1[p as int].direct_bytes,
        d2[p as int].direct_files == d1[p as int].direct_files,
        d2[p as int].total_bytes == d1[p as int].total_bytes,
        d2[p as int].total_files == d1[p as int].total_files,
        d2[p as int].total_dirs == d1[p as int].total_dirs,
        d2[p as int].children@ == d[p as int].children@.push(d.len() as usize),
        d2[d.len() as int].parent == p,
        d2[d.len() as int].children@.len() == 0,
        d2[d.len() as int].files@.len() == 0,
        d2[d.len() as int].direct_bytes == 0,
        d2[d.len() as int].direct_files == 0,
        d2[d.len() as int].total_bytes == 0,
        d2[d.len() as int].total_files == 0,
        d2[d.len() as int].total_dirs == 0,
    ensures
        tree_shaped(d2),
        totals_consistent(d2),
        is_chain(d2, o.push(d.len() as usize)),
        forall|x: int|
            0 <= x < d.len() && x != p ==> (#[trigger] d2[x]).children@ == d[x].children@,
        forall|x: int|
            0 <= x < d.len() ==> (#[trigger] d2[x]).files@ == d[x].files@ && d2[x].path == d[x].path,
        d2[0].total_bytes == d[0].total_bytes,
        d2[0].total_files == d[0].total_files,
        d2[0].total_dirs == d[0].total_dirs + 1,
{
    reveal(totals_consistent);
    reveal(is_chain);
    assert(o.take(o.len() as int) =~= o);
    assert(o.last() == o[o.len() - 1]);
    assert(o.contains(p));
    assert forall|x: int| 0 <= x < d.len() && !o.contains(x as usize) implies #[trigger] d2[x]
        == d[x] by {
        assert(d1[x] == d[x]);
    }
    assert forall|j: int| 0 <= j < o.len() implies {
        let x = #[trigger] o[j] as int;
        &&& d2[x].parent == d[x].parent
        &&& d2[x].total_bytes == d[x].total_bytes + 0
        &&& d2[x].total_files == d[x].total_files + 0
        &&& d2[x].total_dirs == d[x].total_dirs + 1
    } by {
        assert(o[j] < d.len());
        assert(o.contains(o[j]));
        let x = o[j] as int;
        assert(tot(d[x], 2) <= tot(d[0], 2));
        assert(d1[x] == bumped(d[x], 0, 0, 1));
    }
    assert forall|j: int| 0 <= j < o.len() - 1 implies {
        let x = #[trigger] o[j] as int;
        &&& d2[x].children@ == d[x].children@
        &&& d2[x].files@ == d[x].files@
        &&& d2[x].direct_bytes == d[x].direct_bytes
        &&& d2[x].direct_files == d[x].direct_files
    } by {
        assert(o[j] < d.len());
        assert(o.contains(o[j]));
        lemma_chain_increasing(d, o, j, o.len() - 1);
        assert(d1[o[j] as int] == bumped(d[o[j] as int], 0, 0, 1));
    }
    assert(d1[p as int] == bumped(d[p as int], 0, 0, 1));
    lemma_after_dir(d, d2, o);
    assert(o.contains(0usize)) by {
        assert(o[0] == 0);
    }
    assert forall|x: int| 0 <= x < d.len() implies (#[trigger] d2[x]).files@ == d[x].files@
        && d2[x].path == d[x].path by {
        if o.contains(x as usize) {
            assert(d1[x] == bumped(d[x], 0, 0, 1));
        }
    }
    assert forall|x: int| 0 <= x < d.len() && x != p implies (#[trigger] d2[x]).children@ == d[x].children@ by {
        if o.contains(x as usize) {
            assert(d1[x] == bumped(d[x], 0, 0, 1));
        }
    }
}

/// What a walk entry is.
#[derive(Clone, Copy, PartialEq, Eq, Structural, Debug)]
pub enum EntryKind {
    Dir,
    File,
    Other,
}

/// One entry of a directory walk, as plain values. The walk yields the root
/// at depth 0 first, and every directory before its contents.
pub struct WalkEntry {
    pub path: String,
    pub name: String,
    pub extension: Option<String>,
    pub depth: usize,
    pub kind: EntryKind,
    pub size_bytes: u64,
}

/// The accumulated state of one scan.
pub struct Aggregator {
    dirs: Vec<DirNode>,
    /// The retained directories from the root down to the one most recently
    /// entered: the ancestors of the next entry.
    open: Vec<usize>,
    largest: LargestFiles,
    processed: u64,
}

/// The directory that an entry at `depth` belongs to, when it is retained.
pub open spec fn parent_at(open: Seq<usize>, depth: usize) -> Option<usize> {
    if 1 <= depth <= open.len() {
        Some(open[depth - 1])
    } else {
        None
    }
}

/// The record kept of a file entry.
pub open spec fn file_record(e: WalkEntry) -> ScanFile {
    ScanFile { path: e.path, name: e.name, size_bytes: e.size_bytes }
}

impl Aggregator {
    pub closed spec fn nodes(&self) -> Seq<DirNode> {
        self.dirs@
    }

    pub closed spec fn chain(&self) -> Seq<usize> {
        self.open@
    }

    pub closed spec fn largest_files(&self) -> Seq<ScanFile> {
        self.largest@
    }

    /// The number of entries consumed.
    pub closed spec fn processed(&self) -> u64 {
        self.processed
    }

    pub closed spec fn wf(&self) -> bool {
        &&& tree_shaped(self.dirs@)
        &&& totals_consistent(self.dirs@)
        &&& is_chain(self.dirs@, self.open@)
        &&& self.largest.wf()
        &&& self.dirs@[0].total_files + self.dirs@[0].total_dirs <= self.processed
    }

    /// The number of entries consumed, for the caller.
    pub fn processed_count(&self) -> (r: u64)
        ensures
            r == self.processed(),
    {
        self.processed
    }

    /// The accumulated bytes of the whole scan.
    pub open spec fn total_bytes(&self) -> u64 {
        self.nodes()[0].total_bytes
    }

    /// A fresh state holding only the root directory.
    pub fn new(root_path: String, root_name: String) -> (r: Aggregator)
        ensures
            r.wf(),
            r.processed() == 0,
            r.nodes().len() == 1,
            r.nodes()[0].path == root_path,
            r.nodes()[0].name == root_name,
            r.nodes()[0].children@.len() == 0,
            r.nodes()[0].files@.len() == 0,
            r.chain() == seq![0usize],
            r.largest_files().len() == 0,
            r.total_bytes() == 0,
            r.nodes()[0].total_files == 0,
            r.nodes()[0].total_dirs == 0,
    {
        reveal(totals_consistent);
        reveal(tree_shaped);
        reveal(is_chain);
        let root = DirNode {
            path: root_path,
            name: root_name,
            parent: 0,
            children: Vec::new(),
            files: Vec::new(),
            direct_bytes: 0,
            direct_files: 0,
            total_bytes: 0,
            total_files: 0,
            total_dirs: 0,
        };
        let mut dirs: Vec<DirNode> = Vec::new();
        dirs.push(root);
        let mut open: Vec<usize> = Vec::new();
        open.push(0);
        let r = Aggregator { dirs, open, largest: LargestFiles::new(), processed: 0 };
        assert(sum_kids(r.dirs@, r.dirs@[0].children@, 0) == 0);
        assert(sum_kids(r.dirs@, r.dirs@[0].children@, 1) == 0);
        assert(sum_kids(r.dirs@, r.dirs@[0].children@, 2) == 0);
        r
    }

    /// Adds to the totals of the first `upto` directories of the chain.
    fn bump_chain(&mut self, upto: usize, b: u64, f: u64, k: u64)
        requires
            is_chain(old(self).dirs@, old(self).open@),
            totals_consistent(old(self).dirs@),
            1 <= upto <= old(self).open@.len(),
            old(self).dirs@[0].total_bytes + b <= u64::MAX,
            old(self).dirs@[0].total_files + f <= u64::MAX,
            old(self).dirs@[0].total_dirs + k <= u64::MAX,
        ensures
            final(self).open@ == old(self).open@,
            final(self).largest == old(self).largest,
            final(self).processed == old(self).processed,
            final(self).dirs@.len() == old(self).dirs@.len(),
            forall|x: int|
                0 <= x < old(self).dirs@.len() ==> #[trigger] final(self).dirs@[x] == if old(self).open@.take(upto as int).contains(x as usize) {
                    bumped(old(self).dirs@[x], b, f, k)
                } else {
                    old(self).dirs@[x]
                },
    {
        reveal(is_chain);
        let ghost d = self.dirs@;
        let ghost o = self.open@;
        let n = self.dirs.len();
        let mut j: usize = 0;
        while j < upto
            invariant
                n == d.len(),
                self.open@ == o,
                is_chain(d, o),
                totals_consistent(d),
                1 <= upto <= o.len(),
                j <= upto,
                d[0].total_bytes + b <= u64::MAX,
                d[0].total_files + f <= u64::MAX,
                d[0].total_dirs + k <= u64::MAX,
                self.largest == old(self).largest,
                self.processed == old(self).processed,
                self.dirs@.len() == d.len(),
                forall|x: int|
                    0 <= x < d.len() ==> #[trigger] self.dirs@[x] == if o.take(j as int).contains(
                        x as usize,
                    ) {
                        bumped(d[x], b, f, k)
                    } else {
                        d[x]
                    },
            decreases upto - j,
        {
            let idx = self.open[j];
            proof {
                reveal(is_chain);
                reveal(totals_consistent);
                assert(o[j as int] < d.len());
                if o.take(j as int).contains(idx) {
                    let t = choose|t: int| 0 <= t < j && o.take(j as int)[t] == idx;
                    lemma_chain_increasing(d, o, t, j as int);
                }
                assert(tot(d[idx as int], 0) <= tot(d[0], 0));
                assert(tot(d[idx as int], 1) <= tot(d[0], 1));
                assert(tot(d[idx as int], 2) <= tot(d[0], 2));
            }
            let ghost before = self.dirs@;
            let nb = self.dirs[idx].total_bytes + b;
            let nf = self.dirs[idx].total_files + f;
            let nk = self.dirs[idx].total_dirs + k;
            self.dirs[idx].total_bytes = nb;
            self.dirs[idx].total_files = nf;
            self.dirs[idx].total_dirs = nk;
            proof {
                assert forall|x: int| 0 <= x < d.len() implies #[trigger] self.dirs@[x] == if o.take(
                    j as int + 1,
                ).contains(x as usize) {
                    bumped(d[x], b, f, k)
                } else {
                    d[x]
                } by {
                    assert(o.take(j as int + 1) =~= o.take(j as int).push(idx));
                    assert(d.len() <= usize::MAX);
                    assert(o.take(j as int).push(idx).contains(x as usize) == (o.take(
                        j as int,
                    ).contains(x as usize) || idx == x as usize)) by {
                        if o.take(j as int).push(idx).contains(x as usize) {
                            let t = choose|t: int|
                                0 <= t < j + 1 && o.take(j as int).push(idx)[t] == x as usize;
                            if t < j {
                                assert(o.take(j as int)[t] == x as usize);
                            }
                        }
                        if o.take(j as int).contains(x as usize) {
                            let t = choose|t: int| 0 <= t < j && o.take(j as int)[t] == x as usize;
                            assert(o.take(j as int).push(idx)[t] == x as usize);
                        }
                        if idx == x as usize {
                            assert(o.take(j as int).push(idx)[j as int] == idx);
                        }
                    }
                    if x != idx as int {
                        assert(self.dirs@[x] == before[x]);
                    } else {
                        assert(before[x] == d[x]);
                        assert(self.dirs@[x] == bumped(d[x], b, f, k));
                    }
                }
            }
            j += 1;
        }
    }
}


impl Aggregator {
    /// The state is consistent apart from the bound of the entry count.
    closed spec fn inner_wf(&self) -> bool {
        &&& tree_shaped(self.dirs@)
        &&& totals_consistent(self.dirs@)
        &&& is_chain(self.dirs@, self.open@)
        &&& self.largest.wf()
    }

    /// Records a file in the directory at the end of the chain.
    #[verifier::spinoff_prover]
    #[verifier::rlimit(80)]
    fn add_file(&mut self, entry: &WalkEntry)
        requires
            old(self).inner_wf(),
            old(self).dirs@[0].total_files + old(self).dirs@[0].total_dirs < old(self).processed,
            old(self).dirs@[0].total_bytes + entry.size_bytes <= u64::MAX,
        ensures
            final(self).wf(),
            final(self).open@ == old(self).open@,
            final(self).processed == old(self).processed,
            final(self).dirs@.len() == old(self).dirs@.len(),
            final(self).dirs@[old(self).open@.last() as int].files@ == old(self).dirs@[old(self).open@.last() as int].files@.push(file_record(*entry)),
            forall|x: int|
                0 <= x < old(self).dirs@.len() ==> (#[trigger] final(self).dirs@[x]).children@ == old(self).dirs@[x].children@ && final(self).dirs@[x].path == old(self).dirs@[x].path,
            forall|x: int|
                0 <= x < old(self).dirs@.len() && x != old(self).open@.last() ==> (#[trigger] final(self).dirs@[x]).files@ == old(self).dirs@[x].files@,
            final(self).dirs@[0].total_bytes == old(self).dirs@[0].total_bytes + entry.size_bytes,
            final(self).dirs@[0].total_files == old(self).dirs@[0].total_files + 1,
            final(self).dirs@[0].total_dirs == old(self).dirs@[0].total_dirs,
            final(self).largest@ == offered(old(self).largest@, file_record(*entry)),
    {
        reveal(is_chain);
        let ghost d = self.dirs@;
        let ghost o = self.open@;
        let _n = self.dirs.len();
        let depth = self.open.len();
        let p = self.open[depth - 1];
        let file = ScanFile {
            path: entry.path.clone(),
            name: entry.name.clone(),
            size_bytes: entry.size_bytes,
        };
        assert(file == file_record(*entry));
        self.largest.update_largest_files(file.duplicate());
        proof {
            reveal(totals_consistent);
            assert(tot(d[0], 1) <= u64::MAX - 1);
            assert(o.take(depth as int) =~= o);
        }
        self.bump_chain(depth, entry.size_bytes, 1, 0);
        let ghost d1 = self.dirs@;
        proof {
            reveal(totals_consistent);
            assert(o.last() == o[o.len() - 1]);
            assert(o.contains(p)) by {
                assert(o[o.len() - 1] == p);
            }
            assert(tot(d[p as int], 0) == direct(d[p as int], 0) + sum_kids(d, d[p as int].children@, 0));
            assert(tot(d[p as int], 1) == direct(d[p as int], 1) + sum_kids(d, d[p as int].children@, 1));
            lemma_sum_nonneg(d, d[p as int].children@, 0);
            lemma_sum_nonneg(d, d[p as int].children@, 1);
            assert(tot(d[p as int], 0) <= tot(d[0], 0));
            assert(tot(d[p as int], 1) <= tot(d[0], 1));
        }
        let nb = self.dirs[p].direct_bytes + entry.size_bytes;
        let nf = self.dirs[p].direct_files + 1;
        self.dirs[p].files.push(file);
        self.dirs[p].direct_bytes = nb;
        self.dirs[p].direct_files = nf;
        proof {
            lemma_file_step(d, d1, self.dirs@, o, p, *entry);
        }
    }
}

impl Aggregator {
    /// Adds a retained directory below the one at the end of the chain, and
    /// extends the chain with it.
    #[verifier::spinoff_prover]
    #[verifier::rlimit(80)]
    fn add_dir(&mut self, entry: &WalkEntry)
        requires
            old(self).inner_wf(),
            old(self).dirs@[0].total_files + old(self).dirs@[0].total_dirs < old(self).processed,
            old(self).dirs@.len() < usize::MAX,
        ensures
            final(self).wf(),
            final(self).processed == old(self).processed,
            final(self).largest == old(self).largest,
            final(self).open@ == old(self).open@.push(old(self).dirs@.len() as usize),
            final(self).dirs@.len() == old(self).dirs@.len() + 1,
            final(self).dirs@.last().path == entry.path,
            final(self).dirs@.last().name == entry.name,
            final(self).dirs@.last().parent == old(self).open@.last(),
            final(self).dirs@.last().files@.len() == 0,
            final(self).dirs@.last().children@.len() == 0,
            final(self).dirs@[old(self).open@.last() as int].children@ == old(self).dirs@[old(self).open@.last() as int].children@.push(old(self).dirs@.len() as usize),
            forall|x: int|
                0 <= x < old(self).dirs@.len() && x != old(self).open@.last() ==> (#[trigger] final(self).dirs@[x]).children@ == old(self).dirs@[x].children@,
            forall|x: int|
                0 <= x < old(self).dirs@.len() ==> (#[trigger] final(self).dirs@[x]).files@ == old(self).dirs@[x].files@ && final(self).dirs@[x].path == old(self).dirs@[x].path,
            final(self).dirs@[0].total_bytes == old(self).dirs@[0].total_bytes,
            final(self).dirs@[0].total_files == old(self).dirs@[0].total_files,
            final(self).dirs@[0].total_dirs == old(self).dirs@[0].total_dirs + 1,
    {
        let ghost d = self.dirs@;
        let ghost o = self.open@;
        let n = self.dirs.len();
        let depth = self.open.len();
        proof {
            reveal(is_chain);
        }
        let p = self.open[depth - 1];
        proof {
            reveal(is_chain);
            reveal(totals_consistent);
            assert(o.take(depth as int) =~= o);
            assert(tot(d[0], 2) <= u64::MAX - 1);
        }
        self.bump_chain(depth, 0, 0, 1);
        let ghost d1 = self.dirs@;
        proof {
            reveal(is_chain);
            assert(p < d.len());
        }
        self.dirs[p].children.push(n);
        let node = DirNode {
            path: entry.path.clone(),
            name: entry.name.clone(),
            parent: p,
            children: Vec::new(),
            files: Vec::new(),
            direct_bytes: 0,
            direct_files: 0,
            total_bytes: 0,
            total_files: 0,
            total_dirs: 0,
        };
        self.dirs.push(node);
        self.open.push(n);
        proof {
            lemma_dir_step(d, d1, self.dirs@, o, p);
        }
    }
}

/// A directory entry that the scan keeps: below a retained directory and not
/// pruned by the filters.
pub open spec fn retained_dir(e: WalkEntry, open: Seq<usize>, f: FilterView) -> bool {
    e.kind == EntryKind::Dir && parent_at(open, e.depth) is Some && !dir_pruned(f, e.path@, e.name@)
}

/// A file entry that the scan records: below a retained directory and
/// passing the filters.
pub open spec fn recorded_file(e: WalkEntry, open: Seq<usize>, f: FilterView) -> bool {
    e.kind == EntryKind::File && parent_at(open, e.depth) is Some && file_passes(
        f,
        e.path@,
        e.name@,
        opt_text(e.extension),
        e.size_bytes,
    )
}

proof fn lemma_chain_prefix(d: Seq<DirNode>, o: Seq<usize>, k: int)
    requires
        is_chain(d, o),
        1 <= k <= o.len(),
    ensures
        is_chain(d, o.take(k)),
{
    reveal(is_chain);
}

/// Recording `e` keeps every count within its 64-bit range.
pub open spec fn record_ok(a: Aggregator, e: WalkEntry, f: FilterView) -> bool {
    &&& a.processed() < u64::MAX
    &&& !(recorded_file(e, a.chain(), f) && a.total_bytes() + e.size_bytes > u64::MAX)
    &&& !(retained_dir(e, a.chain(), f) && a.nodes().len() == usize::MAX)
}

/// The chain after an entry that records nothing: a directory entry cuts it
/// back to the directories above the entry; other entries leave it.
pub open spec fn chain_after_skip(e: WalkEntry, o: Seq<usize>) -> Seq<usize> {
    if e.kind == EntryKind::Dir && e.depth == 0 {
        o.take(1)
    } else if e.kind == EntryKind::Dir && e.depth <= o.len() {
        o.take(e.depth as int)
    } else {
        o
    }
}

/// How consuming `e` turns state `a` into state `b`.
pub open spec fn record_effect(a: Aggregator, b: Aggregator, e: WalkEntry, f: FilterView) -> bool {
    let o = a.chain();
    let d = a.nodes();
    let d2 = b.nodes();
    let n = d.len();
    let p = parent_at(o, e.depth)->Some_0;
    &&& b.processed() == a.processed() + 1
    &&& retained_dir(e, o, f) ==> {
        &&& d2.len() == n + 1
        &&& d2.last().path == e.path
        &&& d2.last().name == e.name
        &&& d2.last().parent == p
        &&& d2.last().files@.len() == 0
        &&& d2.last().children@.len() == 0
        &&& d2[p as int].children@ == d[p as int].children@.push(n as usize)
        &&& (forall|x: int| 0 <= x < n && x != p ==> (#[trigger] d2[x]).children@ == d[x].children@)
        &&& (forall|x: int| 0 <= x < n ==> (#[trigger] d2[x]).files@ == d[x].files@ && d2[x].path == d[x].path)
        &&& b.chain() == o.take(e.depth as int).push(n as usize)
        &&& d2[0].total_bytes == d[0].total_bytes
        &&& d2[0].total_files == d[0].total_files
        &&& d2[0].total_dirs == d[0].total_dirs + 1
        &&& b.largest_files() == a.largest_files()
    }
    &&& recorded_file(e, o, f) ==> {
        &&& d2.len() == n
        &&& d2[p as int].files@ == d[p as int].files@.push(file_record(e))
        &&& (forall|x: int| 0 <= x < n && x != p ==> (#[trigger] d2[x]).files@ == d[x].files@)
        &&& (forall|x: int| 0 <= x < n ==> (#[trigger] d2[x]).children@ == d[x].children@ && d2[x].path == d[x].path)
        &&& b.chain() == o.take(e.depth as int)
        &&& d2[0].total_bytes == d[0].total_bytes + e.size_bytes
        &&& d2[0].total_files == d[0].total_files + 1
        &&& d2[0].total_dirs == d[0].total_dirs
        &&& b.largest_files() == offered(a.largest_files(), file_record(e))
    }
    &&& !retained_dir(e, o, f) && !recorded_file(e, o, f) ==> {
        &&& d2 == d
        &&& b.largest_files() == a.largest_files()
        &&& b.chain() == chain_after_skip(e, o)
    }
}

impl Aggregator {
    /// Consumes one walk entry. A retained directory becomes a node under its
    /// parent; a recorded file is added to its directory, to the totals of
    /// every directory above it, and offered to the largest-files set. False,
    /// with nothing changed, when a count would leave its 64-bit range.
    pub fn record(&mut self, entry: &WalkEntry, filters: &FilterConfig) -> (ok: bool)
        requires
            old(self).wf(),
            filters.wf(),
        ensures
            final(self).wf(),
            !ok ==> *final(self) == *old(self),
            ok == record_ok(*old(self), *entry, filters@),
            ok ==> record_effect(*old(self), *final(self), *entry, filters@),
    {
        if self.processed == u64::MAX {
            return false;
        }
        let depth = entry.depth;
        let ghost o = self.open@;
        proof {
            reveal(is_chain);
        }
        match entry.kind {
            EntryKind::Dir => {
                if depth == 0 {
                    proof {
                        lemma_chain_prefix(self.dirs@, o, 1);
                    }
                    self.open.truncate(1);
                } else if depth <= self.open.len() {
                    proof {
                        lemma_chain_prefix(self.dirs@, o, depth as int);
                    }
                    if !should_skip_dir(false, &entry.path, &entry.name, filters) {
                        if self.dirs.len() == usize::MAX {
                            return false;
                        }
                        self.open.truncate(depth);
                        self.processed = self.processed + 1;
                        self.add_dir(entry);
                        return true;
                    }
                    self.open.truncate(depth);
                }
            },
            EntryKind::File => {
                if depth >= 1 && depth <= self.open.len() {
                    if should_include_file(
                        &entry.path,
                        &entry.name,
                        &entry.extension,
                        entry.size_bytes,
                        filters,
                    ) {
                        if self.dirs[0].total_bytes > u64::MAX - entry.size_bytes {
                            return false;
                        }
                        proof {
                            lemma_chain_prefix(self.dirs@, o, depth as int);
                        }
                        self.open.truncate(depth);
                        self.processed = self.processed + 1;
                        self.add_file(entry);
                        return true;
                    }
                }
            },
            EntryKind::Other => {},
        }
        self.processed = self.processed + 1;
        true
    }
}

/// The node of a snapshot describes directory `i` of `d`.
pub open spec fn describes(n: ScanNode, d: Seq<DirNode>, i: int) -> bool {
    &&& n.path == d[i].path
    &&& n.name == d[i].name
    &&& n.size_bytes == d[i].total_bytes
    &&& n.file_count == d[i].total_files
    &&& n.dir_count == d[i].total_dirs
    &&& n.files@ == d[i].files@
    &&& n.children@.len() == d[i].children@.len()
}

/// The snapshot node `n` describes directory `i`, and its children describe,
/// recursively and one to one, the children of directory `i`: largest first,
/// equal sizes in discovery order.
pub open spec fn represents(n: ScanNode, d: Seq<DirNode>, i: int) -> bool
    decreases n,
{
    &&& describes(n, d, i)
    &&& exists|perm: Seq<int>|
        #[trigger] stable_perm(perm, n.children@, d[i].children@.len() as int) && forall|k: int|
            0 <= k < n.children@.len() ==> represents(
                #[trigger] n.children@[k],
                d,
                d[i].children@[perm[k]] as int,
            )
}

impl Aggregator {
    /// The snapshot of directory `i` and everything below it.
    pub fn build_node(&self, i: usize) -> (r: ScanNode)
        requires
            self.wf(),
            i < self.nodes().len(),
        ensures
            aggregated(r),
            represents(r, self.nodes(), i as int),
        decreases self.nodes().len() - i,
    {
        let ghost d = self.dirs@;
        let ghost ks = d[i as int].children@;
        let kids = &self.dirs[i].children;
        let mut nodes: Vec<ScanNode> = Vec::new();
        let ghost mut perm: Seq<int> = Seq::empty();
        let mut k: usize = 0;
        while k < kids.len()
            invariant
                self.wf(),
                d == self.dirs@,
                i < d.len(),
                *kids == d[i as int].children,
                ks == kids@,
                k <= ks.len(),
                nodes@.len() == k,
                nodes_sorted(nodes@),
                forall|x: int| 0 <= x < nodes@.len() ==> aggregated(#[trigger] nodes@[x]),
                stable_perm(perm, nodes@, k as int),
                forall|y: int|
                    0 <= y < nodes@.len() ==> represents(#[trigger] nodes@[y], d, ks[perm[y]] as int),
                forall|m: int| 0 <= m < 3 ==> #[trigger] sum_nodes(nodes@, m) == sum_kids(d, ks.take(k as int), m),
            decreases ks.len() - k,
        {
            let c = kids[k];
            proof {
                lemma_kid_bounds(d, i as int, k as int);
            }
            let child = self.build_node(c);
            let ghost before = nodes@;
            let pos = insert_by_size(&mut nodes, child);
            proof {
                let p = pos as int;
                let old_perm = perm;
                perm = old_perm.insert(p, k as int);
                assert(stable_perm(perm, nodes@, k as int + 1)) by {
                    assert forall|a: int, b: int| 0 <= a < b < perm.len() implies perm[a] != perm[b] by {
                        let a2 = if a < p { a } else { a - 1 };
                        let b2 = if b < p { b } else { b - 1 };
                        if a != p && b != p {
                            assert(perm[a] == old_perm[a2]);
                            assert(perm[b] == old_perm[b2]);
                        } else if a == p {
                            assert(perm[b] == old_perm[b2]);
                        } else {
                            assert(perm[a] == old_perm[a2]);
                        }
                    }
                    assert forall|a: int, b: int|
                        0 <= a < b < perm.len() && nodes@[a].size_bytes == nodes@[b].size_bytes implies perm[a] < perm[b] by {
                        let a2 = if a < p { a } else { a - 1 };
                        let b2 = if b < p { b } else { b - 1 };
                        if a != p && b != p {
                            assert(perm[a] == old_perm[a2]);
                            assert(perm[b] == old_perm[b2]);
                            assert(nodes@[a] == before[a2]);
                            assert(nodes@[b] == before[b2]);
                        } else if a == p {
                            assert(nodes@[b] == before[b2]);
                        } else {
                            assert(perm[a] == old_perm[a2]);
                        }
                    }
                    assert forall|x: int| 0 <= x < perm.len() implies 0 <= #[trigger] perm[x] < k + 1 by {
                        if x < p {
                            assert(perm[x] == old_perm[x]);
                        } else if x > p {
                            assert(perm[x] == old_perm[x - 1]);
                        }
                    }
                }
                assert forall|x: int| 0 <= x < nodes@.len() implies aggregated(#[trigger] nodes@[x]) by {
                    if x < p {
                        assert(nodes@[x] == before[x]);
                    } else if x > p {
                        assert(nodes@[x] == before[x - 1]);
                    }
                }
                assert forall|y: int| 0 <= y < nodes@.len() implies represents(#[trigger] nodes@[y], d, ks[perm[y]] as int) by {
                    if y < p {
                        assert(nodes@[y] == before[y]);
                        assert(perm[y] == old_perm[y]);
                    } else if y > p {
                        assert(nodes@[y] == before[y - 1]);
                        assert(perm[y] == old_perm[y - 1]);
                    }
                }
                assert(ks.take(k as int + 1).drop_last() =~= ks.take(k as int));
                assert forall|m: int| 0 <= m < 3 implies #[trigger] sum_nodes(nodes@, m) == sum_kids(d, ks.take(k as int + 1), m) by {
                    assert(metric(child, m) == tot(d[c as int], m));
                }
            }
            k += 1;
        }
        proof {
            reveal(totals_consistent);
            assert(ks.take(ks.len() as int) =~= ks);
            assert(tot(d[i as int], 0) == direct(d[i as int], 0) + sum_kids(d, ks, 0));
            assert(tot(d[i as int], 1) == direct(d[i as int], 1) + sum_kids(d, ks, 1));
            assert(tot(d[i as int], 2) == direct(d[i as int], 2) + sum_kids(d, ks, 2));
            assert(sum_nodes(nodes@, 0) == sum_kids(d, ks, 0));
            assert(sum_nodes(nodes@, 1) == sum_kids(d, ks, 1));
            assert(sum_nodes(nodes@, 2) == sum_kids(d, ks, 2));
        }
        let ghost kids_nodes = nodes@;
        let node = ScanNode {
            path: self.dirs[i].path.clone(),
            name: self.dirs[i].name.clone(),
            size_bytes: self.dirs[i].total_bytes,
            file_count: self.dirs[i].total_files,
            dir_count: self.dirs[i].total_dirs,
            files: duplicate_files(&self.dirs[i].files),
            children: nodes,
        };
        assert(stable_perm(perm, node.children@, d[i as int].children@.len() as int));
        assert forall|y: int| 0 <= y < node.children@.len() implies represents(
            #[trigger] node.children@[y],
            d,
            d[i as int].children@[perm[y]] as int,
        ) by {
            assert(node.children@[y] == kids_nodes[y]);
        }
        node
    }

    /// The snapshot of the whole scan, with the largest files and the given
    /// elapsed time.
    pub fn build_summary(&self, duration_ms: u128) -> (r: ScanSummary)
        requires
            self.wf(),
        ensures
            aggregated(r.root),
            represents(r.root, self.nodes(), 0),
            r.total_bytes == r.root.size_bytes,
            r.file_count == r.root.file_count,
            r.dir_count == r.root.dir_count,
            r.largest_files@ == self.largest_files(),
            r.duration_ms == duration_ms,
    {
        proof {
            reveal(tree_shaped);
        }
        let root = self.build_node(0);
        ScanSummary {
            total_bytes: root.size_bytes,
            file_count: root.file_count,
            dir_count: root.dir_count,
            root,
            largest_files: self.largest.files(),
            duration_ms,
        }
    }
}

} // verus!
