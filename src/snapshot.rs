//! Immutable hierarchical snapshots of a scan.

use crate::largest::ScanFile;
use crate::tree::sum_sizes;
use vstd::prelude::*;

verus! {

/// One directory of a snapshot: its aggregate size and counts, the files
/// recorded directly in it, and its child directories, largest first.
pub struct ScanNode {
    pub path: String,
    pub name: String,
    pub size_bytes: u64,
    pub file_count: u64,
    pub dir_count: u64,
    pub files: Vec<ScanFile>,
    pub children: Vec<ScanNode>,
}

/// A complete report of a scan at one moment.
pub struct ScanSummary {
    pub root: ScanNode,
    pub total_bytes: u64,
    pub file_count: u64,
    pub dir_count: u64,
    pub largest_files: Vec<ScanFile>,
    pub duration_ms: u128,
}

/// Size (0), file count (1) or directory count (2) of a node.
pub open spec fn metric(n: ScanNode, m: int) -> int {
    if m == 0 {
        n.size_bytes as int
    } else if m == 1 {
        n.file_count as int
    } else {
        n.dir_count as int
    }
}

/// Sum of a metric over a sequence of nodes.
pub open spec fn sum_nodes(s: Seq<ScanNode>, m: int) -> int
    decreases s.len(),
{
    if s.len() == 0 {
        0
    } else {
        sum_nodes(s.drop_last(), m) + metric(s.last(), m)
    }
}

/// Sizes never increase along `s`.
pub open spec fn nodes_sorted(s: Seq<ScanNode>) -> bool {
    forall|a: int, b: int| 0 <= a < b < s.len() ==> s[a].size_bytes >= s[b].size_bytes
}

/// At this node and every node below it, the size is the bytes of its own
/// files plus the sizes of its children; the file count is its own files
/// plus the children's counts; the directory count is its children plus
/// their directory counts; and the children are sorted largest first.
pub open spec fn aggregated(n: ScanNode) -> bool
    decreases n,
{
    &&& n.size_bytes == sum_sizes(n.files@) + sum_nodes(n.children@, 0)
    &&& n.file_count == n.files@.len() + sum_nodes(n.children@, 1)
    &&& n.dir_count == n.children@.len() + sum_nodes(n.children@, 2)
    &&& nodes_sorted(n.children@)
    &&& forall|k: int|
        0 <= k < n.children@.len() ==> aggregated(
            #[trigger] n.children@[k],
        )
}

proof fn lemma_sum_insert(s: Seq<ScanNode>, p: int, x: ScanNode, m: int)
    requires
        0 <= p <= s.len(),
    ensures
        sum_nodes(s.insert(p, x), m) == sum_nodes(s, m) + metric(x, m),
    decreases s.len(),
{
    if p == s.len() {
        assert(s.insert(p, x).drop_last() =~= s);
    } else {
        assert(s.insert(p, x).drop_last() =~= s.drop_last().insert(p, x));
        lemma_sum_insert(s.drop_last(), p, x, m);
    }
}

/// `perm` maps the nodes one-to-one onto `m` positions, nodes of equal
/// size keeping the order of their positions.
pub open spec fn stable_perm(perm: Seq<int>, nodes: Seq<ScanNode>, m: int) -> bool {
    &&& perm.len() == nodes.len()
    &&& nodes.len() == m
    &&& forall|k: int| 0 <= k < perm.len() ==> 0 <= #[trigger] perm[k] < m
    &&& forall|a: int, b: int| 0 <= a < b < perm.len() ==> perm[a] != perm[b]
    &&& forall|a: int, b: int|
        0 <= a < b < perm.len() && nodes[a].size_bytes == nodes[b].size_bytes ==> perm[a] < perm[b]
}

/// Inserts `node` after every node at least as large, keeping the order.
/// Returns the position at which it was inserted.
pub fn insert_by_size(nodes: &mut Vec<ScanNode>, node: ScanNode) -> (p: usize)
    requires
        nodes_sorted(old(nodes)@),
    ensures
        nodes_sorted(final(nodes)@),
        p <= old(nodes)@.len(),
        final(nodes)@ == old(nodes)@.insert(p as int, node),
        forall|j: int| 0 <= j < p ==> old(nodes)@[j].size_bytes >= node.size_bytes,
        forall|j: int| p <= j < old(nodes)@.len() ==> old(nodes)@[j].size_bytes < node.size_bytes,
        forall|m: int| sum_nodes(#[trigger] final(nodes)@, m) == sum_nodes(old(nodes)@, m) + metric(node, m),
{
    let ghost s = nodes@;
    let len = nodes.len();
    let mut i: usize = 0;
    while i < len && nodes[i].size_bytes >= node.size_bytes
        invariant
            len == nodes@.len(),
            nodes@ == s,
            i <= len,
            forall|k: int| 0 <= k < i ==> nodes@[k].size_bytes >= node.size_bytes,
        decreases len - i,
    {
        i += 1;
    }
    let ghost ins = s.insert(i as int, node);
    nodes.insert(i, node);
    assert(nodes_sorted(ins)) by {
        assert forall|a: int, b: int| 0 <= a < b < ins.len() implies ins[a].size_bytes
            >= ins[b].size_bytes by {
            if a < i && b > i {
                assert(s[a].size_bytes >= node.size_bytes);
            }
            if a == i && b > i {
                assert(ins[b] == s[b - 1]);
                assert(s[i as int].size_bytes < node.size_bytes);
            }
        }
    }
    proof {
        assert forall|m: int| sum_nodes(#[trigger] nodes@, m) == sum_nodes(s, m) + metric(node, m) by {
            lemma_sum_insert(s, i as int, node, m);
        }
        assert forall|j: int| i <= j < s.len() implies s[j].size_bytes < node.size_bytes by {
            assert(s[i as int].size_bytes < node.size_bytes);
        }
    }
    i
}

} // verus!
