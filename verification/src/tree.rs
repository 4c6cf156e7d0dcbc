//! The size-annotated tree that a scan produces.
use vstd::prelude::*;

use crate::sort::{SizeKeyed, sort_desc, sort_by_size_desc};

verus! {

/// What kind of file system object a node stands for.
#[derive(Debug, Clone, Copy, PartialEq, Eq, Structural)]
pub enum FileNodeType {
    Directory,
    File,
    Symlink,
    Junction,
}

/// One file system object with its size and, for a directory, its children.
#[derive(Debug)]
pub struct FileNode {
    pub name: String,
    pub path: String,
    pub size: u64,
    pub allocated: u64,
    pub node_type: FileNodeType,
    pub children: Vec<FileNode>,
    pub item_count: u64,
    pub last_modified: Option<u64>,
}

/// The result of a scan: the node of the scanned root.
#[derive(Debug)]
pub struct Tree {
    pub root: FileNode,
}

impl Clone for Tree {
    /// Copies the whole tree.
    fn clone(&self) -> (r: Tree)
        ensures
            same_tree(r.root, self.root),
    {
        Tree { root: clone_node(&self.root) }
    }
}

/// Two nodes that agree in every field, their children compared in the same
/// way, pairwise.
pub open spec fn same_tree(a: FileNode, b: FileNode) -> bool
    decreases a,
{
    &&& a.name == b.name
    &&& a.path == b.path
    &&& a.size == b.size
    &&& a.allocated == b.allocated
    &&& a.node_type == b.node_type
    &&& a.item_count == b.item_count
    &&& a.last_modified == b.last_modified
    &&& same_trees(a.children@, b.children@)
}

/// Two sequences of nodes of one length whose nodes are pairwise `same_tree`.
pub open spec fn same_trees(a: Seq<FileNode>, b: Seq<FileNode>) -> bool
    decreases a,
{
    &&& a.len() == b.len()
    &&& a.len() > 0 ==> same_tree(a[0], b[0]) && same_trees(a.drop_first(), b.drop_first())
}

proof fn lemma_same_trees_push(a: Seq<FileNode>, b: Seq<FileNode>, x: FileNode, y: FileNode)
    requires
        same_trees(a, b),
        same_tree(x, y),
    ensures
        same_trees(a.push(x), b.push(y)),
    decreases a.len(),
{
    if a.len() > 0 {
        lemma_same_trees_push(a.drop_first(), b.drop_first(), x, y);
        assert(a.push(x).drop_first() =~= a.drop_first().push(x));
        assert(b.push(y).drop_first() =~= b.drop_first().push(y));
    } else {
        assert(a.push(x).drop_first() =~= a);
        assert(b.push(y).drop_first() =~= b);
    }
}

/// Nodes that are `same_tree` have the same totals.
pub proof fn lemma_same_tree_totals(a: FileNode, b: FileNode)
    requires
        same_tree(a, b),
    ensures
        node_total_size(a) == node_total_size(b),
        node_total_items(a) == node_total_items(b),
    decreases a,
{
    lemma_same_trees_totals(a.children@, b.children@);
}

/// Sequences that are `same_trees` have the same totals.
pub proof fn lemma_same_trees_totals(a: Seq<FileNode>, b: Seq<FileNode>)
    requires
        same_trees(a, b),
    ensures
        nodes_total_size(a) == nodes_total_size(b),
        nodes_total_items(a) == nodes_total_items(b),
    decreases a,
{
    if a.len() > 0 {
        lemma_same_tree_totals(a[0], b[0]);
        lemma_same_trees_totals(a.drop_first(), b.drop_first());
    }
}

/// A copy of `n` with every child copied in turn.
fn clone_node(n: &FileNode) -> (r: FileNode)
    ensures
        same_tree(r, *n),
    decreases n,
{
    let mut children: Vec<FileNode> = Vec::new();
    let mut i: usize = 0;
    while i < n.children.len()
        invariant
            i <= n.children@.len(),
            same_trees(children@, n.children@.take(i as int)),
        decreases n.children@.len() - i,
    {
        let c = clone_node(&n.children[i]);
        proof {
            assert(n.children@.take(i + 1) =~= n.children@.take(i as int).push(n.children@[i as int]));
            lemma_same_trees_push(children@, n.children@.take(i as int), c, n.children@[i as int]);
        }
        children.push(c);
        i = i + 1;
    }
    proof {
        assert(n.children@.take(i as int) =~= n.children@);
    }
    FileNode {
        name: n.name.clone(),
        path: n.path.clone(),
        size: n.size,
        allocated: n.allocated,
        node_type: n.node_type,
        children,
        item_count: n.item_count,
        last_modified: n.last_modified,
    }
}

impl Clone for FileNode {
    /// Copies the node and everything below it.
    fn clone(&self) -> (r: FileNode)
        ensures
            same_tree(r, *self),
            node_total_size(r) == node_total_size(*self),
            node_total_items(r) == node_total_items(*self),
    {
        let r = clone_node(self);
        proof {
            lemma_same_tree_totals(r, *self);
        }
        r
    }
}

impl SizeKeyed for FileNode {
    open spec fn size_key(&self) -> u64 {
        self.size
    }

    fn key(&self) -> (r: u64) {
        self.size
    }
}

/// The size of a node counted from its leaves: a directory is the sum of its
/// children, any other node its own `size`.
pub open spec fn node_total_size(n: FileNode) -> int
    decreases n,
{
    if n.node_type == FileNodeType::Directory {
        nodes_total_size(n.children@)
    } else {
        n.size as int
    }
}

/// The sum of `node_total_size` over a sequence of nodes.
pub open spec fn nodes_total_size(s: Seq<FileNode>) -> int
    decreases s,
{
    if s.len() == 0 {
        0
    } else {
        node_total_size(s[0]) + nodes_total_size(s.drop_first())
    }
}

/// The number of items under a node counted from its leaves: a directory
/// counts itself and everything below it, any other node counts one.
pub open spec fn node_total_items(n: FileNode) -> int
    decreases n,
{
    if n.node_type == FileNodeType::Directory {
        nodes_total_items(n.children@) + 1
    } else {
        1
    }
}

/// The sum of `node_total_items` over a sequence of nodes.
pub open spec fn nodes_total_items(s: Seq<FileNode>) -> int
    decreases s,
{
    if s.len() == 0 {
        0
    } else {
        node_total_items(s[0]) + nodes_total_items(s.drop_first())
    }
}

/// The sum of the recorded `size` fields of a sequence of nodes.
pub open spec fn sum_sizes(s: Seq<FileNode>) -> int
    decreases s.len(),
{
    if s.len() == 0 {
        0
    } else {
        s[0].size + sum_sizes(s.drop_first())
    }
}

/// The sum of the recorded `item_count` fields of a sequence of nodes.
pub open spec fn sum_item_counts(s: Seq<FileNode>) -> int
    decreases s.len(),
{
    if s.len() == 0 {
        0
    } else {
        s[0].item_count + sum_item_counts(s.drop_first())
    }
}

/// A node whose recorded `size` and `item_count` agree with the totals
/// computed from its leaves.
pub open spec fn is_consistent(n: FileNode) -> bool {
    &&& n.size == node_total_size(n)
    &&& n.item_count == node_total_items(n)
}

proof fn lemma_totals_nonneg(n: FileNode)
    ensures
        node_total_size(n) >= 0,
        node_total_items(n) >= 1,
    decreases n,
{
    if n.node_type == FileNodeType::Directory {
        lemma_seq_totals_nonneg(n.children@);
    }
}

proof fn lemma_seq_totals_nonneg(s: Seq<FileNode>)
    ensures
        nodes_total_size(s) >= 0,
        nodes_total_items(s) >= 0,
    decreases s,
{
    if s.len() > 0 {
        lemma_totals_nonneg(s[0]);
        lemma_seq_totals_nonneg(s.drop_first());
    }
}

/// Appending a node adds its totals to the totals of a sequence.
pub proof fn lemma_totals_push(s: Seq<FileNode>, x: FileNode)
    ensures
        nodes_total_size(s.push(x)) == nodes_total_size(s) + node_total_size(x),
        nodes_total_items(s.push(x)) == nodes_total_items(s) + node_total_items(x),
        sum_sizes(s.push(x)) == sum_sizes(s) + x.size,
        sum_item_counts(s.push(x)) == sum_item_counts(s) + x.item_count,
    decreases s.len(),
{
    if s.len() > 0 {
        lemma_totals_push(s.drop_first(), x);
        assert(s.push(x).drop_first() =~= s.drop_first().push(x));
    } else {
        assert(s.push(x).drop_first() =~= s);
    }
}

/// A prefix of a sequence has totals no larger than the whole sequence.
proof fn lemma_totals_prefix(s: Seq<FileNode>, i: int)
    requires
        0 <= i < s.len(),
    ensures
        nodes_total_size(s.take(i + 1)) == nodes_total_size(s.take(i)) + node_total_size(s[i]),
        nodes_total_items(s.take(i + 1)) == nodes_total_items(s.take(i)) + node_total_items(
            s[i],
        ),
        nodes_total_size(s.take(i + 1)) <= nodes_total_size(s),
        nodes_total_items(s.take(i + 1)) <= nodes_total_items(s),
{
    assert(s.take(i + 1) =~= s.take(i).push(s[i]));
    lemma_totals_push(s.take(i), s[i]);
    lemma_totals_split(s, i + 1);
}

proof fn lemma_totals_split(s: Seq<FileNode>, k: int)
    requires
        0 <= k <= s.len(),
    ensures
        nodes_total_size(s.take(k)) <= nodes_total_size(s),
        nodes_total_items(s.take(k)) <= nodes_total_items(s),
    decreases s.len() - k,
{
    if k < s.len() {
        lemma_totals_split(s, k + 1);
        assert(s.take(k + 1) =~= s.take(k).push(s[k]));
        lemma_totals_push(s.take(k), s[k]);
        lemma_totals_nonneg(s[k]);
    } else {
        assert(s.take(k) =~= s);
    }
}

/// Inserting a node anywhere by the size order adds its totals.
proof fn lemma_totals_insert_desc(x: FileNode, t: Seq<FileNode>)
    ensures
        nodes_total_size(crate::sort::insert_desc(x, t)) == node_total_size(x) + nodes_total_size(t),
        nodes_total_items(crate::sort::insert_desc(x, t)) == node_total_items(x)
            + nodes_total_items(t),
        sum_sizes(crate::sort::insert_desc(x, t)) == x.size + sum_sizes(t),
        sum_item_counts(crate::sort::insert_desc(x, t)) == x.item_count + sum_item_counts(t),
    decreases t.len(),
{
    let r = crate::sort::insert_desc(x, t);
    if t.len() == 0 {
        assert(r.drop_first() =~= t);
    } else if t[0].size <= x.size {
        assert(r.drop_first() =~= t);
    } else {
        lemma_totals_insert_desc(x, t.drop_first());
        assert(r.drop_first() =~= crate::sort::insert_desc(x, t.drop_first()));
    }
}

/// Sorting children by size leaves the sums over them unchanged.
pub proof fn lemma_sort_keeps_totals(s: Seq<FileNode>)
    ensures
        nodes_total_size(sort_desc(s)) == nodes_total_size(s),
        nodes_total_items(sort_desc(s)) == nodes_total_items(s),
        sum_sizes(sort_desc(s)) == sum_sizes(s),
        sum_item_counts(sort_desc(s)) == sum_item_counts(s),
    decreases s.len(),
{
    if s.len() > 0 {
        lemma_sort_keeps_totals(s.drop_first());
        lemma_totals_insert_desc(s[0], sort_desc(s.drop_first()));
    }
}

impl FileNode {
    /// A new, empty directory; it counts itself as one item.
    pub fn directory(name: &str, path: &str) -> (r: FileNode)
        ensures
            r.name@ == name@,
            r.path@ == path@,
            r.size == 0,
            r.allocated == 0,
            r.node_type == FileNodeType::Directory,
            r.children@.len() == 0,
            r.item_count == 1,
            r.last_modified is None,
    {
        FileNode {
            name: name.to_owned(),
            path: path.to_owned(),
            size: 0,
            allocated: 0,
            node_type: FileNodeType::Directory,
            children: Vec::new(),
            item_count: 1,
            last_modified: None,
        }
    }

    /// A file of `size` bytes; its allocated size is taken to be its size.
    pub fn file(name: &str, path: &str, size: u64) -> (r: FileNode)
        ensures
            r.name@ == name@,
            r.path@ == path@,
            r.size == size,
            r.allocated == size,
            r.node_type == FileNodeType::File,
            r.children@.len() == 0,
            r.item_count == 1,
            r.last_modified is None,
    {
        FileNode {
            name: name.to_owned(),
            path: path.to_owned(),
            size,
            allocated: size,
            node_type: FileNodeType::File,
            children: Vec::new(),
            item_count: 1,
            last_modified: None,
        }
    }

    /// The total size below this node, summed from its leaves.
    pub fn total_size(&self) -> (r: u64)
        requires
            node_total_size(*self) <= u64::MAX,
        ensures
            r == node_total_size(*self),
        decreases self,
    {
        if self.node_type == FileNodeType::Directory {
            let mut sum: u64 = 0;
            let mut i: usize = 0;
            while i < self.children.len()
                invariant
                    self.node_type == FileNodeType::Directory,
                    node_total_size(*self) <= u64::MAX,
                    i <= self.children@.len(),
                    sum == nodes_total_size(self.children@.take(i as int)),
                decreases self.children@.len() - i,
            {
                proof {
                    lemma_totals_prefix(self.children@, i as int);
                    lemma_totals_nonneg(self.children@[i as int]);
                    lemma_seq_totals_nonneg(self.children@.take(i as int));
                }
                let c = self.children[i].total_size();
                sum = sum + c;
                i = i + 1;
            }
            proof {
                assert(self.children@.take(i as int) =~= self.children@);
            }
            sum
        } else {
            self.size
        }
    }

    /// The number of items at and below this node, counted from its leaves.
    pub fn total_items(&self) -> (r: u64)
        requires
            node_total_items(*self) <= u64::MAX,
        ensures
            r == node_total_items(*self),
        decreases self,
    {
        if self.node_type == FileNodeType::Directory {
            let mut sum: u64 = 0;
            let mut i: usize = 0;
            while i < self.children.len()
                invariant
                    self.node_type == FileNodeType::Directory,
                    node_total_items(*self) <= u64::MAX,
                    i <= self.children@.len(),
                    sum == nodes_total_items(self.children@.take(i as int)),
                decreases self.children@.len() - i,
            {
                proof {
                    lemma_totals_prefix(self.children@, i as int);
                    lemma_totals_nonneg(self.children@[i as int]);
                    lemma_seq_totals_nonneg(self.children@.take(i as int));
                }
                let c = self.children[i].total_items();
                sum = sum + c;
                i = i + 1;
            }
            proof {
                assert(self.children@.take(i as int) =~= self.children@);
            }
            sum + 1
        } else {
            1
        }
    }

    /// Adds `child` below this node and adds its size and item count to
    /// the node's own.
    pub fn add_child(&mut self, child: FileNode)
        requires
            old(self).size + child.size <= u64::MAX,
            old(self).item_count + child.item_count <= u64::MAX,
        ensures
            final(self).size == old(self).size + child.size,
            final(self).item_count == old(self).item_count + child.item_count,
            final(self).children@ == old(self).children@.push(child),
            final(self).name == old(self).name,
            final(self).path == old(self).path,
            final(self).allocated == old(self).allocated,
            final(self).node_type == old(self).node_type,
            final(self).last_modified == old(self).last_modified,
    {
        self.size = self.size + child.size;
        self.item_count = self.item_count + child.item_count;
        self.children.push(child);
    }

    /// Orders the children by size, largest first; children of equal size
    /// keep their order.
    pub fn sort_children(&mut self)
        ensures
            final(self).children@ == sort_desc(old(self).children@),
            final(self).name == old(self).name,
            final(self).path == old(self).path,
            final(self).size == old(self).size,
            final(self).allocated == old(self).allocated,
            final(self).node_type == old(self).node_type,
            final(self).item_count == old(self).item_count,
            final(self).last_modified == old(self).last_modified,
    {
        sort_by_size_desc(&mut self.children);
    }
}

/// A new directory is consistent with its (empty) contents.
pub proof fn lemma_directory_consistent(d: FileNode)
    requires
        d.node_type == FileNodeType::Directory,
        d.children@.len() == 0,
        d.size == 0,
        d.item_count == 1,
    ensures
        is_consistent(d),
        node_total_size(d) == 0,
        node_total_items(d) == 1,
{
}

/// A new file is consistent: its total size is its size and it is one item.
pub proof fn lemma_file_consistent(f: FileNode)
    requires
        f.node_type == FileNodeType::File,
        f.item_count == 1,
    ensures
        is_consistent(f),
        node_total_size(f) == f.size,
        node_total_items(f) == 1,
{
}

/// Adding a consistent child to a consistent directory, as `add_child`
/// does, keeps the directory consistent: its recorded size and item count
/// remain the totals over its leaves.
pub proof fn lemma_add_child_consistent(d: FileNode, child: FileNode, d2: FileNode)
    requires
        d.node_type == FileNodeType::Directory,
        is_consistent(d),
        is_consistent(child),
        d2.node_type == d.node_type,
        d2.size == d.size + child.size,
        d2.item_count == d.item_count + child.item_count,
        d2.children@ == d.children@.push(child),
    ensures
        is_consistent(d2),
{
    lemma_totals_push(d.children@, child);
}

/// Sorting the children of a node, as `sort_children` does, keeps its
/// totals and hence its consistency.
pub proof fn lemma_sort_children_consistent(d: FileNode, d2: FileNode)
    requires
        d2.node_type == d.node_type,
        d2.size == d.size,
        d2.item_count == d.item_count,
        d2.children@ == sort_desc(d.children@),
    ensures
        node_total_size(d2) == node_total_size(d),
        node_total_items(d2) == node_total_items(d),
        is_consistent(d) ==> is_consistent(d2),
{
    lemma_sort_keeps_totals(d.children@);
}

/// For consistent nodes, the recorded sizes and item counts add up to the
/// same sums as their totals counted from the leaves.
pub proof fn lemma_sums_match_totals(s: Seq<FileNode>)
    requires
        forall|i: int| 0 <= i < s.len() ==> is_consistent(#[trigger] s[i]),
    ensures
        sum_sizes(s) == nodes_total_size(s),
        sum_item_counts(s) == nodes_total_items(s),
    decreases s.len(),
{
    if s.len() > 0 {
        assert(is_consistent(s[0]));
        lemma_sums_match_totals(s.drop_first());
    }
}

/// A directory whose recorded size and item count are the sums over its
/// consistent children (plus itself, for the count) is consistent: its
/// recorded values are the totals counted from its leaves. A directory made
/// by `directory` and filled by `add_child` records exactly these sums.
pub proof fn lemma_directory_of_consistent_children(d: FileNode)
    requires
        d.node_type == FileNodeType::Directory,
        forall|i: int| 0 <= i < d.children@.len() ==> is_consistent(#[trigger] d.children@[i]),
        d.size == sum_sizes(d.children@),
        d.item_count == 1 + sum_item_counts(d.children@),
    ensures
        is_consistent(d),
        d.size == node_total_size(d),
{
    lemma_sums_match_totals(d.children@);
}

/// `add_child` keeps a directory's recorded size and item count equal to
/// the sums over its children.
pub proof fn lemma_add_child_sums(d: FileNode, child: FileNode, d2: FileNode)
    requires
        d.size == sum_sizes(d.children@),
        d.item_count == 1 + sum_item_counts(d.children@),
        d2.size == d.size + child.size,
        d2.item_count == d.item_count + child.item_count,
        d2.children@ == d.children@.push(child),
    ensures
        d2.size == sum_sizes(d2.children@),
        d2.item_count == 1 + sum_item_counts(d2.children@),
{
    lemma_totals_push(d.children@, child);
}

} // verus!
