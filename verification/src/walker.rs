//! The walker: traversal of a tree in a chosen order, and queries built on
//! the pre-order traversal.

use crate::ast::{ref_views, views, ASTNode, NodeKind, Tree};
use vstd::prelude::*;

verus! {

broadcast use vstd::function::group_function_axioms;

/// The greatest depth at which nodes are still visited. The root is at
/// depth zero; what lies deeper than this is passed over in silence.
pub const MAX_DEPTH: usize = 1000;

impl Tree {
    /// The nodes of the tree in visiting order, the tree itself standing at
    /// depth `depth`: before its children in pre-order, after them in
    /// post-order.
    pub open spec fn traversal(self, post_order: bool, depth: nat) -> Seq<Tree>
        decreases self, self.children().len() + 1,
    {
        if depth > MAX_DEPTH {
            Seq::empty()
        } else if post_order {
            self.traverse_children(self.children().len(), post_order, depth + 1) + seq![self]
        } else {
            seq![self] + self.traverse_children(self.children().len(), post_order, depth + 1)
        }
    }

    /// The traversals of the first `n` children, one after the other.
    pub open spec fn traverse_children(self, n: nat, post_order: bool, depth: nat) -> Seq<Tree>
        decreases self, n,
    {
        if n == 0 || n > self.children().len() {
            Seq::empty()
        } else {
            self.traverse_children((n - 1) as nat, post_order, depth) + self.children()[n
                - 1].traversal(post_order, depth)
        }
    }

    /// The nodes of the tree in document order.
    pub open spec fn preorder(self) -> Seq<Tree> {
        self.traversal(false, 0)
    }

    /// Whether the node's span holds the given place. A node without both
    /// positions holds none.
    pub open spec fn contains(self, line: usize, column: usize) -> bool {
        match (self.start_pos(), self.end_pos()) {
            (Some(start), Some(end)) => {
                &&& start.line <= line <= end.line
                &&& if line == start.line && line == end.line {
                    start.column <= column <= end.column
                } else if line == start.line {
                    column >= start.column
                } else if line == end.line {
                    column <= end.column
                } else {
                    true
                }
            },
            _ => false,
        }
    }
}

/// The test for nodes whose kind has the given name.
pub open spec fn has_kind_name(name: Seq<char>) -> spec_fn(Tree) -> bool {
    |t: Tree| t.kind_name() == name
}

/// A node passes the test for the name of a kind just when it is of that
/// kind.
pub proof fn lemma_has_kind_name(kind: NodeKind, node: Tree)
    ensures
        has_kind_name(kind.name())(node) <==> node.kind() == kind,
{
    kind.lemma_names_distinct(node.kind());
}

/// The nodes of `order` at the places where `keep` says so.
pub open spec fn kept<'a>(order: Seq<&'a ASTNode>, keep: Seq<bool>) -> Seq<&'a ASTNode>
    decreases order.len(),
{
    if order.len() == 0 || keep.len() != order.len() {
        Seq::empty()
    } else if keep.last() {
        kept(order.drop_last(), keep.drop_last()).push(order.last())
    } else {
        kept(order.drop_last(), keep.drop_last())
    }
}

/// A counter raised by `by`, which stops at the largest value it can hold.
pub open spec fn raised(counter: nat, by: nat) -> nat {
    if counter + by > usize::MAX {
        usize::MAX as nat
    } else {
        counter + by
    }
}

/// Whether `found` is the last node of `order` that holds the given place.
pub open spec fn is_last_containing(
    order: Seq<Tree>,
    line: usize,
    column: usize,
    found: Option<Tree>,
) -> bool {
    match found {
        Some(node) => exists|i: int|
            {
                &&& 0 <= i < order.len()
                &&& #[trigger] order[i] == node
                &&& node.contains(line, column)
                &&& forall|j: int|
                    i < j < order.len() ==> !(#[trigger] order[j]).contains(line, column)
            },
        None => forall|j: int|
            0 <= j < order.len() ==> !(#[trigger] order[j]).contains(line, column),
    }
}

/// Appends to `out` the nodes under `node` in visiting order, `node` standing
/// at depth `depth`.
fn visit_internal<'a>(node: &'a ASTNode, post_order: bool, depth: usize, out: &mut Vec<&'a ASTNode>)
    requires
        depth <= MAX_DEPTH + 1,
    ensures
        ref_views(final(out)@) == ref_views(old(out)@) + node@.traversal(post_order, depth as nat),
    decreases node,
{
    if depth > MAX_DEPTH {
        return ;
    }
    let ghost before = ref_views(out@);
    let ghost head = if post_order {
        Seq::<Tree>::empty()
    } else {
        seq![node@]
    };
    if !post_order {
        out.push(node);
    }
    let kids = node.children();
    let mut i: usize = 0;
    while i < kids.len()
        invariant
            i <= kids.len(),
            depth <= MAX_DEPTH,
            kids@ == node.child_nodes(),
            views(kids@) == node@.children(),
            ref_views(out@) == before + head + node@.traverse_children(
                i as nat,
                post_order,
                (depth + 1) as nat,
            ),
        decreases kids.len() - i,
    {
        visit_internal(&kids[i], post_order, depth + 1, out);
        i += 1;
    }
    let ghost below = node@.traverse_children(
        node@.children().len(),
        post_order,
        (depth + 1) as nat,
    );
    if post_order {
        out.push(node);
        assert(ref_views(out@) =~= (before + head + below).push(node@));
    }
}

/// The nodes under `node` in visiting order, down to the greatest depth:
/// each node once, before its children, or after them where `post_order` is
/// set. This is the order in which `ASTWalker::visit` calls its visitor.
pub fn nodes_in_order<'a>(node: &'a ASTNode, post_order: bool) -> (order: Vec<&'a ASTNode>)
    ensures
        ref_views(order@) == node@.traversal(post_order, 0),
        order@.len() == node@.traversal(post_order, 0).len(),
{
    let mut order: Vec<&'a ASTNode> = Vec::new();
    assert(ref_views(order@) =~= Seq::empty());
    visit_internal(node, post_order, 0, &mut order);
    assert(ref_views(order@) =~= node@.traversal(post_order, 0));
    assert(ref_views(order@).len() == order@.len());
    order
}

/// A walker over one tree. It counts the nodes it has visited since it was
/// made or last reset.
pub struct ASTWalker<'a> {
    ast: &'a ASTNode,
    nodes_visited: usize,
}

impl<'a> ASTWalker<'a> {
    /// The tree that the walker walks.
    pub closed spec fn tree(&self) -> Tree {
        self.ast@
    }

    /// The number of nodes visited so far.
    pub closed spec fn visited(&self) -> nat {
        self.nodes_visited as nat
    }

    /// What a walk over `order` leaves of the walker: the same tree, and the
    /// counter raised by the number of nodes.
    pub open spec fn after_walk(&self, before: &Self, nodes: nat) -> bool {
        self.tree() == before.tree() && self.visited() == raised(before.visited(), nodes)
    }

    /// A walker over the tree that has visited nothing yet.
    pub fn new(ast: &'a ASTNode) -> (walker: Self)
        ensures
            walker.tree() == ast@,
            walker.visited() == 0,
    {
        ASTWalker { ast, nodes_visited: 0 }
    }

    /// The nodes of the walker's tree in document order; the counter is
    /// raised by their number.
    fn walk_all(&mut self) -> (order: Vec<&'a ASTNode>)
        ensures
            ref_views(order@) == old(self).tree().preorder(),
            final(self).after_walk(old(self), order@.len()),
    {
        let order = nodes_in_order(self.ast, false);
        self.nodes_visited = self.nodes_visited.saturating_add(order.len());
        order
    }

    /// Visits every node under `node` once, down to the greatest depth:
    /// each node before its children, or after them where `post_order` is
    /// set. The visitor is called once for each node of `nodes_in_order`, in
    /// that order; the counter is raised by their number.
    pub fn visit<F>(&mut self, node: &'a ASTNode, mut visitor_func: F, post_order: bool) where
        F: FnMut(&'a ASTNode),

        requires
            forall|n: &'a ASTNode|
                node@.traversal(post_order, 0).contains(n@) ==> call_requires(visitor_func, (n,)),
        ensures
            exists|order: Seq<&'a ASTNode>|
                {
                    &&& ref_views(order) == node@.traversal(post_order, 0)
                    &&& forall|i: int|
                        0 <= i < order.len() ==> call_ensures(
                            visitor_func,
                            (#[trigger] order[i],),
                            (),
                        )
                },
            final(self).after_walk(old(self), node@.traversal(post_order, 0).len()),
    {
        let ghost visitor = visitor_func;
        let order = nodes_in_order(node, post_order);
        let mut i: usize = 0;
        while i < order.len()
            invariant
                i <= order.len(),
                ref_views(order@) == node@.traversal(post_order, 0),
                forall|n: &'a ASTNode|
                    node@.traversal(post_order, 0).contains(n@) ==> call_requires(
                        visitor_func,
                        (n,),
                    ),
                visitor_func == visitor,
                forall|j: int|
                    0 <= j < i ==> call_ensures(visitor_func, (#[trigger] order@[j],), ()),
            decreases order.len() - i,
        {
            assert(ref_views(order@)[i as int] == order@[i as int]@);
            visitor_func(order[i]);
            i += 1;
        }
        self.nodes_visited = self.nodes_visited.saturating_add(order.len());
    }

    /// The nodes of `order` whose kind is `wanted`.
    fn of_kind(
        order: &Vec<&'a ASTNode>,
        wanted: Option<NodeKind>,
        Ghost(name): Ghost<Seq<char>>,
    ) -> (found: Vec<&'a ASTNode>)
        requires
            wanted matches Some(k) ==> k.name() == name,
            wanted is None ==> forall|k: NodeKind| k.name() != name,
        ensures
            ref_views(found@) == ref_views(order@).filter(has_kind_name(name)),
    {
        let ghost models = ref_views(order@);
        let ghost pred = has_kind_name(name);
        let mut found: Vec<&'a ASTNode> = Vec::new();
        let mut i: usize = 0;
        while i < order.len()
            invariant
                i <= order.len(),
                models == ref_views(order@),
                pred == has_kind_name(name),
                wanted matches Some(k) ==> k.name() == name,
                wanted is None ==> forall|k: NodeKind| k.name() != name,
                ref_views(found@) == models.take(i as int).filter(pred),
            decreases order.len() - i,
        {
            let node = order[i];
            let kind = node.kind();
            proof {
                if let Some(k) = wanted {
                    k.lemma_names_distinct(kind);
                }
                assert(models.take(i + 1) =~= models.take(i as int).push(node@));
                models.take(i as int).lemma_filter_push(node@, pred);
            }
            if wanted == Some(kind) {
                found.push(node);
            }
            i += 1;
        }
        assert(models.take(order.len() as int) =~= models);
        found
    }

    /// Every node of the kind named `node_type`, in document order.
    pub fn find_all(&mut self, node_type: &str) -> (found: Vec<&'a ASTNode>)
        ensures
            ref_views(found@) == old(self).tree().preorder().filter(has_kind_name(node_type@)),
            found@.len() == old(self).tree().preorder().filter(has_kind_name(node_type@)).len(),
            final(self).after_walk(old(self), old(self).tree().preorder().len()),
    {
        let order = self.walk_all();
        let wanted = NodeKind::from_name(node_type);
        let found = Self::of_kind(&order, wanted, Ghost(node_type@));
        found
    }

    /// Every heading, in document order.
    pub fn find_all_headings(&mut self) -> (found: Vec<&'a ASTNode>)
        ensures
            ref_views(found@) == old(self).tree().preorder().filter(
                has_kind_name(NodeKind::Heading.name()),
            ),
            final(self).after_walk(old(self), old(self).tree().preorder().len()),
    {
        self.find_all("heading")
    }

    /// Every code block, in document order.
    pub fn find_all_code_blocks(&mut self) -> (found: Vec<&'a ASTNode>)
        ensures
            ref_views(found@) == old(self).tree().preorder().filter(
                has_kind_name(NodeKind::CodeBlock.name()),
            ),
            final(self).after_walk(old(self), old(self).tree().preorder().len()),
    {
        self.find_all("code_block")
    }

    /// Every paragraph, in document order.
    pub fn find_all_paragraphs(&mut self) -> (found: Vec<&'a ASTNode>)
        ensures
            ref_views(found@) == old(self).tree().preorder().filter(
                has_kind_name(NodeKind::Paragraph.name()),
            ),
            final(self).after_walk(old(self), old(self).tree().preorder().len()),
    {
        self.find_all("paragraph")
    }

    /// Every list, in document order.
    pub fn find_all_lists(&mut self) -> (found: Vec<&'a ASTNode>)
        ensures
            ref_views(found@) == old(self).tree().preorder().filter(
                has_kind_name(NodeKind::List.name()),
            ),
            final(self).after_walk(old(self), old(self).tree().preorder().len()),
    {
        self.find_all("list")
    }

    /// The node at a place in the document: of the nodes whose span holds
    /// the place, the last in document order.
    pub fn find_by_position(&mut self, line: usize, column: usize) -> (found: Option<&'a ASTNode>)
        ensures
            is_last_containing(
                old(self).tree().preorder(),
                line,
                column,
                match found {
                    Some(node) => Some(node@),
                    None => None,
                },
            ),
            final(self).after_walk(old(self), old(self).tree().preorder().len()),
    {
        let order = self.walk_all();
        let ghost models = ref_views(order@);
        let mut found: Option<&'a ASTNode> = None;
        let ghost mut at: int = -1;
        let mut i: usize = 0;
        while i < order.len()
            invariant
                i <= order.len(),
                models == ref_views(order@),
                -1 <= at < i,
                found is Some <==> at >= 0,
                found matches Some(node) ==> node@ == models[at] && models[at].contains(
                    line,
                    column,
                ),
                forall|j: int| at < j < i ==> !(#[trigger] models[j]).contains(line, column),
            decreases order.len() - i,
        {
            let node = order[i];
            if Self::holds(node, line, column) {
                found = Some(node);
                proof {
                    at = i as int;
                }
            }
            i += 1;
        }
        found
    }

    /// Whether the node's span holds the given place.
    fn holds(node: &ASTNode, line: usize, column: usize) -> (b: bool)
        ensures
            b == node@.contains(line, column),
    {
        match (node.start_pos(), node.end_pos()) {
            (Some(start), Some(end)) => {
                if start.line <= line && line <= end.line {
                    if line == start.line && line == end.line {
                        start.column <= column && column <= end.column
                    } else if line == start.line {
                        column >= start.column
                    } else if line == end.line {
                        column <= end.column
                    } else {
                        true
                    }
                } else {
                    false
                }
            },
            _ => false,
        }
    }

    /// The nodes that the predicate accepts, in document order. The
    /// predicate is asked once about every node, in document order.
    pub fn filter_nodes<P>(&mut self, mut predicate: P) -> (found: Vec<&'a ASTNode>) where
        P: FnMut(&ASTNode) -> bool,

        requires
            forall|n: &ASTNode|
                old(self).tree().preorder().contains(n@) ==> call_requires(predicate, (n,)),
        ensures
            exists|order: Seq<&'a ASTNode>, keep: Seq<bool>|
                {
                    &&& ref_views(order) == old(self).tree().preorder()
                    &&& keep.len() == order.len()
                    &&& forall|i: int|
                        0 <= i < order.len() ==> call_ensures(
                            predicate,
                            (#[trigger] order[i],),
                            keep[i],
                        )
                    &&& found@ == kept(order, keep)
                },
            final(self).after_walk(old(self), old(self).tree().preorder().len()),
    {
        let ghost asked = predicate;
        let ghost nodes = self.tree().preorder();
        let order = self.walk_all();
        let mut found: Vec<&'a ASTNode> = Vec::new();
        let ghost mut keep: Seq<bool> = Seq::empty();
        let mut i: usize = 0;
        while i < order.len()
            invariant
                i <= order.len(),
                ref_views(order@) == nodes,
                forall|n: &ASTNode| nodes.contains(n@) ==> call_requires(predicate, (n,)),
                predicate == asked,
                keep.len() == i,
                forall|j: int|
                    0 <= j < i ==> call_ensures(predicate, (#[trigger] order@[j],), keep[j]),
                found@ == kept(order@.take(i as int), keep),
            decreases order.len() - i,
        {
            let node = order[i];
            assert(ref_views(order@)[i as int] == node@);
            let accepted = predicate(node);
            proof {
                let ghost longer = keep.push(accepted);
                assert(order@.take(i + 1).drop_last() =~= order@.take(i as int));
                assert(longer.drop_last() =~= keep);
                keep = longer;
            }
            if accepted {
                found.push(node);
            }
            i += 1;
        }
        found
    }

    /// The number of nodes of the kind named `node_type`.
    pub fn count_nodes(&mut self, node_type: &str) -> (count: usize)
        ensures
            count == old(self).tree().preorder().filter(has_kind_name(node_type@)).len(),
            final(self).after_walk(old(self), old(self).tree().preorder().len()),
    {
        let found = self.find_all(node_type);
        found.len()
    }

    /// The number of nodes visited since the walker was made or last reset.
    pub fn nodes_visited(&self) -> (count: usize)
        ensures
            count == self.visited(),
    {
        self.nodes_visited
    }

    /// Sets the counter of visited nodes back to zero.
    pub fn reset_counter(&mut self)
        ensures
            final(self).tree() == old(self).tree(),
            final(self).visited() == 0,
    {
        self.nodes_visited = 0;
    }
}

/// Where the first `n` children of a tree have no children of their own,
/// their traversal at a depth within the greatest is the children
/// themselves.
pub proof fn lemma_traverse_leaves(tree: Tree, n: nat, post_order: bool, depth: nat)
    requires
        n <= tree.children().len(),
        depth <= MAX_DEPTH,
        forall|i: int| 0 <= i < n ==> (#[trigger] tree.children()[i]).children().len() == 0,
    ensures
        tree.traverse_children(n, post_order, depth) == tree.children().take(n as int),
    decreases n,
{
    if n > 0 {
        lemma_traverse_leaves(tree, (n - 1) as nat, post_order, depth);
        let last = tree.children()[n - 1];
        assert(last.traverse_children(0, post_order, depth + 1) =~= Seq::empty());
        assert(last.traversal(post_order, depth) =~= seq![last]);
        assert(tree.children().take(n as int) =~= tree.children().take(n - 1).push(last));
    } else {
        assert(tree.children().take(0) =~= Seq::empty());
    }
}

/// The document order of a tree whose children have no children of their
/// own: the tree, then its children.
pub proof fn lemma_preorder_of_flat(tree: Tree)
    requires
        forall|i: int|
            0 <= i < tree.children().len() ==> (#[trigger] tree.children()[i]).children().len()
                == 0,
    ensures
        tree.preorder() == seq![tree] + tree.children(),
{
    lemma_traverse_leaves(tree, tree.children().len(), false, 1);
    assert(tree.children().take(tree.children().len() as int) =~= tree.children());
}

/// Two searches for one kind in one tree find the same nodes in the same
/// order, whatever the walkers have counted before.
pub proof fn lemma_find_all_stable(
    first: ASTWalker,
    second: ASTWalker,
    node_type: Seq<char>,
    found_first: Seq<&ASTNode>,
    found_second: Seq<&ASTNode>,
)
    requires
        first.tree() == second.tree(),
        ref_views(found_first) == first.tree().preorder().filter(has_kind_name(node_type)),
        ref_views(found_second) == second.tree().preorder().filter(has_kind_name(node_type)),
    ensures
        ref_views(found_first) == ref_views(found_second),
        found_first.len() == found_second.len(),
        forall|i: int| 0 <= i < found_first.len() ==> found_first[i]@ == found_second[i]@,
{
    assert(ref_views(found_first).len() == found_first.len());
    assert(ref_views(found_second).len() == found_second.len());
    assert forall|i: int| 0 <= i < found_first.len() implies found_first[i]@
        == found_second[i]@ by {
        assert(ref_views(found_first)[i] == found_first[i]@);
        assert(ref_views(found_second)[i] == found_second[i]@);
    }
}

} // verus!
