//! Tree representation of dot- or slash-separated names, used by the
//! presentation layer to render parameters hierarchically.

use vstd::prelude::*;
use vstd::string::StringExecFns;

use crate::text::{split_chars, split_seq, str_to_chars};

verus! {

/// Representation of a tree node.
#[derive(Debug, Eq, PartialEq)]
pub struct TreeNode {
    /// Value of the node.
    pub value: String,
    /// Children of the node.
    pub children: Vec<TreeNode>,
}

/// Index of the first child carrying the given value, or `-1` when none does.
pub open spec fn first_child_match(children: Seq<TreeNode>, value: Seq<char>) -> int
    decreases children.len(),
{
    if children.len() == 0 {
        -1
    } else if children[0].value@ == value {
        0
    } else if first_child_match(children.drop_first(), value) == -1 {
        -1
    } else {
        first_child_match(children.drop_first(), value) + 1
    }
}

pub proof fn lemma_first_child_match(children: Seq<TreeNode>, value: Seq<char>)
    ensures
        -1 <= first_child_match(children, value) < children.len(),
        first_child_match(children, value) >= 0 ==> children[first_child_match(
            children,
            value,
        )].value@ == value,
        forall|k: int|
            0 <= k < first_child_match(children, value) ==> (#[trigger] children[k]).value@
                != value,
        first_child_match(children, value) == -1 ==> forall|k: int|
            0 <= k < children.len() ==> (#[trigger] children[k]).value@ != value,
    decreases children.len(),
{
    if children.len() == 0 {
    } else if children[0].value@ == value {
    } else {
        lemma_first_child_match(children.drop_first(), value);
        let r = first_child_match(children.drop_first(), value);
        if r >= 0 {
            assert(children.drop_first()[r] == children[r + 1]);
            assert forall|k: int| 0 <= k < first_child_match(children, value) implies (#[trigger]
            children[k]).value@ != value by {
                if k > 0 {
                    assert(children.drop_first()[k - 1].value@ != value);
                }
            }
        } else {
            assert forall|k: int| 0 <= k < children.len() implies (#[trigger] children[k]).value@
                != value by {
                if k > 0 {
                    assert(children.drop_first()[k - 1].value@ != value);
                }
            }
        }
    }
}

/// `n` is the linear chain of nodes holding `values[from..]`, each node the
/// sole child of the previous one.
pub open spec fn is_chain(n: TreeNode, values: Seq<Seq<char>>, from: int) -> bool
    decreases values.len() - from,
{
    &&& 0 <= from < values.len()
    &&& n.value@ == values[from]
    &&& if from == values.len() - 1 {
        n.children@.len() == 0
    } else {
        n.children@.len() == 1 && is_chain(n.children@[0], values, from + 1)
    }
}

/// `new` is `old` with `values[from..]` inserted: values are matched against
/// children in order, the first child with a matching value absorbs the rest
/// of the path, and an unmatched value starts a fresh chain at the end.
pub open spec fn is_add_result(old: TreeNode, values: Seq<Seq<char>>, from: int, new: TreeNode) -> bool
    decreases values.len() - from,
{
    if !(0 <= from < values.len()) {
        new == old
    } else {
        let i = first_child_match(old.children@, values[from]);
        if i >= 0 {
            &&& new.value == old.value
            &&& new.children@.len() == old.children@.len()
            &&& forall|j: int|
                0 <= j < old.children@.len() && j != i ==> (#[trigger] new.children@[j])
                    == old.children@[j]
            &&& is_add_result(old.children@[i], values, from + 1, new.children@[i])
        } else {
            &&& new.value == old.value
            &&& new.children@.len() == old.children@.len() + 1
            &&& forall|j: int|
                0 <= j < old.children@.len() ==> (#[trigger] new.children@[j])
                    == old.children@[j]
            &&& is_chain(new.children@[old.children@.len() as int], values, from)
        }
    }
}

fn make_chain(values: &Vec<String>, from: usize) -> (r: TreeNode)
    requires
        from < values@.len(),
    ensures
        is_chain(r, values@.map_values(|v: String| v@), from as int),
    decreases values@.len() - from,
{
    let n = values.len();
    let value = values[from].clone();
    proof {
        assert(values@.map_values(|v: String| v@)[from as int] == values@[from as int]@);
    }
    if from + 1 == n {
        TreeNode { value, children: Vec::new() }
    } else {
        let child = make_chain(values, from + 1);
        let mut children: Vec<TreeNode> = Vec::new();
        children.push(child);
        TreeNode { value, children }
    }
}

fn add_value(node: TreeNode, values: &Vec<String>, from: usize) -> (r: TreeNode)
    ensures
        is_add_result(node, values@.map_values(|v: String| v@), from as int, r),
    decreases values@.len() - from,
{
    let ghost vseq = values@.map_values(|v: String| v@);
    if from >= values.len() {
        return node;
    }
    proof {
        assert(vseq[from as int] == values@[from as int]@);
    }
    let TreeNode { value, mut children } = node;
    let ghost old_children = children@;
    let mut i: usize = 0;
    let n = children.len();
    while i < n
        invariant
            0 <= i <= n == children@.len(),
            children@ == old_children,
            old_children == node.children@,
            value == node.value,
            from < values@.len() <= usize::MAX,
            vseq == values@.map_values(|v: String| v@),
            vseq[from as int] == values@[from as int]@,
            forall|k: int| 0 <= k < i ==> (#[trigger] children@[k]).value@ != vseq[from as int],
        decreases n - i,
    {
        if children[i].value == values[from] {
            proof {
                lemma_first_child_match(old_children, vseq[from as int]);
                let f = first_child_match(old_children, vseq[from as int]);
                if f < i {
                    assert(old_children[f].value@ != vseq[from as int]);
                }
                if f > i as int || f == -1 {
                    assert(old_children[i as int].value@ != vseq[from as int]);
                }
            }
            let child = children.remove(i);
            let child2 = add_value(child, values, from + 1);
            children.insert(i, child2);
            proof {
                let removed = old_children.remove(i as int);
                let merged = children@;
                assert(merged == removed.insert(i as int, child2));
                assert(merged.len() == old_children.len());
                assert forall|j: int|
                    0 <= j < old_children.len() && j != i implies (#[trigger] merged[j])
                        == old_children[j] by {
                    if j < i {
                        assert(removed[j] == old_children[j]);
                        assert(merged[j] == removed[j]);
                    } else {
                        assert(removed[j - 1] == old_children[j]);
                        assert(merged[j] == removed[j - 1]);
                    }
                }
                assert(merged[i as int] == child2);
                assert(node.children@ == old_children);
                assert(value == node.value);
                assert(first_child_match(node.children@, vseq[from as int]) == i as int);
                assert(is_add_result(node.children@[i as int], vseq, from + 1, child2));
            }
            return TreeNode { value, children };
        }
        i += 1;
    }
    proof {
        lemma_first_child_match(old_children, vseq[from as int]);
        let f = first_child_match(old_children, vseq[from as int]);
        if f >= 0 {
            assert(old_children[f].value@ != vseq[from as int]);
        }
    }
    let chain = make_chain(values, from);
    children.push(chain);
    TreeNode { value, children }
}

impl TreeNode {
    /// Adds the dot-path `values[from..]` to this node's subtree: matching
    /// children are descended into, and the unmatched remainder becomes a
    /// fresh chain of nodes.
    pub fn add(&mut self, values: &Vec<String>, from: usize)
        ensures
            is_add_result(
                *old(self),
                values@.map_values(|v: String| v@),
                from as int,
                *final(self),
            ),
    {
        let mut tmp = TreeNode { value: String::new(), children: Vec::new() };
        core::mem::swap(&mut tmp, self);
        let new_node = add_value(tmp, values, from);
        *self = new_node;
    }
}

/// The trees that folding each line into an initially childless root yields.
pub open spec fn folds_to(lines: Seq<Seq<Seq<char>>>, acc: TreeNode, result: TreeNode) -> bool
    decreases lines.len(),
{
    if lines.len() == 0 {
        result == acc
    } else {
        exists|mid: TreeNode|
            #[trigger] is_add_result(acc, lines[0], 0, mid) && folds_to(
                lines.drop_first(),
                mid,
                result,
            )
    }
}

/// The lead segment one ancestor level contributes to a rendered line: blank
/// below a last child, a vertical connector otherwise.
pub open spec fn spec_lead(last: bool) -> Seq<char> {
    if last {
        "    "@
    } else {
        "\u{2502}   "@
    }
}

/// The lead segments of all ancestor levels, in order.
pub open spec fn spec_leads(cs: Seq<bool>) -> Seq<char>
    decreases cs.len(),
{
    if cs.len() == 0 {
        Seq::empty()
    } else {
        spec_lead(cs[0]) + spec_leads(cs.drop_first())
    }
}

/// The full prefix of a rendered line: the ancestors' lead segments and the
/// node's own connector, angled for a last child and teed otherwise.
pub open spec fn spec_line_prefix(cs: Seq<bool>) -> Seq<char> {
    if cs.len() == 0 {
        Seq::empty()
    } else {
        spec_leads(cs.take(cs.len() - 1)) + (if cs.last() {
            "\u{2514}\u{2500}\u{2500} "@
        } else {
            "\u{251c}\u{2500}\u{2500} "@
        })
    }
}

/// A rendered subtree: the node's own line followed by its children, the last
/// of which is marked as such in the connector trail.
pub open spec fn spec_render_node(n: TreeNode, cs: Seq<bool>) -> Seq<char>
    decreases n,
{
    spec_line_prefix(cs) + n.value@ + "\n"@ + spec_render_children(n.children@, cs)
}

/// The rendered children of a node, in order.
pub open spec fn spec_render_children(children: Seq<TreeNode>, cs: Seq<bool>) -> Seq<char>
    decreases children,
{
    if children.len() == 0 {
        Seq::empty()
    } else {
        spec_render_node(children[0], cs.push(children.len() == 1)) + spec_render_children(
            children.drop_first(),
            cs,
        )
    }
}

/// The rendered forest: every root at the top level.
pub open spec fn spec_render_tree(nodes: Seq<TreeNode>) -> Seq<char>
    decreases nodes,
{
    if nodes.len() == 0 {
        Seq::empty()
    } else {
        spec_render_node(nodes[0], Seq::empty()) + spec_render_tree(nodes.drop_first())
    }
}

proof fn lemma_leads_push(cs: Seq<bool>, b: bool)
    ensures
        spec_leads(cs.push(b)) == spec_leads(cs) + spec_lead(b),
    decreases cs.len(),
{
    if cs.len() == 0 {
        assert(cs.push(b)[0] == b);
        assert(cs.push(b).drop_first() =~= Seq::<bool>::empty());
        assert(spec_leads(cs.push(b)) == spec_lead(b) + spec_leads(cs.push(b).drop_first()));
        assert(spec_lead(b) + Seq::<char>::empty() =~= Seq::<char>::empty() + spec_lead(b));
    } else {
        lemma_leads_push(cs.drop_first(), b);
        assert(cs.push(b)[0] == cs[0]);
        assert(cs.push(b).drop_first() =~= cs.drop_first().push(b));
        assert(spec_lead(cs[0]) + (spec_leads(cs.drop_first()) + spec_lead(b)) =~= (spec_lead(
            cs[0],
        ) + spec_leads(cs.drop_first())) + spec_lead(b));
    }
}

impl TreeNode {
    fn print_line(&self, out: &mut String, connectors: &Vec<bool>)
        ensures
            final(out)@ == old(out)@ + spec_line_prefix(connectors@) + self.value@ + "\n"@,
    {
        let n = connectors.len();
        if n > 0 {
            proof {
                assert(connectors@.take(0) =~= Seq::<bool>::empty());
            }
            let mut j: usize = 0;
            while j < n - 1
                invariant
                    0 <= j <= n - 1,
                    n == connectors@.len() >= 1,
                    out@ == old(out)@ + spec_leads(connectors@.take(j as int)),
                decreases n - 1 - j,
            {
                if connectors[j] {
                    out.append("    ");
                } else {
                    out.append("\u{2502}   ");
                }
                proof {
                    lemma_leads_push(connectors@.take(j as int), connectors@[j as int]);
                    assert(connectors@.take(j + 1) =~= connectors@.take(j as int).push(
                        connectors@[j as int],
                    ));
                }
                j += 1;
            }
            if connectors[n - 1] {
                out.append("\u{2514}\u{2500}\u{2500} ");
            } else {
                out.append("\u{251c}\u{2500}\u{2500} ");
            }
        }
        out.append(self.value.as_str());
        out.append("\n");
        proof {
            assert(final(out)@ =~= old(out)@ + spec_line_prefix(connectors@) + self.value@
                + "\n"@);
        }
    }

    /// Prints the node and its subtree to the given output, continuing the
    /// given connector trail; the trail is left as it was.
    pub fn print(&self, out: &mut String, connectors: &mut Vec<bool>)
        ensures
            final(out)@ == old(out)@ + spec_render_node(*self, old(connectors)@),
            final(connectors)@ == old(connectors)@,
        decreases *self,
    {
        let ghost cs0 = connectors@;
        self.print_line(out, connectors);
        connectors.push(false);
        let n = self.children.len();
        let mut i: usize = 0;
        proof {
            assert(self.children@.skip(0) =~= self.children@);
        }
        while i < n
            invariant
                0 <= i <= n == self.children@.len(),
                connectors@ == cs0.push(i == n && n > 0),
                out@ + spec_render_children(self.children@.skip(i as int), cs0) == old(out)@
                    + spec_render_node(*self, cs0),
            decreases n - i,
        {
            if i + 1 == n {
                connectors.pop();
                connectors.push(true);
            }
            proof {
                let suffix = self.children@.skip(i as int);
                assert(suffix[0] == self.children@[i as int]);
                assert(suffix.drop_first() =~= self.children@.skip(i + 1));
                assert((suffix.len() == 1) == (i + 1 == n));
                assert(connectors@ == cs0.push(i + 1 == n)) by {
                    if i + 1 == n {
                        assert(cs0.push(false).drop_last() =~= cs0);
                    }
                }
                assert(spec_render_children(suffix, cs0) == spec_render_node(
                    self.children@[i as int],
                    cs0.push(i + 1 == n),
                ) + spec_render_children(self.children@.skip(i + 1), cs0));
            }
            let child = &self.children[i];
            child.print(out, connectors);
            i += 1;
        }
        connectors.pop();
        proof {
            assert(self.children@.skip(n as int) =~= Seq::<TreeNode>::empty());
            if n > 0 {
                assert(cs0.push(true).drop_last() =~= cs0);
            } else {
                assert(cs0.push(false).drop_last() =~= cs0);
            }
            assert(final(connectors)@ =~= cs0);
        }
    }
}

/// Folding one more line continues from the tree folded so far.
pub proof fn lemma_folds_push(
    pref: Seq<Seq<Seq<char>>>,
    start: TreeNode,
    cur: TreeNode,
    line: Seq<Seq<char>>,
    new: TreeNode,
)
    requires
        folds_to(pref, start, cur),
        is_add_result(cur, line, 0, new),
    ensures
        folds_to(pref.push(line), start, new),
    decreases pref.len(),
{
    if pref.len() == 0 {
        assert(cur == start);
        assert(pref.push(line)[0] == line);
        assert(pref.push(line).drop_first() =~= Seq::<Seq<Seq<char>>>::empty());
        assert(folds_to(pref.push(line).drop_first(), new, new));
        assert(is_add_result(start, pref.push(line)[0], 0, new) && folds_to(
            pref.push(line).drop_first(),
            new,
            new,
        ));
    } else {
        let mid = choose|mid: TreeNode|
            #[trigger] is_add_result(start, pref[0], 0, mid) && folds_to(
                pref.drop_first(),
                mid,
                cur,
            );
        lemma_folds_push(pref.drop_first(), mid, cur, line, new);
        assert(pref.push(line)[0] == pref[0]);
        assert(pref.push(line).drop_first() =~= pref.drop_first().push(line));
        assert(is_add_result(start, pref.push(line)[0], 0, mid) && folds_to(
            pref.push(line).drop_first(),
            mid,
            new,
        ));
    }
}

/// Representation of a tree structure.
#[derive(Debug)]
pub struct Tree {
    /// Nodes of the tree.
    pub nodes: Vec<TreeNode>,
}

impl Tree {
    /// Constructs a new instance.
    pub fn new(nodes: Vec<TreeNode>) -> (r: Self)
        ensures
            r.nodes == nodes,
    {
        Self { nodes }
    }

    /// Constructs a new instance from the given lines: each line is split on
    /// the separator and folded into a single childless root, whose children
    /// become the trees.
    pub fn from_input(lines: &Vec<String>, separator: char) -> (r: Self)
        ensures
            exists|start: TreeNode, root: TreeNode|
                #![trigger start.children@, root.children@]
                start.value@ == Seq::<char>::empty() && start.children@.len() == 0 && folds_to(
                    lines@.map_values(|l: String| split_seq(l@, separator)),
                    start,
                    root,
                ) && r.nodes == root.children,
    {
        let mut root = TreeNode { value: String::new(), children: Vec::new() };
        let ghost start = root;
        let ghost lviews = lines@.map_values(|l: String| split_seq(l@, separator));
        proof {
            assert(lviews.subrange(0, 0) =~= Seq::<Seq<Seq<char>>>::empty());
        }
        proof {
            assert(start.children@.len() == 0);
        }
        let mut i: usize = 0;
        while i < lines.len()
            invariant
                0 <= i <= lines@.len(),
                lviews == lines@.map_values(|l: String| split_seq(l@, separator)),
                start.value@ == Seq::<char>::empty() && start.children@.len() == 0,
                folds_to(lviews.subrange(0, i as int), start, root),
            decreases lines@.len() - i,
        {
            let t = str_to_chars(lines[i].as_str());
            let comps = split_chars(t.as_slice(), separator);
            let ghost cur = root;
            root.add(&comps, 0);
            proof {
                assert(comps@.map_values(|v: String| v@) == split_seq(lines@[i as int]@,
                    separator));
                assert(lviews[i as int] == split_seq(lines@[i as int]@, separator));
                lemma_folds_push(lviews.subrange(0, i as int), start, cur, lviews[i as int], root);
                assert(lviews.subrange(0, i + 1) =~= lviews.subrange(0, i as int).push(
                    lviews[i as int],
                ));
            }
            i += 1;
        }
        let ghost g_root = root;
        proof {
            assert(lviews.subrange(0, lviews.len() as int) =~= lviews);
            assert(folds_to(lviews, start, g_root));
            assert(start.children@.len() == 0);
            assert(g_root.children@ == root.children@);
        }
        Tree { nodes: root.children }
    }

    /// Prints the full tree to the given output.
    pub fn print(&self, out: &mut String)
        ensures
            final(out)@ == old(out)@ + spec_render_tree(self.nodes@),
    {
        proof {
            assert(self.nodes@.skip(0) =~= self.nodes@);
        }
        let mut connectors: Vec<bool> = Vec::new();
        let n = self.nodes.len();
        let mut i: usize = 0;
        while i < n
            invariant
                0 <= i <= n == self.nodes@.len(),
                connectors@ =~= Seq::<bool>::empty(),
                out@ + spec_render_tree(self.nodes@.skip(i as int)) == old(out)@
                    + spec_render_tree(self.nodes@),
            decreases n - i,
        {
            proof {
                let suffix = self.nodes@.skip(i as int);
                assert(suffix[0] == self.nodes@[i as int]);
                assert(suffix.drop_first() =~= self.nodes@.skip(i + 1));
                assert(spec_render_tree(suffix) == spec_render_node(
                    self.nodes@[i as int],
                    Seq::empty(),
                ) + spec_render_tree(self.nodes@.skip(i + 1)));
            }
            let node = &self.nodes[i];
            node.print(out, &mut connectors);
            i += 1;
        }
        proof {
            assert(self.nodes@.skip(n as int) =~= Seq::<TreeNode>::empty());
        }
    }
}

} // verus!
