//! Listings drawn as trees, built with termtree.

use vstd::prelude::*;
use termtree::Tree;

verus! {

/// termtree's `Tree`, which the listings are built as; what a tree holds is
/// known only through `outline` and `palettes`.
#[verifier::external_type_specification]
#[verifier::external_body]
#[verifier::reject_recursive_types(D)]
pub struct ExTree<D: std::fmt::Display>(Tree<D>);

/// Every line of a termtree `Tree`, in the order it is drawn: the root at
/// depth 0, then the lines of each leaf in turn, one level deeper.
pub uninterp spec fn outline(tree: Tree<String>) -> Seq<(nat, Seq<char>)>;

/// The glyphs each node of a termtree `Tree` was given, in the order the
/// nodes are drawn (as `outline` has them): for each, the six glyphs in the
/// order termtree's `GlyphPalette` names them (middle item, last item, item
/// indent, middle skip, last skip, skip indent), or nothing where the node was
/// given none and draws its branches with its parent's.
pub uninterp spec fn palettes(tree: Tree<String>) -> Seq<Option<Seq<Seq<char>>>>;

/// The glyphs the root of a tree was given, if any.
pub open spec fn glyphs_of(tree: Tree<String>) -> Option<Seq<Seq<char>>> {
    palettes(tree)[0]
}

/// No node among these was given glyphs of its own.
pub open spec fn plain(nodes: Seq<Option<Seq<Seq<char>>>>) -> bool {
    forall|i: int| 0 <= i < nodes.len() ==> #[trigger] nodes[i] is None
}

/// Every node under the root draws its branches with the root's glyphs.
pub open spec fn plain_below(tree: Tree<String>) -> bool {
    palettes(tree).len() >= 1 && plain(palettes(tree).drop_first())
}

/// Nodes with no glyphs of their own, added under a tree whose nodes below the
/// root have none either, leave it so.
pub(crate) proof fn lemma_plain_below_grows(nodes: Seq<Option<Seq<Seq<char>>>>, more: Seq<Option<Seq<Seq<char>>>>)
    requires
        nodes.len() >= 1,
        plain(nodes.drop_first()),
        plain(more),
    ensures
        (nodes + more).len() >= 1,
        (nodes + more)[0] == nodes[0],
        plain((nodes + more).drop_first()),
{
    assert((nodes + more).drop_first() =~= nodes.drop_first() + more);
    assert forall|i: int| 0 <= i < (nodes + more).drop_first().len() implies #[trigger] (nodes + more).drop_first()[i] is None by {
        if i < nodes.drop_first().len() {
            assert(nodes.drop_first()[i] is None);
        } else {
            assert(more[i - nodes.drop_first().len()] is None);
        }
    }
}

/// The glyphs given to the nodes of the leaves, in the order they are drawn.
pub open spec fn palettes_under(leaves: Seq<Tree<String>>) -> Seq<Option<Seq<Seq<char>>>>
    decreases leaves.len(),
{
    if leaves.len() == 0 {
        seq![]
    } else {
        palettes_under(leaves.drop_last()) + palettes(leaves.last())
    }
}

/// The lines one level deeper.
pub open spec fn deeper(lines: Seq<(nat, Seq<char>)>) -> Seq<(nat, Seq<char>)> {
    lines.map_values(|l: (nat, Seq<char>)| ((l.0 + 1) as nat, l.1))
}

/// The lines that the leaves draw under their parent.
pub open spec fn under(leaves: Seq<Tree<String>>) -> Seq<(nat, Seq<char>)>
    decreases leaves.len(),
{
    if leaves.len() == 0 {
        seq![]
    } else {
        under(leaves.drop_last()) + deeper(outline(leaves.last()))
    }
}

/// Calls `termtree::Tree::new`: a tree with nothing under its root.
#[verifier::external_body]
pub(crate) fn node(root: String) -> (r: Tree<String>)
    ensures
        outline(r) == seq![(0nat, root@)],
        palettes(r) == seq![None::<Seq<Seq<char>>>],
{
    Tree::new(root)
}

/// Calls `termtree::Tree::with_leaves`, which keeps the root and its glyphs
/// and puts `leaves` under it, with whatever glyphs their nodes were given, in
/// place of whatever was there.
#[verifier::external_body]
pub(crate) fn with_leaves(tree: Tree<String>, leaves: Vec<Tree<String>>) -> (r: Tree<String>)
    ensures
        outline(r) == seq![outline(tree)[0]] + under(leaves@),
        palettes(r) == seq![palettes(tree)[0]] + palettes_under(leaves@),
{
    tree.with_leaves(leaves)
}

/// Calls `termtree::Tree::push`, which adds `leaf` after the leaves already
/// there, with whatever glyphs its nodes were given, and leaves the rest of
/// the tree as it was.
#[verifier::external_body]
pub(crate) fn attach(tree: &mut Tree<String>, leaf: Tree<String>)
    ensures
        outline(*final(tree)) == outline(*old(tree)) + deeper(outline(leaf)),
        palettes(*final(tree)) == palettes(*old(tree)) + palettes(leaf),
{
    tree.push(leaf);
}

/// Calls `termtree::Tree::with_glyphs` with a `GlyphPalette` of the six
/// glyphs, in the palette's order: the tree draws the same lines, its root
/// now given these glyphs and the nodes under it left as they were.
#[verifier::external_body]
pub(crate) fn with_glyphs(
    tree: Tree<String>,
    middle_item: &'static str,
    last_item: &'static str,
    item_indent: &'static str,
    middle_skip: &'static str,
    last_skip: &'static str,
    skip_indent: &'static str,
) -> (r: Tree<String>)
    ensures
        outline(r) == outline(tree),
        palettes(r) == seq![Some(seq![middle_item@, last_item@, item_indent@, middle_skip@, last_skip@, skip_indent@])]
            + palettes(tree).drop_first(),
{
    tree.with_glyphs(termtree::GlyphPalette { middle_item, last_item, item_indent, middle_skip, last_skip, skip_indent })
}

/// A leaf for each line, in order.
pub fn leaves_of(lines: &Vec<String>) -> (r: Vec<Tree<String>>)
    ensures
        under(r@) == lines.deep_view().map_values(|t: Seq<char>| (1nat, t)),
        palettes_under(r@) == Seq::new(lines@.len(), |i: int| None::<Seq<Seq<char>>>),
{
    let mut r: Vec<Tree<String>> = Vec::new();
    let ghost all = lines.deep_view();
    let mut i: usize = 0;
    while i < lines.len()
        invariant
            all == lines.deep_view(),
            0 <= i <= lines@.len(),
            under(r@) == all.take(i as int).map_values(|t: Seq<char>| (1nat, t)),
            palettes_under(r@) == Seq::new(i as nat, |j: int| None::<Seq<Seq<char>>>),
        decreases lines.len() - i,
    {
        let leaf = node(lines[i].clone());
        let ghost before = r@;
        r.push(leaf);
        proof {
            assert(r@.drop_last() == before);
            assert(deeper(outline(leaf)) =~= seq![(1nat, all[i as int])]);
            assert(Seq::new((i + 1) as nat, |j: int| None::<Seq<Seq<char>>>)
                =~= Seq::new(i as nat, |j: int| None::<Seq<Seq<char>>>) + seq![None::<Seq<Seq<char>>>]);
            assert(all.take(i + 1).map_values(|t: Seq<char>| (1nat, t))
                =~= all.take(i as int).map_values(|t: Seq<char>| (1nat, t)).push((1nat, all[i as int])));
        }
        i += 1;
    }
    proof {
        assert(all.take(lines@.len() as int) =~= all);
    }
    r
}

} // verus!
