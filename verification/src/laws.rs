//! Laws of the serializers, stated over the rendering model and proved once
//! for every tree.

use vstd::prelude::*;

use crate::text::lex_lt;
use crate::tree::SvgTree;
use crate::tree::SvgTreeChildren;

verus! {

/// In every rendering of a well-formed node the attributes stand in strict
/// lexicographic key order — so their keys are pairwise distinct, a mapping —
/// and the viewbox, when present, stands last, under the name `viewBox`,
/// whatever its own order among the keys would be.
pub proof fn lemma_attribute_order(n: SvgTree)
    requires
        n.wf(),
    ensures
        forall|i: int, j: int|
            0 <= i < j < n.attrs@.len() ==> lex_lt(
                #[trigger] n.entries()[i].0,
                #[trigger] n.entries()[j].0,
            ),
        forall|i: int, j: int|
            0 <= i < j < n.attrs@.len() ==> #[trigger] n.entries()[i].0
                != #[trigger] n.entries()[j].0,
        forall|i: int|
            0 <= i < n.attrs@.len() ==> #[trigger] n.entries()[i] == (
                n.attrs@[i].0@,
                n.attrs@[i].1@,
            ),
        n.viewbox matches Some(vb) ==> n.entries().len() == n.attrs@.len() + 1
            && n.entries().last() == ("viewBox"@, vb.text@),
        n.viewbox is None ==> n.entries().len() == n.attrs@.len(),
{
}

/// Rendering reads the tree and nothing else: two equal trees render to the
/// same text, in either mode, so rendering one tree twice gives one text.
pub proof fn lemma_rendering_deterministic(a: SvgTree, b: SvgTree)
    requires
        a == b,
    ensures
        a.compact() == b.compact(),
        a.indented() == b.indented(),
{
}

/// A node with zero children renders as one line in both modes: the indented
/// form collapses to exactly the compact form, with no blank lines.
pub proof fn lemma_empty_children_collapse(n: SvgTree)
    requires
        n.content matches SvgTreeChildren::Children(cs) && cs@.len() == 0,
    ensures
        n.indented() == n.compact(),
{
    assert(n.inner() == Seq::<char>::empty());
    assert(n.compact_kids(0) == Seq::<char>::empty());
}

} // verus!
