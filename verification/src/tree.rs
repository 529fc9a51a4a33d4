//! The document tree: one node per element, holding a tag, an attribute
//! mapping kept in lexicographic key order, optional metadata, and either
//! literal text or an ordered list of child nodes.

use vstd::prelude::*;

use crate::text::lex_lt;

verus! {

/// The viewbox of a root element, carried as its finished attribute text
/// (a space-separated string of four numbers). Whatever computes the numbers
/// formats them before they enter the tree; rendering only injects the text.
pub struct ViewBox {
    pub text: String,
}

impl ViewBox {
    /// A viewbox from its attribute text.
    pub fn new(text: String) -> (r: ViewBox)
        ensures
            r.text@ == text@,
    {
        ViewBox { text }
    }
}

impl Default for ViewBox {
    /// The zero viewbox.
    fn default() -> (r: ViewBox)
        ensures
            r.text@ == "0 0 0 0"@,
    {
        ViewBox { text: "0 0 0 0".to_owned() }
    }
}

/// The body of an element: literal text, or zero or more child elements in
/// insertion order. The variant is fixed when the node is made.
pub enum SvgTreeChildren {
    Content(String),
    Children(Vec<SvgTree>),
}

/// One XML element: a tag, attributes, and a body. `id` is carried for later
/// lookup and is not rendered; `viewbox`, when present, is rendered as one
/// more attribute after all entries of `attrs`.
pub struct SvgTree {
    pub tag: String,
    pub content: SvgTreeChildren,
    pub attrs: Vec<(String, String)>,
    pub id: Option<String>,
    pub viewbox: Option<ViewBox>,
}

/// Whether the attribute list is strictly sorted by key, lexicographically.
/// Strictness makes the keys unique, so the list is a mapping.
pub open spec fn attrs_sorted(attrs: Seq<(String, String)>) -> bool {
    forall|i: int, j: int|
        0 <= i < j < attrs.len() ==> lex_lt(#[trigger] attrs[i].0@, #[trigger] attrs[j].0@)
}

impl SvgTree {
    /// Well-formed: every attribute list in the tree is sorted by key.
    pub open spec fn wf(self) -> bool
        decreases self,
    {
        &&& attrs_sorted(self.attrs@)
        &&& match self.content {
            SvgTreeChildren::Content(_) => true,
            SvgTreeChildren::Children(cs) => forall|i: int|
                0 <= i < cs@.len() ==> (#[trigger] cs@[i]).wf(),
        }
    }

    /// The root element: tag `svg`, no children yet, the fixed namespace and
    /// aspect-ratio attributes, and the zero viewbox.
    pub fn root() -> (r: SvgTree)
        ensures
            r.wf(),
            r.tag@ == "svg"@,
            r.content matches SvgTreeChildren::Children(cs) && cs@.len() == 0,
            r.attrs@.len() == 2,
            r.attrs@[0].0@ == "preserveAspectRatio"@,
            r.attrs@[0].1@ == "xMidYMid meet"@,
            r.attrs@[1].0@ == "xmlns"@,
            r.attrs@[1].1@ == "http://www.w3.org/2000/svg"@,
            r.id is None,
            r.viewbox matches Some(vb) && vb.text@ == "0 0 0 0"@,
    {
        let mut attrs: Vec<(String, String)> = Vec::new();
        attrs.push(("preserveAspectRatio".to_owned(), "xMidYMid meet".to_owned()));
        attrs.push(("xmlns".to_owned(), "http://www.w3.org/2000/svg".to_owned()));
        proof {
            reveal_strlit("preserveAspectRatio");
            reveal_strlit("xmlns");
            assert(lex_lt("preserveAspectRatio"@, "xmlns"@));
        }
        SvgTree {
            tag: "svg".to_owned(),
            content: SvgTreeChildren::Children(Vec::new()),
            attrs,
            id: None,
            viewbox: Some(ViewBox::default()),
        }
    }

    /// A leaf element: the given tag around the given literal text, nothing
    /// else. Neither string is validated; both are taken verbatim.
    pub fn leaf(tag: &str, content: &str) -> (r: SvgTree)
        ensures
            r.wf(),
            r.tag@ == tag@,
            r.content matches SvgTreeChildren::Content(s) && s@ == content@,
            r.attrs@.len() == 0,
            r.id is None,
            r.viewbox is None,
    {
        SvgTree {
            tag: tag.to_owned(),
            content: SvgTreeChildren::Content(content.to_owned()),
            attrs: Vec::new(),
            id: None,
            viewbox: None,
        }
    }

    /// Appends `child` at the end of the children. On a text node nothing
    /// changes and the child is dropped silently; the tree keeps the variant
    /// it was made with, and both of its renderings stay as they were.
    pub fn add(self, child: SvgTree) -> (r: SvgTree)
        ensures
            self.content is Content ==> r == self && r.compact() == self.compact() && r.indented()
                == self.indented(),
            self.content is Children ==> {
                &&& r.tag == self.tag
                &&& r.attrs == self.attrs
                &&& r.id == self.id
                &&& r.viewbox == self.viewbox
                &&& r.content matches SvgTreeChildren::Children(cs) && cs@
                    == self.content->Children_0@.push(child)
            },
            self.wf() && child.wf() ==> r.wf(),
    {
        let SvgTree { tag, content, attrs, id, viewbox } = self;
        let content = match content {
            SvgTreeChildren::Content(s) => SvgTreeChildren::Content(s),
            SvgTreeChildren::Children(mut cs) => {
                cs.push(child);
                SvgTreeChildren::Children(cs)
            },
        };
        let r = SvgTree { tag, content, attrs, id, viewbox };
        proof {
            if self.wf() && child.wf() {
                if self.content is Children {
                    let old_cs = self.content->Children_0@;
                    let new_cs = r.content->Children_0@;
                    assert forall|i: int| 0 <= i < new_cs.len() implies (#[trigger] new_cs[i]).wf() by {
                        if i < old_cs.len() {
                            assert(old_cs[i].wf());
                        }
                    }
                }
            }
        }
        r
    }
}

} // verus!
