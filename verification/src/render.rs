//! The two serializers over the tree: a compact single-line form and an
//! indented multi-line form. Both share one attribute-rendering routine and
//! differ only in how they lay out the body of an element.

use vstd::prelude::*;
use vstd::string::StringExecFns;

use crate::text::indent_block;
use crate::text::shift_block;
use crate::tree::SvgTree;
use crate::tree::SvgTreeChildren;

verus! {

/// One rendered attribute, preceded by its separating space.
pub open spec fn attr_text(k: Seq<char>, v: Seq<char>) -> Seq<char> {
    " "@ + k + "=\""@ + v + "\""@
}

/// The rendered attribute entries, concatenated in order.
pub open spec fn attrs_text(s: Seq<(Seq<char>, Seq<char>)>) -> Seq<char>
    decreases s.len(),
{
    if s.len() == 0 {
        Seq::empty()
    } else {
        attr_text(s[0].0, s[0].1) + attrs_text(s.drop_first())
    }
}

/// Rendering the entries one at a time appends one attribute's text.
pub proof fn lemma_attrs_text_push(s: Seq<(Seq<char>, Seq<char>)>, k: Seq<char>, v: Seq<char>)
    ensures
        attrs_text(s.push((k, v))) == attrs_text(s) + attr_text(k, v),
    decreases s.len(),
{
    if s.len() == 0 {
        assert(s.push((k, v)) =~= seq![(k, v)]);
        assert(s.push((k, v)).drop_first() =~= Seq::<(Seq<char>, Seq<char>)>::empty());
        assert(attrs_text(Seq::<(Seq<char>, Seq<char>)>::empty()) == Seq::<char>::empty());
        assert(s.push((k, v))[0] == (k, v));
        assert(Seq::<char>::empty() + attr_text(k, v) =~= attr_text(k, v));
        assert(attr_text(k, v) + Seq::<char>::empty() =~= attr_text(k, v));
    } else {
        assert(s.push((k, v)).drop_first() =~= s.drop_first().push((k, v)));
        lemma_attrs_text_push(s.drop_first(), k, v);
        assert(attr_text(s[0].0, s[0].1) + (attrs_text(s.drop_first()) + attr_text(k, v)) =~= (
        attr_text(s[0].0, s[0].1) + attrs_text(s.drop_first())) + attr_text(k, v));
    }
}

impl SvgTree {
    /// The attribute entries in render order: the stored attributes first, in
    /// their list order, then the viewbox under the fixed name `viewBox`.
    pub open spec fn entries(self) -> Seq<(Seq<char>, Seq<char>)> {
        let base = Seq::new(self.attrs@.len(), |i: int| (self.attrs@[i].0@, self.attrs@[i].1@));
        match self.viewbox {
            Some(vb) => base.push(("viewBox"@, vb.text@)),
            None => base,
        }
    }

    /// The opening tag, attributes included.
    pub open spec fn open_text(self) -> Seq<char> {
        "<"@ + self.tag@ + attrs_text(self.entries()) + ">"@
    }

    /// The closing tag.
    pub open spec fn close_text(self) -> Seq<char> {
        "</"@ + self.tag@ + ">"@
    }

    /// The children, or nothing for a text node.
    pub open spec fn kids(self) -> Seq<SvgTree> {
        match self.content {
            SvgTreeChildren::Content(_) => Seq::empty(),
            SvgTreeChildren::Children(cs) => cs@,
        }
    }

    /// The compact rendering: one line, no inserted white space, the body
    /// between the tags either the literal text or the children in order.
    pub open spec fn compact(self) -> Seq<char>
        decreases self, 1int, 0int,
    {
        self.open_text() + (match self.content {
            SvgTreeChildren::Content(s) => s@,
            SvgTreeChildren::Children(_) => self.compact_kids(0),
        }) + self.close_text()
    }

    /// The compact renderings of the children from `i` on, concatenated.
    pub open spec fn compact_kids(self, i: int) -> Seq<char>
        decreases self, 0int, self.kids().len() - i,
    {
        if 0 <= i < self.kids().len() {
            self.kids()[i].compact() + self.compact_kids(i + 1)
        } else {
            Seq::empty()
        }
    }

    /// The indented rendering: the opening and closing tags as in compact
    /// form, the body shifted right line by line between them.
    pub open spec fn indented(self) -> Seq<char>
        decreases self, 2int, 0int,
    {
        self.open_text() + shift_block(self.inner()) + self.close_text()
    }

    /// The body block before shifting: literal text between two newlines, or
    /// the children's indented renderings joined by newlines and wrapped in
    /// newlines. An element without children has an empty block, so it
    /// collapses onto one line.
    pub open spec fn inner(self) -> Seq<char>
        decreases self, 1int, 0int,
    {
        match self.content {
            SvgTreeChildren::Content(s) => "\n"@ + s@ + "\n"@,
            SvgTreeChildren::Children(cs) => if cs@.len() == 0 {
                Seq::empty()
            } else {
                "\n"@ + self.ind_kids(0) + "\n"@
            },
        }
    }

    /// The indented renderings of the children from `i` on, joined by
    /// newlines.
    pub open spec fn ind_kids(self, i: int) -> Seq<char>
        decreases self, 0int, self.kids().len() - i,
    {
        if 0 <= i < self.kids().len() {
            self.kids()[i].indented() + (if i + 1 < self.kids().len() {
                "\n"@ + self.ind_kids(i + 1)
            } else {
                Seq::empty()
            })
        } else {
            Seq::empty()
        }
    }

    /// Renders the opening tag: the attributes in list order, then the
    /// viewbox. Both serializers go through here.
    fn open_tag(&self) -> (r: String)
        ensures
            r@ == self.open_text(),
    {
        let ghost base = Seq::new(
            self.attrs@.len(),
            |i: int| (self.attrs@[i].0@, self.attrs@[i].1@),
        );
        let mut out = String::new();
        out.append("<");
        out.append(self.tag.as_str());
        proof {
            assert(out@ =~= "<"@ + self.tag@);
            assert(base.take(0) =~= Seq::<(Seq<char>, Seq<char>)>::empty());
            assert(out@ + attrs_text(base.take(0)) =~= out@);
        }
        let mut i: usize = 0;
        while i < self.attrs.len()
            invariant
                i <= self.attrs@.len(),
                base == Seq::new(
                    self.attrs@.len(),
                    |k: int| (self.attrs@[k].0@, self.attrs@[k].1@),
                ),
                out@ == "<"@ + self.tag@ + attrs_text(base.take(i as int)),
            decreases self.attrs@.len() - i,
        {
            let ghost pre = out@;
            out.append(" ");
            out.append(self.attrs[i].0.as_str());
            out.append("=\"");
            out.append(self.attrs[i].1.as_str());
            out.append("\"");
            proof {
                let k = self.attrs@[i as int].0@;
                let v = self.attrs@[i as int].1@;
                assert(out@ =~= pre + attr_text(k, v));
                assert(base.take(i + 1) =~= base.take(i as int).push((k, v)));
                lemma_attrs_text_push(base.take(i as int), k, v);
                assert(pre + attr_text(k, v) =~= "<"@ + self.tag@ + (attrs_text(
                    base.take(i as int),
                ) + attr_text(k, v)));
            }
            i += 1;
        }
        proof {
            assert(base.take(self.attrs@.len() as int) =~= base);
        }
        match &self.viewbox {
            Some(vb) => {
                let ghost pre = out@;
                out.append(" ");
                out.append("viewBox");
                out.append("=\"");
                out.append(vb.text.as_str());
                out.append("\"");
                proof {
                    assert(out@ =~= pre + attr_text("viewBox"@, vb.text@));
                    lemma_attrs_text_push(base, "viewBox"@, vb.text@);
                    assert(pre + attr_text("viewBox"@, vb.text@) =~= "<"@ + self.tag@ + (attrs_text(
                        base,
                    ) + attr_text("viewBox"@, vb.text@)));
                }
            },
            None => {},
        }
        out.append(">");
        proof {
            assert(out@ =~= self.open_text());
        }
        out
    }

    /// Renders the tree in one of the two forms: indented when `pretty`
    /// holds, compact otherwise.
    fn render(&self, pretty: bool) -> (r: String)
        ensures
            r@ == if pretty {
                self.indented()
            } else {
                self.compact()
            },
        decreases *self,
    {
        let mut out = self.open_tag();
        let ghost body = if pretty {
            shift_block(self.inner())
        } else if self.content is Content {
            self.content->Content_0@
        } else {
            self.compact_kids(0)
        };
        match &self.content {
            SvgTreeChildren::Content(s) => {
                if pretty {
                    let mut block = String::new();
                    block.append("\n");
                    block.append(s.as_str());
                    block.append("\n");
                    proof {
                        assert(block@ =~= "\n"@ + s@ + "\n"@);
                    }
                    let shifted = indent_block(block.as_str());
                    out.append(shifted.as_str());
                } else {
                    out.append(s.as_str());
                }
            },
            SvgTreeChildren::Children(cs) => {
                if pretty {
                    if cs.len() > 0 {
                        let mut block = String::new();
                        block.append("\n");
                        proof {
                            assert(block@ =~= "\n"@);
                        }
                        let mut i: usize = 0;
                        while i < cs.len()
                            invariant
                                0 < cs@.len(),
                                i <= cs@.len(),
                                cs@ == self.kids(),
                                block@ + (if i == 0 {
                                    self.ind_kids(0)
                                } else if (i as int) < cs@.len() {
                                    "\n"@ + self.ind_kids(i as int)
                                } else {
                                    Seq::<char>::empty()
                                }) == "\n"@ + self.ind_kids(0),
                            decreases cs@.len() - i,
                        {
                            let ghost pre = block@;
                            if i > 0 {
                                block.append("\n");
                            }
                            let child = &cs[i];
                            let rendered = child.render(true);
                            block.append(rendered.as_str());
                            proof {
                                let sep: Seq<char> = if i == 0 {
                                    Seq::<char>::empty()
                                } else {
                                    "\n"@
                                };
                                assert(block@ =~= pre + sep + self.kids()[i as int].indented());
                                if i + 1 < cs@.len() {
                                    assert(pre + sep + self.kids()[i as int].indented() + ("\n"@
                                        + self.ind_kids(i as int + 1)) =~= pre + (sep + (
                                    self.kids()[i as int].indented() + ("\n"@ + self.ind_kids(
                                        i as int + 1,
                                    )))));
                                    assert(sep + self.ind_kids(i as int) =~= sep + (
                                    self.kids()[i as int].indented() + ("\n"@ + self.ind_kids(
                                        i as int + 1,
                                    ))));
                                    assert(pre + (sep + self.ind_kids(i as int)) =~= pre + sep
                                        + self.ind_kids(i as int));
                                } else {
                                    assert(self.ind_kids(i as int) =~= self.kids()[i as int].indented()
                                        + Seq::<char>::empty());
                                    assert(pre + sep + self.kids()[i as int].indented() =~= pre + (sep
                                        + self.ind_kids(i as int)));
                                    assert(pre + (sep + self.ind_kids(i as int)) =~= pre + sep
                                        + self.ind_kids(i as int));
                                }
                            }
                            i += 1;
                        }
                        block.append("\n");
                        proof {
                            assert(block@ =~= self.inner());
                        }
                        let shifted = indent_block(block.as_str());
                        out.append(shifted.as_str());
                    } else {
                        proof {
                            assert(self.inner() == Seq::<char>::empty());
                            assert(shift_block(self.inner()) =~= Seq::<char>::empty());
                            assert(out@ + shift_block(self.inner()) =~= out@);
                        }
                    }
                } else {
                    let mut i: usize = 0;
                    proof {
                        assert(out@ + self.compact_kids(0) =~= self.open_text() + self.compact_kids(
                            0,
                        ));
                    }
                    while i < cs.len()
                        invariant
                            i <= cs@.len(),
                            cs@ == self.kids(),
                            out@ + self.compact_kids(i as int) == self.open_text()
                                + self.compact_kids(0),
                        decreases cs@.len() - i,
                    {
                        let ghost pre = out@;
                        let child = &cs[i];
                        let rendered = child.render(false);
                        out.append(rendered.as_str());
                        proof {
                            assert(pre + (self.kids()[i as int].compact() + self.compact_kids(
                                i as int + 1,
                            )) =~= pre + self.kids()[i as int].compact() + self.compact_kids(
                                i as int + 1,
                            ));
                        }
                        i += 1;
                    }
                    proof {
                        assert(self.compact_kids(cs@.len() as int) =~= Seq::<char>::empty());
                        assert(out@ + Seq::<char>::empty() =~= out@);
                    }
                }
            },
        }
        proof {
            assert(out@ =~= self.open_text() + body);
        }
        out.append("</");
        out.append(self.tag.as_str());
        out.append(">");
        proof {
            assert(out@ =~= self.open_text() + body + ("</"@ + self.tag@ + ">"@));
            assert(self.open_text() + body + ("</"@ + self.tag@ + ">"@) =~= self.open_text() + body
                + self.close_text());
        }
        out
    }

    /// The compact, single-line rendering of the tree.
    pub fn to_compact(&self) -> (r: String)
        ensures
            r@ == self.compact(),
    {
        self.render(false)
    }

    /// The indented, multi-line rendering of the tree: two more spaces for
    /// each nesting level.
    pub fn to_indented(&self) -> (r: String)
        ensures
            r@ == self.indented(),
    {
        self.render(true)
    }
}

} // verus!
