use svg_tree::SvgTree;
use svg_tree::SvgTreeChildren;
use svg_tree::ViewBox;

#[test]
fn empty_root() {
    let root = SvgTree::root();
    assert_eq!(
        root.to_compact(),
        r#"
<svg preserveAspectRatio="xMidYMid meet" xmlns="http://www.w3.org/2000/svg" viewBox="0 0 0 0"></svg>
"#
        .trim()
    );
    assert_eq!(
        root.to_indented(),
        r#"
<svg preserveAspectRatio="xMidYMid meet" xmlns="http://www.w3.org/2000/svg" viewBox="0 0 0 0"></svg>
"#
        .trim()
    );
}

#[test]
fn just_leaf() {
    let leaf = SvgTree::leaf("abc", "def");
    assert_eq!(
        leaf.to_compact(),
        r#"
<abc>def</abc>
"#
        .trim()
    );
    assert_eq!(
        leaf.to_indented(),
        r#"
<abc>
  def
</abc>
"#
        .trim()
    );
}

#[test]
fn small_tree() {
    let svg = SvgTree::root()
        .add(SvgTree::leaf("abc", "def"))
        .add(SvgTree::leaf("hij", "lmnop"));

    assert_eq!(
        svg.to_compact(),
        r#"
<svg preserveAspectRatio="xMidYMid meet" xmlns="http://www.w3.org/2000/svg" viewBox="0 0 0 0"><abc>def</abc><hij>lmnop</hij></svg>
"#
        .trim()
    );
    assert_eq!(
        svg.to_indented(),
        r#"
<svg preserveAspectRatio="xMidYMid meet" xmlns="http://www.w3.org/2000/svg" viewBox="0 0 0 0">
  <abc>
    def
  </abc>
  <hij>
    lmnop
  </hij>
</svg>
"#
        .trim()
    );
}

#[test]
fn attributes_in_key_order_and_viewbox_last() {
    // "viewBox" starts with an upper-case letter and would sort before the
    // lower-case keys, yet it is rendered last.
    let node = SvgTree {
        tag: String::from("t"),
        content: SvgTreeChildren::Content(String::from("x")),
        attrs: vec![
            (String::from("a"), String::from("1")),
            (String::from("b"), String::from("2")),
            (String::from("z"), String::from("3")),
        ],
        id: None,
        viewbox: Some(ViewBox::new(String::from("1 2 3 4"))),
    };
    assert_eq!(
        node.to_compact(),
        "<t a=\"1\" b=\"2\" z=\"3\" viewBox=\"1 2 3 4\">x</t>"
    );
}

#[test]
fn rendering_twice_gives_the_same_text() {
    let svg = SvgTree::root().add(SvgTree::leaf("abc", "def"));
    assert_eq!(svg.to_compact(), svg.to_compact());
    assert_eq!(svg.to_indented(), svg.to_indented());
}

#[test]
fn empty_children_collapse_to_one_line() {
    let group = SvgTree {
        tag: String::from("g"),
        content: SvgTreeChildren::Children(vec![]),
        attrs: vec![],
        id: None,
        viewbox: None,
    };
    assert_eq!(group.to_compact(), "<g></g>");
    assert_eq!(group.to_indented(), "<g></g>");

    let root = SvgTree::root();
    assert_eq!(root.to_compact(), root.to_indented());
}

#[test]
fn append_to_text_node_changes_nothing() {
    let leaf = SvgTree::leaf("abc", "def");
    let compact_before = leaf.to_compact();
    let indented_before = leaf.to_indented();
    let leaf = leaf.add(SvgTree::leaf("hij", "lmnop"));
    assert_eq!(leaf.to_compact(), compact_before);
    assert_eq!(leaf.to_indented(), indented_before);
}

#[test]
fn empty_text_still_gets_a_content_line() {
    let leaf = SvgTree::leaf("t", "");
    assert_eq!(leaf.to_compact(), "<t></t>");
    assert_eq!(leaf.to_indented(), "<t>\n\n</t>");
}

#[test]
fn multi_line_text_is_indented_line_by_line() {
    let leaf = SvgTree::leaf("t", "a\nb");
    assert_eq!(leaf.to_compact(), "<t>a\nb</t>");
    assert_eq!(leaf.to_indented(), "<t>\n  a\n  b\n</t>");
}

#[test]
fn blank_lines_stay_empty_instead_of_indented() {
    let leaf = SvgTree::leaf("t", "a\n   \nb");
    assert_eq!(leaf.to_indented(), "<t>\n  a\n\n  b\n</t>");
}

#[test]
fn carriage_return_before_newline_is_dropped_when_indenting() {
    let leaf = SvgTree::leaf("t", "a\r\nb");
    assert_eq!(leaf.to_compact(), "<t>a\r\nb</t>");
    assert_eq!(leaf.to_indented(), "<t>\n  a\n  b\n</t>");
}

#[test]
fn nesting_indents_two_spaces_per_level() {
    let group = SvgTree {
        tag: String::from("g"),
        content: SvgTreeChildren::Children(vec![]),
        attrs: vec![],
        id: None,
        viewbox: None,
    }
    .add(SvgTree::leaf("abc", "def"));
    let svg = SvgTree::root().add(group);
    assert_eq!(
        svg.to_indented(),
        r#"
<svg preserveAspectRatio="xMidYMid meet" xmlns="http://www.w3.org/2000/svg" viewBox="0 0 0 0">
  <g>
    <abc>
      def
    </abc>
  </g>
</svg>
"#
        .trim()
    );
}

#[test]
fn id_is_carried_but_not_rendered() {
    let mut leaf = SvgTree::leaf("abc", "def");
    leaf.id = Some(String::from("anchor"));
    assert_eq!(leaf.to_compact(), "<abc>def</abc>");
}

#[test]
fn tag_and_text_are_taken_verbatim() {
    let leaf = SvgTree::leaf("", "");
    assert_eq!(leaf.to_compact(), "<></>");
    let odd = SvgTree::leaf("a b", "<&\"");
    assert_eq!(odd.to_compact(), "<a b><&\"</a b>");
}
