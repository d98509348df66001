use stretch::geometry::Size;
use stretch::node::Node;
use stretch::node::Stretch;
use stretch::number::Number;
use titik::Button;
use titik::Control;
use titik::FlexBox;
use titik::LayoutTree;
use titik::Rect;
use titik::StyleNode;

fn to_stretch_dim(d: titik::style::Dimension) -> stretch::style::Dimension {
    match d {
        titik::style::Dimension::Undefined => stretch::style::Dimension::Undefined,
        titik::style::Dimension::Auto => stretch::style::Dimension::Auto,
        titik::style::Dimension::Points(p) => stretch::style::Dimension::Points(p as f32),
        titik::style::Dimension::Percent(p) => stretch::style::Dimension::Percent(p as f32 / 100.0),
    }
}

fn to_stretch_style(s: &titik::style::Style) -> stretch::style::Style {
    stretch::style::Style {
        size: Size { width: to_stretch_dim(s.width), height: to_stretch_dim(s.height) },
        min_size: Size {
            width: to_stretch_dim(s.min_width),
            height: to_stretch_dim(s.min_height),
        },
        flex_direction: match s.flex_direction {
            titik::style::FlexDirection::Row => stretch::style::FlexDirection::Row,
            titik::style::FlexDirection::Column => stretch::style::FlexDirection::Column,
        },
        ..Default::default()
    }
}

fn build_node(st: &mut Stretch, sn: &StyleNode) -> Node {
    let mut children: Vec<Node> = Vec::new();
    for c in sn.children.iter() {
        children.push(build_node(st, c));
    }
    st.new_node(to_stretch_style(&sn.style), children).unwrap()
}

fn clamp0(v: f32) -> usize {
    if v <= 0.0 {
        0
    } else {
        v.round() as usize
    }
}

fn read_layout(st: &Stretch, node: Node, ox: f32, oy: f32) -> LayoutTree {
    let l = *st.layout(node).unwrap();
    let ax = ox + l.location.x;
    let ay = oy + l.location.y;
    let mut children_layout: Vec<LayoutTree> = Vec::new();
    for ch in st.children(node).unwrap() {
        children_layout.push(read_layout(st, ch, ax, ay));
    }
    LayoutTree {
        layout: Rect {
            x: clamp0(ax),
            y: clamp0(ay),
            width: clamp0(l.size.width),
            height: clamp0(l.size.height),
        },
        children_layout,
    }
}

fn compute_layout(root: &Control, width: usize, height: usize) -> LayoutTree {
    let sn = titik::style_tree(root);
    let mut st = Stretch::new();
    let node = build_node(&mut st, &sn);
    st.compute_layout(
        node,
        Size {
            width: Number::Defined(width as f32),
            height: Number::Defined(height as f32),
        },
    )
    .unwrap();
    read_layout(&st, node, 0.0, 0.0)
}

#[test]
fn layout() {
    let mut control = FlexBox::new();
    control.horizontal();
    let mut btn = Button::new("Hello");
    btn.set_size(Some(30), Some(34));

    control.add_child(Control::Button(btn));

    let mut btn = Button::new("world");
    btn.set_size(Some(20), Some(10));
    control.add_child(Control::Button(btn));

    let root = Control::FlexBox(control);
    let layout_tree = compute_layout(&root, 100, 100);

    let layout1 = &layout_tree.children_layout[1].layout;
    assert_eq!((layout1.width, layout1.height), (20, 10));
    assert_eq!((layout1.x, layout1.y), (30, 0));
}

#[test]
fn layout2() {
    let mut control = FlexBox::new();
    control.vertical();

    let mut btn1 = Button::new("Hello");
    btn1.set_size(Some(100), Some(20));

    control.add_child(Control::Button(btn1));

    let mut btn2 = Button::new("world");
    btn2.set_size(Some(20), Some(10));

    let mut btn3 = Button::new("world");
    btn3.set_size(Some(20), Some(10));

    let mut hrow = FlexBox::new();
    hrow.horizontal();

    hrow.add_child(Control::Button(btn2));
    hrow.add_child(Control::Button(btn3));

    control.add_child(Control::FlexBox(hrow));

    let root = Control::FlexBox(control);
    let layout_tree = compute_layout(&root, 100, 100);

    println!("{:#?}", layout_tree);

    let layout_btn2 = &layout_tree.children_layout[1].children_layout[1].layout;
    assert_eq!((layout_btn2.x, layout_btn2.y), (20, 20));
}

#[test]
fn deepest_node_wins_the_hit() {
    // An outer rectangle strictly containing an inner one: the inner
    // node's index is returned, never the outer's.
    let inner = LayoutTree {
        layout: Rect { x: 2, y: 2, width: 4, height: 4 },
        children_layout: vec![],
    };
    let outer = LayoutTree {
        layout: Rect { x: 0, y: 0, width: 10, height: 10 },
        children_layout: vec![inner],
    };
    assert_eq!(titik::node_index_at(&outer, 3, 3), Some(1));
    assert_eq!(titik::node_index_at(&outer, 1, 1), Some(0));
    assert_eq!(titik::node_index_at(&outer, 11, 1), None);
}

#[test]
fn hit_all_is_root_first() {
    let inner = LayoutTree {
        layout: Rect { x: 2, y: 2, width: 4, height: 4 },
        children_layout: vec![],
    };
    let outer = LayoutTree {
        layout: Rect { x: 0, y: 0, width: 10, height: 10 },
        children_layout: vec![inner],
    };
    assert_eq!(titik::hit_all(&outer, 3, 3), vec![0, 1]);
    assert_eq!(titik::hit_all(&outer, 1, 1), vec![0]);
    assert_eq!(titik::hit_all(&outer, 12, 12), Vec::<usize>::new());
}

#[test]
fn rect_at_walks_preorder() {
    let a = LayoutTree {
        layout: Rect { x: 0, y: 0, width: 5, height: 5 },
        children_layout: vec![],
    };
    let b = LayoutTree {
        layout: Rect { x: 5, y: 0, width: 5, height: 5 },
        children_layout: vec![],
    };
    let root = LayoutTree {
        layout: Rect { x: 0, y: 0, width: 10, height: 5 },
        children_layout: vec![a, b],
    };
    assert_eq!(titik::rect_at(&root, 2).map(|r| (r.x, r.width)), Some((5, 5)));
    assert!(titik::rect_at(&root, 3).is_none());
}
