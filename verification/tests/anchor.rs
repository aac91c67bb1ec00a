use console_ui::layout::anchor::{AnchorLayout, Edge};
use console_ui::widget::Panel;

#[test]
fn basic_constraint_resolution() {
    let mut layout = AnchorLayout::new(80, 24);
    let a = layout.add(Box::new(Panel::new().title("A")), Some((20, 5)));

    layout.constrain(a, Edge::Top, AnchorLayout::container(), Edge::Top, 2);
    layout.constrain(a, Edge::Left, AnchorLayout::container(), Edge::Left, 4);
    layout.resolve();

    let rect = layout.rect_of(a);
    assert_eq!(rect.y, 2);
    assert_eq!(rect.x, 4);
    assert_eq!(rect.width, 20);
    assert_eq!(rect.height, 5);
}

#[test]
fn daisy_chain_below() {
    let mut layout = AnchorLayout::new(80, 40);
    let a = layout.add(Box::new(Panel::new().title("A")), Some((30, 5)));
    let b = layout.add(Box::new(Panel::new().title("B")), Some((30, 5)));
    let c = layout.add(Box::new(Panel::new().title("C")), Some((30, 5)));

    layout.constrain(a, Edge::Top, AnchorLayout::container(), Edge::Top, 1);
    layout.constrain(a, Edge::Left, AnchorLayout::container(), Edge::Left, 1);
    layout.below(b, a, 1);
    layout.below(c, b, 1);

    layout.resolve();

    let ra = layout.rect_of(a);
    let rb = layout.rect_of(b);
    let rc = layout.rect_of(c);

    assert_eq!(ra.y, 1);
    assert_eq!(rb.y, ra.y + ra.height + 1);
    assert_eq!(rc.y, rb.y + rb.height + 1);
    assert_eq!(ra.x, rb.x); // left-aligned
    assert_eq!(rb.x, rc.x);
}

#[test]
fn fill_constraint() {
    let mut layout = AnchorLayout::new(80, 24);
    let a = layout.add(Box::new(Panel::new().title("Fill")), None);
    layout.fill(a, 2);
    layout.resolve();

    let r = layout.rect_of(a);
    assert_eq!(r.x, 2);
    assert_eq!(r.y, 2);
    assert_eq!(r.width, 80 - 4);
    assert_eq!(r.height, 24 - 4);
}

#[test]
fn centre_h() {
    let mut layout = AnchorLayout::new(80, 24);
    let a = layout.add(Box::new(Panel::new().title("Centred")), Some((20, 5)));
    layout.constrain_centre_h(a);
    layout.resolve();

    let r = layout.rect_of(a);
    assert_eq!(r.x, 30); // (80 - 20) / 2
    assert_eq!(r.width, 20);
}

#[test]
fn unconstrained_widget_sits_at_origin_with_preferred_size() {
    let mut layout = AnchorLayout::new(80, 24);
    let a = layout.add(Box::new(Panel::new().title("Free")), Some((17, 6)));
    let b = layout.add(Box::new(Panel::new().title("Other")), Some((10, 3)));
    layout.fill(b, 1);
    let r = layout.rect_of(a);
    assert_eq!((r.x, r.y, r.width, r.height), (0, 0, 17, 6));
}

#[test]
fn fill_without_margin_is_the_container_box() {
    let mut layout = AnchorLayout::new(57, 13);
    let a = layout.add(Box::new(Panel::new()), Some((4, 4)));
    layout.fill(a, 0);
    let r = layout.rect_of(a);
    assert_eq!((r.x, r.y, r.width, r.height), (0, 0, 57, 13));
}

#[test]
fn right_of_places_past_the_right_edge() {
    let mut layout = AnchorLayout::new(80, 24);
    let a = layout.add(Box::new(Panel::new().title("A")), Some((12, 4)));
    let b = layout.add(Box::new(Panel::new().title("B")), Some((8, 4)));
    layout.constrain(a, Edge::Top, AnchorLayout::container(), Edge::Top, 3);
    layout.constrain(a, Edge::Left, AnchorLayout::container(), Edge::Left, 5);
    layout.right_of(b, a, 2);
    let ra = layout.rect_of(a);
    let rb = layout.rect_of(b);
    assert_eq!(rb.x, ra.x + ra.width + 2);
    assert_eq!(rb.x, 19);
    assert_eq!(rb.y, ra.y);
}

#[test]
fn align_left_and_right_share_edges() {
    let mut layout = AnchorLayout::new(80, 24);
    let a = layout.add(Box::new(Panel::new().title("A")), Some((30, 4)));
    let b = layout.add(Box::new(Panel::new().title("B")), Some((10, 4)));
    let c = layout.add(Box::new(Panel::new().title("C")), Some((10, 4)));
    layout.constrain(a, Edge::Top, AnchorLayout::container(), Edge::Top, 0);
    layout.constrain(a, Edge::Left, AnchorLayout::container(), Edge::Left, 6);
    layout.align_left(b, a);
    layout.align_right(c, a);
    let ra = layout.rect_of(a);
    let rb = layout.rect_of(b);
    let rc = layout.rect_of(c);
    assert_eq!(rb.x, ra.x);
    assert_eq!(rb.x, 6);
    assert_eq!(rc.x + rc.width, ra.x + ra.width);
    assert_eq!(rc.x, 26);
}

#[test]
fn try_resolve_reports_edges_beyond_i16() {
    let mut layout = AnchorLayout::new(100, 10);
    let a = layout.add(Box::new(Panel::new()), Some((30000, 5)));
    layout.constrain(a, Edge::Left, AnchorLayout::container(), Edge::Right, 30000);
    assert!(!layout.try_resolve());
    assert!(layout.try_rect_of(a).is_none());
    assert!(!layout.renderable());
}

#[test]
fn try_rect_of_matches_rect_of_when_it_fits() {
    let mut layout = AnchorLayout::new(80, 24);
    let a = layout.add(Box::new(Panel::new()), Some((20, 5)));
    layout.constrain(a, Edge::Top, AnchorLayout::container(), Edge::Top, 2);
    layout.constrain(a, Edge::Left, AnchorLayout::container(), Edge::Left, 4);
    assert!(layout.renderable());
    let r = layout.try_rect_of(a).unwrap();
    assert_eq!((r.x, r.y, r.width, r.height), (4, 2, 20, 5));
    assert!(layout.try_resolve());
}
