use clogwench::color::{ARGBColor, PixelLayout};
use clogwench::font::{FontInfo2, GlyphInfo};
use clogwench::geom::{Point, Size};
use clogwench::graphics::GFXBuffer;
use clogwench::protocol::MouseButton;
use clogwench::toolkit::{
    button_input, hbox_layout, BaseUIView, ClickEvent, EventDirection, EventType, LayoutContext, PaintContext,
    can_route_pointer, route_pointer, ActionButton, HBox, HSpacer, Label, Paint, PointerEvent, PointerRouting,
    ViewNode,
};
use clogwench::protocol::{APICommand, MouseDownEvent, MouseUpEvent};

fn glyph(id: u32, width: i32, height: i32, data: Vec<u32>, left: i32, right: i32) -> GlyphInfo {
    GlyphInfo {
        id,
        name: "g".to_string(),
        width,
        height,
        baseline: 0,
        data,
        ascent: 0,
        descent: 0,
        left,
        right,
    }
}

#[test]
fn text_is_drawn_glyph_by_glyph() {
    // 'A' is a 2x2 diagonal, 'B' a 3x1 bar whose first column is cut.
    let font = FontInfo2 {
        name: "tiny".to_string(),
        glyphs: vec![glyph(65, 2, 2, vec![1, 0, 0, 1], 0, 0), glyph(66, 3, 1, vec![1, 1, 1], 1, 0)],
    };
    let mut buf = GFXBuffer::new(10, 4, &PixelLayout::ARGB());
    let ink = ARGBColor::new_rgb(0, 255, 0);
    font.draw_text_at(&mut buf, "AB?A", 1, 1, &ink);
    let on = vec![255, 0, 255, 0];
    let off = vec![0, 0, 0, 0];
    // 'A' at pen 1, then the pen moves 3 to 4; 'B' inks columns 1 and 2 of
    // its glyph, so x = 5 and 6, and moves the pen 3 to 7; '?' has no glyph;
    // 'A' again at 7.
    assert_eq!(buf.get_pixel_vec_argb(1, 1), on);
    assert_eq!(buf.get_pixel_vec_argb(2, 2), on);
    assert_eq!(buf.get_pixel_vec_argb(2, 1), off);
    assert_eq!(buf.get_pixel_vec_argb(4, 1), off);
    assert_eq!(buf.get_pixel_vec_argb(5, 1), on);
    assert_eq!(buf.get_pixel_vec_argb(6, 1), on);
    assert_eq!(buf.get_pixel_vec_argb(7, 1), on);
    assert_eq!(buf.get_pixel_vec_argb(8, 2), on);
    assert_eq!(buf.get_pixel_vec_argb(8, 1), off);
    assert_eq!(buf.get_pixel_vec_argb(0, 0), off);
}

#[test]
fn text_off_the_buffer_is_skipped() {
    let font = FontInfo2 { name: "tiny".to_string(), glyphs: vec![glyph(65, 1, 1, vec![1], 0, 0)] };
    let mut buf = GFXBuffer::new(2, 2, &PixelLayout::ARGB());
    // The pen stands at -1, 1, 3 and 5: only the second glyph lands inside.
    font.draw_text_at(&mut buf, "AAAA", -1, 0, &ARGBColor::new_rgb(255, 255, 255));
    assert_eq!(buf.get_pixel_vec_argb(1, 0), vec![255, 255, 255, 255]);
    assert_eq!(buf.get_pixel_vec_argb(0, 0), vec![0, 0, 0, 0]);
    assert_eq!(buf.get_pixel_vec_argb(0, 1), vec![0, 0, 0, 0]);
    assert_eq!(buf.get_pixel_vec_argb(1, 1), vec![0, 0, 0, 0]);
}

#[test]
fn hbox_lays_children_left_to_right() {
    let sizes = vec![Size::init(10, 5), Size::init(20, 12), Size::init(7, 3)];
    let (size, positions) = hbox_layout(&Size::init(300, 150), &sizes);
    assert_eq!(size, Size::init(300, 20));
    assert_eq!(positions, vec![Point::init(4, 4), Point::init(14, 4), Point::init(34, 4)]);
    let (empty, none) = hbox_layout(&Size::init(50, 50), &vec![]);
    assert_eq!(empty, Size::init(50, 8));
    assert!(none.is_empty());
}

#[test]
fn button_press_and_release() {
    let mut active = false;
    let mut e = PointerEvent {
        button: MouseButton::Primary,
        etype: EventType::MouseDown,
        position: Point::init(1, 1),
        direction: EventDirection::Down,
    };
    let action = button_input(&mut active, &e).unwrap();
    assert!(active);
    assert_eq!(action.command, "mouse_button");
    e.etype = EventType::MouseMove;
    assert!(button_input(&mut active, &e).is_none());
    assert!(active);
    e.etype = EventType::MouseUp;
    assert!(button_input(&mut active, &e).is_none());
    assert!(!active);
}

#[test]
fn layout_context_measures() {
    let ctx = LayoutContext::new();
    assert_eq!(ctx.standard_label_padding(), 3);
    assert_eq!(ctx.measure_text("anything"), Size::init(10, 10));
    assert_eq!(ctx.button_size("cool button"), Size::init(16, 16));
    let paint = PaintContext::new();
    paint.fill_text("cool button", Point::init(0, 0), &ARGBColor::new_rgb(0, 0, 0));
    let click = ClickEvent::new();
    click.eat();
}

#[test]
fn base_view_moves() {
    let mut v = BaseUIView {
        _id: "id".to_string(),
        _name: "view".to_string(),
        _size: Size::init(5, 6),
        _position: Point::init(0, 0),
        _visible: true,
    };
    v.set_position(&Point::init(7, 8));
    assert_eq!(v.position(), Point::init(7, 8));
    assert_eq!(v.size(), Size::init(5, 6));
    assert_eq!(v.name(), "view");
}

fn view(x: i32, y: i32, w: i32, h: i32, children: Vec<ViewNode>) -> ViewNode {
    ViewNode { position: Point::init(x, y), size: Size::init(w, h), children }
}

fn sample_tree() -> ViewNode {
    let c = view(5, 5, 5, 5, vec![]);
    let a = view(10, 10, 20, 20, vec![]);
    let b = view(40, 10, 20, 20, vec![c]);
    view(0, 0, 100, 50, vec![a, b])
}

#[test]
fn scan_path_follows_the_first_child_under_the_point() {
    let root = sample_tree();
    let p = Point::init(45, 17);
    assert!(root.scan_fits_at(&p));
    assert_eq!(root.scan_path(&p), Some(vec![1, 0]));
    // Inside the root but under no child.
    assert_eq!(root.scan_path(&Point::init(90, 40)), Some(vec![]));
    // Past the root's width.
    assert_eq!(root.scan_path(&Point::init(100, 5)), None);
}

#[test]
fn scan_path_takes_points_before_a_view() {
    // Only the width and height bound what a view takes.
    let root = sample_tree();
    assert_eq!(root.scan_path(&Point::init(-5, -5)), Some(vec![0]));
}

#[test]
fn scan_fits_at_refuses_a_point_that_overflows() {
    let root = view(0, 0, 100, 50, vec![view(10, 0, 5, 5, vec![])]);
    assert!(!root.scan_fits_at(&Point::init(i32::MIN, 0)));
}

fn press(x: i32, y: i32) -> APICommand {
    APICommand::MouseDown(MouseDownEvent {
        app_id: 1,
        window_id: 2,
        original_timestamp: 0,
        button: MouseButton::Primary,
        x,
        y,
    })
}

fn release(x: i32, y: i32) -> APICommand {
    APICommand::MouseUp(MouseUpEvent {
        app_id: 1,
        window_id: 2,
        original_timestamp: 0,
        button: MouseButton::Primary,
        x,
        y,
    })
}

#[test]
fn route_pointer_hands_each_view_the_point_in_its_coordinates() {
    let mut root = sample_tree();
    root.position = Point::init(1, 2);
    let mut down = false;
    let cmd = press(45, 17);
    assert!(can_route_pointer(&root, &cmd));
    match route_pointer(&root, &mut down, &cmd) {
        PointerRouting::Deliver(path, evs) => {
            assert_eq!(path, vec![1, 0]);
            let got: Vec<(i32, i32)> = evs.iter().map(|e| (e.position.x, e.position.y)).collect();
            assert_eq!(got, vec![(44, 15), (4, 5), (-1, 0)]);
            for e in evs.iter() {
                assert_eq!(e.etype, EventType::MouseDown);
                assert_eq!(e.direction, EventDirection::Down);
                assert_eq!(e.button, MouseButton::Primary);
            }
        },
        other => panic!("expected a delivery, got {:?}", other),
    }
    assert!(down);
}

#[test]
fn route_pointer_ignores_a_release_before_a_press() {
    let root = sample_tree();
    let mut down = false;
    assert!(matches!(route_pointer(&root, &mut down, &release(45, 17)), PointerRouting::Ignore));
    assert!(!down);
    route_pointer(&root, &mut down, &press(200, 200));
    assert!(down);
    match route_pointer(&root, &mut down, &release(45, 17)) {
        PointerRouting::Deliver(path, evs) => {
            assert_eq!(path, vec![1, 0]);
            assert_eq!(evs.len(), 3);
            assert_eq!(evs[2].etype, EventType::MouseUp);
        },
        other => panic!("expected a delivery, got {:?}", other),
    }
    assert!(matches!(route_pointer(&root, &mut down, &APICommand::SystemShutdown), PointerRouting::Shutdown));
}

#[test]
fn toolbar_views_start_with_their_defaults() {
    let b = HBox::make();
    assert_eq!((b._id.as_str(), b._name.as_str()), ("hbox-id", "hbox-name"));
    assert_eq!((b._size.w, b._size.h), (200, 20));
    let a = ActionButton::make();
    assert_eq!(a._caption, "no-caption");
    assert_eq!((a._size.w, a._size.h), (50, 15));
    assert!(!a._active);
    let l = Label::make();
    assert_eq!(l._name, "label-name");
    let s = HSpacer::make();
    assert_eq!((s._size.w, s._size.h), (10, 10));
}

#[test]
fn hbox_lays_out_and_paints_its_ground() {
    let mut b = HBox::make();
    let positions = b.layout(&Size::init(300, 100), &vec![Size::init(18, 18), Size::init(10, 30)]);
    assert_eq!((b._size.w, b._size.h), (300, 38));
    let xs: Vec<(i32, i32)> = positions.iter().map(|p| (p.x, p.y)).collect();
    assert_eq!(xs, vec![(4, 4), (22, 4)]);
    match &b.draw()[0] {
        Paint::FillRect(r, c) => {
            assert_eq!((r.x, r.y, r.w, r.h), (0, 0, 300, 38));
            assert_eq!((c.r, c.g, c.b, c.a), (200, 200, 200, 255));
        },
        other => panic!("expected a rectangle, got {:?}", other),
    }
}

#[test]
fn action_button_paints_green_while_pressed() {
    let mut a = ActionButton::make();
    a._caption = String::from("Play");
    assert_eq!(a.layout(Size::init(10, 10)), Size::init(18, 18));
    a._position = Point::init(5, 6);
    let press = PointerEvent {
        button: MouseButton::Primary,
        etype: EventType::MouseDown,
        position: Point::init(1, 1),
        direction: EventDirection::Down,
    };
    let action = a.input(&press).expect("a press asks for the action");
    assert_eq!(action.command, "mouse_button");
    let paint = a.draw();
    match &paint[0] {
        Paint::FillRect(r, c) => {
            assert_eq!((r.x, r.y, r.w, r.h), (5, 6, 18, 18));
            assert_eq!((c.r, c.g, c.b), (0, 255, 0));
        },
        other => panic!("expected a rectangle, got {:?}", other),
    }
    match &paint[1] {
        Paint::FillText(t, at, c) => {
            assert_eq!(t, "Play");
            assert_eq!((at.x, at.y), (6, 7));
            assert_eq!((c.r, c.g, c.b, c.a), (0, 0, 0, 255));
        },
        other => panic!("expected the caption, got {:?}", other),
    }
    let release = PointerEvent { etype: EventType::MouseUp, ..press };
    assert!(a.input(&release).is_none());
    match &a.draw()[0] {
        Paint::FillRect(_, c) => assert_eq!((c.r, c.g, c.b), (255, 255, 255)),
        other => panic!("expected a rectangle, got {:?}", other),
    }
}

#[test]
fn label_and_spacer_layout() {
    let mut l = Label::make();
    l._caption = String::from("cool label");
    assert_eq!(l.layout(Size::init(40, 10)), Size::init(48, 18));
    match &l.draw()[0] {
        Paint::FillText(t, at, _) => {
            assert_eq!(t, "cool label");
            assert_eq!((at.x, at.y), (1, 1));
        },
        other => panic!("expected the caption, got {:?}", other),
    }
    let mut s = HSpacer::make();
    assert_eq!(s.layout(&Size::init(70, 20)), Size::init(70, 20));
}
