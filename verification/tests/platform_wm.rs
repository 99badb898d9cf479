use clogwench::color::{ARGBColor, PixelLayout};
use clogwench::geom::{Point, Rect};
use clogwench::graphics::GFXBuffer;
use clogwench::platform::{frame_ops, mouse_input, outline_rects, platform_step, DrawOp, Gesture, PlatAction, PlatformWm, KEY_ESCAPE};
use clogwench::protocol::{
    APICommand, AppDisconnected, DebugMessage, DrawImageCommand, DrawRectCommand, HelloAppResponse, KeyDownEvent, MouseButton,
    MouseDownEvent, MouseMoveEvent, MouseUpEvent, OpenWindowResponse,
};

fn fresh() -> PlatformWm {
    PlatformWm::init()
}

fn open(p: &mut PlatformWm, app: u128, win: u128, x: i32, y: i32) -> Vec<PlatAction> {
    platform_step(
        p,
        APICommand::OpenWindowResponse(OpenWindowResponse {
            app_id: app,
            window_id: win,
            window_type: "plain".to_string(),
            window_title: "t".to_string(),
            bounds: Rect::from_ints(x, y, 20, 20),
        }),
    )
}

fn mouse_move(x: i32, y: i32) -> APICommand {
    APICommand::MouseMove(MouseMoveEvent { app_id: 0, window_id: 0, original_timestamp: 0, button: MouseButton::Primary, x, y })
}

#[test]
fn windows_open_and_register() {
    let mut p = fresh();
    assert!(open(&mut p, 1, 10, 0, 0).is_empty());
    assert!(platform_step(&mut p, APICommand::AppConnectResponse(HelloAppResponse { app_id: 1 })).is_empty());
    let out = open(&mut p, 1, 10, 0, 0);
    assert!(matches!(out[..], [PlatAction::RegisterImage(10)]));
    let out = platform_step(
        &mut p,
        APICommand::DrawRectCommand(DrawRectCommand {
            app_id: 1,
            window_id: 10,
            rect: Rect::from_ints(0, 0, 2, 2),
            color: ARGBColor::new_rgb(1, 2, 3),
        }),
    );
    assert!(out.is_empty());
    let win = p.state.lookup_window(10).unwrap();
    assert_eq!(win.backbuffer.get_pixel_vec_argb(1, 1), vec![255, 1, 2, 3]);
    assert_eq!(win.backbuffer.get_pixel_vec_argb(2, 2), vec![255, 255, 128, 0]);
    let mut img = GFXBuffer::new(1, 1, &PixelLayout::ARGB());
    img.clear(&ARGBColor::new_rgb(9, 9, 9));
    platform_step(
        &mut p,
        APICommand::DrawImageCommand(DrawImageCommand { app_id: 1, window_id: 10, rect: Rect::from_ints(5, 5, 2, 1), buffer: img }),
    );
    let win = p.state.lookup_window(10).unwrap();
    assert_eq!(win.backbuffer.get_pixel_vec_argb(6, 5), vec![255, 9, 9, 9]);
    assert_eq!(win.backbuffer.get_pixel_vec_argb(6, 6), vec![255, 255, 128, 0]);
}

#[test]
fn title_bar_press_drags_the_window() {
    let mut p = fresh();
    platform_step(&mut p, APICommand::AppConnectResponse(HelloAppResponse { app_id: 1 }));
    open(&mut p, 1, 10, 100, 100);
    // The title bar starts 5 pixels in and is 10 pixels tall.
    let out = platform_step(&mut p, APICommand::MouseDown(MouseDownEvent::init_primary(110, 108, 1)));
    assert_eq!(out.len(), 1);
    assert!(matches!(&out[0], PlatAction::Send(0, APICommand::Debug(DebugMessage::WindowFocusChanged(t))) if t == "foo"));
    assert!(matches!(&p.gesture, Gesture::Drag(g) if g.winid == 10));
    assert_eq!(*p.state.get_focused_window(), Some(10));
    platform_step(&mut p, mouse_move(40, 50));
    assert_eq!(p.cursor, Point::init(40, 50));
    assert_eq!(p.state.lookup_window(10).unwrap().position, Point::init(40, 50));
    platform_step(&mut p, APICommand::MouseUp(MouseUpEvent { app_id: 0, window_id: 0, original_timestamp: 0, button: MouseButton::Primary, x: 40, y: 50 }));
    assert!(matches!(p.gesture, Gesture::NoOp(_)));
    platform_step(&mut p, mouse_move(0, 0));
    assert_eq!(p.state.lookup_window(10).unwrap().position, Point::init(40, 50));
}

#[test]
fn content_press_goes_to_the_app() {
    let mut p = fresh();
    platform_step(&mut p, APICommand::AppConnectResponse(HelloAppResponse { app_id: 1 }));
    open(&mut p, 1, 10, 0, 0);
    let out = platform_step(&mut p, APICommand::MouseDown(MouseDownEvent::init_primary(10, 20, 5)));
    assert_eq!(out.len(), 2);
    match &out[0] {
        PlatAction::Send(1, APICommand::MouseDown(e)) => {
            assert_eq!((e.app_id, e.window_id, e.x, e.y, e.original_timestamp), (1, 10, 10, 20, 5));
        },
        _ => panic!("unexpected action"),
    }
    assert!(matches!(p.gesture, Gesture::NoOp(_)));
    let out = platform_step(&mut p, APICommand::MouseDown(MouseDownEvent::init_primary(500, 500, 6)));
    assert!(matches!(&out[..], [PlatAction::Send(0, APICommand::Debug(DebugMessage::BackgroundReceivedMouseEvent))]));
}

#[test]
fn keys_go_to_the_focused_window() {
    let mut p = fresh();
    platform_step(&mut p, APICommand::AppConnectResponse(HelloAppResponse { app_id: 1 }));
    open(&mut p, 1, 10, 0, 0);
    let key = |code: u32| {
        APICommand::KeyDown(KeyDownEvent { app_id: 0, window_id: 0, original_timestamp: 3, code, key: "a".to_string() })
    };
    assert!(platform_step(&mut p, key(65)).is_empty());
    p.state.set_focused_window(10);
    let out = platform_step(&mut p, key(65));
    match &out[..] {
        [PlatAction::Send(1, APICommand::KeyDown(e))] => {
            assert_eq!((e.app_id, e.window_id, e.code, e.original_timestamp), (1, 10, 65, 3));
            assert_eq!(e.key, "a");
        },
        _ => panic!("key not forwarded"),
    }
    let out = platform_step(&mut p, key(KEY_ESCAPE));
    assert!(matches!(&out[..], [PlatAction::Send(0, APICommand::Debug(DebugMessage::RequestServerShutdown)), PlatAction::Quit]));
    assert!(matches!(platform_step(&mut p, APICommand::SystemShutdown)[..], [PlatAction::Quit]));
}

#[test]
fn frame_draws_windows_then_cursor() {
    let mut p = fresh();
    platform_step(&mut p, APICommand::AppConnectResponse(HelloAppResponse { app_id: 1 }));
    open(&mut p, 1, 10, 0, 0);
    open(&mut p, 1, 11, 50, 50);
    p.state.set_focused_window(11);
    let ops = frame_ops(&p.state, None, Point::init(7, 8));
    assert_eq!(ops.len(), 10);
    assert!(matches!(ops[0], DrawOp::Clear));
    match &ops[1] {
        DrawOp::Outline(r, c, w) => {
            assert_eq!(*r, Rect::from_ints(0, 0, 30, 40));
            assert_eq!(*c, ARGBColor::new_rgb(255, 0, 0));
            assert_eq!(*w, 5);
        },
        _ => panic!("expected an outline"),
    }
    assert!(matches!(&ops[2], DrawOp::Fill(r, _) if *r == Rect::from_ints(5, 5, 20, 10)));
    assert!(matches!(&ops[3], DrawOp::Fill(r, c) if *r == Rect::from_ints(5, 15, 20, 20) && *c == ARGBColor::new_rgb(255, 0, 255)));
    assert!(matches!(&ops[4], DrawOp::Backbuffer(0, pt) if *pt == Point::init(5, 15)));
    assert!(matches!(&ops[5], DrawOp::Outline(_, c, _) if *c == ARGBColor::new_rgb(255, 200, 200)));
    assert!(matches!(&ops[6], DrawOp::Fill(_, c) if *c == ARGBColor::new_rgb(200, 255, 200)));
    assert!(matches!(&ops[8], DrawOp::Backbuffer(1, pt) if *pt == Point::init(55, 65)));
    assert!(matches!(&ops[9], DrawOp::Cursor(pt) if *pt == Point::init(7, 8)));
}

#[test]
fn mouse_input_reports_press_release_and_movement() {
    let mut down = false;
    match mouse_input(&mut down, false, 3, 4) {
        APICommand::MouseMove(m) => assert_eq!((m.x, m.y, m.original_timestamp), (3, 4, 0)),
        other => panic!("expected a movement, got {:?}", other),
    }
    assert!(!down);
    match mouse_input(&mut down, true, 5, 6) {
        APICommand::MouseDown(m) => assert_eq!((m.x, m.y, m.app_id, m.window_id), (5, 6, 0, 0)),
        other => panic!("expected a press, got {:?}", other),
    }
    assert!(down);
    assert!(matches!(mouse_input(&mut down, true, 7, 8), APICommand::MouseMove(_)));
    match mouse_input(&mut down, false, 9, 10) {
        APICommand::MouseUp(m) => assert_eq!((m.x, m.y), (9, 10)),
        other => panic!("expected a release, got {:?}", other),
    }
    assert!(!down);
}

#[test]
fn platform_wm_starts_empty() {
    let wm = PlatformWm::init();
    assert!(wm.state.window_list().is_empty());
    assert!(wm.state.get_focused_window().is_none());
    assert_eq!(wm.cursor, Point::init(0, 0));
}

#[test]
fn exit_button_press_shuts_the_system_down() {
    let mut p = PlatformWm::with_exit_button(800, 600);
    assert_eq!(p.exit_button, Some(Rect::from_ints(760, 580, 40, 20)));
    platform_step(&mut p, APICommand::AppConnectResponse(HelloAppResponse { app_id: 1 }));
    open(&mut p, 1, 10, 0, 0);
    let out = platform_step(&mut p, APICommand::MouseDown(MouseDownEvent::init_primary(770, 590, 1)));
    assert!(matches!(&out[..], [PlatAction::Send(0, APICommand::Debug(DebugMessage::RequestServerShutdown)), PlatAction::Quit]));
    assert!(matches!(p.gesture, Gesture::NoOp(_)));
    let out = platform_step(&mut p, APICommand::MouseDown(MouseDownEvent::init_primary(700, 590, 2)));
    assert!(matches!(&out[..], [PlatAction::Send(0, APICommand::Debug(DebugMessage::BackgroundReceivedMouseEvent))]));
}

#[test]
fn frame_draws_exit_button_before_cursor() {
    let p = PlatformWm::with_exit_button(800, 600);
    let ops = frame_ops(&p.state, p.exit_button, Point::init(1, 2));
    assert_eq!(ops.len(), 3);
    assert!(matches!(ops[0], DrawOp::Clear));
    assert!(matches!(&ops[1], DrawOp::Fill(r, c) if *r == Rect::from_ints(760, 580, 40, 20) && *c == ARGBColor::new_rgb(255, 0, 255)));
    assert!(matches!(&ops[2], DrawOp::Cursor(pt) if *pt == Point::init(1, 2)));
}

#[test]
fn outline_is_four_bands() {
    let parts = outline_rects(Rect::from_ints(10, 20, 30, 40), 5);
    assert_eq!(
        parts,
        vec![
            Rect::from_ints(10, 20, 5, 40),
            Rect::from_ints(35, 20, 5, 40),
            Rect::from_ints(10, 20, 30, 5),
            Rect::from_ints(10, 55, 30, 5),
        ]
    );
}

#[test]
fn disconnected_app_loses_its_windows() {
    let mut p = fresh();
    platform_step(&mut p, APICommand::AppConnectResponse(HelloAppResponse { app_id: 1 }));
    platform_step(&mut p, APICommand::AppConnectResponse(HelloAppResponse { app_id: 2 }));
    open(&mut p, 1, 10, 0, 0);
    open(&mut p, 2, 20, 50, 50);
    assert_eq!(p.state.window_list().len(), 2);
    let out = platform_step(&mut p, APICommand::AppDisconnected(AppDisconnected { app_id: 1 }));
    assert!(out.is_empty());
    assert!(p.state.lookup_window(10).is_none());
    assert!(p.state.lookup_window(20).is_some());
    assert_eq!(p.state.window_list().len(), 1);
}
