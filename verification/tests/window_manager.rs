use clogwench::color::{ARGBColor, PixelLayout};
use clogwench::geom::{Point, Rect};
use clogwench::graphics::GFXBuffer;
use clogwench::headless::{headless_step, step_allowed, WmAction};
use clogwench::protocol::{
    APICommand, DebugMessage, DrawImageCommand, DrawRectCommand, HelloAppResponse, HelloWindowManagerResponse,
    MouseButton, MouseDownEvent, MouseMoveEvent, MouseUpEvent, OpenWindowResponse,
};
use clogwench::wm::{InputGesture, NoOpGesture, WindowDragGesture, WindowManagerState};

fn open(app: u128, win: u128, x: i32, y: i32, w: i32, h: i32) -> APICommand {
    APICommand::OpenWindowResponse(OpenWindowResponse {
        app_id: app,
        window_id: win,
        window_type: "plain".to_string(),
        window_title: "title".to_string(),
        bounds: Rect::from_ints(x, y, w, h),
    })
}

fn step(st: &mut WindowManagerState, screen: &mut GFXBuffer, cmd: APICommand) -> Vec<WmAction> {
    assert!(step_allowed(st, screen, &cmd));
    headless_step(st, screen, cmd)
}

#[test]
fn windows_are_added_and_found() {
    let mut st = WindowManagerState::init();
    st.add_app(7);
    let id = st.add_window(7, 70, &Rect::from_ints(10, 20, 30, 40));
    assert_eq!(id, 70);
    st.add_window(8, 80, &Rect::from_ints(0, 0, 5, 5));
    assert_eq!(st.window_list().len(), 1);
    let win = st.lookup_window(70).unwrap();
    assert_eq!(win.owner, 7);
    assert_eq!(win.position, Point::init(10, 20));
    assert_eq!(win.backbuffer.width, 30);
    assert_eq!(win.backbuffer.get_pixel_vec_argb(0, 0), vec![255, 255, 128, 0]);
    assert!(st.lookup_window(80).is_none());
    assert_eq!(st.find_first_window().unwrap().id, 70);
}

#[test]
fn window_frame_geometry() {
    let mut st = WindowManagerState::init();
    st.add_app(1);
    st.add_window(1, 2, &Rect::from_ints(100, 50, 200, 100));
    let win = st.lookup_window(2).unwrap();
    assert_eq!(win.external_bounds(), Rect::from_ints(100, 50, 210, 120));
    assert_eq!(win.titlebar_bounds(), Rect::from_ints(105, 55, 200, 10));
    assert_eq!(win.content_bounds(), Rect::from_ints(105, 65, 200, 100));
}

#[test]
fn focus_and_removal() {
    let mut st = WindowManagerState::init();
    st.add_app(1);
    st.add_app(2);
    st.add_window(1, 10, &Rect::from_ints(0, 0, 10, 10));
    st.add_window(2, 20, &Rect::from_ints(50, 50, 10, 10));
    assert!(st.get_focused_window().is_none());
    st.set_focused_window(20);
    assert_eq!(*st.get_focused_window(), Some(20));
    let w = st.pick_window_at(Point::init(55, 55)).unwrap();
    assert_eq!(w.id, 20);
    assert!(st.is_focused_window(w));
    assert!(st.pick_window_at(Point::init(30, 30)).is_none());
    st.remove_app(2);
    assert!(st.lookup_window(20).is_none());
    assert!(st.lookup_window(10).is_some());
    assert_eq!(st.window_list().len(), 1);
}

#[test]
fn drag_gesture_moves_window() {
    let mut st = WindowManagerState::init();
    st.add_app(1);
    st.add_window(1, 10, &Rect::from_ints(0, 0, 10, 10));
    let mut g = WindowDragGesture::init(Point::init(3, 3), 10);
    let down = MouseDownEvent::init_primary(3, 3, 0);
    g.mouse_down(down, &mut st);
    assert_eq!(g.start, Point::init(3, 3));
    let mv = MouseMoveEvent { app_id: 0, window_id: 0, original_timestamp: 0, button: MouseButton::Primary, x: 40, y: 50 };
    g.mouse_move(mv, &mut st);
    assert_eq!(st.lookup_window(10).unwrap().position, Point::init(40, 50));
    let up = MouseUpEvent { app_id: 0, window_id: 0, original_timestamp: 0, button: MouseButton::Primary, x: 60, y: 70 };
    g.mouse_up(up, &mut st);
    assert_eq!(st.lookup_window(10).unwrap().position, Point::init(60, 70));
    let mut noop = NoOpGesture::init();
    noop.mouse_up(up, &mut st);
    assert_eq!(st.lookup_window(10).unwrap().position, Point::init(60, 70));
}

#[test]
fn headless_draws_to_screen() {
    let mut st = WindowManagerState::init();
    let mut screen = GFXBuffer::new(100, 100, &PixelLayout::ARGB());
    screen.clear(&ARGBColor::new_rgb(255, 255, 255));
    assert!(step(&mut st, &mut screen, APICommand::WMConnectResponse(HelloWindowManagerResponse { wm_id: 1 })).is_empty());
    assert!(step(&mut st, &mut screen, APICommand::AppConnectResponse(HelloAppResponse { app_id: 5 })).is_empty());
    assert!(step(&mut st, &mut screen, open(5, 50, 10, 10, 20, 20)).is_empty());
    let red = ARGBColor::new_rgb(255, 0, 0);
    let cmd = APICommand::DrawRectCommand(DrawRectCommand {
        app_id: 5,
        window_id: 50,
        rect: Rect::from_ints(0, 0, 5, 5),
        color: red,
    });
    assert!(step(&mut st, &mut screen, cmd).is_empty());
    let win = st.lookup_window(50).unwrap();
    assert_eq!(win.backbuffer.get_pixel_vec_argb(4, 4), vec![255, 255, 0, 0]);
    assert_eq!(win.backbuffer.get_pixel_vec_argb(5, 5), vec![255, 255, 128, 0]);
    assert_eq!(screen.get_pixel_vec_argb(14, 14), vec![255, 255, 0, 0]);
    assert_eq!(screen.get_pixel_vec_argb(15, 15), vec![255, 255, 128, 0]);
    assert_eq!(screen.get_pixel_vec_argb(9, 9), vec![255, 255, 255, 255]);
    assert_eq!(screen.get_pixel_vec_argb(30, 30), vec![255, 255, 255, 255]);

    let mut img = GFXBuffer::new(2, 2, &PixelLayout::ARGB());
    img.clear(&ARGBColor::new_rgb(0, 0, 255));
    let cmd = APICommand::DrawImageCommand(DrawImageCommand {
        app_id: 5,
        window_id: 50,
        rect: Rect::from_ints(10, 10, 3, 3),
        buffer: img,
    });
    assert!(step(&mut st, &mut screen, cmd).is_empty());
    assert_eq!(screen.get_pixel_vec_argb(22, 22), vec![255, 0, 0, 255]);
    assert_eq!(screen.get_pixel_vec_argb(23, 23), vec![255, 255, 128, 0]);

    let unknown = APICommand::DrawRectCommand(DrawRectCommand {
        app_id: 5,
        window_id: 99,
        rect: Rect::from_ints(0, 0, 5, 5),
        color: red,
    });
    let before = screen.data.clone();
    assert!(step(&mut st, &mut screen, unknown).is_empty());
    assert_eq!(screen.data, before);
}

#[test]
fn headless_mouse_and_control() {
    let mut st = WindowManagerState::init();
    let mut screen = GFXBuffer::new(50, 50, &PixelLayout::ARGB());
    step(&mut st, &mut screen, APICommand::AppConnectResponse(HelloAppResponse { app_id: 5 }));
    step(&mut st, &mut screen, open(5, 50, 10, 10, 20, 20));

    let out = step(&mut st, &mut screen, APICommand::MouseDown(MouseDownEvent::init_primary(12, 12, 77)));
    assert_eq!(out.len(), 2);
    assert!(matches!(&out[0], WmAction::Send(APICommand::Debug(DebugMessage::WindowFocusChanged(t))) if t == "foo"));
    match &out[1] {
        WmAction::Send(APICommand::MouseDown(e)) => {
            assert_eq!(e.app_id, 5);
            assert_eq!(e.window_id, 50);
            assert_eq!(e.original_timestamp, 77);
            assert_eq!((e.x, e.y), (12, 12));
        },
        other => panic!("unexpected {:?}", other),
    }
    assert_eq!(*st.get_focused_window(), Some(50));

    let out = step(&mut st, &mut screen, APICommand::MouseDown(MouseDownEvent::init_primary(1, 1, 78)));
    assert_eq!(out.len(), 1);
    assert!(matches!(&out[0], WmAction::Send(APICommand::Debug(DebugMessage::BackgroundReceivedMouseEvent))));
    assert_eq!(*st.get_focused_window(), Some(50));

    let out = step(
        &mut st,
        &mut screen,
        APICommand::Debug(DebugMessage::ScreenCapture(Rect::from_ints(0, 0, 1, 1), "x".to_string())),
    );
    assert!(matches!(out[..], [WmAction::CaptureScreen]));
    let out = step(&mut st, &mut screen, APICommand::SystemShutdown);
    assert!(matches!(out[..], [WmAction::Quit]));
    let out = step(&mut st, &mut screen, APICommand::Debug(DebugMessage::HelloDebugger));
    assert!(matches!(out[..], [WmAction::Unhandled]));
}

#[test]
fn step_refuses_oversized_window() {
    let st = WindowManagerState::init();
    let screen = GFXBuffer::new(10, 10, &PixelLayout::ARGB());
    assert!(!step_allowed(&st, &screen, &open(1, 2, 0, 0, 0, 10)));
    assert!(!step_allowed(&st, &screen, &open(1, 2, 0, 0, 100_000, 100_000)));
    assert!(step_allowed(&st, &screen, &open(1, 2, 0, 0, 10, 10)));
}

#[test]
fn pick_window_at_takes_the_highest_window() {
    let mut st = WindowManagerState::init();
    st.add_app(1);
    st.add_app(2);
    st.add_window(1, 10, &Rect::from_ints(0, 0, 100, 100));
    st.add_window(1, 11, &Rect::from_ints(20, 20, 100, 100));
    st.add_window(2, 20, &Rect::from_ints(40, 40, 100, 100));
    // Later windows are drawn over earlier ones.
    assert_eq!(st.pick_window_at(Point::init(50, 50)).unwrap().id, 20);
    assert_eq!(st.pick_window_at(Point::init(30, 30)).unwrap().id, 11);
    assert_eq!(st.pick_window_at(Point::init(5, 5)).unwrap().id, 10);
}
