use clogwench::color::ARGBColor;
use clogwench::geom::Rect;
use clogwench::linuxwm::{linux_step_can, linux_wm_step, LinuxWmAction};
use clogwench::protocol::{
    APICommand, DrawRectCommand, HelloAppResponse, KeyDownEvent, MouseButton, MouseDownEvent, MouseMoveEvent,
    OpenWindowResponse,
};
use clogwench::wm::WindowManagerState;

fn open(app: u128, win: u128, x: i32, y: i32) -> APICommand {
    APICommand::OpenWindowResponse(OpenWindowResponse {
        app_id: app,
        window_id: win,
        window_type: "plain".to_string(),
        window_title: "title".to_string(),
        bounds: Rect::from_ints(x, y, 50, 50),
    })
}

fn step(st: &mut WindowManagerState, cursor: &mut Rect, cmd: APICommand) -> Vec<LinuxWmAction> {
    assert!(linux_step_can(st, &cmd));
    linux_wm_step(st, cursor, cmd)
}

fn key(code: u32) -> APICommand {
    APICommand::KeyDown(KeyDownEvent { app_id: 0, window_id: 0, original_timestamp: 99, code, key: "a".to_string() })
}

#[test]
fn linux_wm_focuses_opened_and_clicked_windows() {
    let mut st = WindowManagerState::init();
    let mut cursor = Rect::from_ints(50, 50, 10, 10);
    assert!(step(&mut st, &mut cursor, APICommand::AppConnectResponse(HelloAppResponse { app_id: 1 })).is_empty());
    step(&mut st, &mut cursor, open(1, 10, 0, 0));
    assert_eq!(*st.get_focused_window(), Some(10));
    step(&mut st, &mut cursor, open(1, 11, 20, 20));
    assert_eq!(*st.get_focused_window(), Some(11));
    let click = |x: i32, y: i32| {
        APICommand::MouseDown(MouseDownEvent {
            app_id: 0,
            window_id: 0,
            original_timestamp: 0,
            button: MouseButton::Primary,
            x,
            y,
        })
    };
    step(&mut st, &mut cursor, click(5, 5));
    assert_eq!(*st.get_focused_window(), Some(10));
    // Where the two overlap, the later one is on top.
    step(&mut st, &mut cursor, click(30, 30));
    assert_eq!(*st.get_focused_window(), Some(11));
    step(&mut st, &mut cursor, click(300, 300));
    assert_eq!(*st.get_focused_window(), Some(11));
}

#[test]
fn linux_wm_forwards_keys_and_stops_on_escape() {
    let mut st = WindowManagerState::init();
    let mut cursor = Rect::from_ints(50, 50, 10, 10);
    assert!(step(&mut st, &mut cursor, key(65)).is_empty());
    step(&mut st, &mut cursor, APICommand::AppConnectResponse(HelloAppResponse { app_id: 3 }));
    step(&mut st, &mut cursor, open(3, 30, 0, 0));
    match &step(&mut st, &mut cursor, key(65))[..] {
        [LinuxWmAction::Send(to, APICommand::KeyDown(kd))] => {
            assert_eq!(*to, 3);
            assert_eq!((kd.app_id, kd.window_id, kd.original_timestamp, kd.code), (3, 30, 0, 65));
            assert_eq!(kd.key, "a");
        },
        other => panic!("expected the key to be forwarded, got {:?}", other),
    }
    assert!(matches!(&step(&mut st, &mut cursor, key(27))[..], [LinuxWmAction::Stop]));
}

#[test]
fn linux_wm_moves_the_cursor_and_draws() {
    let mut st = WindowManagerState::init();
    let mut cursor = Rect::from_ints(50, 50, 10, 10);
    let mv = APICommand::MouseMove(MouseMoveEvent {
        app_id: 0,
        window_id: 0,
        original_timestamp: 0,
        button: MouseButton::Primary,
        x: -20,
        y: 900,
    });
    assert!(matches!(&step(&mut st, &mut cursor, mv)[..], [LinuxWmAction::Redraw]));
    assert_eq!(cursor, Rect::from_ints(0, 500, 10, 10));
    step(&mut st, &mut cursor, APICommand::AppConnectResponse(HelloAppResponse { app_id: 1 }));
    step(&mut st, &mut cursor, open(1, 10, 0, 0));
    let draw = APICommand::DrawRectCommand(DrawRectCommand {
        app_id: 1,
        window_id: 10,
        rect: Rect::from_ints(0, 0, 2, 2),
        color: ARGBColor::new_rgb(1, 2, 3),
    });
    assert!(matches!(&step(&mut st, &mut cursor, draw)[..], [LinuxWmAction::Redraw]));
    let win = st.lookup_window(10).unwrap();
    assert_eq!(win.backbuffer.get_pixel_vec_argb(1, 1), vec![255, 1, 2, 3]);
}
