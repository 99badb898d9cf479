use clogwench::color::ARGBColor;
use clogwench::geom::Rect;
use clogwench::protocol::{APICommand, DrawRectCommand, KeyDownEvent, MouseButton, MouseMoveEvent};
use clogwench::surf::{DrawingOutcome, FrameSurface};

fn pixel(s: &FrameSurface, p: usize) -> Vec<u8> {
    s.frame[4 * p..4 * p + 4].to_vec()
}

#[test]
fn frame_surface_starts_black() {
    let s = FrameSurface::make(4, 2, 16);
    assert_eq!(s.frame, vec![0u8; 32]);
}

#[test]
fn frame_rect_paints_blue_green_red_alpha() {
    let mut s = FrameSurface::make(4, 2, 16);
    let c = ARGBColor { r: 1, g: 2, b: 3, a: 4 };
    assert!(s.can_rect(1, 0, 2, 2));
    s.rect(1, 0, 2, 2, c);
    for p in [1, 2, 5, 6] {
        assert_eq!(pixel(&s, p), vec![3, 2, 1, 4]);
    }
    for p in [0, 3, 4, 7] {
        assert_eq!(pixel(&s, p), vec![0, 0, 0, 0]);
    }
}

#[test]
fn frame_rect_runs_on_into_the_next_row() {
    let mut s = FrameSurface::make(4, 2, 16);
    let c = ARGBColor { r: 9, g: 9, b: 9, a: 9 };
    s.rect(3, 0, 2, 1, c);
    assert_eq!(pixel(&s, 3), vec![9, 9, 9, 9]);
    assert_eq!(pixel(&s, 4), vec![9, 9, 9, 9]);
    assert_eq!(pixel(&s, 5), vec![0, 0, 0, 0]);
    // Past the last byte of the frame.
    assert!(!s.can_rect(3, 1, 2, 1));
    // A rectangle with no width paints nothing, wherever it is.
    assert!(s.can_rect(1000, 1000, 0, 5));
}

#[test]
fn frame_clear_paints_opaque_black() {
    let mut s = FrameSurface::make(2, 1, 8);
    s.rect(0, 0, 2, 1, ARGBColor { r: 5, g: 5, b: 5, a: 5 });
    s.clear();
    assert_eq!(s.frame, vec![0, 0, 0, 255, 0, 0, 0, 255]);
}

#[test]
fn drawing_step_marks_the_mouse_held_to_the_drawing_area() {
    let mut s = FrameSurface::make(600, 520, 2400);
    let cmd = APICommand::MouseMove(MouseMoveEvent {
        app_id: 0,
        window_id: 0,
        original_timestamp: 0,
        button: MouseButton::Primary,
        x: -5,
        y: 700,
    });
    assert!(s.can_draw_step(&cmd));
    assert_eq!(s.drawing_step(&cmd), DrawingOutcome::Sync);
    assert_eq!(pixel(&s, 500 * 600), vec![255, 255, 0, 255]);
    assert_eq!(pixel(&s, 509 * 600 + 9), vec![255, 255, 0, 255]);
    assert_eq!(pixel(&s, 509 * 600 + 10), vec![0, 0, 0, 0]);
    assert_eq!(pixel(&s, 499 * 600), vec![0, 0, 0, 0]);
}

#[test]
fn drawing_step_paints_rects_and_stops_on_escape() {
    let mut s = FrameSurface::make(4, 2, 16);
    let draw = APICommand::DrawRectCommand(DrawRectCommand {
        app_id: 0,
        window_id: 0,
        rect: Rect::from_ints(0, 1, 1, 1),
        color: ARGBColor { r: 7, g: 8, b: 9, a: 10 },
    });
    assert_eq!(s.drawing_step(&draw), DrawingOutcome::Sync);
    assert_eq!(pixel(&s, 4), vec![9, 8, 7, 10]);
    let key = |code: u32| {
        APICommand::KeyDown(KeyDownEvent {
            app_id: 0,
            window_id: 0,
            original_timestamp: 0,
            code,
            key: String::new(),
        })
    };
    assert_eq!(s.drawing_step(&key(2)), DrawingOutcome::Nothing);
    assert_eq!(s.drawing_step(&key(1)), DrawingOutcome::Stop);
    assert_eq!(s.drawing_step(&APICommand::SystemShutdown), DrawingOutcome::Nothing);
}
