use vstd::prelude::*;
use crate::color::{encode, encode_fill, PixelLayout};
use crate::geom::{fits_i32, Point};
use crate::graphics::GFXBuffer;
use crate::protocol::{
    APICommand, DebugMessage, DrawImageCommand, DrawRectCommand, MouseButton, MouseDownEvent,
    OpenWindowResponse,
};
use crate::wm::{
    lemma_first_app_exists,
    before, first_app, first_window, window_background, window_replaced, Window, WindowManagerState,
    WindowType,
};

verus! {

/// What the headless window manager does after a message, besides changing
/// its state: send a command to the central server, save the screen as an
/// image (then send `ScreenCaptureResponse`), stop, or log the message as
/// unhandled.
#[derive(Debug)]
pub enum WmAction {
    Send(APICommand),
    CaptureScreen,
    Quit,
    Unhandled,
}

/// No window of `st` has the id `id`.
pub open spec fn no_window(st: WindowManagerState, id: u128) -> bool {
    forall|a: int, w: int| st.has_window(a, w) ==> (#[trigger] st.window_at(a, w)).id != id
}

/// The window the rectangle is drawn into can take it, and its back buffer
/// can then be drawn onto `screen`.
pub open spec fn draw_rect_allowed(st: WindowManagerState, screen: GFXBuffer, dr: DrawRectCommand) -> bool {
    forall|a: int, w: int|
        #[trigger] first_window(st, dr.window_id, a, w) ==> {
            let win = st.window_at(a, w);
            &&& win.backbuffer.fill_ok(dr.rect)
            &&& screen.draw_ok(win.position, win.backbuffer.spec_bounds(), win.backbuffer)
        }
}

/// The window the image is drawn into can take it, and its back buffer can
/// then be drawn onto `screen`.
pub open spec fn draw_image_allowed(st: WindowManagerState, screen: GFXBuffer, di: DrawImageCommand) -> bool {
    forall|a: int, w: int|
        #[trigger] first_window(st, di.window_id, a, w) ==> {
            let win = st.window_at(a, w);
            &&& win.backbuffer.fill_image_ok(di.rect, di.buffer)
            &&& screen.draw_ok(win.position, win.backbuffer.spec_bounds(), win.backbuffer)
        }
}

/// A window with these bounds can be opened: its content area has some width,
/// its back buffer fits in memory the library can index, and its frame's
/// coordinates fit in 32 bits.
pub open spec fn open_window_ok(ow: OpenWindowResponse) -> bool {
    &&& ow.bounds.w > 0
    &&& ow.bounds.h >= 0
    &&& 4 * (ow.bounds.w * ow.bounds.h) <= u32::MAX
    &&& fits_i32(ow.bounds.x + 5)
    &&& fits_i32(ow.bounds.y + 15)
    &&& fits_i32(ow.bounds.w + 10)
    &&& fits_i32(ow.bounds.h + 20)
}

/// The messages that `headless_step` can handle in a state: a window to
/// open must have a content area the window manager can hold, and a window
/// drawn to must accept the drawing.
pub open spec fn step_ok(st: WindowManagerState, screen: GFXBuffer, cmd: APICommand) -> bool {
    &&& screen.wf()
    &&& match cmd {
        APICommand::OpenWindowResponse(ow) => open_window_ok(ow),
        APICommand::DrawRectCommand(dr) => draw_rect_allowed(st, screen, dr),
        APICommand::DrawImageCommand(di) => draw_image_allowed(st, screen, di),
        _ => true,
    }
}

/// Whether `headless_step` can handle `cmd` in this state.
pub fn step_allowed(st: &WindowManagerState, screen: &GFXBuffer, cmd: &APICommand) -> (r: bool)
    ensures
        r == step_ok(*st, *screen, *cmd),
{
    if !screen.is_wf() {
        return false;
    }
    match cmd {
        APICommand::OpenWindowResponse(ow) => {
            let b = ow.bounds;
            if b.w <= 0 || b.h < 0 {
                return false;
            }
            assert((b.w as i64) * (b.h as i64) <= i32::MAX as i64 * i32::MAX as i64) by (nonlinear_arith)
                requires
                    0 < b.w <= i32::MAX,
                    0 <= b.h <= i32::MAX,
            ;
            if (b.w as i64) * (b.h as i64) > 0x3fff_ffff {
                return false;
            }
            (b.x as i64) + 5 <= i32::MAX as i64 && (b.y as i64) + 15 <= i32::MAX as i64 && (b.w as i64)
                + 10 <= i32::MAX as i64 && (b.h as i64) + 20 <= i32::MAX as i64
        },
        APICommand::DrawRectCommand(dr) => {
            match st.locate_window(dr.window_id) {
                Some((a, w)) => {
                    let win = &st.apps[a].windows[w];
                    proof {
                        assert(first_window(*st, dr.window_id, a as int, w as int));
                        assert forall|a1: int, w1: int| #[trigger] first_window(*st, dr.window_id, a1, w1) implies a1
                            == a && w1 == w by {
                            if before(a1, w1, a as int, w as int) {
                            } else if before(a as int, w as int, a1, w1) {
                                assert(st.window_at(a as int, w as int).id != dr.window_id);
                            }
                        }
                    }
                    if !win.backbuffer.can_fill_rect(dr.rect) {
                        return false;
                    }
                    let bounds = win.backbuffer.bounds();
                    screen.can_draw_image(&win.position, &bounds, &win.backbuffer)
                },
                None => true,
            }
        },
        APICommand::DrawImageCommand(di) => {
            match st.locate_window(di.window_id) {
                Some((a, w)) => {
                    let win = &st.apps[a].windows[w];
                    proof {
                        assert(first_window(*st, di.window_id, a as int, w as int));
                        assert forall|a1: int, w1: int| #[trigger] first_window(*st, di.window_id, a1, w1) implies a1
                            == a && w1 == w by {
                            if before(a1, w1, a as int, w as int) {
                            } else if before(a as int, w as int, a1, w1) {
                                assert(st.window_at(a as int, w as int).id != di.window_id);
                            }
                        }
                    }
                    if !win.backbuffer.can_fill_rect_with_image(&di.rect, &di.buffer) {
                        return false;
                    }
                    let bounds = win.backbuffer.bounds();
                    screen.can_draw_image(&win.position, &bounds, &win.backbuffer)
                },
                None => true,
            }
        },
        _ => true,
    }
}

/// The window `old` with its back buffer `bb` in place of the old one.
pub open spec fn with_backbuffer(old: Window, bb: GFXBuffer) -> Window {
    Window { backbuffer: bb, ..old }
}

/// The window at `(a, w)` got a new back buffer of the same shape, and
/// nothing else in the state changed.
pub open spec fn backbuffer_replaced(old_st: WindowManagerState, new_st: WindowManagerState, a: int, w: int) -> bool {
    let old_win = old_st.window_at(a, w);
    let bb = new_st.window_at(a, w).backbuffer;
    &&& bb.wf()
    &&& bb.width == old_win.backbuffer.width
    &&& bb.height == old_win.backbuffer.height
    &&& bb.layout == old_win.backbuffer.layout
    &&& bb.id == old_win.backbuffer.id
    &&& window_replaced(old_st, new_st, a, w, with_backbuffer(old_win, bb))
}

/// The window at `(a, w)` got a new back buffer of the same shape, nothing
/// else in the state changed, and `new_screen` is `old_screen` with that back
/// buffer drawn at the window's position.
pub open spec fn window_redrawn(
    old_st: WindowManagerState,
    new_st: WindowManagerState,
    old_screen: GFXBuffer,
    new_screen: GFXBuffer,
    a: int,
    w: int,
) -> bool {
    let old_win = old_st.window_at(a, w);
    let bb = new_st.window_at(a, w).backbuffer;
    &&& backbuffer_replaced(old_st, new_st, a, w)
    &&& new_screen.wf()
    &&& new_screen.width == old_screen.width
    &&& new_screen.height == old_screen.height
    &&& new_screen.layout == old_screen.layout
    &&& forall|x: int, y: int|
        new_screen.in_bounds(x, y) ==> #[trigger] new_screen.pixel_bytes(x, y)
            == old_screen.drawn_pixel(old_win.position, bb.spec_bounds(), bb, x, y)
}

/// What a `DrawRectCommand` does: nothing when no window has its id;
/// otherwise the first such window has the rectangle filled with the color
/// in its back buffer, which is then drawn onto the screen.
pub open spec fn rect_drawn(
    old_st: WindowManagerState,
    new_st: WindowManagerState,
    old_screen: GFXBuffer,
    new_screen: GFXBuffer,
    dr: DrawRectCommand,
) -> bool {
    &&& no_window(old_st, dr.window_id) ==> new_st == old_st && new_screen == old_screen
    &&& forall|a: int, w: int|
        #[trigger] first_window(old_st, dr.window_id, a, w) ==> {
            let old_bb = old_st.window_at(a, w).backbuffer;
            &&& window_redrawn(old_st, new_st, old_screen, new_screen, a, w)
            &&& new_st.window_at(a, w).backbuffer.unchanged_outside(
                old_bb,
                dr.rect,
                encode_fill(old_bb.layout, dr.color.argb()),
            )
        }
}

/// What a `DrawImageCommand` does: nothing when no window has its id;
/// otherwise the first such window has the rectangle tiled with the image in
/// its back buffer, which is then drawn onto the screen.
pub open spec fn image_drawn(
    old_st: WindowManagerState,
    new_st: WindowManagerState,
    old_screen: GFXBuffer,
    new_screen: GFXBuffer,
    di: DrawImageCommand,
) -> bool {
    &&& no_window(old_st, di.window_id) ==> new_st == old_st && new_screen == old_screen
    &&& forall|a: int, w: int|
        #[trigger] first_window(old_st, di.window_id, a, w) ==> {
            &&& window_redrawn(old_st, new_st, old_screen, new_screen, a, w)
            &&& new_st.window_at(a, w).backbuffer.image_filled(old_st.window_at(a, w).backbuffer, di.rect, di.buffer)
        }
}

/// `(a, w)` holds the window whose frame contains `(x, y)`.
pub open spec fn window_hit(st: WindowManagerState, a: int, w: int, x: int, y: int) -> bool {
    st.has_window(a, w) && st.window_at(a, w).spec_external_bounds().spec_contains(x, y)
}

/// `(a, w)` holds the highest window whose frame contains `(x, y)`: the
/// last such window in the state's order, the order windows are drawn in.
pub open spec fn top_hit(st: WindowManagerState, a: int, w: int, x: int, y: int) -> bool {
    &&& window_hit(st, a, w, x, y)
    &&& forall|a2: int, w2: int| before(a, w, a2, w2) ==> !#[trigger] window_hit(st, a2, w2, x, y)
}

/// What a mouse press does: over no window, the focus stays and the
/// background reports the press; otherwise the highest window under the mouse
/// gets the focus, and the press is reported and forwarded to that window's
/// application.
pub open spec fn mouse_down_handled(
    old_st: WindowManagerState,
    new_st: WindowManagerState,
    evt: MouseDownEvent,
    out: Seq<WmAction>,
) -> bool {
    let x = evt.x as int;
    let y = evt.y as int;
    &&& new_st.apps@ == old_st.apps@
    &&& (forall|a: int, w: int| !#[trigger] window_hit(old_st, a, w, x, y)) ==> {
        &&& new_st.focused == old_st.focused
        &&& out.len() == 1
        &&& out[0] matches WmAction::Send(APICommand::Debug(DebugMessage::BackgroundReceivedMouseEvent))
    }
    &&& forall|a: int, w: int|
        #[trigger] top_hit(old_st, a, w, x, y) ==> {
            let win = old_st.window_at(a, w);
            &&& new_st.focused == Some(win.id)
            &&& out.len() == 2
            &&& out[0] matches WmAction::Send(APICommand::Debug(DebugMessage::WindowFocusChanged(t))) && t@ == "foo"@
            &&& out[1] == WmAction::Send(
                APICommand::MouseDown(
                    MouseDownEvent {
                        app_id: win.owner,
                        window_id: win.id,
                        original_timestamp: evt.original_timestamp,
                        button: MouseButton::Primary,
                        x: evt.x,
                        y: evt.y,
                    },
                ),
            )
        }
}

/// What opening a window does: when an application has the id, its first
/// such application gets a new window at the end of its list, placed and
/// sized as `bounds` says, with a back buffer filled with the window
/// background; otherwise nothing changes.
pub open spec fn window_opened(old_st: WindowManagerState, new_st: WindowManagerState, ow: OpenWindowResponse) -> bool {
    &&& new_st.focused == old_st.focused
    &&& (forall|j: int| 0 <= j < old_st.apps@.len() ==> old_st.apps@[j].id != ow.app_id) ==> new_st.apps@
        == old_st.apps@
    &&& forall|i: int|
        #[trigger] first_app(old_st.apps@, ow.app_id, i) ==> {
            &&& new_st.apps@.len() == old_st.apps@.len()
            &&& forall|j: int| 0 <= j < old_st.apps@.len() && j != i ==> new_st.apps@[j] == old_st.apps@[j]
            &&& new_st.apps@[i].id == ow.app_id
            &&& new_st.apps@[i].windows@.drop_last() == old_st.apps@[i].windows@
            &&& new_st.apps@[i].windows@.len() == old_st.apps@[i].windows@.len() + 1
            &&& {
                let w = new_st.apps@[i].windows@.last();
                &&& w.id == ow.window_id
                &&& w.owner == ow.app_id
                &&& w.position == Point { x: ow.bounds.x, y: ow.bounds.y }
                &&& w.content_size.w == ow.bounds.w
                &&& w.content_size.h == ow.bounds.h
                &&& w.window_type == WindowType::Plain()
                &&& w.backbuffer.wf()
                &&& w.backbuffer.width == ow.bounds.w
                &&& w.backbuffer.height == ow.bounds.h
                &&& w.backbuffer.all_pixels(encode(PixelLayout::ARGB(), window_background().argb()))
            }
        }
}

/// Every window of `new` that is not `(a, w)` is the one of `old` at the
/// same place, and the window at `(a, w)` has a sound frame.
pub proof fn lemma_windows_ok_after_replace(old: WindowManagerState, new: WindowManagerState, a: int, w: int, win: Window)
    requires
        old.windows_ok(),
        old.has_window(a, w),
        window_replaced(old, new, a, w, win),
        win.geometry_ok(),
    ensures
        new.windows_ok(),
{
    assert forall|a2: int, w2: int|
        0 <= a2 < new.apps@.len() && 0 <= w2 < new.apps@[a2].windows@.len() implies (
        #[trigger] new.apps@[a2].windows@[w2]).geometry_ok() by {
        if a2 == a && w2 == w {
        } else if a2 == a {
            assert(new.apps@[a2].windows@[w2] == old.apps@[a2].windows@[w2]);
        } else {
            assert(new.apps@[a2] == old.apps@[a2]);
        }
    }
}

/// The first window with a given id is the only place `first_window` holds.
pub proof fn lemma_first_window_unique(st: WindowManagerState, id: u128, a: int, w: int)
    requires
        first_window(st, id, a, w),
    ensures
        forall|a1: int, w1: int| #[trigger] first_window(st, id, a1, w1) ==> a1 == a && w1 == w,
{
    assert forall|a1: int, w1: int| #[trigger] first_window(st, id, a1, w1) implies a1 == a && w1 == w by {
        if before(a1, w1, a, w) {
        } else if before(a, w, a1, w1) {
            assert(st.window_at(a, w).id != id);
        }
    }
}

/// Draws a rectangle into the window with the command's id and that
/// window's back buffer onto the screen.
pub fn draw_rect_in_window(st: &mut WindowManagerState, screen: &mut GFXBuffer, dr: &DrawRectCommand)
    requires
        old(st).windows_ok(),
        old(screen).wf(),
        draw_rect_allowed(*old(st), *old(screen), *dr),
    ensures
        final(st).windows_ok(),
        rect_drawn(*old(st), *final(st), *old(screen), *final(screen), *dr),
{
    let ghost st0 = *st;
    match st.locate_window(dr.window_id) {
        Some((a, w)) => {
            proof {
                assert(first_window(st0, dr.window_id, a as int, w as int));
                lemma_first_window_unique(st0, dr.window_id, a as int, w as int);
            }
            let win = &mut st.apps[a].windows[w];
            win.backbuffer.fill_rect(dr.rect, &dr.color);
            let bounds = win.backbuffer.bounds();
            screen.draw_image(&win.position, &bounds, &win.backbuffer);
            proof {
                assert(st.apps@[a as int].windows@ == st0.apps@[a as int].windows@.update(w as int, *win));
                assert(window_replaced(st0, *st, a as int, w as int, with_backbuffer(st0.window_at(a as int, w as int), win.backbuffer)));
                lemma_windows_ok_after_replace(st0, *st, a as int, w as int, *win);
            }
        },
        None => {},
    }
}

/// Tiles an image into a rectangle of the window with the command's id and
/// draws that window's back buffer onto the screen.
pub fn draw_image_in_window(st: &mut WindowManagerState, screen: &mut GFXBuffer, di: &DrawImageCommand)
    requires
        old(st).windows_ok(),
        old(screen).wf(),
        draw_image_allowed(*old(st), *old(screen), *di),
    ensures
        final(st).windows_ok(),
        image_drawn(*old(st), *final(st), *old(screen), *final(screen), *di),
{
    let ghost st0 = *st;
    match st.locate_window(di.window_id) {
        Some((a, w)) => {
            proof {
                assert(first_window(st0, di.window_id, a as int, w as int));
                lemma_first_window_unique(st0, di.window_id, a as int, w as int);
            }
            let win = &mut st.apps[a].windows[w];
            win.backbuffer.fill_rect_with_image(&di.rect, &di.buffer);
            let bounds = win.backbuffer.bounds();
            screen.draw_image(&win.position, &bounds, &win.backbuffer);
            proof {
                assert(st.apps@[a as int].windows@ == st0.apps@[a as int].windows@.update(w as int, *win));
                assert(window_replaced(st0, *st, a as int, w as int, with_backbuffer(st0.window_at(a as int, w as int), win.backbuffer)));
                lemma_windows_ok_after_replace(st0, *st, a as int, w as int, *win);
            }
        },
        None => {},
    }
}

/// Handles a mouse press: focuses the window under the mouse and forwards
/// the press to it, or reports a press on the background.
pub fn mouse_down_in_wm(st: &mut WindowManagerState, evt: &MouseDownEvent) -> (out: Vec<WmAction>)
    requires
        old(st).windows_ok(),
    ensures
        final(st).windows_ok(),
        mouse_down_handled(*old(st), *final(st), *evt, out@),
{
    let ghost st0 = *st;
    let mut out: Vec<WmAction> = Vec::new();
    let point = Point::init(evt.x, evt.y);
    match st.pick_window_at(point) {
        Some(win) => {
            let wid = win.id;
            let aid = win.owner;
            let ghost hit: (int, int) = choose|a: int, w: int|
                st0.has_window(a, w) && *win == st0.window_at(a, w) && win.spec_external_bounds().spec_contains(
                    evt.x as int,
                    evt.y as int,
                ) && forall|a2: int, w2: int|
                    st0.has_window(a2, w2) && before(a, w, a2, w2) ==> !(#[trigger] st0.window_at(
                        a2,
                        w2,
                    )).spec_external_bounds().spec_contains(evt.x as int, evt.y as int);
            proof {
                let (a, w) = hit;
                assert(top_hit(st0, a, w, evt.x as int, evt.y as int));
                assert forall|a1: int, w1: int| #[trigger] top_hit(st0, a1, w1, evt.x as int, evt.y as int) implies
                    st0.window_at(a1, w1) == st0.window_at(a, w) by {
                    if before(a1, w1, a, w) {
                        assert(window_hit(st0, a, w, evt.x as int, evt.y as int));
                    } else if before(a, w, a1, w1) {
                        assert(window_hit(st0, a1, w1, evt.x as int, evt.y as int));
                    }
                }
            }
            st.set_focused_window(wid);
            out.push(
                WmAction::Send(APICommand::Debug(DebugMessage::WindowFocusChanged(crate::db::owned("foo")))),
            );
            out.push(
                WmAction::Send(
                    APICommand::MouseDown(
                        MouseDownEvent {
                            app_id: aid,
                            window_id: wid,
                            original_timestamp: evt.original_timestamp,
                            button: MouseButton::Primary,
                            x: evt.x,
                            y: evt.y,
                        },
                    ),
                ),
            );
            proof {
                let (a, w) = hit;
                assert(window_hit(st0, a, w, evt.x as int, evt.y as int));
            }
        },
        None => {
            out.push(WmAction::Send(APICommand::Debug(DebugMessage::BackgroundReceivedMouseEvent)));
            proof {
                assert forall|a: int, w: int| !#[trigger] top_hit(st0, a, w, evt.x as int, evt.y as int) by {
                    if st0.has_window(a, w) {
                        assert(!st0.window_at(a, w).spec_external_bounds().spec_contains(evt.x as int, evt.y as int));
                    }
                }
            }
        },
    }
    out
}

/// Opens a window for an application: adds it to the state.
pub fn open_window_in_wm(st: &mut WindowManagerState, ow: &OpenWindowResponse)
    requires
        old(st).windows_ok(),
        open_window_ok(*ow),
    ensures
        final(st).windows_ok(),
        window_opened(*old(st), *final(st), *ow),
{
    let ghost st0 = *st;
    st.add_window(ow.app_id, ow.window_id, &ow.bounds);
    proof {
        assert forall|i: int| #[trigger] first_app(st0.apps@, ow.app_id, i) implies st.apps@[i].windows@.drop_last()
            == st0.apps@[i].windows@ by {
            assert(st.apps@[i].windows@.drop_last() =~= st0.apps@[i].windows@);
        }
        assert forall|a: int, w: int|
            0 <= a < st.apps@.len() && 0 <= w < st.apps@[a].windows@.len() implies (
            #[trigger] st.apps@[a].windows@[w]).geometry_ok() by {
            if exists|j: int| 0 <= j < st0.apps@.len() && st0.apps@[j].id == ow.app_id {
                let j = choose|j: int| 0 <= j < st0.apps@.len() && st0.apps@[j].id == ow.app_id;
                lemma_first_app_exists(st0.apps@, ow.app_id, j);
                let i = choose|i: int| first_app(st0.apps@, ow.app_id, i);
                if a == i && w == st0.apps@[i].windows@.len() {
                } else if a == i {
                    assert(st.apps@[a].windows@[w] == st0.apps@[a].windows@[w]);
                } else {
                    assert(st.apps@[a] == st0.apps@[a]);
                }
            }
        }
    }
}

/// Handles one message in the headless window manager: keeps track of
/// applications and windows, draws into windows and onto the screen,
/// answers a mouse press with a focus change and forwards it to the window
/// under the mouse, and tells the caller to save the screen or to stop.
pub fn headless_step(st: &mut WindowManagerState, screen: &mut GFXBuffer, cmd: APICommand) -> (out: Vec<WmAction>)
    requires
        old(st).windows_ok(),
        step_ok(*old(st), *old(screen), cmd),
    ensures
        final(st).windows_ok(),
        match cmd {
            APICommand::AppConnectResponse(res) => {
                &&& final(st).apps@ == old(st).apps@.push(final(st).apps@.last())
                &&& final(st).apps@.last().id == res.app_id
                &&& final(st).apps@.last().windows@.len() == 0
                &&& final(st).focused == old(st).focused
                &&& *final(screen) == *old(screen)
                &&& out@.len() == 0
            },
            APICommand::OpenWindowResponse(ow) => {
                &&& window_opened(*old(st), *final(st), ow)
                &&& (exists|j: int| 0 <= j < old(st).apps@.len() && old(st).apps@[j].id == ow.app_id) ==> exists|
                    a: int,
                    w: int,
                |
                    #![trigger final(st).window_at(a, w)]
                    final(st).has_window(a, w) && final(st).window_at(a, w).id == ow.window_id
                        && final(st).window_at(a, w).position.x == ow.bounds.x
                        && final(st).window_at(a, w).position.y == ow.bounds.y
                &&& *final(screen) == *old(screen)
                &&& out@.len() == 0
            },
            APICommand::DrawRectCommand(dr) => {
                &&& rect_drawn(*old(st), *final(st), *old(screen), *final(screen), dr)
                &&& out@.len() == 0
            },
            APICommand::DrawImageCommand(di) => {
                &&& image_drawn(*old(st), *final(st), *old(screen), *final(screen), di)
                &&& out@.len() == 0
            },
            APICommand::MouseDown(evt) => {
                &&& mouse_down_handled(*old(st), *final(st), evt, out@)
                &&& *final(screen) == *old(screen)
            },
            APICommand::WMConnectResponse(_) => {
                &&& *final(st) == *old(st)
                &&& *final(screen) == *old(screen)
                &&& out@.len() == 0
            },
            APICommand::Debug(DebugMessage::ScreenCapture(_, _)) => {
                &&& *final(st) == *old(st)
                &&& *final(screen) == *old(screen)
                &&& out@ == seq![WmAction::CaptureScreen]
            },
            APICommand::SystemShutdown => {
                &&& *final(st) == *old(st)
                &&& *final(screen) == *old(screen)
                &&& out@ == seq![WmAction::Quit]
            },
            _ => {
                &&& *final(st) == *old(st)
                &&& *final(screen) == *old(screen)
                &&& out@ == seq![WmAction::Unhandled]
            },
        },
{
    let ghost st0 = *st;
    let mut out: Vec<WmAction> = Vec::new();
    match cmd {
        APICommand::WMConnectResponse(_) => {},
        APICommand::AppConnectResponse(res) => {
            st.add_app(res.app_id);
            assert(st.apps@ =~= st0.apps@.push(st.apps@.last()));
            assert(st.windows_ok()) by {
                assert forall|a: int, w: int|
                    0 <= a < st.apps@.len() && 0 <= w < st.apps@[a].windows@.len() implies (
                    #[trigger] st.apps@[a].windows@[w]).geometry_ok() by {
                    assert(st.apps@[a] == st0.apps@[a]);
                }
            }
        },
        APICommand::OpenWindowResponse(ow) => {
            open_window_in_wm(st, &ow);
            proof {
                lemma_window_opened_where_asked(st0, *st, ow);
            }
        },
        APICommand::DrawRectCommand(dr) => {
            draw_rect_in_window(st, screen, &dr);
        },
        APICommand::DrawImageCommand(di) => {
            draw_image_in_window(st, screen, &di);
        },
        APICommand::MouseDown(evt) => {
            out = mouse_down_in_wm(st, &evt);
        },
        APICommand::Debug(DebugMessage::ScreenCapture(_, _)) => {
            out.push(WmAction::CaptureScreen);
            assert(out@ =~= seq![WmAction::CaptureScreen]);
        },
        APICommand::SystemShutdown => {
            out.push(WmAction::Quit);
            assert(out@ =~= seq![WmAction::Quit]);
        },
        _ => {
            out.push(WmAction::Unhandled);
            assert(out@ =~= seq![WmAction::Unhandled]);
        },
    }
    out
}

/// Once its application is connected, opening a window adds one window
/// with the requested id, owned by that application, placed at the top
/// left corner of the requested bounds and with their size as its
/// content; for an application that is not connected nothing changes.
pub proof fn lemma_window_opened_where_asked(old_st: WindowManagerState, new_st: WindowManagerState, ow: OpenWindowResponse)
    requires
        window_opened(old_st, new_st, ow),
    ensures
        (exists|j: int| 0 <= j < old_st.apps@.len() && old_st.apps@[j].id == ow.app_id) ==> exists|a: int, w: int|
            #![trigger new_st.window_at(a, w)]
            new_st.has_window(a, w) && new_st.window_at(a, w).id == ow.window_id && new_st.window_at(a, w).owner
                == ow.app_id && new_st.window_at(a, w).position.x == ow.bounds.x && new_st.window_at(a, w).position.y
                == ow.bounds.y && new_st.window_at(a, w).content_size.w == ow.bounds.w && new_st.window_at(
                a,
                w,
            ).content_size.h == ow.bounds.h,
        (forall|j: int| 0 <= j < old_st.apps@.len() ==> old_st.apps@[j].id != ow.app_id) ==> new_st.apps@
            == old_st.apps@,
{
    if exists|j: int| 0 <= j < old_st.apps@.len() && old_st.apps@[j].id == ow.app_id {
        let j = choose|j: int| 0 <= j < old_st.apps@.len() && old_st.apps@[j].id == ow.app_id;
        lemma_first_app_exists(old_st.apps@, ow.app_id, j);
        let i = choose|i: int| first_app(old_st.apps@, ow.app_id, i);
        let w = old_st.apps@[i].windows@.len() as int;
        assert(new_st.apps@[i].windows@.last() == new_st.window_at(i, w));
        assert(new_st.has_window(i, w));
    }
}

/// A press inside the frame of a window, with no window after it in the
/// drawing order (that is, above it) under the mouse, gives that window the
/// focus and forwards the press, at the same place and time, to that
/// window's application with the window's id; the applications and windows
/// stay as they were.
pub proof fn lemma_press_goes_to_window_on_top(
    old_st: WindowManagerState,
    new_st: WindowManagerState,
    evt: MouseDownEvent,
    out: Seq<WmAction>,
    a: int,
    w: int,
)
    requires
        mouse_down_handled(old_st, new_st, evt, out),
        old_st.has_window(a, w),
        old_st.window_at(a, w).spec_external_bounds().spec_contains(evt.x as int, evt.y as int),
        forall|a2: int, w2: int|
            (a < a2 || (a == a2 && w < w2)) && old_st.has_window(a2, w2) ==> !(#[trigger] old_st.window_at(
                a2,
                w2,
            )).spec_external_bounds().spec_contains(evt.x as int, evt.y as int),
    ensures
        new_st.apps@ == old_st.apps@,
        new_st.focused == Some(old_st.window_at(a, w).id),
        out.len() == 2,
        out[1] matches WmAction::Send(APICommand::MouseDown(e)) && e.app_id == old_st.window_at(a, w).owner
            && e.window_id == old_st.window_at(a, w).id && e.x == evt.x && e.y == evt.y
            && e.original_timestamp == evt.original_timestamp,
{
    let x = evt.x as int;
    let y = evt.y as int;
    assert forall|a2: int, w2: int| before(a, w, a2, w2) implies !#[trigger] window_hit(old_st, a2, w2, x, y) by {
        if old_st.has_window(a2, w2) {
            assert(!old_st.window_at(a2, w2).spec_external_bounds().spec_contains(x, y));
        }
    }
    assert(top_hit(old_st, a, w, x, y));
}

/// A press inside the frame of no window leaves the focus where it was and
/// reports the background, and the applications and windows stay as they
/// were.
pub proof fn lemma_press_on_background(
    old_st: WindowManagerState,
    new_st: WindowManagerState,
    evt: MouseDownEvent,
    out: Seq<WmAction>,
)
    requires
        mouse_down_handled(old_st, new_st, evt, out),
        forall|a: int, w: int|
            old_st.has_window(a, w) ==> !(#[trigger] old_st.window_at(a, w)).spec_external_bounds().spec_contains(
                evt.x as int,
                evt.y as int,
            ),
    ensures
        new_st.apps@ == old_st.apps@,
        new_st.focused == old_st.focused,
        out == seq![WmAction::Send(APICommand::Debug(DebugMessage::BackgroundReceivedMouseEvent))],
{
    let x = evt.x as int;
    let y = evt.y as int;
    assert forall|a: int, w: int| !#[trigger] window_hit(old_st, a, w, x, y) by {
        if old_st.has_window(a, w) {
            assert(!old_st.window_at(a, w).spec_external_bounds().spec_contains(x, y));
        }
    }
    assert(out =~= seq![WmAction::Send(APICommand::Debug(DebugMessage::BackgroundReceivedMouseEvent))]);
}

} // verus!
