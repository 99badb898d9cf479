use vstd::prelude::*;
use crate::color::ARGBColor;
use crate::geom::{fits_i32, Point, Rect};
use crate::headless::{
    backbuffer_replaced, top_hit, lemma_first_window_unique, lemma_windows_ok_after_replace, no_window,
    lemma_window_opened_where_asked, open_window_in_wm, open_window_ok, window_hit, window_opened, with_backbuffer,
};
use crate::protocol::{
    APICommand, DebugMessage, DrawImageCommand, DrawRectCommand, KeyDownEvent, MouseButton, MouseDownEvent,
    MouseMoveEvent, MouseUpEvent,
};
use crate::wm::{
    all_windows, apps_without, before, first_window, focused_titlebar_color, focused_window_color, titlebar_color, window_color,
    window_replaced, InputGesture, NoOpGesture, Window, WindowDragGesture, WindowManagerState,
    WINDOW_BORDER_WIDTH,
};
use crate::color::encode_fill;

verus! {

/// The numeric code of the escape key.
pub const KEY_ESCAPE: u32 = 27;

/// The gesture a window manager on a display is in the middle of.
pub enum Gesture {
    NoOp(NoOpGesture),
    Drag(WindowDragGesture),
}

/// What the window manager on a display does besides changing its state.
pub enum PlatAction {
    /// Send a command to the central server for `recipient`; 0 addresses no
    /// one in particular.
    Send(u128, APICommand),
    /// Show on the display the back buffer of the window with this id.
    RegisterImage(u128),
    /// Stop the window manager.
    Quit,
    /// Log the message as unhandled.
    Unhandled,
}

/// The state of the window manager on a display: its windows, the gesture
/// in progress and where the cursor is.
pub struct PlatformWm {
    pub state: WindowManagerState,
    pub gesture: Gesture,
    pub cursor: Point,
    /// Where a press asks the whole system to shut down, if the display
    /// shows such a button.
    pub exit_button: Option<Rect>,
}

impl PlatformWm {
    /// A window manager with no applications or windows, no focus, no
    /// gesture under way and the cursor at the origin.
    pub fn init() -> (p: PlatformWm)
        ensures
            p.state.apps@.len() == 0,
            p.state.focused is None,
            p.state.windows_ok(),
            p.gesture is NoOp,
            p.cursor == (Point { x: 0, y: 0 }),
            p.exit_button is None,
    {
        PlatformWm {
            state: WindowManagerState::init(),
            gesture: Gesture::NoOp(NoOpGesture::init()),
            cursor: Point::init(0, 0),
            exit_button: None,
        }
    }

    /// As `init`, on a `width` by `height` display with an exit button 40
    /// by 20 in its bottom right corner.
    pub fn with_exit_button(width: i32, height: i32) -> (p: PlatformWm)
        requires
            fits_i32(width - 40),
            fits_i32(height - 20),
        ensures
            p.state.apps@.len() == 0,
            p.state.focused is None,
            p.state.windows_ok(),
            p.gesture is NoOp,
            p.cursor == (Point { x: 0, y: 0 }),
            p.exit_button == Some(Rect { x: (width - 40) as i32, y: (height - 20) as i32, w: 40, h: 20 }),
    {
        PlatformWm {
            state: WindowManagerState::init(),
            gesture: Gesture::NoOp(NoOpGesture::init()),
            cursor: Point::init(0, 0),
            exit_button: Some(Rect::from_ints(width - 40, height - 20, 40, 20)),
        }
    }
}

/// `new` differs from `old` at most in the back buffer of the first window
/// with the command's id, which has the rectangle filled with its color.
pub open spec fn rect_filled(old_st: WindowManagerState, new_st: WindowManagerState, dr: DrawRectCommand) -> bool {
    &&& no_window(old_st, dr.window_id) ==> new_st == old_st
    &&& forall|a: int, w: int|
        #[trigger] first_window(old_st, dr.window_id, a, w) ==> {
            let old_bb = old_st.window_at(a, w).backbuffer;
            &&& backbuffer_replaced(old_st, new_st, a, w)
            &&& new_st.window_at(a, w).backbuffer.unchanged_outside(
                old_bb,
                dr.rect,
                encode_fill(old_bb.layout, dr.color.argb()),
            )
        }
}

/// `new` differs from `old` at most in the back buffer of the first window
/// with the command's id, which has the rectangle tiled with the image.
pub open spec fn image_tiled(old_st: WindowManagerState, new_st: WindowManagerState, di: DrawImageCommand) -> bool {
    &&& no_window(old_st, di.window_id) ==> new_st == old_st
    &&& forall|a: int, w: int|
        #[trigger] first_window(old_st, di.window_id, a, w) ==> {
            &&& backbuffer_replaced(old_st, new_st, a, w)
            &&& new_st.window_at(a, w).backbuffer.image_filled(old_st.window_at(a, w).backbuffer, di.rect, di.buffer)
        }
}

/// The action reporting a focus change.
pub open spec fn focus_report(a: PlatAction) -> bool {
    a matches PlatAction::Send(to, APICommand::Debug(DebugMessage::WindowFocusChanged(t))) && to == 0 && t@
        == "foo"@
}

/// The press at `(x, y)` is on the exit button.
pub open spec fn on_exit_button(p: PlatformWm, x: int, y: int) -> bool {
    p.exit_button matches Some(r) && r.spec_contains(x, y)
}

/// What a mouse press does: on the exit button it asks the server to shut
/// down and stops; over no window, the background reports it; otherwise the
/// highest window under the mouse gets the focus, a press on its title bar
/// starts dragging it and a press elsewhere goes to its application, and
/// the focus change is reported.
pub open spec fn mouse_down_done(old: PlatformWm, new: PlatformWm, evt: MouseDownEvent, out: Seq<PlatAction>) -> bool {
    let x = evt.x as int;
    let y = evt.y as int;
    &&& new.exit_button == old.exit_button
    &&& on_exit_button(old, x, y) ==> {
        &&& new == old
        &&& out == seq![PlatAction::Send(0, APICommand::Debug(DebugMessage::RequestServerShutdown)), PlatAction::Quit]
    }
    &&& !on_exit_button(old, x, y) ==> mouse_down_elsewhere(old, new, evt, out)
}

/// What a press off the exit button does: see `mouse_down_done`.
pub open spec fn mouse_down_elsewhere(old: PlatformWm, new: PlatformWm, evt: MouseDownEvent, out: Seq<PlatAction>) -> bool {
    let x = evt.x as int;
    let y = evt.y as int;
    &&& new.state.apps@ == old.state.apps@
    &&& new.cursor == old.cursor
    &&& (forall|a: int, w: int| !#[trigger] window_hit(old.state, a, w, x, y)) ==> {
        &&& new.state.focused == old.state.focused
        &&& new.gesture == old.gesture
        &&& out.len() == 1
        &&& out[0] matches PlatAction::Send(to, APICommand::Debug(DebugMessage::BackgroundReceivedMouseEvent))
            && to == 0
    }
    &&& forall|a: int, w: int|
        #[trigger] top_hit(old.state, a, w, x, y) ==> {
            let win = old.state.window_at(a, w);
            &&& new.state.focused == Some(win.id)
            &&& if win.spec_titlebar_bounds().spec_contains(x, y) {
                &&& new.gesture == Gesture::Drag(WindowDragGesture { start: Point { x: 0, y: 0 }, winid: win.id })
                &&& out.len() == 1
                &&& focus_report(out[0])
            } else {
                &&& new.gesture == old.gesture
                &&& out.len() == 2
                &&& out[0] == PlatAction::Send(
                    win.owner,
                    APICommand::MouseDown(
                        MouseDownEvent {
                            app_id: win.owner,
                            window_id: win.id,
                            original_timestamp: evt.original_timestamp,
                            button: MouseButton::Primary,
                            x: evt.x,
                            y: evt.y,
                        },
                    ),
                )
                &&& focus_report(out[1])
            }
        }
}

/// What a key press does: escape asks the server to shut down and stops;
/// any other key goes to the application of the focused window, if there is
/// one.
pub open spec fn key_down_done(old: PlatformWm, evt: KeyDownEvent, out: Seq<PlatAction>) -> bool {
    &&& evt.code == KEY_ESCAPE ==> out.len() == 2 && (out[0] matches PlatAction::Send(
        to,
        APICommand::Debug(DebugMessage::RequestServerShutdown),
    ) && to == 0) && out[1] is Quit
    &&& evt.code != KEY_ESCAPE ==> match old.state.focused {
        None => out.len() == 0,
        Some(id) => {
            &&& no_window(old.state, id) ==> out.len() == 0
            &&& forall|a: int, w: int|
                #[trigger] first_window(old.state, id, a, w) ==> {
                    let win = old.state.window_at(a, w);
                    out == seq![
                        PlatAction::Send(
                            win.owner,
                            APICommand::KeyDown(
                                KeyDownEvent {
                                    app_id: win.owner,
                                    window_id: win.id,
                                    original_timestamp: evt.original_timestamp,
                                    code: evt.code,
                                    key: evt.key,
                                },
                            ),
                        ),
                    ]
                }
        },
    }
}

/// What moving the mouse does: the cursor follows it, and a dragged window
/// is put with its top left corner at the mouse.
pub open spec fn mouse_move_done(old: PlatformWm, new: PlatformWm, evt: MouseMoveEvent) -> bool {
    &&& new.cursor == Point { x: evt.x, y: evt.y }
    &&& new.gesture == old.gesture
    &&& match old.gesture {
        Gesture::NoOp(_) => new.state == old.state,
        Gesture::Drag(g) => {
            &&& no_window(old.state, g.winid) ==> new.state == old.state
            &&& forall|a: int, w: int|
                #[trigger] first_window(old.state, g.winid, a, w) ==> window_replaced(
                    old.state,
                    new.state,
                    a,
                    w,
                    Window { position: Point { x: evt.x, y: evt.y }, ..old.state.window_at(a, w) },
                )
        },
    }
}

/// The messages `platform_step` can handle: a window to open must be one
/// the window manager can hold, a window drawn into must accept the drawing,
/// and a dragged window must keep a frame whose coordinates fit in 32 bits.
pub open spec fn platform_step_ok(p: PlatformWm, cmd: APICommand) -> bool {
    match cmd {
        APICommand::OpenWindowResponse(ow) => open_window_ok(ow),
        APICommand::DrawRectCommand(dr) => forall|a: int, w: int|
            #[trigger] first_window(p.state, dr.window_id, a, w) ==> p.state.window_at(
                a,
                w,
            ).backbuffer.fill_ok(dr.rect),
        APICommand::DrawImageCommand(di) => forall|a: int, w: int|
            #[trigger] first_window(p.state, di.window_id, a, w) ==> p.state.window_at(
                a,
                w,
            ).backbuffer.fill_image_ok(di.rect, di.buffer),
        APICommand::MouseMove(evt) => p.gesture is Drag ==> fits_i32(evt.x + 5) && fits_i32(evt.y + 15),
        _ => true,
    }
}

/// Fills a rectangle of the back buffer of the window with the command's
/// id.
pub fn fill_rect_in_window(st: &mut WindowManagerState, dr: &DrawRectCommand)
    requires
        old(st).windows_ok(),
        forall|a: int, w: int|
            #[trigger] first_window(*old(st), dr.window_id, a, w) ==> old(st).window_at(
                a,
                w,
            ).backbuffer.fill_ok(dr.rect),
    ensures
        final(st).windows_ok(),
        rect_filled(*old(st), *final(st), *dr),
{
    let ghost st0 = *st;
    match st.locate_window(dr.window_id) {
        Some((a, w)) => {
            proof {
                assert(first_window(st0, dr.window_id, a as int, w as int));
                lemma_first_window_unique(st0, dr.window_id, a as int, w as int);
            }
            let win = &mut st.apps[a].windows[w];
            win.backbuffer.fill_rect(dr.rect, &dr.color);
            proof {
                assert(st.apps@[a as int].windows@ == st0.apps@[a as int].windows@.update(w as int, *win));
                assert(window_replaced(
                    st0,
                    *st,
                    a as int,
                    w as int,
                    with_backbuffer(st0.window_at(a as int, w as int), win.backbuffer),
                ));
                lemma_windows_ok_after_replace(st0, *st, a as int, w as int, *win);
            }
        },
        None => {},
    }
}

/// Tiles an image into a rectangle of the back buffer of the window with
/// the command's id.
pub fn fill_image_in_window(st: &mut WindowManagerState, di: &DrawImageCommand)
    requires
        old(st).windows_ok(),
        forall|a: int, w: int|
            #[trigger] first_window(*old(st), di.window_id, a, w) ==> old(st).window_at(
                a,
                w,
            ).backbuffer.fill_image_ok(di.rect, di.buffer),
    ensures
        final(st).windows_ok(),
        image_tiled(*old(st), *final(st), *di),
{
    let ghost st0 = *st;
    match st.locate_window(di.window_id) {
        Some((a, w)) => {
            proof {
                assert(first_window(st0, di.window_id, a as int, w as int));
                lemma_first_window_unique(st0, di.window_id, a as int, w as int);
            }
            let win = &mut st.apps[a].windows[w];
            win.backbuffer.fill_rect_with_image(&di.rect, &di.buffer);
            proof {
                assert(st.apps@[a as int].windows@ == st0.apps@[a as int].windows@.update(w as int, *win));
                assert(window_replaced(
                    st0,
                    *st,
                    a as int,
                    w as int,
                    with_backbuffer(st0.window_at(a as int, w as int), win.backbuffer),
                ));
                lemma_windows_ok_after_replace(st0, *st, a as int, w as int, *win);
            }
        },
        None => {},
    }
}

/// Handles a mouse press on the display.
pub fn platform_mouse_down(p: &mut PlatformWm, evt: &MouseDownEvent) -> (out: Vec<PlatAction>)
    requires
        old(p).state.windows_ok(),
    ensures
        final(p).state.windows_ok(),
        mouse_down_done(*old(p), *final(p), *evt, out@),
{
    let ghost p0 = *p;
    let ghost st0 = p.state;
    let mut out: Vec<PlatAction> = Vec::new();
    let point = Point::init(evt.x, evt.y);
    if let Some(r) = p.exit_button {
        if r.contains(&point) {
            out.push(PlatAction::Send(0, APICommand::Debug(DebugMessage::RequestServerShutdown)));
            out.push(PlatAction::Quit);
            assert(out@ =~= seq![
                PlatAction::Send(0, APICommand::Debug(DebugMessage::RequestServerShutdown)),
                PlatAction::Quit,
            ]);
            return out;
        }
    }
    match p.state.pick_window_at(point) {
        Some(win) => {
            let wid = win.id;
            let aid = win.owner;
            let on_titlebar = win.titlebar_bounds().contains(&point);
            let ghost hit: (int, int) = choose|a: int, w: int|
                st0.has_window(a, w) && *win == st0.window_at(a, w) && win.spec_external_bounds().spec_contains(
                    evt.x as int,
                    evt.y as int,
                ) && forall|a2: int, w2: int|
                    st0.has_window(a2, w2) && before(a, w, a2, w2) ==> !(#[trigger] st0.window_at(
                        a2,
                        w2,
                    )).spec_external_bounds().spec_contains(evt.x as int, evt.y as int);
            proof {
                let (a, w) = hit;
                assert(top_hit(st0, a, w, evt.x as int, evt.y as int));
                assert forall|a1: int, w1: int| #[trigger] top_hit(st0, a1, w1, evt.x as int, evt.y as int) implies
                    st0.window_at(a1, w1) == st0.window_at(a, w) by {
                    if before(a1, w1, a, w) {
                        assert(window_hit(st0, a, w, evt.x as int, evt.y as int));
                    } else if before(a, w, a1, w1) {
                        assert(window_hit(st0, a1, w1, evt.x as int, evt.y as int));
                    }
                }
            }
            if on_titlebar {
                p.gesture = Gesture::Drag(WindowDragGesture::init(point, wid));
            } else {
                out.push(
                    PlatAction::Send(
                        aid,
                        APICommand::MouseDown(
                            MouseDownEvent {
                                app_id: aid,
                                window_id: wid,
                                original_timestamp: evt.original_timestamp,
                                button: MouseButton::Primary,
                                x: evt.x,
                                y: evt.y,
                            },
                        ),
                    ),
                );
            }
            p.state.set_focused_window(wid);
            out.push(
                PlatAction::Send(0, APICommand::Debug(DebugMessage::WindowFocusChanged(crate::db::owned("foo")))),
            );
            proof {
                let (a, w) = hit;
                assert(window_hit(st0, a, w, evt.x as int, evt.y as int));
            }
        },
        None => {
            out.push(PlatAction::Send(0, APICommand::Debug(DebugMessage::BackgroundReceivedMouseEvent)));
            proof {
                assert forall|a: int, w: int| !#[trigger] top_hit(st0, a, w, evt.x as int, evt.y as int) by {
                    if st0.has_window(a, w) {
                        assert(!st0.window_at(a, w).spec_external_bounds().spec_contains(evt.x as int, evt.y as int));
                    }
                }
            }
        },
    }
    out
}

/// Handles a key press on the display.
pub fn platform_key_down(p: &PlatformWm, evt: KeyDownEvent) -> (out: Vec<PlatAction>)
    ensures
        key_down_done(*p, evt, out@),
{
    let mut out: Vec<PlatAction> = Vec::new();
    if evt.code == KEY_ESCAPE {
        out.push(PlatAction::Send(0, APICommand::Debug(DebugMessage::RequestServerShutdown)));
        out.push(PlatAction::Quit);
        return out;
    }
    match p.state.focused {
        Some(id) => {
            match p.state.locate_window(id) {
                Some((a, w)) => {
                    proof {
                        assert(first_window(p.state, id, a as int, w as int));
                        lemma_first_window_unique(p.state, id, a as int, w as int);
                    }
                    let win = &p.state.apps[a].windows[w];
                    let ghost k = evt.key;
                    out.push(
                        PlatAction::Send(
                            win.owner,
                            APICommand::KeyDown(
                                KeyDownEvent {
                                    app_id: win.owner,
                                    window_id: win.id,
                                    original_timestamp: evt.original_timestamp,
                                    code: evt.code,
                                    key: evt.key,
                                },
                            ),
                        ),
                    );
                    assert(out@ =~= seq![
                        PlatAction::Send(
                            win.owner,
                            APICommand::KeyDown(
                                KeyDownEvent {
                                    app_id: win.owner,
                                    window_id: win.id,
                                    original_timestamp: evt.original_timestamp,
                                    code: evt.code,
                                    key: k,
                                },
                            ),
                        ),
                    ]);
                },
                None => {},
            }
        },
        None => {},
    }
    out
}

/// Handles a mouse movement on the display.
pub fn platform_mouse_move(p: &mut PlatformWm, evt: MouseMoveEvent)
    requires
        old(p).state.windows_ok(),
        old(p).gesture is Drag ==> fits_i32(evt.x + 5) && fits_i32(evt.y + 15),
    ensures
        final(p).state.windows_ok(),
        mouse_move_done(*old(p), *final(p), evt),
        final(p).exit_button == old(p).exit_button,
{
    let ghost st0 = p.state;
    p.cursor = Point::init(evt.x, evt.y);
    match &p.gesture {
        Gesture::NoOp(_) => {
            let mut g = NoOpGesture::init();
            g.mouse_move(evt, &mut p.state);
        },
        Gesture::Drag(g) => {
            let mut drag = WindowDragGesture { start: g.start, winid: g.winid };
            drag.mouse_move(evt, &mut p.state);
            proof {
                if exists|a: int, w: int| #[trigger] first_window(st0, g.winid, a, w) {
                    let (a, w) = choose|a: int, w: int| #[trigger] first_window(st0, g.winid, a, w);
                    let moved = Window { position: Point { x: evt.x, y: evt.y }, ..st0.window_at(a, w) };
                    assert(st0.window_at(a, w).geometry_ok());
                    lemma_windows_ok_after_replace(st0, p.state, a, w, moved);
                } else {
                    assert forall|a: int, w: int| st0.has_window(a, w) implies (#[trigger] st0.window_at(a, w)).id
                        != g.winid by {
                        if st0.window_at(a, w).id == g.winid {
                            crate::wm::lemma_first_window_exists(st0, g.winid, a, w);
                        }
                    }
                }
            }
        },
    }
}

/// Handles one message in the window manager on a display: keeps track of
/// applications and windows, draws into the windows' back buffers, runs the
/// mouse gestures and forwards input to the applications.
pub fn platform_step(p: &mut PlatformWm, cmd: APICommand) -> (out: Vec<PlatAction>)
    requires
        old(p).state.windows_ok(),
        platform_step_ok(*old(p), cmd),
    ensures
        final(p).state.windows_ok(),
        match cmd {
            APICommand::SystemShutdown => *final(p) == *old(p) && out@ == seq![PlatAction::Quit],
            APICommand::AppConnectResponse(res) => {
                &&& final(p).state.apps@ == old(p).state.apps@.push(final(p).state.apps@.last())
                &&& final(p).state.apps@.last().id == res.app_id
                &&& final(p).state.apps@.last().windows@.len() == 0
                &&& final(p).state.focused == old(p).state.focused
                &&& final(p).gesture == old(p).gesture
                &&& final(p).cursor == old(p).cursor
                &&& out@.len() == 0
            },
            APICommand::OpenWindowResponse(ow) => {
                &&& window_opened(old(p).state, final(p).state, ow)
                &&& (exists|j: int| 0 <= j < old(p).state.apps@.len() && old(p).state.apps@[j].id == ow.app_id)
                    ==> exists|a: int, w: int|
                    #![trigger final(p).state.window_at(a, w)]
                    final(p).state.has_window(a, w) && final(p).state.window_at(a, w).id == ow.window_id
                        && final(p).state.window_at(a, w).position.x == ow.bounds.x
                        && final(p).state.window_at(a, w).position.y == ow.bounds.y
                &&& final(p).gesture == old(p).gesture
                &&& final(p).cursor == old(p).cursor
                &&& out@ == if no_window(final(p).state, ow.window_id) {
                    Seq::<PlatAction>::empty()
                } else {
                    seq![PlatAction::RegisterImage(ow.window_id)]
                }
            },
            APICommand::DrawRectCommand(dr) => {
                &&& rect_filled(old(p).state, final(p).state, dr)
                &&& final(p).gesture == old(p).gesture
                &&& final(p).cursor == old(p).cursor
                &&& out@.len() == 0
            },
            APICommand::DrawImageCommand(di) => {
                &&& image_tiled(old(p).state, final(p).state, di)
                &&& final(p).gesture == old(p).gesture
                &&& final(p).cursor == old(p).cursor
                &&& out@.len() == 0
            },
            APICommand::MouseUp(_) => {
                &&& final(p).state == old(p).state
                &&& final(p).cursor == old(p).cursor
                &&& final(p).gesture == Gesture::NoOp(NoOpGesture {})
                &&& out@.len() == 0
            },
            APICommand::MouseMove(evt) => mouse_move_done(*old(p), *final(p), evt) && out@.len() == 0,
            APICommand::MouseDown(evt) => mouse_down_done(*old(p), *final(p), evt, out@),
            APICommand::KeyDown(evt) => *final(p) == *old(p) && key_down_done(*old(p), evt, out@),
            APICommand::Debug(DebugMessage::ScreenCapture(_, _)) => *final(p) == *old(p) && out@.len() == 1 && (
            out@[0] matches PlatAction::Send(to, APICommand::Debug(DebugMessage::ScreenCaptureResponse()))
                && to == 0),
            APICommand::WMConnectResponse(_) => *final(p) == *old(p) && out@.len() == 0,
            APICommand::AppDisconnected(dis) => {
                &&& final(p).state.apps@ == apps_without(old(p).state.apps@, dis.app_id)
                &&& final(p).state.focused == old(p).state.focused
                &&& final(p).gesture == old(p).gesture
                &&& final(p).cursor == old(p).cursor
                &&& final(p).exit_button == old(p).exit_button
                &&& out@.len() == 0
            },
            _ => *final(p) == *old(p) && out@ == seq![PlatAction::Unhandled],
        },
{
    let ghost st0 = p.state;
    let mut out: Vec<PlatAction> = Vec::new();
    match cmd {
        APICommand::SystemShutdown => {
            out.push(PlatAction::Quit);
            assert(out@ =~= seq![PlatAction::Quit]);
        },
        APICommand::AppConnectResponse(res) => {
            p.state.add_app(res.app_id);
            assert(p.state.apps@ =~= st0.apps@.push(p.state.apps@.last()));
            assert(p.state.windows_ok()) by {
                assert forall|a: int, w: int|
                    0 <= a < p.state.apps@.len() && 0 <= w < p.state.apps@[a].windows@.len() implies (
                    #[trigger] p.state.apps@[a].windows@[w]).geometry_ok() by {
                    assert(p.state.apps@[a] == st0.apps@[a]);
                }
            }
        },
        APICommand::OpenWindowResponse(ow) => {
            open_window_in_wm(&mut p.state, &ow);
            proof {
                lemma_window_opened_where_asked(st0, p.state, ow);
            }
            match p.state.locate_window(ow.window_id) {
                Some(_) => {
                    out.push(PlatAction::RegisterImage(ow.window_id));
                    assert(out@ =~= seq![PlatAction::RegisterImage(ow.window_id)]);
                },
                None => {},
            }
        },
        APICommand::DrawRectCommand(dr) => {
            fill_rect_in_window(&mut p.state, &dr);
        },
        APICommand::DrawImageCommand(di) => {
            fill_image_in_window(&mut p.state, &di);
        },
        APICommand::MouseUp(_) => {
            p.gesture = Gesture::NoOp(NoOpGesture::init());
        },
        APICommand::MouseMove(evt) => {
            platform_mouse_move(p, evt);
        },
        APICommand::MouseDown(evt) => {
            out = platform_mouse_down(p, &evt);
        },
        APICommand::KeyDown(evt) => {
            out = platform_key_down(p, evt);
        },
        APICommand::Debug(DebugMessage::ScreenCapture(_, _)) => {
            out.push(PlatAction::Send(0, APICommand::Debug(DebugMessage::ScreenCaptureResponse())));
        },
        APICommand::WMConnectResponse(_) => {},
        APICommand::AppDisconnected(dis) => {
            p.state.remove_app(dis.app_id);
            proof {
                lemma_kept_apps_ok(st0, dis.app_id);
            }
        },
        _ => {
            out.push(PlatAction::Unhandled);
            assert(out@ =~= seq![PlatAction::Unhandled]);
        },
    }
    out
}

/// What drawing a frame does, in order.
pub enum DrawOp {
    /// Clear the display.
    Clear,
    /// The outline of a rectangle, `width` pixels thick.
    Outline(Rect, ARGBColor, i32),
    /// A filled rectangle.
    Fill(Rect, ARGBColor),
    /// The back buffer of window `k` of `window_list`, its top left corner
    /// at the point.
    Backbuffer(usize, Point),
    /// The cursor image at the point.
    Cursor(Point),
}

/// The frame and title bar colours of a window, brighter for the focused
/// one.
pub open spec fn frame_colors(focused: bool) -> (ARGBColor, ARGBColor) {
    if focused {
        (ARGBColor { r: 255, g: 200, b: 200, a: 255 }, ARGBColor { r: 200, g: 255, b: 200, a: 255 })
    } else {
        (ARGBColor { r: 255, g: 0, b: 0, a: 255 }, ARGBColor { r: 0, g: 255, b: 0, a: 255 })
    }
}

/// Drawing window `win`, number `k` in the list: its frame, its title bar,
/// its content area in magenta, then its back buffer over the content area.
pub open spec fn window_ops(win: Window, focused: Option<u128>, k: int) -> Seq<DrawOp> {
    let (wc, tc) = frame_colors(focused == Some(win.id));
    let content = win.spec_content_bounds();
    seq![
        DrawOp::Outline(win.spec_external_bounds(), wc, WINDOW_BORDER_WIDTH),
        DrawOp::Fill(win.spec_titlebar_bounds(), tc),
        DrawOp::Fill(content, ARGBColor { r: 255, g: 0, b: 255, a: 255 }),
        DrawOp::Backbuffer(k as usize, Point { x: content.x, y: content.y }),
    ]
}

/// Drawing the first `n` windows of `ws`, in order.
pub open spec fn windows_ops(ws: Seq<Window>, focused: Option<u128>, n: int) -> Seq<DrawOp>
    decreases n,
{
    if n <= 0 {
        Seq::empty()
    } else {
        windows_ops(ws, focused, n - 1) + window_ops(ws[n - 1], focused, n - 1)
    }
}

/// Every window of the list has a frame whose coordinates fit in 32 bits.
proof fn lemma_all_windows_ok(st: WindowManagerState)
    requires
        st.windows_ok(),
    ensures
        forall|k: int| 0 <= k < all_windows(st.apps@).len() ==> (#[trigger] all_windows(st.apps@)[k]).geometry_ok(),
{
    lemma_windows_list_ok(st.apps@);
}

proof fn lemma_windows_list_ok(apps: Seq<crate::wm::App>)
    requires
        forall|a: int, w: int|
            0 <= a < apps.len() && 0 <= w < apps[a].windows@.len() ==> (#[trigger] apps[a].windows@[w]).geometry_ok(),
    ensures
        forall|k: int| 0 <= k < all_windows(apps).len() ==> (#[trigger] all_windows(apps)[k]).geometry_ok(),
    decreases apps.len(),
{
    if apps.len() > 0 {
        let rest = apps.drop_last();
        assert forall|a: int, w: int| 0 <= a < rest.len() && 0 <= w < rest[a].windows@.len() implies (
        #[trigger] rest[a].windows@[w]).geometry_ok() by {
            assert(rest[a] == apps[a]);
        }
        lemma_windows_list_ok(rest);
        let n = all_windows(rest).len();
        assert forall|k: int| 0 <= k < all_windows(apps).len() implies (#[trigger] all_windows(apps)[k]).geometry_ok() by {
            if k < n {
                assert(all_windows(apps)[k] == all_windows(rest)[k]);
            } else {
                assert(all_windows(apps)[k] == apps.last().windows@[k - n]);
                assert(apps.last() == apps[apps.len() - 1]);
            }
        }
    }
}

/// Drawing the exit button, if there is one: a magenta rectangle.
pub open spec fn exit_button_ops(exit_button: Option<Rect>) -> Seq<DrawOp> {
    match exit_button {
        Some(r) => seq![DrawOp::Fill(r, ARGBColor { r: 255, g: 0, b: 255, a: 255 })],
        None => Seq::empty(),
    }
}

/// The operations that draw a frame: clear the display, draw every window
/// in the order of `window_list`, the exit button if there is one, then the
/// cursor.
pub fn frame_ops(st: &WindowManagerState, exit_button: Option<Rect>, cursor: Point) -> (ops: Vec<DrawOp>)
    requires
        st.windows_ok(),
    ensures
        ops@ == seq![DrawOp::Clear] + windows_ops(all_windows(st.apps@), st.focused, all_windows(st.apps@).len() as int)
            + exit_button_ops(exit_button) + seq![DrawOp::Cursor(cursor)],
{
    let ghost ws = all_windows(st.apps@);
    let wins = st.window_list();
    proof {
        lemma_all_windows_ok(*st);
        assert(wins@.len() == ws.len());
    }
    let mut ops: Vec<DrawOp> = Vec::new();
    ops.push(DrawOp::Clear);
    let mut k: usize = 0;
    while k < wins.len()
        invariant
            ws == all_windows(st.apps@),
            wins@.map_values(|w: &Window| *w) == ws,
            wins@.len() == ws.len(),
            forall|j: int| 0 <= j < ws.len() ==> (#[trigger] ws[j]).geometry_ok(),
            k <= wins@.len(),
            ops@ == seq![DrawOp::Clear] + windows_ops(ws, st.focused, k as int),
        decreases wins@.len() - k,
    {
        let win: &Window = wins[k];
        assert(*win == ws[k as int]);
        let focused = st.is_focused_window(win);
        let wc = if focused { focused_window_color() } else { window_color() };
        let tc = if focused { focused_titlebar_color() } else { titlebar_color() };
        let content = win.content_bounds();
        let ghost before = ops@;
        ops.push(DrawOp::Outline(win.external_bounds(), wc, WINDOW_BORDER_WIDTH));
        ops.push(DrawOp::Fill(win.titlebar_bounds(), tc));
        ops.push(DrawOp::Fill(content, ARGBColor::new_rgb(255, 0, 255)));
        ops.push(DrawOp::Backbuffer(k, Point::init(content.x, content.y)));
        assert(ops@ =~= before + window_ops(ws[k as int], st.focused, k as int));
        k = k + 1;
    }
    let ghost before = ops@;
    if let Some(r) = exit_button {
        ops.push(DrawOp::Fill(r, ARGBColor::new_rgb(255, 0, 255)));
    }
    assert(ops@ =~= before + exit_button_ops(exit_button));
    ops.push(DrawOp::Cursor(cursor));
    ops
}

/// The four bands that make up the outline of `r`, `width` pixels thick:
/// left, right, top and bottom.
pub open spec fn outline_parts(r: Rect, width: i32) -> Seq<Rect> {
    seq![
        Rect { x: r.x, y: r.y, w: width, h: r.h },
        Rect { x: (r.x + r.w - width) as i32, y: r.y, w: width, h: r.h },
        Rect { x: r.x, y: r.y, w: r.w, h: width },
        Rect { x: r.x, y: (r.y + r.h - width) as i32, w: r.w, h: width },
    ]
}

/// The rectangles that drawing `DrawOp::Outline(r, _, width)` fills.
pub fn outline_rects(r: Rect, width: i32) -> (parts: Vec<Rect>)
    requires
        fits_i32(r.x + r.w - width),
        fits_i32(r.y + r.h - width),
    ensures
        parts@ == outline_parts(r, width),
{
    let right = ((r.x as i64) + (r.w as i64) - (width as i64)) as i32;
    let bottom = ((r.y as i64) + (r.h as i64) - (width as i64)) as i32;
    let parts = vec![
        Rect::from_ints(r.x, r.y, width, r.h),
        Rect::from_ints(right, r.y, width, r.h),
        Rect::from_ints(r.x, r.y, r.w, width),
        Rect::from_ints(r.x, bottom, r.w, width),
    ];
    assert(parts@ =~= outline_parts(r, width));
    parts
}



/// The applications kept after forgetting one still have frames whose
/// coordinates fit in 32 bits.
proof fn lemma_kept_apps_ok(st: WindowManagerState, id: u128)
    requires
        st.windows_ok(),
    ensures
        forall|a: int, w: int|
            0 <= a < apps_without(st.apps@, id).len() && 0 <= w < apps_without(st.apps@, id)[a].windows@.len()
                ==> (#[trigger] apps_without(st.apps@, id)[a].windows@[w]).geometry_ok(),
{
    let kept = apps_without(st.apps@, id);
    assert forall|a: int, w: int| 0 <= a < kept.len() && 0 <= w < kept[a].windows@.len() implies (
    #[trigger] kept[a].windows@[w]).geometry_ok() by {
        st.apps@.lemma_filter_contains_rev(|x: crate::wm::App| x.id != id, kept[a]);
        assert(kept.contains(kept[a]));
        let b = choose|b: int| 0 <= b < st.apps@.len() && st.apps@[b] == kept[a];
        assert(st.apps@[b].windows@[w] == kept[a].windows@[w]);
    }
}

/// Whether `platform_step` can handle `cmd` in this state.
pub fn platform_step_allowed(p: &PlatformWm, cmd: &APICommand) -> (r: bool)
    ensures
        r == platform_step_ok(*p, *cmd),
{
    match cmd {
        APICommand::OpenWindowResponse(ow) => {
            let b = ow.bounds;
            if b.w <= 0 || b.h < 0 {
                return false;
            }
            assert((b.w as i64) * (b.h as i64) <= i32::MAX as i64 * i32::MAX as i64) by (nonlinear_arith)
                requires
                    0 < b.w <= i32::MAX,
                    0 <= b.h <= i32::MAX,
            ;
            if (b.w as i64) * (b.h as i64) > 0x3fff_ffff {
                return false;
            }
            (b.x as i64) + 5 <= i32::MAX as i64 && (b.y as i64) + 15 <= i32::MAX as i64 && (b.w as i64)
                + 10 <= i32::MAX as i64 && (b.h as i64) + 20 <= i32::MAX as i64
        },
        APICommand::DrawRectCommand(dr) => {
            match p.state.locate_window(dr.window_id) {
                Some((a, w)) => {
                    proof {
                        assert(first_window(p.state, dr.window_id, a as int, w as int));
                        lemma_first_window_unique(p.state, dr.window_id, a as int, w as int);
                    }
                    p.state.apps[a].windows[w].backbuffer.can_fill_rect(dr.rect)
                },
                None => true,
            }
        },
        APICommand::DrawImageCommand(di) => {
            match p.state.locate_window(di.window_id) {
                Some((a, w)) => {
                    proof {
                        assert(first_window(p.state, di.window_id, a as int, w as int));
                        lemma_first_window_unique(p.state, di.window_id, a as int, w as int);
                    }
                    p.state.apps[a].windows[w].backbuffer.can_fill_rect_with_image(&di.rect, &di.buffer)
                },
                None => true,
            }
        },
        APICommand::MouseMove(evt) => {
            match p.gesture {
                Gesture::Drag(_) => (evt.x as i64) + 5 <= i32::MAX as i64 && (evt.y as i64) + 15 <= i32::MAX as i64,
                Gesture::NoOp(_) => true,
            }
        },
        _ => true,
    }
}

/// What a display reports for the mouse at `(x, y)` with the primary button
/// now down or up, given whether it was down before: a press when it goes
/// down, a release when it comes up, a movement otherwise. `mouse_down`
/// keeps the button's state; the events name no application or window and
/// carry timestamp 0.
pub fn mouse_input(mouse_down: &mut bool, now_down: bool, x: i32, y: i32) -> (cmd: APICommand)
    ensures
        *final(mouse_down) == now_down,
        now_down != *old(mouse_down) && now_down ==> cmd == APICommand::MouseDown(
            MouseDownEvent { app_id: 0, window_id: 0, original_timestamp: 0, button: MouseButton::Primary, x, y },
        ),
        now_down != *old(mouse_down) && !now_down ==> cmd == APICommand::MouseUp(
            MouseUpEvent { app_id: 0, window_id: 0, original_timestamp: 0, button: MouseButton::Primary, x, y },
        ),
        now_down == *old(mouse_down) ==> cmd == APICommand::MouseMove(
            MouseMoveEvent { app_id: 0, window_id: 0, original_timestamp: 0, button: MouseButton::Primary, x, y },
        ),
{
    if now_down != *mouse_down {
        *mouse_down = now_down;
        if now_down {
            APICommand::MouseDown(
                MouseDownEvent { app_id: 0, window_id: 0, original_timestamp: 0, button: MouseButton::Primary, x, y },
            )
        } else {
            APICommand::MouseUp(
                MouseUpEvent { app_id: 0, window_id: 0, original_timestamp: 0, button: MouseButton::Primary, x, y },
            )
        }
    } else {
        APICommand::MouseMove(
            MouseMoveEvent { app_id: 0, window_id: 0, original_timestamp: 0, button: MouseButton::Primary, x, y },
        )
    }
}

/// While a window is dragged, moving the mouse puts the dragged window's
/// top left corner at the mouse, leaves its id, owner and size, and the
/// focus, as they were, and moves the cursor to the mouse.
pub proof fn lemma_drag_follows_mouse(old: PlatformWm, new: PlatformWm, evt: MouseMoveEvent, a: int, w: int)
    requires
        mouse_move_done(old, new, evt),
        old.gesture matches Gesture::Drag(g) && first_window(old.state, g.winid, a, w),
    ensures
        new.cursor == (Point { x: evt.x, y: evt.y }),
        new.state.focused == old.state.focused,
        new.state.window_at(a, w).position == (Point { x: evt.x, y: evt.y }),
        new.state.window_at(a, w).id == old.state.window_at(a, w).id,
        new.state.window_at(a, w).owner == old.state.window_at(a, w).owner,
        new.state.window_at(a, w).content_size == old.state.window_at(a, w).content_size,
{
}

/// A key press other than escape goes to the application of the focused
/// window, with that window's id and the key unchanged, and to no one
/// else; escape asks the whole system to shut down and stops the window
/// manager.
pub proof fn lemma_keys_go_to_focused_window(old: PlatformWm, evt: KeyDownEvent, out: Seq<PlatAction>, a: int, w: int)
    requires
        key_down_done(old, evt, out),
    ensures
        evt.code == KEY_ESCAPE ==> out.len() == 2 && out[0] == PlatAction::Send(
            0,
            APICommand::Debug(DebugMessage::RequestServerShutdown),
        ) && out[1] == PlatAction::Quit,
        evt.code != KEY_ESCAPE && old.state.focused is None ==> out.len() == 0,
        evt.code != KEY_ESCAPE && old.state.focused is Some && first_window(old.state, old.state.focused->0, a, w)
            ==> out.len() == 1 && (out[0] matches PlatAction::Send(to, APICommand::KeyDown(e)) && to
            == old.state.window_at(a, w).owner && e.app_id == old.state.window_at(a, w).owner && e.window_id
            == old.state.focused->0 && e.code == evt.code && e.key == evt.key),
{
    if evt.code != KEY_ESCAPE && old.state.focused is Some {
        let id = old.state.focused->0;
        if first_window(old.state, id, a, w) {
            assert(old.state.window_at(a, w).id == id);
        }
    }
}

} // verus!
