use vstd::prelude::*;
use crate::geom::{Point, Rect};
use crate::headless::{lemma_first_window_unique, no_window, open_window_in_wm, open_window_ok, top_hit, window_hit, window_opened};
use crate::platform::{fill_rect_in_window, rect_filled, KEY_ESCAPE};
use crate::protocol::{APICommand, KeyDownEvent};
use crate::surf::clamp_500;
use crate::wm::{before, first_window, WindowManagerState};

verus! {

/// What the framebuffer window manager does after a message.
#[derive(Debug)]
pub enum LinuxWmAction {
    /// Send a command to the central server for the given application.
    Send(u128, APICommand),
    /// Draw the frame again: the windows' back buffers, then the cursor.
    Redraw,
    /// Stop the drawing loop.
    Stop,
}

/// The messages that `linux_wm_step` can handle: a window to open must
/// have a content area the window manager can hold, and a window drawn to
/// must accept the rectangle.
pub open spec fn linux_step_allowed(st: WindowManagerState, cmd: APICommand) -> bool {
    &&& cmd matches APICommand::OpenWindowResponse(ow) ==> open_window_ok(ow)
    &&& cmd matches APICommand::DrawRectCommand(dr) ==> forall|a: int, w: int|
        #[trigger] first_window(st, dr.window_id, a, w) ==> st.window_at(a, w).backbuffer.fill_ok(dr.rect)
}

/// What a key press does: escape stops the loop; any other key goes to the
/// application of the focused window, for that window, with timestamp 0;
/// without a focused window nothing is sent.
pub open spec fn key_forwarded(st: WindowManagerState, kd: KeyDownEvent, out: Seq<LinuxWmAction>) -> bool {
    &&& kd.code == KEY_ESCAPE ==> out == seq![LinuxWmAction::Stop]
    &&& kd.code != KEY_ESCAPE ==> match st.focused {
        None => out.len() == 0,
        Some(id) => {
            &&& no_window(st, id) ==> out.len() == 0
            &&& forall|a: int, w: int|
                #[trigger] first_window(st, id, a, w) ==> {
                    let win = st.window_at(a, w);
                    out == seq![
                        LinuxWmAction::Send(
                            win.owner,
                            APICommand::KeyDown(
                                KeyDownEvent {
                                    app_id: win.owner,
                                    window_id: win.id,
                                    original_timestamp: 0,
                                    code: kd.code,
                                    key: kd.key,
                                },
                            ),
                        ),
                    ]
                }
        },
    }
}

/// Handles one message in the window manager that draws onto a
/// framebuffer: it keeps track of applications and windows, focuses a
/// window when it opens and when it is clicked (the highest window under
/// the mouse), draws rectangles into back buffers, forwards keys to the
/// focused window, stops on escape, and moves the cursor with the mouse,
/// held to `0..=500` on both axes.
pub fn linux_wm_step(st: &mut WindowManagerState, cursor: &mut Rect, cmd: APICommand) -> (out: Vec<LinuxWmAction>)
    requires
        old(st).windows_ok(),
        linux_step_allowed(*old(st), cmd),
    ensures
        final(st).windows_ok(),
        match cmd {
            APICommand::AppConnectResponse(res) => {
                &&& final(st).apps@ == old(st).apps@.push(final(st).apps@.last())
                &&& final(st).apps@.last().id == res.app_id
                &&& final(st).apps@.last().windows@.len() == 0
                &&& final(st).focused == old(st).focused
                &&& *final(cursor) == *old(cursor)
                &&& out@.len() == 0
            },
            APICommand::OpenWindowResponse(ow) => {
                &&& window_opened(*old(st), WindowManagerState { focused: old(st).focused, ..*final(st) }, ow)
                &&& final(st).focused == Some(ow.window_id)
                &&& *final(cursor) == *old(cursor)
                &&& out@.len() == 0
            },
            APICommand::DrawRectCommand(dr) => {
                &&& rect_filled(*old(st), *final(st), dr)
                &&& *final(cursor) == *old(cursor)
                &&& out@ == seq![LinuxWmAction::Redraw]
            },
            APICommand::KeyDown(kd) => {
                &&& *final(st) == *old(st)
                &&& *final(cursor) == *old(cursor)
                &&& key_forwarded(*old(st), kd, out@)
            },
            APICommand::MouseDown(e) => {
                &&& final(st).apps@ == old(st).apps@
                &&& (forall|a: int, w: int| !#[trigger] window_hit(*old(st), a, w, e.x as int, e.y as int))
                    ==> final(st).focused == old(st).focused
                &&& forall|a: int, w: int|
                    #[trigger] top_hit(*old(st), a, w, e.x as int, e.y as int) ==> final(st).focused == Some(
                        old(st).window_at(a, w).id,
                    )
                &&& *final(cursor) == *old(cursor)
                &&& out@.len() == 0
            },
            APICommand::MouseMove(m) => {
                &&& *final(st) == *old(st)
                &&& *final(cursor) == (Rect {
                    x: clamp_500(m.x as int) as i32,
                    y: clamp_500(m.y as int) as i32,
                    w: old(cursor).w,
                    h: old(cursor).h,
                })
                &&& out@ == seq![LinuxWmAction::Redraw]
            },
            _ => {
                &&& *final(st) == *old(st)
                &&& *final(cursor) == *old(cursor)
                &&& out@.len() == 0
            },
        },
{
    let ghost st0 = *st;
    let mut out: Vec<LinuxWmAction> = Vec::new();
    match cmd {
        APICommand::AppConnectResponse(res) => {
            st.add_app(res.app_id);
            assert(st.apps@ =~= st0.apps@.push(st.apps@.last()));
            assert(st.windows_ok()) by {
                assert forall|a: int, w: int|
                    0 <= a < st.apps@.len() && 0 <= w < st.apps@[a].windows@.len() implies (
                    #[trigger] st.apps@[a].windows@[w]).geometry_ok() by {
                    assert(st.apps@[a] == st0.apps@[a]);
                }
            }
        },
        APICommand::OpenWindowResponse(ow) => {
            open_window_in_wm(st, &ow);
            let ghost opened = *st;
            st.set_focused_window(ow.window_id);
            assert(WindowManagerState { focused: st0.focused, ..*st } == opened);
        },
        APICommand::DrawRectCommand(dr) => {
            fill_rect_in_window(st, &dr);
            out.push(LinuxWmAction::Redraw);
            assert(out@ =~= seq![LinuxWmAction::Redraw]);
        },
        APICommand::KeyDown(kd) => {
            if kd.code == KEY_ESCAPE {
                out.push(LinuxWmAction::Stop);
                assert(out@ =~= seq![LinuxWmAction::Stop]);
            } else {
                match st.focused {
                    Some(id) => {
                        match st.locate_window(id) {
                            Some((a, w)) => {
                                proof {
                                    assert(first_window(*st, id, a as int, w as int));
                                    lemma_first_window_unique(*st, id, a as int, w as int);
                                }
                                let win = &st.apps[a].windows[w];
                                let msg = LinuxWmAction::Send(
                                    win.owner,
                                    APICommand::KeyDown(
                                        KeyDownEvent {
                                            app_id: win.owner,
                                            window_id: win.id,
                                            original_timestamp: 0,
                                            code: kd.code,
                                            key: kd.key,
                                        },
                                    ),
                                );
                                let ghost m = msg;
                                out.push(msg);
                                assert(out@ =~= seq![m]);
                            },
                            None => {},
                        }
                    },
                    None => {},
                }
            }
        },
        APICommand::MouseDown(e) => {
            let point = Point::init(e.x, e.y);
            match st.pick_window_at(point) {
                Some(win) => {
                    let wid = win.id;
                    let ghost hit: (int, int) = choose|a: int, w: int|
                        st0.has_window(a, w) && *win == st0.window_at(a, w) && win.spec_external_bounds().spec_contains(
                            e.x as int,
                            e.y as int,
                        ) && forall|a2: int, w2: int|
                            st0.has_window(a2, w2) && before(a, w, a2, w2) ==> !(#[trigger] st0.window_at(
                                a2,
                                w2,
                            )).spec_external_bounds().spec_contains(e.x as int, e.y as int);
                    proof {
                        let (a, w) = hit;
                        assert(top_hit(st0, a, w, e.x as int, e.y as int));
                        assert(window_hit(st0, a, w, e.x as int, e.y as int));
                        assert forall|a1: int, w1: int| #[trigger] top_hit(st0, a1, w1, e.x as int, e.y as int) implies
                            st0.window_at(a1, w1) == st0.window_at(a, w) by {
                            if before(a1, w1, a, w) {
                                assert(window_hit(st0, a, w, e.x as int, e.y as int));
                            } else if before(a, w, a1, w1) {
                                assert(window_hit(st0, a1, w1, e.x as int, e.y as int));
                            }
                        }
                    }
                    st.set_focused_window(wid);
                },
                None => {
                    proof {
                        assert forall|a: int, w: int| !#[trigger] top_hit(st0, a, w, e.x as int, e.y as int) by {
                            if st0.has_window(a, w) {
                                assert(!st0.window_at(a, w).spec_external_bounds().spec_contains(e.x as int, e.y as int));
                            }
                        }
                    }
                },
            }
        },
        APICommand::MouseMove(m) => {
            let mut x = m.x;
            if x < 0 {
                x = 0;
            }
            if x > 500 {
                x = 500;
            }
            let mut y = m.y;
            if y < 0 {
                y = 0;
            }
            if y > 500 {
                y = 500;
            }
            cursor.x = x;
            cursor.y = y;
            out.push(LinuxWmAction::Redraw);
            assert(out@ =~= seq![LinuxWmAction::Redraw]);
        },
        _ => {},
    }
    out
}

/// Whether `linux_wm_step` can take the message.
pub fn linux_step_can(st: &WindowManagerState, cmd: &APICommand) -> (r: bool)
    requires
        st.windows_ok(),
    ensures
        r == linux_step_allowed(*st, *cmd),
{
    match cmd {
        APICommand::OpenWindowResponse(ow) => {
            let b = ow.bounds;
            if b.w <= 0 || b.h < 0 {
                return false;
            }
            assert((b.w as i64) * (b.h as i64) <= i32::MAX as i64 * i32::MAX as i64) by (nonlinear_arith)
                requires
                    0 < b.w <= i32::MAX,
                    0 <= b.h <= i32::MAX,
            ;
            if (b.w as i64) * (b.h as i64) > 0x3fff_ffff {
                return false;
            }
            (b.x as i64) + 5 <= i32::MAX as i64 && (b.y as i64) + 15 <= i32::MAX as i64 && (b.w as i64) + 10
                <= i32::MAX as i64 && (b.h as i64) + 20 <= i32::MAX as i64
        },
        APICommand::DrawRectCommand(dr) => {
            match st.locate_window(dr.window_id) {
                Some((a, w)) => {
                    proof {
                        assert(first_window(*st, dr.window_id, a as int, w as int));
                        lemma_first_window_unique(*st, dr.window_id, a as int, w as int);
                    }
                    st.apps[a].windows[w].backbuffer.can_fill_rect(dr.rect)
                },
                None => true,
            }
        },
        _ => true,
    }
}

} // verus!
