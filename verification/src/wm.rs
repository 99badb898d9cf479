use vstd::prelude::*;
use crate::color::{encode, ARGBColor, PixelLayout};
use crate::geom::{fits_i32, Point, Rect, Size};
use crate::graphics::GFXBuffer;
use crate::protocol::{MouseDownEvent, MouseMoveEvent, MouseUpEvent};

verus! {

pub const TITLE_BAR_HEIGHT: i32 = 10;

pub const WINDOW_BORDER_WIDTH: i32 = 5;

pub fn window_color() -> (c: ARGBColor)
    ensures
        c == (ARGBColor { r: 255, g: 0, b: 0, a: 255 }),
{
    ARGBColor { r: 255, g: 0, b: 0, a: 255 }
}

pub fn titlebar_color() -> (c: ARGBColor)
    ensures
        c == (ARGBColor { r: 0, g: 255, b: 0, a: 255 }),
{
    ARGBColor { r: 0, g: 255, b: 0, a: 255 }
}

pub fn focused_window_color() -> (c: ARGBColor)
    ensures
        c == (ARGBColor { r: 255, g: 200, b: 200, a: 255 }),
{
    ARGBColor { r: 255, g: 200, b: 200, a: 255 }
}

pub fn focused_titlebar_color() -> (c: ARGBColor)
    ensures
        c == (ARGBColor { r: 200, g: 255, b: 200, a: 255 }),
{
    ARGBColor { r: 200, g: 255, b: 200, a: 255 }
}

/// The colour a new window's back buffer is cleared to.
pub open spec fn window_background() -> ARGBColor {
    ARGBColor { r: 255, g: 128, b: 0, a: 255 }
}

pub enum WindowType {
    Plain(),
    Popup(),
}

/// A window: its owner, its content in a back buffer, where it sits and
/// the size of its content. The frame adds a border on every side and a
/// title bar above the content.
pub struct Window {
    pub id: u128,
    pub owner: u128,
    pub backbuffer: GFXBuffer,
    pub position: Point,
    pub content_size: Size,
    pub window_type: WindowType,
}

impl Window {
    /// The frame's coordinates fit in 32 bits.
    pub open spec fn geometry_ok(&self) -> bool {
        &&& fits_i32(self.position.x + WINDOW_BORDER_WIDTH)
        &&& fits_i32(self.position.y + WINDOW_BORDER_WIDTH + TITLE_BAR_HEIGHT)
        &&& fits_i32(self.content_size.w + 2 * WINDOW_BORDER_WIDTH)
        &&& fits_i32(self.content_size.h + 2 * WINDOW_BORDER_WIDTH + TITLE_BAR_HEIGHT)
    }

    pub open spec fn spec_external_bounds(&self) -> Rect {
        Rect {
            x: self.position.x,
            y: self.position.y,
            w: (WINDOW_BORDER_WIDTH + self.content_size.w + WINDOW_BORDER_WIDTH) as i32,
            h: (WINDOW_BORDER_WIDTH + TITLE_BAR_HEIGHT + self.content_size.h + WINDOW_BORDER_WIDTH) as i32,
        }
    }

    pub open spec fn spec_content_bounds(&self) -> Rect {
        Rect {
            x: (self.position.x + WINDOW_BORDER_WIDTH) as i32,
            y: (self.position.y + WINDOW_BORDER_WIDTH + TITLE_BAR_HEIGHT) as i32,
            w: self.content_size.w,
            h: self.content_size.h,
        }
    }

    pub open spec fn spec_titlebar_bounds(&self) -> Rect {
        Rect {
            x: (self.position.x + WINDOW_BORDER_WIDTH) as i32,
            y: (self.position.y + WINDOW_BORDER_WIDTH) as i32,
            w: self.content_size.w,
            h: TITLE_BAR_HEIGHT,
        }
    }

    /// The area that holds the window's content.
    pub fn content_bounds(&self) -> (r: Rect)
        requires
            self.geometry_ok(),
        ensures
            r == self.spec_content_bounds(),
    {
        Rect {
            x: self.position.x + WINDOW_BORDER_WIDTH,
            y: self.position.y + WINDOW_BORDER_WIDTH + TITLE_BAR_HEIGHT,
            w: self.content_size.w,
            h: self.content_size.h,
        }
    }

    /// The whole window, frame included.
    pub fn external_bounds(&self) -> (r: Rect)
        requires
            self.geometry_ok(),
        ensures
            r == self.spec_external_bounds(),
    {
        Rect {
            x: self.position.x,
            y: self.position.y,
            w: WINDOW_BORDER_WIDTH + self.content_size.w + WINDOW_BORDER_WIDTH,
            h: WINDOW_BORDER_WIDTH + TITLE_BAR_HEIGHT + self.content_size.h + WINDOW_BORDER_WIDTH,
        }
    }

    /// The title bar, above the content.
    pub fn titlebar_bounds(&self) -> (r: Rect)
        requires
            self.geometry_ok(),
        ensures
            r == self.spec_titlebar_bounds(),
    {
        Rect {
            x: self.position.x + WINDOW_BORDER_WIDTH,
            y: self.position.y + WINDOW_BORDER_WIDTH,
            w: self.content_size.w,
            h: TITLE_BAR_HEIGHT,
        }
    }
}

/// The content and the title bar of a window lie inside its frame, and the
/// title bar lies above the content without overlapping it.
pub proof fn lemma_window_layout(w: Window, px: int, py: int)
    requires
        w.geometry_ok(),
        w.content_size.w >= 0,
        w.content_size.h >= 0,
    ensures
        w.spec_content_bounds().spec_contains(px, py) ==> w.spec_external_bounds().spec_contains(px, py),
        w.spec_titlebar_bounds().spec_contains(px, py) ==> w.spec_external_bounds().spec_contains(px, py),
        !(w.spec_titlebar_bounds().spec_contains(px, py) && w.spec_content_bounds().spec_contains(px, py)),
{
}

/// All windows, application by application, each application's windows in
/// order.
pub open spec fn all_windows(apps: Seq<App>) -> Seq<Window>
    decreases apps.len(),
{
    if apps.len() == 0 {
        Seq::empty()
    } else {
        all_windows(apps.drop_last()) + apps.last().windows@
    }
}

/// An application and its windows.
pub struct App {
    pub id: u128,
    pub windows: Vec<Window>,
}

/// The window manager's record of applications, their windows and the
/// focused window.
pub struct WindowManagerState {
    pub apps: Vec<App>,
    pub focused: Option<u128>,
}

/// The first application with the given id is at `i`.
pub open spec fn first_app(apps: Seq<App>, id: u128, i: int) -> bool {
    0 <= i < apps.len() && apps[i].id == id && forall|j: int| 0 <= j < i ==> #[trigger] apps[j].id != id
}

/// Window `w` of application `a` comes before window `w2` of application
/// `a2` in the order in which the state lists them.
pub open spec fn before(a: int, w: int, a2: int, w2: int) -> bool {
    a < a2 || (a == a2 && w < w2)
}

impl WindowManagerState {
    /// Every window's frame has coordinates that fit in 32 bits.
    pub open spec fn windows_ok(&self) -> bool {
        forall|a: int, w: int|
            0 <= a < self.apps@.len() && 0 <= w < self.apps@[a].windows@.len()
                ==> (#[trigger] self.apps@[a].windows@[w]).geometry_ok()
    }

    pub open spec fn window_at(&self, a: int, w: int) -> Window {
        self.apps@[a].windows@[w]
    }

    pub open spec fn has_window(&self, a: int, w: int) -> bool {
        0 <= a < self.apps@.len() && 0 <= w < self.apps@[a].windows@.len()
    }

    pub fn init() -> (s: WindowManagerState)
        ensures
            s.apps@.len() == 0,
            s.focused is None,
    {
        WindowManagerState { apps: Vec::new(), focused: None }
    }

    pub fn is_focused_window(&self, win: &Window) -> (r: bool)
        ensures
            r == (self.focused == Some(win.id)),
    {
        match self.focused {
            Some(foc) => foc == win.id,
            None => false,
        }
    }

    /// Registers an application without windows.
    pub fn add_app(&mut self, app_id: u128)
        ensures
            final(self).apps@.len() == old(self).apps@.len() + 1,
            forall|i: int| 0 <= i < old(self).apps@.len() ==> final(self).apps@[i] == old(self).apps@[i],
            final(self).apps@.last().id == app_id,
            final(self).apps@.last().windows@.len() == 0,
            final(self).focused == old(self).focused,
    {
        let app = App { id: app_id, windows: vec![] };
        self.apps.push(app);
    }

    /// The first application with the given id.
    pub fn find_app(&mut self, app_id: u128) -> (r: Option<&mut App>)
        ensures
            match r {
                Some(a) => exists|i: int|
                    first_app(old(self).apps@, app_id, i) && *a == old(self).apps@[i] && final(self).apps@
                        == old(self).apps@.update(i, *final(a)) && final(self).focused == old(self).focused,
                None => (forall|j: int| 0 <= j < old(self).apps@.len() ==> old(self).apps@[j].id != app_id)
                    && *final(self) == *old(self),
            },
    {
        let mut i: usize = 0;
        while i < self.apps.len()
            invariant
                i <= self.apps@.len(),
                *self == *old(self),
                forall|j: int| 0 <= j < i ==> self.apps@[j].id != app_id,
            decreases self.apps@.len() - i,
        {
            if self.apps[i].id == app_id {
                assert(first_app(old(self).apps@, app_id, i as int));
                return Some(&mut self.apps[i]);
            }
            i = i + 1;
        }
        None
    }

    /// Opens a window with the content area `bounds` for the first
    /// application with id `app_id`, its back buffer cleared to orange; an
    /// unknown application gets no window. Returns `win_id`.
    pub fn add_window(&mut self, app_id: u128, win_id: u128, bounds: &Rect) -> (r: u128)
        requires
            bounds.w > 0,
            bounds.h >= 0,
            4 * (bounds.w * bounds.h) <= u32::MAX,
        ensures
            r == win_id,
            final(self).focused == old(self).focused,
            (forall|j: int| 0 <= j < old(self).apps@.len() ==> old(self).apps@[j].id != app_id) ==> final(self).apps@
                == old(self).apps@,
            forall|i: int|
                #[trigger] first_app(old(self).apps@, app_id, i) ==> {
                    &&& final(self).apps@.len() == old(self).apps@.len()
                    &&& forall|j: int|
                        0 <= j < old(self).apps@.len() && j != i ==> final(self).apps@[j] == old(self).apps@[j]
                    &&& final(self).apps@[i].id == app_id
                    &&& final(self).apps@[i].windows@.len() == old(self).apps@[i].windows@.len() + 1
                    &&& forall|k: int|
                        0 <= k < old(self).apps@[i].windows@.len() ==> final(self).apps@[i].windows@[k]
                            == old(self).apps@[i].windows@[k]
                    &&& {
                        let w = final(self).apps@[i].windows@.last();
                        &&& w.id == win_id
                        &&& w.owner == app_id
                        &&& w.position == Point { x: bounds.x, y: bounds.y }
                        &&& w.content_size == Size { w: bounds.w, h: bounds.h }
                        &&& w.window_type == WindowType::Plain()
                        &&& w.backbuffer.wf()
                        &&& w.backbuffer.width == bounds.w
                        &&& w.backbuffer.height == bounds.h
                        &&& w.backbuffer.layout == PixelLayout::ARGB()
                        &&& w.backbuffer.all_pixels(
                            encode(PixelLayout::ARGB(), window_background().argb()),
                        )
                    }
                },
    {
        let mut backbuffer = GFXBuffer::new(bounds.w as u32, bounds.h as u32, &PixelLayout::ARGB());
        let bg_color: ARGBColor = ARGBColor::new_rgb(255, 128, 0);
        backbuffer.clear(&bg_color);
        let win = Window {
            id: win_id,
            position: bounds.position(),
            content_size: bounds.size(),
            owner: app_id,
            backbuffer,
            window_type: WindowType::Plain(),
        };
        let ghost old_apps = self.apps@;
        match self.find_app(app_id) {
            Some(app) => {
                app.windows.push(win);
                proof {
                    assert forall|i: int| #[trigger] first_app(old_apps, app_id, i) implies {
                        let c = choose|c: int| first_app(old_apps, app_id, c);
                        i == c
                    } by {
                        let c = choose|c: int| first_app(old_apps, app_id, c);
                        if i < c {
                            assert(old_apps[i].id != app_id);
                        } else if c < i {
                            assert(old_apps[c].id != app_id);
                        }
                    }
                }
            },
            None => {},
        }
        win_id
    }

    /// The first window of the first application, if both exist.
    pub fn find_first_window(&self) -> (r: Option<&Window>)
        ensures
            match r {
                Some(w) => self.apps@.len() > 0 && self.apps@[0].windows@.len() > 0 && *w
                    == self.apps@[0].windows@[0],
                None => self.apps@.len() == 0 || self.apps@[0].windows@.len() == 0,
            },
    {
        if self.apps.len() > 0 {
            let app = &self.apps[0];
            if app.windows.len() > 0 {
                return Some(&app.windows[0]);
            }
        }
        None
    }

    pub fn get_focused_window(&self) -> (r: &Option<u128>)
        ensures
            *r == self.focused,
    {
        &self.focused
    }

    pub fn set_focused_window(&mut self, winid: u128)
        ensures
            final(self).focused == Some(winid),
            final(self).apps@ == old(self).apps@,
            final(self).apps == old(self).apps,
    {
        self.focused = Some(winid);
    }

    /// The highest window whose frame contains `pt`: windows are drawn in
    /// the state's order, so that is the last such window in that order.
    pub fn pick_window_at(&self, pt: Point) -> (r: Option<&Window>)
        requires
            self.windows_ok(),
        ensures
            match r {
                Some(win) => exists|a: int, w: int|
                    self.has_window(a, w) && *win == self.window_at(a, w)
                        && win.spec_external_bounds().spec_contains(pt.x as int, pt.y as int)
                        && forall|a2: int, w2: int|
                        self.has_window(a2, w2) && before(a, w, a2, w2) ==> !(#[trigger] self.window_at(
                            a2,
                            w2,
                        )).spec_external_bounds().spec_contains(pt.x as int, pt.y as int),
                None => forall|a: int, w: int|
                    self.has_window(a, w) ==> !(#[trigger] self.window_at(
                        a,
                        w,
                    )).spec_external_bounds().spec_contains(pt.x as int, pt.y as int),
            },
    {
        let mut a: usize = self.apps.len();
        while a > 0
            invariant
                self.windows_ok(),
                a <= self.apps@.len(),
                forall|a2: int, w2: int|
                    self.has_window(a2, w2) && a2 >= a ==> !(#[trigger] self.window_at(
                        a2,
                        w2,
                    )).spec_external_bounds().spec_contains(pt.x as int, pt.y as int),
            decreases a,
        {
            a = a - 1;
            let app = &self.apps[a];
            let mut w: usize = app.windows.len();
            while w > 0
                invariant
                    self.windows_ok(),
                    a < self.apps@.len(),
                    *app == self.apps@[a as int],
                    w <= app.windows@.len(),
                    forall|a2: int, w2: int|
                        self.has_window(a2, w2) && (a2 > a || (a2 == a && w2 >= w)) ==> !(
                        #[trigger] self.window_at(a2, w2)).spec_external_bounds().spec_contains(
                            pt.x as int,
                            pt.y as int,
                        ),
                decreases w,
            {
                w = w - 1;
                let win = &app.windows[w];
                assert(win == self.window_at(a as int, w as int));
                if win.external_bounds().contains(&pt) {
                    return Some(win);
                }
            }
        }
        None
    }

    /// The first window, in the state's order, with the given id.
    pub fn lookup_window(&mut self, win_id: u128) -> (r: Option<&mut Window>)
        ensures
            final(self).focused == old(self).focused,
            match r {
                Some(win) => exists|a: int, w: int|
                    old(self).has_window(a, w) && old(self).window_at(a, w).id == win_id && *win == old(
                        self,
                    ).window_at(a, w) && (forall|a2: int, w2: int|
                        old(self).has_window(a2, w2) && before(a2, w2, a, w) ==> (#[trigger] old(
                            self,
                        ).window_at(a2, w2)).id != win_id) && final(self).apps@.len() == old(
                        self,
                    ).apps@.len() && (forall|b: int|
                        0 <= b < old(self).apps@.len() && b != a ==> final(self).apps@[b] == old(
                            self,
                        ).apps@[b]) && final(self).apps@[a].id == old(self).apps@[a].id
                        && final(self).apps@[a].windows@ == old(self).apps@[a].windows@.update(
                        w,
                        *final(win),
                    ),
                None => (forall|a: int, w: int|
                    old(self).has_window(a, w) ==> (#[trigger] old(self).window_at(a, w)).id != win_id)
                    && *final(self) == *old(self),
            },
    {
        match self.locate_window(win_id) {
            Some((a, w)) => {
                assert(self.has_window(a as int, w as int));
                Some(&mut self.apps[a].windows[w])
            },
            None => None,
        }
    }

    /// Where the first window with the given id is: its application's index
    /// and its index in that application.
    pub fn locate_window(&self, win_id: u128) -> (r: Option<(usize, usize)>)
        ensures
            match r {
                Some((a, w)) => self.has_window(a as int, w as int) && self.window_at(a as int, w as int).id == win_id
                    && (forall|a2: int, w2: int|
                    self.has_window(a2, w2) && before(a2, w2, a as int, w as int) ==> (#[trigger] self.window_at(
                        a2,
                        w2,
                    )).id != win_id),
                None => forall|a: int, w: int|
                    self.has_window(a, w) ==> (#[trigger] self.window_at(a, w)).id != win_id,
            },
    {
        let mut a: usize = 0;
        while a < self.apps.len()
            invariant
                a <= self.apps@.len(),
                forall|a2: int, w2: int|
                    self.has_window(a2, w2) && a2 < a ==> (#[trigger] self.window_at(a2, w2)).id
                        != win_id,
            decreases self.apps@.len() - a,
        {
            let mut w: usize = 0;
            while w < self.apps[a].windows.len()
                invariant
                    a < self.apps@.len(),
                    w <= self.apps@[a as int].windows@.len(),
                    forall|a2: int, w2: int|
                        self.has_window(a2, w2) && before(a2, w2, a as int, w as int) ==> (
                        #[trigger] self.window_at(a2, w2)).id != win_id,
                decreases self.apps@[a as int].windows@.len() - w,
            {
                if self.apps[a].windows[w].id == win_id {
                    return Some((a, w));
                }
                w = w + 1;
            }
            a = a + 1;
        }
        None
    }

    /// References to all windows, in the state's order.
    pub fn window_list(&self) -> (res: Vec<&Window>)
        ensures
            res@.map_values(|w: &Window| *w) == all_windows(self.apps@),
    {
        let mut res: Vec<&Window> = vec![];
        let mut a: usize = 0;
        while a < self.apps.len()
            invariant
                a <= self.apps@.len(),
                res@.map_values(|w: &Window| *w) == all_windows(self.apps@.take(a as int)),
            decreases self.apps@.len() - a,
        {
            let app = &self.apps[a];
            assert(self.apps@.take(a + 1).drop_last() =~= self.apps@.take(a as int));
            let ghost start = res@.map_values(|w: &Window| *w);
            let mut w: usize = 0;
            while w < app.windows.len()
                invariant
                    w <= app.windows@.len(),
                    res@.map_values(|x: &Window| *x) == start + app.windows@.take(w as int),
                decreases app.windows@.len() - w,
            {
                let ghost before = res@;
                res.push(&app.windows[w]);
                assert(res@.map_values(|x: &Window| *x) =~= before.map_values(|x: &Window| *x).push(
                    app.windows@[w as int],
                ));
                assert(app.windows@.take(w + 1) =~= app.windows@.take(w as int).push(app.windows@[w as int]));
                assert(res@.map_values(|x: &Window| *x) =~= start + app.windows@.take(w + 1));
                w = w + 1;
            }
            assert(app.windows@.take(app.windows@.len() as int) =~= app.windows@);
            assert(all_windows(self.apps@.take(a + 1)) == all_windows(self.apps@.take(a as int))
                + self.apps@[a as int].windows@);
            a = a + 1;
        }
        assert(self.apps@.take(self.apps@.len() as int) =~= self.apps@);
        res
    }

    /// Forgets every application with the given id, and its windows.
    pub fn remove_app(&mut self, app_id: u128)
        ensures
            final(self).apps@ == apps_without(old(self).apps@, app_id),
            final(self).focused == old(self).focused,
    {
        let ghost orig = self.apps@;
        let mut rest: Vec<App> = Vec::new();
        std::mem::swap(&mut rest, &mut self.apps);
        let mut kept: Vec<App> = Vec::new();
        let ghost mut k: int = 0;
        while rest.len() > 0
            invariant
                0 <= k <= orig.len(),
                rest@ == orig.skip(k),
                kept@ == orig.take(k).filter(|a: App| a.id != app_id),
                self.focused == old(self).focused,
            decreases rest@.len(),
        {
            let a = rest.remove(0);
            proof {
                reveal_with_fuel(Seq::filter, 1);
                assert(orig.take(k + 1).drop_last() =~= orig.take(k));
                assert(orig[k] == a);
            }
            if a.id != app_id {
                kept.push(a);
            }
            proof {
                k = k + 1;
                assert(rest@ =~= orig.skip(k));
            }
        }
        assert(orig.take(k) =~= orig);
        self.apps = kept;
    }
}

/// The window with the given id that `lookup_window` finds is at `(a, w)`.
pub open spec fn first_window(st: WindowManagerState, id: u128, a: int, w: int) -> bool {
    &&& st.has_window(a, w)
    &&& st.window_at(a, w).id == id
    &&& forall|a2: int, w2: int|
        st.has_window(a2, w2) && before(a2, w2, a, w) ==> (#[trigger] st.window_at(a2, w2)).id != id
}

/// `new` is `old` with window `(a, w)` replaced by `win`.
pub open spec fn window_replaced(old: WindowManagerState, new: WindowManagerState, a: int, w: int, win: Window) -> bool {
    &&& new.focused == old.focused
    &&& new.apps@.len() == old.apps@.len()
    &&& forall|b: int| 0 <= b < old.apps@.len() && b != a ==> new.apps@[b] == old.apps@[b]
    &&& new.apps@[a].id == old.apps@[a].id
    &&& new.apps@[a].windows@ == old.apps@[a].windows@.update(w, win)
}

/// An input gesture: what a press, a move and a release of the mouse do
/// to the window manager's state.
pub trait InputGesture {
    fn mouse_down(&mut self, evt: MouseDownEvent, state: &mut WindowManagerState);

    fn mouse_move(&mut self, evt: MouseMoveEvent, state: &mut WindowManagerState);

    fn mouse_up(&mut self, evt: MouseUpEvent, state: &mut WindowManagerState);
}

/// The gesture that does nothing.
pub struct NoOpGesture {}

impl NoOpGesture {
    pub fn init() -> (g: NoOpGesture)
        ensures
            g == (NoOpGesture {}),
    {
        NoOpGesture {}
    }
}

impl InputGesture for NoOpGesture {
    fn mouse_down(&mut self, evt: MouseDownEvent, state: &mut WindowManagerState)
        ensures
            *final(state) == *old(state),
    {
    }

    fn mouse_move(&mut self, evt: MouseMoveEvent, state: &mut WindowManagerState)
        ensures
            *final(state) == *old(state),
    {
    }

    fn mouse_up(&mut self, evt: MouseUpEvent, state: &mut WindowManagerState)
        ensures
            *final(state) == *old(state),
    {
    }
}

/// Dragging a window: the window follows the mouse.
pub struct WindowDragGesture {
    pub start: Point,
    pub winid: u128,
}

impl WindowDragGesture {
    /// A drag of the given window; the starting point is taken from the
    /// press that follows, not from `start`.
    pub fn init(start: Point, win: u128) -> (g: WindowDragGesture)
        ensures
            g.start == (Point { x: 0, y: 0 }),
            g.winid == win,
    {
        WindowDragGesture { start: Point::init(0, 0), winid: win }
    }

    /// Puts the dragged window's top left corner at `(x, y)`.
    fn move_window(&self, x: i32, y: i32, state: &mut WindowManagerState)
        ensures
            (forall|a: int, w: int|
                old(state).has_window(a, w) ==> (#[trigger] old(state).window_at(a, w)).id != self.winid)
                ==> *final(state) == *old(state),
            forall|a: int, w: int|
                #[trigger] first_window(*old(state), self.winid, a, w) ==> window_replaced(
                    *old(state),
                    *final(state),
                    a,
                    w,
                    Window { position: Point { x, y }, ..old(state).window_at(a, w) },
                ),
    {
        let ghost st = *state;
        match state.lookup_window(self.winid) {
            Some(win) => {
                let ghost w0 = *win;
                win.position.x = x;
                win.position.y = y;
                proof {
                    let (a, w) = choose|a: int, w: int|
                        st.has_window(a, w) && st.window_at(a, w).id == self.winid && w0 == st.window_at(a, w)
                            && (forall|a2: int, w2: int|
                            st.has_window(a2, w2) && before(a2, w2, a, w) ==> (#[trigger] st.window_at(
                                a2,
                                w2,
                            )).id != self.winid) && state.apps@.len() == st.apps@.len() && (forall|b: int|
                            0 <= b < st.apps@.len() && b != a ==> state.apps@[b] == st.apps@[b])
                            && state.apps@[a].id == st.apps@[a].id && state.apps@[a].windows@
                            == st.apps@[a].windows@.update(w, *win);
                    assert(first_window(st, self.winid, a, w));
                    assert forall|a1: int, w1: int| #[trigger] first_window(st, self.winid, a1, w1) implies a1 == a
                        && w1 == w by {
                        if before(a1, w1, a, w) {
                            assert(st.window_at(a1, w1).id != self.winid);
                        } else if before(a, w, a1, w1) {
                            assert(st.window_at(a, w).id != self.winid);
                        }
                    }
                }
            },
            None => {},
        }
    }
}

impl InputGesture for WindowDragGesture {
    fn mouse_down(&mut self, evt: MouseDownEvent, state: &mut WindowManagerState)
        ensures
            final(self).start == (Point { x: evt.x, y: evt.y }),
            final(self).winid == old(self).winid,
            *final(state) == *old(state),
    {
        self.start = Point::init(evt.x, evt.y);
    }

    fn mouse_move(&mut self, evt: MouseMoveEvent, state: &mut WindowManagerState)
        ensures
            *final(self) == *old(self),
            (forall|a: int, w: int|
                old(state).has_window(a, w) ==> (#[trigger] old(state).window_at(a, w)).id != old(self).winid)
                ==> *final(state) == *old(state),
            forall|a: int, w: int|
                #[trigger] first_window(*old(state), old(self).winid, a, w) ==> window_replaced(
                    *old(state),
                    *final(state),
                    a,
                    w,
                    Window { position: Point { x: evt.x, y: evt.y }, ..old(state).window_at(a, w) },
                ),
    {
        self.move_window(evt.x, evt.y, state);
    }

    fn mouse_up(&mut self, evt: MouseUpEvent, state: &mut WindowManagerState)
        ensures
            *final(self) == *old(self),
            (forall|a: int, w: int|
                old(state).has_window(a, w) ==> (#[trigger] old(state).window_at(a, w)).id != old(self).winid)
                ==> *final(state) == *old(state),
            forall|a: int, w: int|
                #[trigger] first_window(*old(state), old(self).winid, a, w) ==> window_replaced(
                    *old(state),
                    *final(state),
                    a,
                    w,
                    Window { position: Point { x: evt.x, y: evt.y }, ..old(state).window_at(a, w) },
                ),
    {
        self.move_window(evt.x, evt.y, state);
    }
}

/// If some application has the id, a first one does.
pub proof fn lemma_first_app_exists(apps: Seq<App>, id: u128, j: int)
    requires
        0 <= j < apps.len(),
        apps[j].id == id,
    ensures
        exists|i: int| first_app(apps, id, i),
    decreases j,
{
    if forall|k: int| 0 <= k < j ==> #[trigger] apps[k].id != id {
        assert(first_app(apps, id, j));
    } else {
        let k = choose|k: int| 0 <= k < j && #[trigger] apps[k].id == id;
        lemma_first_app_exists(apps, id, k);
    }
}

/// The applications without those carrying `id`, in order.
pub open spec fn apps_without(apps: Seq<App>, id: u128) -> Seq<App> {
    apps.filter(|a: App| a.id != id)
}

/// After `remove_app(id)` no application with that id is left.
pub proof fn lemma_removed_app_gone(apps: Seq<App>, id: u128)
    ensures
        forall|i: int| 0 <= i < apps_without(apps, id).len() ==> (#[trigger] apps_without(apps, id)[i]).id != id,
{
    assert forall|i: int| 0 <= i < apps_without(apps, id).len() implies (#[trigger] apps_without(apps, id)[i]).id
        != id by {
        let f = apps_without(apps, id);
        assert(f.contains(f[i]));
    }
}

/// A window that `add_window` appended to application `i`, under an id no
/// window had before, is the one that `lookup_window` finds for that id.
pub proof fn lemma_added_window_found(old: WindowManagerState, new: WindowManagerState, i: int, win_id: u128)
    requires
        0 <= i < old.apps@.len(),
        new.apps@.len() == old.apps@.len(),
        forall|j: int| 0 <= j < old.apps@.len() && j != i ==> new.apps@[j] == old.apps@[j],
        new.apps@[i].windows@.len() == old.apps@[i].windows@.len() + 1,
        forall|k: int|
            0 <= k < old.apps@[i].windows@.len() ==> new.apps@[i].windows@[k] == old.apps@[i].windows@[k],
        new.apps@[i].windows@.last().id == win_id,
        forall|a: int, w: int| old.has_window(a, w) ==> (#[trigger] old.window_at(a, w)).id != win_id,
    ensures
        first_window(new, win_id, i, old.apps@[i].windows@.len() as int),
{
    let n = old.apps@[i].windows@.len() as int;
    assert forall|a2: int, w2: int| new.has_window(a2, w2) && before(a2, w2, i, n) implies (
    #[trigger] new.window_at(a2, w2)).id != win_id by {
        if a2 == i {
            assert(new.window_at(a2, w2) == old.window_at(a2, w2));
        } else {
            assert(new.apps@[a2] == old.apps@[a2]);
            assert(old.has_window(a2, w2));
        }
    }
}

/// If some window has the id, a first one does.
pub proof fn lemma_first_window_exists(st: WindowManagerState, id: u128, a: int, w: int)
    requires
        st.has_window(a, w),
        st.window_at(a, w).id == id,
    ensures
        exists|a2: int, w2: int| first_window(st, id, a2, w2),
    decreases a, w,
{
    if forall|a2: int, w2: int| st.has_window(a2, w2) && before(a2, w2, a, w) ==> (#[trigger] st.window_at(a2, w2)).id != id {
        assert(first_window(st, id, a, w));
    } else {
        let (a2, w2) = choose|a2: int, w2: int|
            st.has_window(a2, w2) && before(a2, w2, a, w) && (#[trigger] st.window_at(a2, w2)).id == id;
        lemma_first_window_exists(st, id, a2, w2);
    }
}

} // verus!
