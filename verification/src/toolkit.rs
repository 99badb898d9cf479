use vstd::prelude::*;
use crate::color::ARGBColor;
use crate::geom::{fits_i32, Point, Rect, Size};
use crate::db::owned;
use crate::protocol::{APICommand, MouseButton};

verus! {

/// What happened to the pointer.
#[derive(Clone, Copy, Debug, PartialEq, Eq, Structural)]
pub enum EventType {
    MouseDown,
    MouseMove,
    MouseUp,
    MouseDrag,
}

/// Which way an event travels through the view tree.
#[derive(Clone, Copy, Debug, PartialEq, Eq, Structural)]
pub enum EventDirection {
    Up,
    Down,
}

/// A pointer event as a view sees it, in the view's own coordinates.
#[derive(Clone, Copy, Debug)]
pub struct PointerEvent {
    pub button: MouseButton,
    pub etype: EventType,
    pub position: Point,
    pub direction: EventDirection,
}

/// An event that listeners can be registered for.
pub trait JEvent {
}

/// A view asks for its action to run; `command` names the action.
#[derive(Debug)]
pub struct ActionEvent {
    pub command: String,
}

impl JEvent for ActionEvent {
}

/// The state every view has: an id, a name, a size, a position and
/// whether it is shown.
#[derive(Debug)]
pub struct BaseUIView {
    pub _id: String,
    pub _name: String,
    pub _size: Size,
    pub _position: Point,
    pub _visible: bool,
}

impl BaseUIView {
    pub fn name(&self) -> (r: &str)
        ensures
            r@ == self._name@,
    {
        self._name.as_str()
    }

    pub fn size(&self) -> (s: Size)
        ensures
            s == self._size,
    {
        self._size
    }

    pub fn position(&self) -> (p: Point)
        ensures
            p == self._position,
    {
        self._position
    }

    /// Moves the view to `point`.
    pub fn set_position(&mut self, point: &Point)
        ensures
            final(self)._position == *point,
            final(self)._size == old(self)._size,
            final(self)._visible == old(self)._visible,
            final(self)._id@ == old(self)._id@,
            final(self)._name@ == old(self)._name@,
    {
        self._position.copy_from(point)
    }
}

/// The padding of an `HBox` on each side.
pub const HBOX_PADDING: i32 = 4;

/// The padding around a button's caption.
pub const BUTTON_PADDING: i32 = 4;

/// The sum of the widths of the first `k` sizes.
pub open spec fn widths_before(sizes: Seq<Size>, k: int) -> int
    decreases k,
{
    if k <= 0 {
        0
    } else {
        widths_before(sizes, k - 1) + sizes[k - 1].w
    }
}

/// The greatest height among the sizes, and at least 0.
pub open spec fn tallest(sizes: Seq<Size>, k: int) -> int
    decreases k,
{
    if k <= 0 {
        0
    } else if sizes[k - 1].h >= tallest(sizes, k - 1) {
        sizes[k - 1].h as int
    } else {
        tallest(sizes, k - 1)
    }
}

/// The children of an `HBox` can be laid out without leaving `i32`.
pub open spec fn hbox_fits(child_sizes: Seq<Size>) -> bool {
    &&& fits_i32(tallest(child_sizes, child_sizes.len() as int) + 2 * HBOX_PADDING)
    &&& forall|k: int| 0 <= k <= child_sizes.len() ==> fits_i32(HBOX_PADDING + #[trigger] widths_before(child_sizes, k))
}

/// Lays out the children of a horizontal box, given the size each child
/// chose: the box takes the available width and is as tall as its tallest
/// child plus the padding above and below; the children stand left to
/// right, one after the other, starting at the padding.
pub fn hbox_layout(available: &Size, child_sizes: &Vec<Size>) -> (r: (Size, Vec<Point>))
    requires
        hbox_fits(child_sizes@),
    ensures
        r.0.w == available.w,
        r.0.h == tallest(child_sizes@, child_sizes@.len() as int) + 2 * HBOX_PADDING,
        r.1@.len() == child_sizes@.len(),
        forall|k: int|
            0 <= k < child_sizes@.len() ==> #[trigger] r.1@[k] == (Point {
                x: (HBOX_PADDING + widths_before(child_sizes@, k)) as i32,
                y: HBOX_PADDING,
            }),
{
    let mut tall: i32 = 0;
    let mut i: usize = 0;
    while i < child_sizes.len()
        invariant
            i <= child_sizes@.len(),
            tall == tallest(child_sizes@, i as int),
        decreases child_sizes@.len() - i,
    {
        let h = child_sizes[i].h;
        if h >= tall {
            tall = h;
        }
        i = i + 1;
    }
    let size = Size { w: available.w, h: tall + HBOX_PADDING + HBOX_PADDING };
    let mut positions: Vec<Point> = Vec::new();
    let mut x: i32 = HBOX_PADDING;
    let mut k: usize = 0;
    while k < child_sizes.len()
        invariant
            hbox_fits(child_sizes@),
            k <= child_sizes@.len(),
            x == HBOX_PADDING + widths_before(child_sizes@, k as int),
            positions@.len() == k,
            forall|j: int|
                0 <= j < k ==> #[trigger] positions@[j] == (Point {
                    x: (HBOX_PADDING + widths_before(child_sizes@, j)) as i32,
                    y: HBOX_PADDING,
                }),
        decreases child_sizes@.len() - k,
    {
        positions.push(Point::init(x, HBOX_PADDING));
        assert(fits_i32(HBOX_PADDING + widths_before(child_sizes@, k + 1)));
        x = x + child_sizes[k].w;
        k = k + 1;
    }
    (size, positions)
}

/// What a press or a release does to a button: a press makes it active and
/// asks for its action, a release makes it inactive; other events change
/// nothing.
pub fn button_input(active: &mut bool, e: &PointerEvent) -> (action: Option<ActionEvent>)
    ensures
        e.etype == EventType::MouseDown ==> *final(active) && (action matches Some(a) && a.command@
            == "mouse_button"@),
        e.etype == EventType::MouseUp ==> !*final(active) && action is None,
        (e.etype == EventType::MouseMove || e.etype == EventType::MouseDrag) ==> *final(active)
            == *old(active) && action is None,
{
    match e.etype {
        EventType::MouseDown => {
            *active = true;
            Some(ActionEvent { command: crate::db::owned("mouse_button") })
        },
        EventType::MouseMove => None,
        EventType::MouseUp => {
            *active = false;
            None
        },
        EventType::MouseDrag => None,
    }
}

/// What a view paints: a filled rectangle, or a line of text with its top
/// left corner at a point.
#[derive(Debug)]
pub enum Paint {
    FillRect(Rect, ARGBColor),
    FillText(String, Point, ARGBColor),
}

/// The grey of an `HBox`.
pub fn hbox_fill() -> (c: ARGBColor)
    ensures
        c == (ARGBColor { r: 200, g: 200, b: 200, a: 255 }),
{
    ARGBColor { r: 200, g: 200, b: 200, a: 255 }
}

/// A button at rest is white.
pub fn button_fill() -> (c: ARGBColor)
    ensures
        c == (ARGBColor { r: 255, g: 255, b: 255, a: 255 }),
{
    ARGBColor { r: 255, g: 255, b: 255, a: 255 }
}

/// A pressed button is green.
pub fn button_fill_active() -> (c: ARGBColor)
    ensures
        c == (ARGBColor { r: 0, g: 255, b: 0, a: 255 }),
{
    ARGBColor { r: 0, g: 255, b: 0, a: 255 }
}

/// Captions are black.
pub fn button_text_fill() -> (c: ARGBColor)
    ensures
        c == (ARGBColor { r: 0, g: 0, b: 0, a: 255 }),
{
    ARGBColor { r: 0, g: 0, b: 0, a: 255 }
}

/// A row of views laid out left to right on a grey ground. Its children
/// are kept by whoever builds the tree; the box lays them out from their
/// sizes.
#[derive(Debug)]
pub struct HBox {
    pub _id: String,
    pub _name: String,
    pub _size: Size,
    pub _position: Point,
}

impl HBox {
    /// An empty box, 200 by 20, at the origin.
    pub fn make() -> (b: HBox)
        ensures
            b._id@ == "hbox-id"@,
            b._name@ == "hbox-name"@,
            b._size == (Size { w: 200, h: 20 }),
            b._position == (Point { x: 0, y: 0 }),
    {
        HBox {
            _id: owned("hbox-id"),
            _name: owned("hbox-name"),
            _size: Size::init(200, 20),
            _position: Point::init(0, 0),
        }
    }

    /// Takes the available width and the height of the tallest child plus
    /// the padding, and gives the place of each child: see `hbox_layout`.
    pub fn layout(&mut self, available: &Size, child_sizes: &Vec<Size>) -> (positions: Vec<Point>)
        requires
            hbox_fits(child_sizes@),
        ensures
            final(self)._size.w == available.w,
            final(self)._size.h == tallest(child_sizes@, child_sizes@.len() as int) + 2 * HBOX_PADDING,
            final(self)._position == old(self)._position,
            final(self)._id@ == old(self)._id@,
            final(self)._name@ == old(self)._name@,
            positions@.len() == child_sizes@.len(),
            forall|k: int|
                0 <= k < child_sizes@.len() ==> #[trigger] positions@[k] == (Point {
                    x: (HBOX_PADDING + widths_before(child_sizes@, k)) as i32,
                    y: HBOX_PADDING,
                }),
    {
        let (size, positions) = hbox_layout(available, child_sizes);
        self._size = size;
        positions
    }

    /// The box paints its bounds grey.
    pub fn draw(&self) -> (p: Vec<Paint>)
        ensures
            p@.len() == 1,
            p@[0] == Paint::FillRect(
                Rect { x: self._position.x, y: self._position.y, w: self._size.w, h: self._size.h },
                ARGBColor { r: 200, g: 200, b: 200, a: 255 },
            ),
    {
        let bounds = Rect::from_ints(self._position.x, self._position.y, self._size.w, self._size.h);
        vec![Paint::FillRect(bounds, hbox_fill())]
    }
}

/// A button with a caption that asks for its action when pressed.
#[derive(Debug)]
pub struct ActionButton {
    pub _id: String,
    pub _name: String,
    pub _size: Size,
    pub _position: Point,
    pub _caption: String,
    pub _active: bool,
}

impl ActionButton {
    /// A button at rest, 50 by 15, at the origin, with no caption yet.
    pub fn make() -> (b: ActionButton)
        ensures
            b._id@ == "action-button-name"@,
            b._name@ == "action-button-name"@,
            b._size == (Size { w: 50, h: 15 }),
            b._position == (Point { x: 0, y: 0 }),
            b._caption@ == "no-caption"@,
            !b._active,
    {
        ActionButton {
            _id: owned("action-button-name"),
            _name: owned("action-button-name"),
            _size: Size::init(50, 15),
            _position: Point::init(0, 0),
            _caption: owned("no-caption"),
            _active: false,
        }
    }

    /// Sizes the button to its caption, measured as `text_size`, with the
    /// button padding on every side.
    pub fn layout(&mut self, text_size: Size) -> (s: Size)
        requires
            fits_i32(text_size.w + 2 * BUTTON_PADDING),
            fits_i32(text_size.h + 2 * BUTTON_PADDING),
        ensures
            s == (Size { w: (text_size.w + 2 * BUTTON_PADDING) as i32, h: (text_size.h + 2 * BUTTON_PADDING) as i32 }),
            final(self)._size == s,
            final(self)._position == old(self)._position,
            final(self)._caption@ == old(self)._caption@,
            final(self)._active == old(self)._active,
    {
        self._size = text_size.grow(BUTTON_PADDING);
        self._size
    }

    /// The button paints its bounds, green while pressed and white
    /// otherwise, and its caption in black one pixel in from its corner.
    pub fn draw(&self) -> (p: Vec<Paint>)
        requires
            fits_i32(self._position.x + 1),
            fits_i32(self._position.y + 1),
        ensures
            p@.len() == 2,
            p@[0] == Paint::FillRect(
                Rect { x: self._position.x, y: self._position.y, w: self._size.w, h: self._size.h },
                if self._active {
                    ARGBColor { r: 0, g: 255, b: 0, a: 255 }
                } else {
                    ARGBColor { r: 255, g: 255, b: 255, a: 255 }
                },
            ),
            p@[1] matches Paint::FillText(t, at, c) && t@ == self._caption@ && at == (Point {
                x: (self._position.x + 1) as i32,
                y: (self._position.y + 1) as i32,
            }) && c == (ARGBColor { r: 0, g: 0, b: 0, a: 255 }),
    {
        let bounds = Rect::from_ints(self._position.x, self._position.y, self._size.w, self._size.h);
        let fill = if self._active {
            button_fill_active()
        } else {
            button_fill()
        };
        let at = self._position.add(&Point::init(1, 1));
        vec![Paint::FillRect(bounds, fill), Paint::FillText(self._caption.clone(), at, button_text_fill())]
    }

    /// A press makes the button active and asks for its action, a release
    /// makes it inactive: see `button_input`.
    pub fn input(&mut self, e: &PointerEvent) -> (action: Option<ActionEvent>)
        ensures
            e.etype == EventType::MouseDown ==> final(self)._active && (action matches Some(a) && a.command@
                == "mouse_button"@),
            e.etype == EventType::MouseUp ==> !final(self)._active && action is None,
            (e.etype == EventType::MouseMove || e.etype == EventType::MouseDrag) ==> final(self)._active
                == old(self)._active && action is None,
            final(self)._size == old(self)._size,
            final(self)._position == old(self)._position,
            final(self)._caption@ == old(self)._caption@,
    {
        button_input(&mut self._active, e)
    }
}

/// A caption on its own.
#[derive(Debug)]
pub struct Label {
    pub _id: String,
    pub _name: String,
    pub _size: Size,
    pub _position: Point,
    pub _caption: String,
}

impl Label {
    /// A label 50 by 15 at the origin with no caption yet.
    pub fn make() -> (l: Label)
        ensures
            l._id@ == "label-name"@,
            l._name@ == "label-name"@,
            l._size == (Size { w: 50, h: 15 }),
            l._position == (Point { x: 0, y: 0 }),
            l._caption@ == "no-caption"@,
    {
        Label {
            _id: owned("label-name"),
            _name: owned("label-name"),
            _size: Size::init(50, 15),
            _position: Point::init(0, 0),
            _caption: owned("no-caption"),
        }
    }

    /// Sizes the label to its caption, measured as `text_size`, with the
    /// button padding on every side.
    pub fn layout(&mut self, text_size: Size) -> (s: Size)
        requires
            fits_i32(text_size.w + 2 * BUTTON_PADDING),
            fits_i32(text_size.h + 2 * BUTTON_PADDING),
        ensures
            s == (Size { w: (text_size.w + 2 * BUTTON_PADDING) as i32, h: (text_size.h + 2 * BUTTON_PADDING) as i32 }),
            final(self)._size == s,
            final(self)._position == old(self)._position,
            final(self)._caption@ == old(self)._caption@,
    {
        self._size = text_size.grow(BUTTON_PADDING);
        self._size
    }

    /// The label paints its caption in black one pixel in from its corner.
    pub fn draw(&self) -> (p: Vec<Paint>)
        requires
            fits_i32(self._position.x + 1),
            fits_i32(self._position.y + 1),
        ensures
            p@.len() == 1,
            p@[0] matches Paint::FillText(t, at, c) && t@ == self._caption@ && at == (Point {
                x: (self._position.x + 1) as i32,
                y: (self._position.y + 1) as i32,
            }) && c == (ARGBColor { r: 0, g: 0, b: 0, a: 255 }),
    {
        let at = self._position.add(&Point::init(1, 1));
        vec![Paint::FillText(self._caption.clone(), at, button_text_fill())]
    }
}

/// Empty space that takes all the room it is given.
#[derive(Debug)]
pub struct HSpacer {
    pub _id: String,
    pub _name: String,
    pub _size: Size,
    pub _position: Point,
}

impl HSpacer {
    /// A spacer 10 by 10 at the origin.
    pub fn make() -> (h: HSpacer)
        ensures
            h._id@ == "hspacer-name"@,
            h._name@ == "hspacer-name"@,
            h._size == (Size { w: 10, h: 10 }),
            h._position == (Point { x: 0, y: 0 }),
    {
        HSpacer {
            _id: owned("hspacer-name"),
            _name: owned("hspacer-name"),
            _size: Size::init(10, 10),
            _position: Point::init(0, 0),
        }
    }

    /// Takes all the available space.
    pub fn layout(&mut self, available: &Size) -> (s: Size)
        ensures
            s == *available,
            final(self)._size == *available,
            final(self)._position == old(self)._position,
    {
        self._size = *available;
        self._size
    }
}

/// What laying out a view can ask about text and spacing.
pub struct LayoutContext {}

impl LayoutContext {
    pub fn new() -> (c: LayoutContext) {
        LayoutContext {  }
    }

    /// The space left around a label's text on each side.
    pub fn standard_label_padding(&self) -> (p: i32)
        ensures
            p == 3,
    {
        3
    }

    /// The size of a piece of text; every text measures 10 by 10.
    pub fn measure_text(&self, text: &str) -> (s: Size)
        ensures
            s == (Size { w: 10, h: 10 }),
    {
        Size::init(10, 10)
    }

    /// The size of a button with the caption `text`: the text's size grown
    /// by the label padding on every side.
    pub fn button_size(&self, text: &str) -> (s: Size)
        ensures
            s == (Size { w: 16, h: 16 }),
    {
        self.measure_text(text).grow(self.standard_label_padding())
    }
}

/// Where painting goes; text painted here is not kept.
pub struct PaintContext {}

impl PaintContext {
    pub fn new() -> (c: PaintContext) {
        PaintContext {  }
    }

    pub fn fill_text(&self, text: &str, pos: Point, color: &ARGBColor) {
    }
}

/// A click handed to a view.
pub struct ClickEvent {}

impl ClickEvent {
    pub fn new() -> (e: ClickEvent) {
        ClickEvent {  }
    }

    /// Marks the click as handled.
    pub fn eat(&self) {
    }
}

/// A view of the tree that pointer events are routed through: where it
/// sits inside its parent, how large it is, and its children in drawing
/// order.
#[derive(Debug)]
pub struct ViewNode {
    pub position: Point,
    pub size: Size,
    pub children: Vec<ViewNode>,
}

/// The views that take the point `(px, py)`, given in `node`'s own
/// coordinates: `None` when `node` does not take it (the point is at or
/// past its width or its height), else the indices of the children followed
/// down from `node`, each time into the first child that takes the point
/// moved into the child's coordinates.
pub open spec fn scan(node: ViewNode, px: int, py: int) -> Option<Seq<usize>>
    decreases node, node.children@.len() + 1,
{
    if node.size.w > px && node.size.h > py {
        match scan_from(node, 0, px, py) {
            Some(p) => Some(p),
            None => Some(Seq::empty()),
        }
    } else {
        None
    }
}

/// The path through the first child of `node`, from the `k`-th on, that
/// takes the point.
pub open spec fn scan_from(node: ViewNode, k: int, px: int, py: int) -> Option<Seq<usize>>
    decreases node, node.children@.len() - k,
{
    if 0 <= k < node.children@.len() {
        let c = node.children@[k];
        match scan(c, px - c.position.x, py - c.position.y) {
            Some(p) => Some(seq![k as usize] + p),
            None => scan_from(node, k + 1, px, py),
        }
    } else {
        None
    }
}

/// The point, moved into the coordinates of each child that the scan looks
/// at, stays within 32 bits.
pub open spec fn scan_fits(node: ViewNode, px: int, py: int) -> bool
    decreases node, node.children@.len() + 1,
{
    if node.size.w > px && node.size.h > py {
        fits_from(node, 0, px, py)
    } else {
        true
    }
}

/// `scan_fits` for the children of `node` from the `k`-th on, up to the
/// first that takes the point.
pub open spec fn fits_from(node: ViewNode, k: int, px: int, py: int) -> bool
    decreases node, node.children@.len() - k,
{
    if 0 <= k < node.children@.len() {
        let c = node.children@[k];
        &&& fits_i32(px - c.position.x)
        &&& fits_i32(py - c.position.y)
        &&& scan_fits(c, px - c.position.x, py - c.position.y)
        &&& scan(c, px - c.position.x, py - c.position.y) is None ==> fits_from(node, k + 1, px, py)
    } else {
        true
    }
}

impl ViewNode {
    /// The path of views under `point`, given in this view's coordinates:
    /// see `scan`.
    pub fn scan_path(&self, point: &Point) -> (r: Option<Vec<usize>>)
        requires
            scan_fits(*self, point.x as int, point.y as int),
        ensures
            match r {
                Some(v) => scan(*self, point.x as int, point.y as int) == Some(v@),
                None => scan(*self, point.x as int, point.y as int) is None,
            },
        decreases *self, self.children@.len() + 1,
    {
        if self.size.w > point.x && self.size.h > point.y {
            match self.scan_children(0, point) {
                Some(p) => Some(p),
                None => Some(Vec::new()),
            }
        } else {
            None
        }
    }

    /// Whether `scan_path` can look for `point`: see `scan_fits`.
    pub fn scan_fits_at(&self, point: &Point) -> (r: bool)
        ensures
            r == scan_fits(*self, point.x as int, point.y as int),
        decreases *self, self.children@.len() + 1,
    {
        if self.size.w > point.x && self.size.h > point.y {
            self.children_fit(0, point)
        } else {
            true
        }
    }

    fn children_fit(&self, k: usize, point: &Point) -> (r: bool)
        requires
            k <= self.children@.len(),
        ensures
            r == fits_from(*self, k as int, point.x as int, point.y as int),
        decreases *self, self.children@.len() - k,
    {
        if k < self.children.len() {
            let c = &self.children[k];
            let qx = point.x as i64 - c.position.x as i64;
            let qy = point.y as i64 - c.position.y as i64;
            if qx < i32::MIN as i64 || qx > i32::MAX as i64 || qy < i32::MIN as i64 || qy > i32::MAX as i64 {
                return false;
            }
            let q = point.subtract(&c.position);
            if !c.scan_fits_at(&q) {
                return false;
            }
            match c.scan_path(&q) {
                Some(_) => true,
                None => self.children_fit(k + 1, point),
            }
        } else {
            true
        }
    }

    /// The path through the first child, from the `k`-th on, that takes
    /// `point`.
    fn scan_children(&self, k: usize, point: &Point) -> (r: Option<Vec<usize>>)
        requires
            k <= self.children@.len(),
            fits_from(*self, k as int, point.x as int, point.y as int),
        ensures
            match r {
                Some(v) => scan_from(*self, k as int, point.x as int, point.y as int) == Some(v@),
                None => scan_from(*self, k as int, point.x as int, point.y as int) is None,
            },
        decreases *self, self.children@.len() - k,
    {
        if k < self.children.len() {
            let c = &self.children[k];
            let q = point.subtract(&c.position);
            match c.scan_path(&q) {
                Some(p) => {
                    let mut v: Vec<usize> = Vec::new();
                    v.push(k);
                    let mut t: usize = 0;
                    while t < p.len()
                        invariant
                            t <= p@.len(),
                            v@ == seq![k] + p@.subrange(0, t as int),
                        decreases p@.len() - t,
                    {
                        v.push(p[t]);
                        t = t + 1;
                        assert(v@ =~= seq![k] + p@.subrange(0, t as int));
                    }
                    assert(p@.subrange(0, p@.len() as int) =~= p@);
                    Some(v)
                },
                None => self.scan_children(k + 1, point),
            }
        } else {
            None
        }
    }
}

/// The points that the views along `path`, from its `k`-th step on, are
/// handed: each view gets the point it was handed less its own position,
/// starting from `(px, py)` at `node`. The walk ends at a step that names
/// no child.
pub open spec fn path_points(node: ViewNode, path: Seq<usize>, k: int, px: int, py: int) -> Seq<(int, int)>
    decreases path.len() - k,
{
    let q = (px - node.position.x, py - node.position.y);
    if 0 <= k < path.len() && path[k] < node.children@.len() {
        seq![q] + path_points(node.children@[path[k] as int], path, k + 1, q.0, q.1)
    } else {
        seq![q]
    }
}

/// The points of `path_points` stay within 32 bits.
pub open spec fn path_points_fit(node: ViewNode, path: Seq<usize>, k: int, px: int, py: int) -> bool
    decreases path.len() - k,
{
    let q = (px - node.position.x, py - node.position.y);
    &&& fits_i32(q.0)
    &&& fits_i32(q.1)
    &&& 0 <= k < path.len() && path[k] < node.children@.len() ==> path_points_fit(
        node.children@[path[k] as int],
        path,
        k + 1,
        q.0,
        q.1,
    )
}

/// The event a view gets at the point `pt`.
pub open spec fn event_at(button: MouseButton, etype: EventType, pt: (int, int)) -> PointerEvent {
    PointerEvent {
        button,
        etype,
        position: Point { x: pt.0 as i32, y: pt.1 as i32 },
        direction: EventDirection::Down,
    }
}

/// The events for the views along `path` from its `k`-th step on: see
/// `path_points`.
pub fn path_events(
    node: &ViewNode,
    path: &Vec<usize>,
    k: usize,
    point: &Point,
    button: MouseButton,
    etype: EventType,
) -> (evs: Vec<PointerEvent>)
    requires
        k <= path@.len(),
        path_points_fit(*node, path@, k as int, point.x as int, point.y as int),
    ensures
        evs@ == path_points(*node, path@, k as int, point.x as int, point.y as int).map_values(
            |pt: (int, int)| event_at(button, etype, pt),
        ),
    decreases path@.len() - k,
{
    let q = point.subtract(&node.position);
    let ev = PointerEvent { button, etype, position: q, direction: EventDirection::Down };
    let ghost pts = path_points(*node, path@, k as int, point.x as int, point.y as int);
    if k < path.len() && path[k] < node.children.len() {
        let rest = path_events(&node.children[path[k]], path, k + 1, &q, button, etype);
        let mut evs: Vec<PointerEvent> = Vec::new();
        evs.push(ev);
        let mut t: usize = 0;
        while t < rest.len()
            invariant
                t <= rest@.len(),
                evs@ == seq![ev] + rest@.subrange(0, t as int),
            decreases rest@.len() - t,
        {
            evs.push(rest[t]);
            t = t + 1;
            assert(evs@ =~= seq![ev] + rest@.subrange(0, t as int));
        }
        assert(rest@.subrange(0, rest@.len() as int) =~= rest@);
        assert(evs@ =~= pts.map_values(|pt: (int, int)| event_at(button, etype, pt)));
        evs
    } else {
        let evs = vec![ev];
        assert(evs@ =~= pts.map_values(|pt: (int, int)| event_at(button, etype, pt)));
        evs
    }
}

/// What an application does with one message from the central server.
#[derive(Debug)]
pub enum PointerRouting {
    /// Hand the `i`-th event to the view reached from the root by the first
    /// `i` steps of the path (the root takes the first).
    Deliver(Vec<usize>, Vec<PointerEvent>),
    /// Stop reading the messages waiting now.
    Shutdown,
    /// Nothing to do.
    Ignore,
}

/// The path and events a press or release at `(x, y)` gives: the path of
/// `scan`, or none, and an event for each view along it.
pub open spec fn delivered(
    root: ViewNode,
    x: int,
    y: int,
    button: MouseButton,
    etype: EventType,
    r: PointerRouting,
) -> bool {
    r matches PointerRouting::Deliver(path, evs) && match scan(root, x, y) {
        None => path@.len() == 0 && evs@.len() == 0,
        Some(p) => path@ == p && evs@ == path_points(root, p, 0, x, y).map_values(
            |pt: (int, int)| event_at(button, etype, pt),
        ),
    }
}

/// A press or release at `(x, y)` can be routed through the tree without
/// leaving 32 bits.
pub open spec fn pointer_fits(root: ViewNode, x: int, y: int) -> bool {
    &&& scan_fits(root, x, y)
    &&& scan(root, x, y) matches Some(p) ==> path_points_fit(root, p, 0, x, y)
}

/// Decides what the application does with a message: a press marks the
/// pointer as down and goes to the views under it, a release does so only
/// while the pointer is down, a shutdown stops the reading, and the rest is
/// ignored.
pub fn route_pointer(root: &ViewNode, down: &mut bool, cmd: &APICommand) -> (r: PointerRouting)
    requires
        cmd matches APICommand::MouseDown(e) ==> pointer_fits(*root, e.x as int, e.y as int),
        cmd matches APICommand::MouseUp(e) ==> pointer_fits(*root, e.x as int, e.y as int),
    ensures
        match *cmd {
            APICommand::MouseDown(e) => *final(down) && delivered(
                *root,
                e.x as int,
                e.y as int,
                e.button,
                EventType::MouseDown,
                r,
            ),
            APICommand::MouseUp(e) => *final(down) == *old(down) && if *old(down) {
                delivered(*root, e.x as int, e.y as int, e.button, EventType::MouseUp, r)
            } else {
                r is Ignore
            },
            APICommand::SystemShutdown => *final(down) == *old(down) && r is Shutdown,
            _ => *final(down) == *old(down) && r is Ignore,
        },
{
    match cmd {
        APICommand::MouseDown(e) => {
            *down = true;
            let p = Point::init(e.x, e.y);
            match root.scan_path(&p) {
                Some(path) => {
                    let evs = path_events(root, &path, 0, &p, e.button, EventType::MouseDown);
                    PointerRouting::Deliver(path, evs)
                },
                None => PointerRouting::Deliver(Vec::new(), Vec::new()),
            }
        },
        APICommand::MouseUp(e) => {
            if !*down {
                return PointerRouting::Ignore;
            }
            let p = Point::init(e.x, e.y);
            match root.scan_path(&p) {
                Some(path) => {
                    let evs = path_events(root, &path, 0, &p, e.button, EventType::MouseUp);
                    PointerRouting::Deliver(path, evs)
                },
                None => PointerRouting::Deliver(Vec::new(), Vec::new()),
            }
        },
        APICommand::SystemShutdown => PointerRouting::Shutdown,
        _ => PointerRouting::Ignore,
    }
}

/// Whether `route_pointer` can take the message.
pub fn can_route_pointer(root: &ViewNode, cmd: &APICommand) -> (r: bool)
    ensures
        r == ((cmd matches APICommand::MouseDown(e) ==> pointer_fits(*root, e.x as int, e.y as int)) && (
        cmd matches APICommand::MouseUp(e) ==> pointer_fits(*root, e.x as int, e.y as int))),
{
    match cmd {
        APICommand::MouseDown(e) => pointer_fits_at(root, &Point::init(e.x, e.y)),
        APICommand::MouseUp(e) => pointer_fits_at(root, &Point::init(e.x, e.y)),
        _ => true,
    }
}

fn pointer_fits_at(root: &ViewNode, p: &Point) -> (r: bool)
    ensures
        r == pointer_fits(*root, p.x as int, p.y as int),
{
    if !root.scan_fits_at(p) {
        return false;
    }
    match root.scan_path(p) {
        Some(path) => path_points_fit_at(root, &path, 0, p),
        None => true,
    }
}

fn path_points_fit_at(node: &ViewNode, path: &Vec<usize>, k: usize, point: &Point) -> (r: bool)
    requires
        k <= path@.len(),
    ensures
        r == path_points_fit(*node, path@, k as int, point.x as int, point.y as int),
    decreases path@.len() - k,
{
    let qx = point.x as i64 - node.position.x as i64;
    let qy = point.y as i64 - node.position.y as i64;
    if qx < i32::MIN as i64 || qx > i32::MAX as i64 || qy < i32::MIN as i64 || qy > i32::MAX as i64 {
        return false;
    }
    if k < path.len() && path[k] < node.children.len() {
        let q = point.subtract(&node.position);
        path_points_fit_at(&node.children[path[k]], path, k + 1, &q)
    } else {
        true
    }
}

} // verus!
