use vstd::prelude::*;
use crate::color::ARGBColor;
use crate::geom::Rect;
use crate::graphics::GFXBuffer;
use crate::protocol::{APICommand, DrawImageCommand, DrawRectCommand};
use crate::text::chars_of;

verus! {

/// The sprite of a clock character: the ten digits, then the colon; any
/// other character shows as `0`.
pub open spec fn sprite_index(c: char) -> int {
    if '0' <= c <= '9' {
        c as int - '0' as int
    } else if c == ':' {
        10
    } else {
        0
    }
}

/// Where sprite `n` starts in the sprite sheet; sprite `n` ends where `n + 1`
/// starts.
pub open spec fn sprite_start(n: int) -> int {
    if n == 0 {
        0
    } else if n == 1 {
        27
    } else if n == 2 {
        45
    } else if n == 3 {
        71
    } else if n == 4 {
        96
    } else if n == 5 {
        119
    } else if n == 6 {
        144
    } else if n == 7 {
        170
    } else if n == 8 {
        192
    } else if n == 9 {
        216
    } else if n == 10 {
        242
    } else {
        256
    }
}

/// The width of the sprite of `c`.
pub open spec fn sprite_width(c: char) -> int {
    sprite_start(sprite_index(c) + 1) - sprite_start(sprite_index(c))
}

/// Where the sprite of character `k` of `text` goes: each sprite follows the
/// one before with ten pixels between them.
pub open spec fn sprite_x(text: Seq<char>, k: int) -> int
    decreases k,
{
    if k <= 0 {
        0
    } else {
        sprite_x(text, k - 1) + sprite_width(text[k - 1]) + 10
    }
}

fn sprite_of(c: char) -> (n: usize)
    ensures
        n == sprite_index(c),
{
    if '0' <= c && c <= '9' {
        ((c as u32) - ('0' as u32)) as usize
    } else if c == ':' {
        10
    } else {
        0
    }
}

fn start_of(n: usize) -> (x: i32)
    requires
        n <= 11,
    ensures
        x == sprite_start(n as int),
{
    match n {
        0 => 0,
        1 => 27,
        2 => 45,
        3 => 71,
        4 => 96,
        5 => 119,
        6 => 144,
        7 => 170,
        8 => 192,
        9 => 216,
        10 => 242,
        _ => 256,
    }
}

proof fn lemma_sprite_x_bounds(text: Seq<char>, k: int)
    requires
        0 <= k,
    ensures
        0 <= sprite_x(text, k) <= 40 * k,
    decreases k,
{
    if k > 0 {
        lemma_sprite_x_bounds(text, k - 1);
    }
}

/// `cmds` draw the time `text` in the window: a white background over the
/// window's size, then for each character its sprite cut from
/// `sprite_sheet`, 32 pixels tall, at height 30, left to right.
pub open spec fn clock_drawn(
    appid: u128,
    winid: u128,
    bounds: Rect,
    text: Seq<char>,
    sprite_sheet: GFXBuffer,
    cmds: Seq<APICommand>,
) -> bool {
    &&& cmds.len() == text.len() + 1
    &&& cmds[0] == APICommand::DrawRectCommand(
        DrawRectCommand {
            app_id: appid,
            window_id: winid,
            rect: Rect { x: 0, y: 0, w: bounds.w, h: bounds.h },
            color: ARGBColor { r: 255, g: 255, b: 255, a: 255 },
        },
    )
    &&& forall|k: int|
        0 <= k < text.len() ==> {
            let c = text[k];
            let sheet_rect = Rect { x: sprite_start(sprite_index(c)) as i32, y: 0, w: sprite_width(c) as i32, h: 32 };
            &&& #[trigger] cmds[k + 1] matches APICommand::DrawImageCommand(di)
            &&& di.app_id == appid
            &&& di.window_id == winid
            &&& di.rect == (Rect { x: sprite_x(text, k) as i32, y: 30, w: sprite_width(c) as i32, h: 32 })
            &&& di.buffer.wf()
            &&& di.buffer.layout == sprite_sheet.layout
            &&& di.buffer.width == sprite_width(c)
            &&& di.buffer.height == 32
            &&& forall|i: int, j: int|
                di.buffer.in_bounds(i, j) ==> #[trigger] di.buffer.pixel_bytes(i, j) == sprite_sheet.sub_rect_pixel(
                    sheet_rect,
                    i,
                    j,
                )
        }
}

/// The commands that draw the time `time_text` in the window: see
/// `clock_drawn`.
pub fn clock_commands(appid: u128, winid: u128, bounds: Rect, time_text: &str, sprite_sheet: &GFXBuffer) -> (cmds: Vec<APICommand>)
    requires
        sprite_sheet.wf(),
        time_text@.len() <= 0x100_0000,
    ensures
        clock_drawn(appid, winid, bounds, time_text@, *sprite_sheet, cmds@),
{
    let text = chars_of(time_text);
    let mut cmds: Vec<APICommand> = Vec::new();
    cmds.push(
        APICommand::DrawRectCommand(
            DrawRectCommand {
                app_id: appid,
                window_id: winid,
                rect: Rect { x: 0, y: 0, w: bounds.w, h: bounds.h },
                color: ARGBColor::new_rgb(255, 255, 255),
            },
        ),
    );
    let mut chx: i32 = 0;
    let mut k: usize = 0;
    while k < text.len()
        invariant
            sprite_sheet.wf(),
            text@ == time_text@,
            text@.len() <= 0x100_0000,
            k <= text@.len(),
            chx == sprite_x(text@, k as int),
            cmds@.len() == k + 1,
            cmds@[0] == APICommand::DrawRectCommand(
                DrawRectCommand {
                    app_id: appid,
                    window_id: winid,
                    rect: Rect { x: 0, y: 0, w: bounds.w, h: bounds.h },
                    color: ARGBColor { r: 255, g: 255, b: 255, a: 255 },
                },
            ),
            forall|m: int|
                0 <= m < k ==> {
                    let c = time_text@[m];
                    let sheet_rect = Rect {
                        x: sprite_start(sprite_index(c)) as i32,
                        y: 0,
                        w: sprite_width(c) as i32,
                        h: 32,
                    };
                    &&& #[trigger] cmds@[m + 1] matches APICommand::DrawImageCommand(di)
                    &&& di.app_id == appid
                    &&& di.window_id == winid
                    &&& di.rect == (Rect { x: sprite_x(time_text@, m) as i32, y: 30, w: sprite_width(c) as i32, h: 32 })
                    &&& di.buffer.wf()
                    &&& di.buffer.layout == sprite_sheet.layout
                    &&& di.buffer.width == sprite_width(c)
                    &&& di.buffer.height == 32
                    &&& forall|i: int, j: int|
                        di.buffer.in_bounds(i, j) ==> #[trigger] di.buffer.pixel_bytes(i, j)
                            == sprite_sheet.sub_rect_pixel(sheet_rect, i, j)
                },
        decreases text@.len() - k,
    {
        proof {
            lemma_sprite_x_bounds(text@, k as int);
        }
        let n = sprite_of(text[k]);
        let sx1 = start_of(n);
        let sx2 = start_of(n + 1);
        let imw = sx2 - sx1;
        let sheet_rect = Rect::from_ints(sx1, 0, imw, 32);
        let buffer = sprite_sheet.sub_rect(sheet_rect);
        let ghost before = cmds@;
        cmds.push(
            APICommand::DrawImageCommand(
                DrawImageCommand { app_id: appid, window_id: winid, rect: Rect::from_ints(chx, 30, imw, 32), buffer },
            ),
        );
        assert forall|m: int| 0 <= m < k + 1 implies #[trigger] cmds@[m + 1] == if m < k {
            before[m + 1]
        } else {
            cmds@[k as int + 1]
        } by {}
        chx = chx + imw + 10;
        k = k + 1;
    }
    assert(clock_drawn(appid, winid, bounds, time_text@, *sprite_sheet, cmds@));
    cmds
}

/// Two characters at `k` of `t` spell a number from `00` up to `max`.
pub open spec fn two_digits_upto(t: Seq<char>, k: int, max: int) -> bool {
    &&& '0' <= t[k] <= '9'
    &&& '0' <= t[k + 1] <= '9'
    &&& (t[k] as int - '0' as int) * 10 + (t[k + 1] as int - '0' as int) <= max
}

/// A time of day as `HH:MM:SS`: hours up to 23, minutes up to 59 and
/// seconds up to 60 (a leap second), each with two digits.
pub open spec fn is_clock_text(t: Seq<char>) -> bool {
    &&& t.len() == 8
    &&& two_digits_upto(t, 0, 23)
    &&& t[2] == ':'
    &&& two_digits_upto(t, 3, 59)
    &&& t[5] == ':'
    &&& two_digits_upto(t, 6, 60)
}

/// The time since the Unix epoch from `std::time::SystemTime::now()`, as
/// whole seconds and the nanoseconds past them; nothing when the system
/// clock reads before the epoch. Which time comes back is the clock's; std
/// documents the nanoseconds as below one second.
#[verifier::external_body]
fn unix_time() -> (r: Option<(u64, u32)>)
    ensures
        r matches Some((_, nanos)) ==> nanos < 1_000_000_000,
{
    let d = std::time::SystemTime::now().duration_since(std::time::UNIX_EPOCH).ok()?;
    Some((d.as_secs(), d.subsec_nanos()))
}

/// The local time of day at `secs` seconds and `nanos` nanoseconds after
/// the Unix epoch: chrono's `DateTime::from_timestamp`, moved into the
/// `Local` time zone and formatted with `%H:%M:%S`. chrono documents these
/// fields as the hour (00 to 23), the minute (00 to 59) and the second (00
/// to 60), each zero-padded to two digits. Nothing comes back when the
/// seconds do not fit an `i64` or chrono refuses the timestamp. Which hour
/// it is depends on the machine's time zone, so no more is said of it;
/// chrono stops the program when the machine's time-zone data hold no
/// usable local time type, a state of the machine and not of the arguments.
#[verifier::external_body]
fn local_time_text_at(secs: u64, nanos: u32) -> (r: Option<String>)
    ensures
        r matches Some(t) ==> is_clock_text(t@),
{
    let utc = chrono::DateTime::from_timestamp(i64::try_from(secs).ok()?, nanos)?;
    Some(utc.with_timezone(&chrono::offset::Local).format("%H:%M:%S").to_string())
}

/// The commands that draw the current local time in the window: see
/// `clock_drawn`. The time is some `HH:MM:SS` of the day; when the clock
/// cannot be read (it reads before 1970, or chrono cannot place it), only
/// the white background is drawn.
pub fn redraw(appid: u128, winid: u128, bounds: Rect, sprite_sheet: &GFXBuffer) -> (cmds: Vec<APICommand>)
    requires
        sprite_sheet.wf(),
    ensures
        (exists|t: Seq<char>| is_clock_text(t) && clock_drawn(appid, winid, bounds, t, *sprite_sheet, cmds@))
            || clock_drawn(appid, winid, bounds, Seq::<char>::empty(), *sprite_sheet, cmds@),
{
    let text = match unix_time() {
        Some((secs, nanos)) => match local_time_text_at(secs, nanos) {
            Some(t) => t,
            None => String::new(),
        },
        None => String::new(),
    };
    proof {
        if text@.len() != 8 {
            assert(text@ =~= Seq::<char>::empty());
        }
    }
    clock_commands(appid, winid, bounds, text.as_str(), sprite_sheet)
}

/// Each digit `d` is drawn from its own slice of the sprite sheet, the
/// columns from `offsets[d]` up to `offsets[d + 1]`, and the colon from the
/// last slice, where `offsets` are the sheet's slice boundaries.
pub proof fn lemma_digit_sprites(c: char)
    ensures
        ({
            let offsets = seq![0int, 27, 45, 71, 96, 119, 144, 170, 192, 216, 242, 256];
            &&& '0' <= c <= '9' ==> {
                let d = c as int - '0' as int;
                &&& sprite_index(c) == d
                &&& sprite_start(sprite_index(c)) == offsets[d]
                &&& sprite_width(c) == offsets[d + 1] - offsets[d]
            }
            &&& c == ':' ==> sprite_start(sprite_index(c)) == offsets[10] && sprite_width(c) == offsets[11]
                - offsets[10]
        }),
{
}

/// The sprites of the time are laid out left to right from the window's
/// left edge, each starting ten pixels after the one before it ends.
pub proof fn lemma_sprites_left_to_right(text: Seq<char>, k: int)
    requires
        0 <= k < text.len(),
    ensures
        sprite_x(text, 0) == 0,
        sprite_x(text, k + 1) == sprite_x(text, k) + sprite_width(text[k]) + 10,
        sprite_width(text[k]) > 0,
{
}

} // verus!
