use clogwench::clock::{clock_commands, redraw};
use clogwench::color::PixelLayout;
use clogwench::geom::Rect;
use clogwench::graphics::GFXBuffer;
use clogwench::protocol::APICommand;

#[test]
fn clock_sprites_follow_each_other() {
    let mut sheet = GFXBuffer::new(256, 32, &PixelLayout::ARGB());
    sheet.set_pixel_argb(27, 0, 255, 255, 0, 0);
    sheet.set_pixel_argb(242, 5, 255, 0, 0, 255);
    let cmds = clock_commands(1, 2, Rect::from_ints(50, 50, 300, 300), "1:x", &sheet);
    assert_eq!(cmds.len(), 4);
    match &cmds[0] {
        APICommand::DrawRectCommand(dr) => {
            assert_eq!(dr.rect, Rect::from_ints(0, 0, 300, 300));
            assert_eq!((dr.color.r, dr.color.g, dr.color.b, dr.color.a), (255, 255, 255, 255));
        },
        _ => panic!("expected the background first"),
    }
    let expect = [(0, 18), (28, 14), (52, 27)];
    for (k, (x, w)) in expect.iter().enumerate() {
        match &cmds[k + 1] {
            APICommand::DrawImageCommand(di) => {
                assert_eq!((di.app_id, di.window_id), (1, 2));
                assert_eq!(di.rect, Rect::from_ints(*x, 30, *w, 32));
                assert_eq!(di.buffer.width as i32, *w);
                assert_eq!(di.buffer.height, 32);
            },
            _ => panic!("expected a sprite"),
        }
    }
    match (&cmds[1], &cmds[2]) {
        (APICommand::DrawImageCommand(one), APICommand::DrawImageCommand(colon)) => {
            assert_eq!(one.buffer.get_pixel_vec_argb(0, 0), vec![255, 255, 0, 0]);
            assert_eq!(colon.buffer.get_pixel_vec_argb(0, 5), vec![255, 0, 0, 255]);
            assert_eq!(colon.buffer.get_pixel_vec_argb(1, 5), vec![0, 0, 0, 0]);
        },
        _ => panic!("expected sprites"),
    }
}

#[test]
fn redraw_draws_the_time_of_day_with_colons() {
    let sheet = GFXBuffer::new(256, 32, &PixelLayout::ARGB());
    let cmds = redraw(1, 2, Rect::from_ints(50, 50, 300, 300), &sheet);
    // A background and eight sprites: two digits, a colon, two digits, a
    // colon, two digits.
    assert_eq!(cmds.len(), 9);
    let widths: Vec<i32> = cmds[1..]
        .iter()
        .map(|c| match c {
            APICommand::DrawImageCommand(di) => di.rect.w,
            _ => panic!("expected a sprite"),
        })
        .collect();
    let digit_widths = [27, 18, 26, 25, 23, 25, 26, 22, 24, 26];
    for (k, w) in widths.iter().enumerate() {
        if k == 2 || k == 5 {
            assert_eq!(*w, 14);
        } else {
            assert!(digit_widths.contains(w), "sprite {} has width {}", k, w);
        }
    }
}
