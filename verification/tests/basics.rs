use clogwench::color::{black, pack, white, ARGBColor, PixelLayout};
use clogwench::geom::{Point, Rect, Size};
use clogwench::graphics::{from_png_bytes, GFXBuffer};
use clogwench::logger::CoolLogger;
use clogwench::screen::{start_headless_screen, HeadlessSurface};
use clogwench::runner::WMType;

#[test]
fn it_works() {
    let result = 2 + 2;
    assert_eq!(result, 4);
}

#[test]
fn lib_it_works() {
    let result = 2 + 2;
    assert_eq!(result, 4);
}

#[test]
fn test_rect_intersect() {
    let r1 = Rect::from_ints(0, 0, 500, 500);
    let r2 = Rect::from_ints(0, 0, 250, 250);
    let r3 = r1.intersect(r2);
    println!("r3 {:?}", r3);
    assert_eq!(r3, Rect::from_ints(0, 0, 250, 250));
}

#[test]
fn argb_clear_fill() {
    let red = ARGBColor::new_rgb(255, 0, 0);
    let green = ARGBColor::new_rgb(0, 255, 0);
    let blue = ARGBColor::new_rgb(0, 0, 255);

    let mut buf2 = GFXBuffer::new(1, 1, &PixelLayout::ARGB());
    buf2.clear(&red);
    assert_eq!(buf2.data, vec![255, 255, 0, 0]);
    buf2.clear(&green);
    assert_eq!(buf2.data, vec![255, 0, 255, 0]);
    buf2.clear(&blue);
    assert_eq!(buf2.data, vec![255, 0, 0, 255]);
    buf2.fill_rect(Rect::from_ints(0, 0, 1, 1), &red);
    assert_eq!(buf2.data, vec![255, 255, 0, 0]);
    buf2.fill_rect(Rect::from_ints(0, 0, 1, 1), &green);
    assert_eq!(buf2.data, vec![255, 0, 255, 0]);
    buf2.fill_rect(Rect::from_ints(0, 0, 1, 1), &blue);
    assert_eq!(buf2.data, vec![255, 0, 0, 255]);
}

#[test]
fn intersect_commutes_and_overlaps() {
    let a = Rect::from_ints(10, 20, 30, 40);
    let b = Rect::from_ints(25, 5, 50, 30);
    assert_eq!(a.intersect(b), b.intersect(a));
    assert_eq!(a.intersect(b), Rect::from_ints(25, 20, 15, 15));
    assert_eq!(a.intersect(a), a);
    let far = Rect::from_ints(100, 100, 5, 5);
    assert!(a.intersect(far).is_empty());
}

#[test]
fn rect_contains_edges() {
    let r = Rect::from_ints(0, 0, 10, 10);
    assert!(r.contains(&Point::init(0, 0)));
    assert!(r.contains(&Point::init(9, 9)));
    assert!(!r.contains(&Point::init(10, 5)));
    assert!(!r.contains(&Point::init(5, -1)));
}

#[test]
fn point_and_size_arithmetic() {
    let p = Point::init(3, 4).add(&Point::init(10, 20));
    assert_eq!(p, Point::init(13, 24));
    assert_eq!(p.subtract(&Point::init(3, 4)), Point::init(10, 20));
    assert_eq!(Size::init(10, 10).grow(3), Size::init(16, 16));
    let moved = Rect::from_ints(1, 2, 3, 4).add(&Point::init(10, 10));
    assert_eq!(moved, Rect::from_ints(11, 12, 3, 4));
}

#[test]
fn color_vector_roundtrip() {
    let c = ARGBColor::new_argb(1, 2, 3, 4);
    let v = c.to_argb_vec();
    assert_eq!(v, vec![1, 2, 3, 4]);
    assert_eq!(ARGBColor::from_argb_vec(&v), c);
    assert_eq!(black(), ARGBColor::new_rgb(0, 0, 0));
    assert_eq!(white(), ARGBColor::new_rgb(255, 255, 255));
}

#[test]
fn rgb565_packing() {
    let red = ARGBColor::new_rgb(255, 0, 0);
    assert_eq!(red.as_layout(&PixelLayout::RGB565()), vec![0b000_00000, 0b11111_000]);
    let green = ARGBColor::new_rgb(0, 255, 0);
    assert_eq!(green.as_layout(&PixelLayout::RGB565()), vec![0b111_00000, 0b00000_111]);
    assert_eq!(pack(&PixelLayout::ARGB(), 9, 8, 7, 6), vec![9, 8, 7, 6]);
    assert_eq!(PixelLayout::RGB565().bytes_per_pixel(), 2);
    assert_eq!(PixelLayout::ARGB().bytes_per_pixel(), 4);
}

#[test]
fn logger_prefix_upper_cases() {
    let logger = CoolLogger;
    assert!(logger.enabled());
    assert_eq!(logger.prefix(Some("central::router")), "CENTRAL::ROUTER");
    assert_eq!(logger.prefix(None), "UNKNOWN");
}

#[test]
fn headless_screen_keeps_bounds() {
    let r = Rect::from_ints(0, 0, 640, 480);
    let screen = start_headless_screen(r);
    assert_eq!(*screen.get_bounds(), r);
    let surf = HeadlessSurface::init(Rect::from_ints(5, 6, 7, 8));
    surf.fill_rect(&Rect::from_ints(0, 0, 1, 1), &black());
    assert_eq!(*surf.get_bounds(), Rect::from_ints(5, 6, 7, 8));
}

#[test]
fn pixel_write_then_read() {
    let mut argb = GFXBuffer::new(3, 2, &PixelLayout::ARGB());
    argb.set_pixel_argb(2, 1, 7, 0xab, 0xb6, 0x5f);
    assert_eq!(argb.get_pixel_vec_argb(2, 1), vec![7, 0xab, 0xb6, 0x5f]);
    assert_eq!(argb.get_pixel_vec_argb(1, 1), vec![0, 0, 0, 0]);
    let mut rgb = GFXBuffer::new(3, 2, &PixelLayout::RGB565());
    rgb.set_pixel_argb(2, 1, 7, 0xab, 0xb6, 0x5f);
    assert_eq!(rgb.get_pixel_vec_argb(2, 1), vec![255, 0xa8, 0x74, 0x68]);
    // Writes right of or below the buffer are ignored.
    rgb.set_pixel_argb(3, 0, 1, 2, 3, 4);
    assert_eq!(rgb.get_pixel_vec_argb(0, 1), vec![255, 0, 0, 0]);
    assert_eq!(rgb.get_pixel_vec_argb(5, 5), vec![0, 0, 0, 0]);
}

#[test]
fn image_fill_left_of_the_buffer_wraps_to_the_row_above() {
    let mut buf = GFXBuffer::new(4, 3, &PixelLayout::ARGB());
    let mut img = GFXBuffer::new(1, 1, &PixelLayout::ARGB());
    img.clear(&ARGBColor::new_rgb(255, 0, 0));
    let rect = Rect::from_ints(-1, 1, 2, 1);
    assert!(buf.can_fill_rect_with_image(&rect, &img));
    buf.fill_rect_with_image(&rect, &img);
    assert_eq!(buf.get_pixel_vec_argb(3, 0), vec![255, 255, 0, 0]);
    assert_eq!(buf.get_pixel_vec_argb(0, 1), vec![255, 255, 0, 0]);
    assert_eq!(buf.get_pixel_vec_argb(1, 1), vec![0, 0, 0, 0]);
    assert_eq!(buf.get_pixel_vec_argb(3, 1), vec![0, 0, 0, 0]);
    assert!(!buf.can_fill_rect_with_image(&Rect::from_ints(0, -1, 1, 2), &img));
    assert!(!buf.can_fill_rect_with_image(&Rect::from_ints(0, 0, 1, 1), &GFXBuffer::new(0, 1, &PixelLayout::ARGB())));
    assert!(buf.can_fill_rect_with_image(&Rect::from_ints(10, 10, 1, 1), &img));
}

#[test]
fn image_fill_tiles_the_image() {
    let mut buf = GFXBuffer::new(5, 5, &PixelLayout::ARGB());
    let mut img = GFXBuffer::new(2, 1, &PixelLayout::ARGB());
    img.set_pixel_argb(0, 0, 255, 1, 1, 1);
    img.set_pixel_argb(1, 0, 255, 2, 2, 2);
    buf.fill_rect_with_image(&Rect::from_ints(1, 1, 3, 2), &img);
    assert_eq!(buf.get_pixel_vec_argb(1, 1), vec![255, 1, 1, 1]);
    assert_eq!(buf.get_pixel_vec_argb(2, 1), vec![255, 2, 2, 2]);
    assert_eq!(buf.get_pixel_vec_argb(3, 2), vec![255, 1, 1, 1]);
    assert_eq!(buf.get_pixel_vec_argb(4, 2), vec![0, 0, 0, 0]);
    assert_eq!(buf.get_pixel_vec_argb(1, 3), vec![0, 0, 0, 0]);
}

#[test]
fn draw_image_between_layouts_wraps_left_of_the_buffer() {
    let mut src = GFXBuffer::new(3, 2, &PixelLayout::RGB565());
    src.fill_rect(Rect::from_ints(0, 1, 1, 1), &ARGBColor::new_rgb(0xF8, 0, 0));
    src.fill_rect(Rect::from_ints(1, 1, 1, 1), &ARGBColor::new_rgb(0, 0, 0xF8));
    let mut dst = GFXBuffer::new(3, 2, &PixelLayout::ARGB());
    assert!(dst.can_draw_image(&Point::init(-1, 0), &Rect::from_ints(0, 1, 3, 1), &src));
    dst.draw_image(&Point::init(-1, 0), &Rect::from_ints(0, 1, 3, 1), &src);
    // The pixel at (0, 1) of the target lands at (-1, 1), the position of (2, 0).
    assert_eq!(dst.get_pixel_vec_argb(2, 0), vec![255, 0xF8, 0, 0]);
    assert_eq!(dst.get_pixel_vec_argb(0, 1), vec![255, 0, 0, 0xF8]);
    for (x, y) in [(0, 0), (1, 0), (1, 1), (2, 1)] {
        assert_eq!(dst.get_pixel_vec_argb(x, y), vec![0, 0, 0, 0]);
    }
}

#[test]
fn draw_image_between_layouts_refuses_a_write_before_the_buffer() {
    let src = GFXBuffer::new(3, 2, &PixelLayout::RGB565());
    let dst = GFXBuffer::new(3, 2, &PixelLayout::ARGB());
    // The first pixel would land at (-1, 0), before the start of the data.
    assert!(!dst.can_draw_image(&Point::init(-1, 0), &Rect::from_ints(0, 0, 3, 1), &src));
}

#[test]
fn draw_image_same_layout_copies_rows_by_position() {
    let mut src = GFXBuffer::new(2, 2, &PixelLayout::ARGB());
    src.set_pixel_argb(1, 0, 255, 9, 8, 7);
    src.set_pixel_argb(0, 1, 255, 1, 2, 3);
    let mut dst = GFXBuffer::new(3, 1, &PixelLayout::ARGB());
    let part = Rect::from_ints(0, 0, 3, 1);
    assert!(dst.can_draw_image(&Point::init(0, 0), &part, &src));
    dst.draw_image(&Point::init(0, 0), &part, &src);
    // A row wider than the source runs on into its next row.
    assert_eq!(dst.get_pixel_vec_argb(0, 0), vec![0, 0, 0, 0]);
    assert_eq!(dst.get_pixel_vec_argb(1, 0), vec![255, 9, 8, 7]);
    assert_eq!(dst.get_pixel_vec_argb(2, 0), vec![255, 1, 2, 3]);
    // Four pixels of a two by two source hold no fifth.
    let wide = Rect::from_ints(0, 0, 3, 2);
    let tall = GFXBuffer::new(3, 2, &PixelLayout::ARGB());
    assert!(!tall.can_draw_image(&Point::init(0, 0), &wide, &src));
}

#[test]
fn wm_type_names() {
    assert_eq!(WMType::from_str("native"), Ok(WMType::Native));
    assert_eq!(WMType::from_str("headless"), Ok(WMType::Headless));
    assert_eq!(WMType::from_str("Native"), Err("Could not parse a day"));
    assert_eq!(WMType::from_str(""), Err("Could not parse a day"));
}

#[test]
fn draw_image_refuses_a_target_that_cannot_be_moved_back() {
    let src = GFXBuffer::new(2, 2, &PixelLayout::ARGB());
    let dst = GFXBuffer::new(4, 4, &PixelLayout::ARGB());
    // The part lands at x = -2 and is cut to start at 0; moving 0 back by
    // i32::MIN leaves 32 bits.
    let part = Rect::from_ints(i32::MAX - 1, 0, 10, 2);
    assert!(!dst.can_draw_image(&Point::init(i32::MIN, 0), &part, &src));
}

#[test]
fn argb_to_rgb565() {
    let red = ARGBColor::new_rgb(255, 0, 0);
    let grn = ARGBColor::new_rgb(0, 255, 0);
    let blu = ARGBColor::new_rgb(0, 0, 255);

    //=== RGB565 ===
    let mut buf2 = GFXBuffer::new(1, 1, &PixelLayout::RGB565());
    buf2.clear(&red);
    assert_eq!(buf2.data, vec![0b000_00000, 0b11111_000]);
    buf2.clear(&grn);
    assert_eq!(buf2.data, vec![0b111_00000, 0b00000_111]);
    buf2.fill_rect(Rect::from_ints(0, 0, 1, 1), &red);
    assert_eq!(buf2.data, vec![0b11111_000, 0b000_00000]);
    buf2.fill_rect(Rect::from_ints(0, 0, 1, 1), &grn);
    assert_eq!(buf2.data, vec![0b00000_111, 0b111_00000]);

    // === copy ARGB to RGB565
    let mut buf1 = GFXBuffer::new(1, 1, &PixelLayout::ARGB());
    buf1.clear(&blu);
    assert_eq!(buf1.data, vec![255, 0, 0, 255]);
    buf2.draw_image(&Point::init(0, 0), &buf1.bounds(), &buf1);
    assert_eq!(buf2.data, vec![0b000_11111, 0b00000_000]);

    //copy RGB565 to ARGB
    buf2.clear(&blu);
    assert_eq!(buf2.data, vec![0b000_11111, 0b00000_000]);
    buf1.draw_image(&Point::init(0, 0), &buf2.bounds(), &buf2);
    assert_eq!(buf1.data, vec![255, 24, 224, 0]);
}

#[test]
fn buffer_fill_rect_cd32_rgba_speed() {
    let w = 1024;
    let h = 1024;
    let color = ARGBColor::new_rgb(96, 100, 96);

    let types = [PixelLayout::ARGB(), PixelLayout::RGB565()];

    for layout in types {
        let mut background = GFXBuffer::new(w, h, &layout);
        background.clear(&black());
        let start = std::time::Instant::now();
        let bounds = Rect::from_ints(500, 500, 1000, 1000);
        for _ in 0..10 {
            background.fill_rect(bounds, &color);
        }
        println!("took {}", start.elapsed().as_secs_f32());
        assert_eq!(
            background.get_pixel_vec_as_layout(&PixelLayout::ARGB(), 0, 0),
            black().as_layout(&PixelLayout::ARGB())
        );
        assert_eq!(
            background.get_pixel_vec_as_layout(&PixelLayout::ARGB(), 600, 600),
            color.as_layout(&PixelLayout::ARGB())
        );
    }
}

#[test]
fn png_bytes_round_trip() {
    let mut buf = GFXBuffer::new(2, 1, &PixelLayout::ARGB());
    buf.set_pixel_argb(0, 0, 255, 10, 20, 30);
    buf.set_pixel_argb(1, 0, 128, 40, 50, 60);
    let bytes = buf.to_png_bytes().expect("a small image encodes");
    assert_eq!(&bytes[1..4], b"PNG");
    let back = from_png_bytes(&bytes).expect("the encoded image decodes");
    assert_eq!((back.width, back.height), (2, 1));
    assert_eq!(back.get_pixel_vec_argb(0, 0), vec![255, 10, 20, 30]);
    assert_eq!(back.get_pixel_vec_argb(1, 0), vec![128, 40, 50, 60]);
    assert!(from_png_bytes(b"not a png file").is_none());
}
