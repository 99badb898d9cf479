use std::time::Instant;

use clogwench::color::{black, white, ARGBColor, PixelLayout};
use clogwench::geom::{Point, Rect};
use clogwench::graphics::{draw_test_pattern, GFXBuffer};

#[test]
fn buffer_clear_cd32_rgba_speed() {
    let start = Instant::now();
    let w = 1024;
    let h = 1024;
    let color = ARGBColor::new_rgb(100, 100, 100);
    let mut background = GFXBuffer::new(w, h, &PixelLayout::ARGB());
    for _ in 0..10 {
        background.clear(&color);
    }
    println!("took {}", start.elapsed().as_secs_f32());
}

#[test]
fn buffer_clear_cd24_rgb_speed() {
    let start = Instant::now();
    let w = 1024;
    let h = 1024;
    let color = ARGBColor::new_rgb(100, 100, 100);
    let mut background = GFXBuffer::new(w, h, &PixelLayout::ARGB());
    for _ in 0..10 {
        background.clear(&color);
    }
    println!("took {}", start.elapsed().as_secs_f32());
}

#[test]
fn buffer_clear_cd15_rgb565_speed() {
    let start = Instant::now();
    let w = 1024;
    let h = 1024;
    let color = ARGBColor::new_rgb(100, 100, 100);
    let mut background = GFXBuffer::new(w, h, &PixelLayout::RGB565());
    for _ in 0..10 {
        background.clear(&color);
    }
    println!("took {}", start.elapsed().as_secs_f32());
}

#[test]
fn buffer_draw_image_speed() {
    let w = 1024;
    let h = 1024;
    let types = [PixelLayout::ARGB(), PixelLayout::RGB565()];

    let mut src_img = GFXBuffer::new(500, 500, &PixelLayout::ARGB());
    src_img.clear(&black());
    src_img.fill_rect(Rect::from_ints(0, 0, 250, 250), &white());
    src_img.fill_rect(Rect::from_ints(250, 250, 250, 250), &white());
    for layout in &types {
        let mut background = GFXBuffer::new(w, h, layout);
        background.clear(&black());
        for layout2 in &types {
            let src_img = src_img.to_layout(layout2);
            let start = Instant::now();
            for _ in 0..10 {
                background.draw_image(&Point::init(0, 0), &src_img.bounds(), &src_img);
            }
            println!("took {} {:?} -> {:?}", start.elapsed().as_secs_f32(), layout2, layout);
        }
    }
}

#[test]
fn buffer_draw_correctness() {
    let mut src_img = GFXBuffer::new(100, 100, &PixelLayout::ARGB());
    draw_test_pattern(&mut src_img);

    let mut dst_img = GFXBuffer::new(200, 200, &PixelLayout::ARGB());
    dst_img.draw_image(&Point::init(150, 150), &src_img.bounds(), &src_img);
}

#[test]
fn test_pattern_values() {
    let mut img = GFXBuffer::new(8, 8, &PixelLayout::ARGB());
    draw_test_pattern(&mut img);
    assert_eq!(img.get_pixel_vec_argb(3, 0), vec![255, 255, 255, 255]);
    assert_eq!(img.get_pixel_vec_argb(3, 1), vec![255, 12, 0, 0]);
    assert_eq!(img.get_pixel_vec_argb(3, 2), vec![255, 0, 12, 0]);
    assert_eq!(img.get_pixel_vec_argb(3, 4), vec![255, 0, 0, 12]);
    assert_eq!(img.get_pixel_vec_argb(3, 6), vec![12, 128, 128, 128]);
    assert_eq!(img.get_pixel_vec_argb(3, 7), vec![255, 255, 255, 255]);
}
