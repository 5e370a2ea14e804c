use rust_os::framebuffer::{
    _print, clear_color, draw_cell, encode_intensity, encode_rgb, framebuffer_dimensions,
    framebuffer_size, grid_size, init_cell_size, init_framebuffer_writer, put_pixel, reset_cursor,
    FrameBufferInfo, FrameBufferWriter, PixelBytes, PixelFormat, Rgb, Screen,
};

fn info(width: usize, height: usize, stride: usize, bpp: usize, format: PixelFormat) -> FrameBufferInfo {
    FrameBufferInfo { width, height, stride, bytes_per_pixel: bpp, pixel_format: format }
}

fn writer(width: usize, height: usize, stride: usize, bpp: usize, format: PixelFormat) -> FrameBufferWriter {
    FrameBufferWriter::new(vec![0xaa; height * stride * bpp + 3], info(width, height, stride, bpp, format))
        .unwrap()
}

fn pixel(w: &FrameBufferWriter, stride: usize, bpp: usize, x: usize, y: usize) -> Vec<u8> {
    let at = (y * stride + x) * bpp;
    w.buffer()[at..at + bpp].to_vec()
}

#[test]
fn new_writer_is_cleared_and_checks_the_layout() {
    let w = writer(4, 3, 5, 4, PixelFormat::Rgb);
    assert!(w.buffer().iter().all(|&b| b == 0));
    assert_eq!(w.buffer().len(), 63);
    assert_eq!(w.dimensions(), (4, 3));
    assert_eq!((w.width(), w.height()), (4, 3));
    assert!(FrameBufferWriter::new(vec![0; 59], info(4, 3, 5, 4, PixelFormat::Rgb)).is_none());
    assert!(FrameBufferWriter::new(vec![0; 60], info(4, 3, 5, 4, PixelFormat::Rgb)).is_some());
    assert!(FrameBufferWriter::new(vec![0; 60], info(6, 3, 5, 4, PixelFormat::Rgb)).is_none());
    assert!(FrameBufferWriter::new(vec![0; 100], info(4, 3, 5, 5, PixelFormat::Rgb)).is_none());
    assert!(FrameBufferWriter::new(vec![0; 100], info(4, 3, 5, 0, PixelFormat::Rgb)).is_none());
    assert!(
        FrameBufferWriter::new(vec![0; 100], info(1, usize::MAX, usize::MAX, 4, PixelFormat::Rgb))
            .is_none()
    );
    assert!(FrameBufferWriter::new(Vec::new(), info(0, 0, 0, 1, PixelFormat::U8)).is_some());
}

#[test]
fn colours_are_encoded_by_format() {
    let c = Rgb { r: 1, g: 2, b: 3 };
    assert_eq!(encode_rgb(PixelFormat::Rgb, c), PixelBytes { b0: 1, b1: 2, b2: 3, b3: 0 });
    assert_eq!(encode_rgb(PixelFormat::Bgr, c), PixelBytes { b0: 3, b1: 2, b2: 1, b3: 0 });
    assert_eq!(encode_rgb(PixelFormat::U8, c), PixelBytes { b0: 15, b1: 0, b2: 0, b3: 0 });
    assert_eq!(encode_rgb(PixelFormat::U8, Rgb::black()), PixelBytes { b0: 0, b1: 0, b2: 0, b3: 0 });
    assert_eq!(encode_intensity(PixelFormat::Rgb, 201), PixelBytes { b0: 201, b1: 201, b2: 100, b3: 0 });
    assert_eq!(encode_intensity(PixelFormat::Bgr, 201), PixelBytes { b0: 100, b1: 201, b2: 201, b3: 0 });
    assert_eq!(encode_intensity(PixelFormat::U8, 201), PixelBytes { b0: 15, b1: 0, b2: 0, b3: 0 });
    assert_eq!(encode_intensity(PixelFormat::U8, 200), PixelBytes { b0: 0, b1: 0, b2: 0, b3: 0 });
    assert_eq!(Rgb::white(), Rgb { r: 255, g: 255, b: 255 });
    assert_eq!(Rgb::red(), Rgb { r: 255, g: 0, b: 0 });
    assert_eq!(Rgb::green(), Rgb { r: 0, g: 160, b: 0 });
    assert_eq!(Rgb::bright_green(), Rgb { r: 0, g: 255, b: 0 });
    assert_eq!(Rgb::dark_gray(), Rgb { r: 32, g: 32, b: 32 });
}

#[test]
fn put_pixel_writes_one_pixel_and_nothing_else() {
    let mut w = writer(4, 3, 5, 3, PixelFormat::Bgr);
    w.put_pixel_rgb(2, 1, Rgb { r: 10, g: 20, b: 30 });
    let mut expected = vec![0u8; 48];
    expected[21..24].copy_from_slice(&[30, 20, 10]);
    assert_eq!(w.buffer(), &expected);
    // off the screen: the padding column, the row below, far away
    w.put_pixel_rgb(4, 1, Rgb::white());
    w.put_pixel_rgb(0, 3, Rgb::white());
    w.put_pixel_rgb(usize::MAX, usize::MAX, Rgb::white());
    assert_eq!(w.buffer(), &expected);
}

#[test]
fn fill_rect_is_cut_off_at_the_screen() {
    let mut w = writer(4, 3, 5, 1, PixelFormat::U8);
    w.fill_rect(2, 1, 10, 10, Rgb::white());
    let expected = vec![0, 0, 0, 0, 0, 0, 0, 15, 15, 0, 0, 0, 15, 15, 0, 0, 0, 0];
    assert_eq!(w.buffer(), &expected);
    w.fill_rect(0, 0, 2, 1, Rgb::red());
    w.fill_rect(4, 0, 1, 1, Rgb::red());
    w.fill_rect(1, 1, 0, 5, Rgb::red());
    w.fill_rect(usize::MAX, 0, usize::MAX, 2, Rgb::red());
    w.fill_rect(3, usize::MAX, 1, 1, Rgb::red());
    assert_eq!(&w.buffer()[..5], &[15, 15, 0, 0, 0]);
    assert_eq!(&w.buffer()[5..], &expected[5..]);
    w.fill_rect(2, 1, 1, 1, Rgb::black());
    assert_eq!(pixel(&w, 5, 1, 2, 1), vec![0]);
    assert_eq!(pixel(&w, 5, 1, 3, 1), vec![15]);
}

#[test]
fn cells_of_the_grid() {
    let mut w = writer(10, 10, 10, 4, PixelFormat::Rgb);
    assert_eq!(w.grid_dimensions(3), (3, 3));
    assert_eq!(w.grid_dimensions(11), (0, 0));
    let c = Rgb { r: 9, g: 8, b: 7 };
    w.draw_cell(1, 2, 3, c);
    for y in 0..10 {
        for x in 0..10 {
            let inside = (3..6).contains(&x) && (6..9).contains(&y);
            assert_eq!(pixel(&w, 10, 4, x, y), if inside { vec![9, 8, 7, 0] } else { vec![0; 4] });
        }
    }
    w.clear();
    w.draw_cell_inset(1, 1, 4, 1, c);
    for y in 0..10 {
        for x in 0..10 {
            let inside = (5..7).contains(&x) && (5..7).contains(&y);
            assert_eq!(pixel(&w, 10, 4, x, y), if inside { vec![9, 8, 7, 0] } else { vec![0; 4] });
        }
    }
    w.clear();
    w.draw_cell_inset(0, 0, 4, 2, c);
    w.draw_cell_inset(0, 0, 4, 3, c);
    w.draw_cell_inset(0, 0, 4, usize::MAX, c);
    w.draw_cell(usize::MAX, 2, 3, c);
    w.draw_cell(3, 3, 3, c);
    assert_eq!(pixel(&w, 10, 4, 9, 9), vec![9, 8, 7, 0]);
    w.fill_rect(9, 9, 1, 1, Rgb::black());
    assert!(w.buffer().iter().all(|&b| b == 0));
}

#[test]
fn clear_color_paints_the_screen_but_not_the_padding() {
    let mut w = writer(2, 2, 3, 2, PixelFormat::Rgb);
    w.clear_color(Rgb { r: 1, g: 2, b: 3 });
    assert_eq!(w.buffer(), &vec![1, 2, 1, 2, 0, 0, 1, 2, 1, 2, 0, 0, 0, 0, 0]);
    w.clear();
    assert!(w.buffer().iter().all(|&b| b == 0));
}

fn lit(w: &FrameBufferWriter, stride: usize, x0: usize, y0: usize, x1: usize, y1: usize) -> usize {
    let mut count = 0;
    for y in y0..y1 {
        for x in x0..x1 {
            if w.buffer()[y * stride + x] != 0 {
                count += 1;
            }
        }
    }
    count
}

#[test]
fn characters_are_drawn_at_the_cursor() {
    let mut w = writer(40, 60, 40, 1, PixelFormat::U8);
    w.write_char('H');
    // the glyph lies in the box of seven by sixteen pixels at (1, 1)
    assert!(lit(&w, 40, 1, 1, 8, 17) > 0);
    assert_eq!(lit(&w, 40, 0, 0, 40, 60), lit(&w, 40, 1, 1, 8, 17));
    let first = w.buffer().clone();
    w.write_char('H');
    for y in 1..17 {
        for x in 1..8 {
            assert_eq!(w.buffer()[y * 40 + x], first[y * 40 + x]);
            assert_eq!(w.buffer()[y * 40 + x + 7], first[y * 40 + x]);
        }
    }
    // a space has no lit pixel but moves the cursor
    w.write_char(' ');
    w.write_char('H');
    assert_eq!(lit(&w, 40, 15, 1, 22, 17), 0);
    assert_eq!(lit(&w, 40, 22, 1, 29, 17), lit(&w, 40, 1, 1, 8, 17));
}

#[test]
fn lines_wrap_and_the_screen_clears_at_the_bottom() {
    let mut w = writer(40, 60, 40, 1, PixelFormat::U8);
    // five characters fit a line: the sixth would reach column 43
    w.write_str("HHHHHH");
    assert!(lit(&w, 40, 29, 1, 36, 17) > 0);
    assert!(lit(&w, 40, 1, 19, 8, 35) > 0);
    assert_eq!(lit(&w, 40, 8, 19, 40, 35), 0);
    w.write_str("\rI\nJ");
    assert!(lit(&w, 40, 1, 37, 8, 53) > 0);
    // the next line would start at row 55 and reach beyond row 60
    w.write_str("\nK");
    assert_eq!(lit(&w, 40, 0, 17, 40, 60), 0);
    assert!(lit(&w, 40, 1, 1, 8, 17) > 0);
    let mut again = writer(40, 60, 40, 1, PixelFormat::U8);
    again.write_char('K');
    assert_eq!(w.buffer(), again.buffer());
}

#[test]
fn text_on_a_screen_too_small_for_it_is_cut_off() {
    let mut w = writer(5, 5, 5, 1, PixelFormat::U8);
    w.write_str("Hello\nworld");
    assert_eq!(w.buffer().len(), 28);
    let mut none = writer(0, 0, 0, 4, PixelFormat::Rgb);
    none.write_str("Hello");
    none.clear_color(Rgb::white());
    assert_eq!(none.buffer(), &vec![0, 0, 0]);
}

#[test]
fn unknown_characters_are_shown_as_the_fallback() {
    let mut a = writer(40, 60, 40, 1, PixelFormat::U8);
    let mut b = writer(40, 60, 40, 1, PixelFormat::U8);
    a.write_char('\u{4e2d}');
    b.write_char('\u{fffd}');
    assert_eq!(a.buffer(), b.buffer());
    assert!(lit(&a, 40, 1, 1, 8, 17) > 0);
    a.write_char('x');
    b.write_char('x');
    assert_eq!(a.buffer(), b.buffer());
}

#[test]
fn the_display_is_set_up_once() {
    let mut screen = Screen::new();
    assert!(!screen.is_initialized());
    assert!(screen.buffer().is_none());
    assert_eq!(grid_size(&screen), None);
    init_framebuffer_writer(&mut screen, vec![0; 10], info(4, 4, 4, 1, PixelFormat::U8));
    assert!(!screen.is_initialized());
    init_framebuffer_writer(&mut screen, vec![1; 16], info(4, 4, 4, 1, PixelFormat::U8));
    assert!(screen.is_initialized());
    init_framebuffer_writer(&mut screen, vec![1; 100], info(10, 10, 10, 1, PixelFormat::U8));
    assert_eq!(framebuffer_size(&screen), (4, 4));
    assert_eq!(screen.buffer().unwrap(), &vec![0u8; 16]);
    init_cell_size(&mut screen, 2);
    init_cell_size(&mut screen, 4);
    assert_eq!(grid_size(&screen), Some((2, 2)));
    assert_eq!(framebuffer_dimensions(&screen, 3), ((4, 4), (1, 1)));
    put_pixel(&mut screen, 1, 0, Rgb::white());
    put_pixel(&mut screen, 4, 0, Rgb::white());
    draw_cell(&mut screen, 1, 1, 2, Rgb::white());
    assert_eq!(
        screen.buffer().unwrap(),
        &vec![0, 15, 0, 0, 0, 0, 0, 0, 0, 0, 15, 15, 0, 0, 15, 15]
    );
    clear_color(&mut screen, Rgb::black());
    assert_eq!(screen.buffer().unwrap(), &vec![0u8; 16]);
}

#[test]
fn printing_goes_through_the_display() {
    let mut screen = Screen::new();
    init_framebuffer_writer(&mut screen, vec![0; 40 * 60], info(40, 60, 40, 1, PixelFormat::U8));
    _print(&mut screen, "ab");
    let mut w = writer(40, 60, 40, 1, PixelFormat::U8);
    w.write_str("ab");
    assert_eq!(&screen.buffer().unwrap()[..], &w.buffer()[..40 * 60]);
    reset_cursor(&mut screen);
    _print(&mut screen, "ab");
    assert_eq!(&screen.buffer().unwrap()[..], &w.buffer()[..40 * 60]);
    _print(&mut screen, "c");
    w.write_str("c");
    assert_eq!(&screen.buffer().unwrap()[..], &w.buffer()[..40 * 60]);
}
