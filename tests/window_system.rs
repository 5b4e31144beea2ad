use rasterizer::pixel::Pixel;
use rasterizer::window_system::{gradient_pattern, X11};

#[test]
fn gradient_two_by_two() {
    assert_eq!(
        gradient_pattern(2, 2),
        vec![0, 0, 255, 255, 0, 127, 127, 255, 127, 0, 127, 255, 127, 127, 127, 255]
    );
}

#[test]
fn gradient_empty_and_single() {
    assert!(gradient_pattern(0, 5).is_empty());
    assert!(gradient_pattern(5, 0).is_empty());
    assert_eq!(gradient_pattern(1, 1), vec![0, 0, 255, 255]);
}

#[test]
fn gradient_corners_of_wide_image() {
    let (w, h) = (320usize, 240usize);
    let bytes = gradient_pattern(w as u32, h as u32);
    assert_eq!(bytes.len(), 4 * w * h);
    let last = 4 * (w * h - 1);
    // bottom-right pixel: only a trace of green is left
    assert_eq!(&bytes[last..last + 4], &[0, 1, 0, 255]);
    let top_right = 4 * (w - 1);
    assert_eq!(&bytes[top_right..top_right + 4], &[0, 254, 0, 255]);
}

#[test]
fn x11_new_is_blank() {
    let x = X11::new(3, 2);
    assert_eq!((x.get_win_w(), x.get_win_h()), (3, 2));
    assert_eq!(x.x_framebuffer, vec![[0u8; 4]; 6]);
}

#[test]
fn x11_configure_resizes_both_buffers() {
    let mut x = X11::new(2, 2);
    let mut fb = vec![Pixel::new(9, 9, 9, 9); 4];
    assert!(!x.handle_configure(2, 2, &mut fb));
    assert_eq!(fb.len(), 4);
    assert!(x.handle_configure(3, 2, &mut fb));
    assert_eq!((x.get_win_w(), x.get_win_h()), (3, 2));
    assert_eq!(fb.len(), 6);
    assert_eq!(fb[3], Pixel::new(9, 9, 9, 9));
    assert_eq!(fb[5], Pixel::default());
    assert_eq!(x.x_framebuffer.len(), 6);
    assert!(x.handle_configure(1, 1, &mut fb));
    assert_eq!(fb, vec![Pixel::new(9, 9, 9, 9)]);
    assert_eq!(x.x_framebuffer.len(), 1);
}

#[test]
fn x11_fill_converts_to_bgra() {
    let mut x = X11::new(2, 1);
    x.fill_x_framebuffer(&vec![Pixel::new(1, 2, 3, 4), Pixel::new(5, 6, 7, 8)]);
    assert_eq!(x.x_framebuffer, vec![[3, 2, 1, 4], [7, 6, 5, 8]]);
    x.fill_x_framebuffer(&vec![Pixel::new(10, 20, 30, 40)]);
    assert_eq!(x.x_framebuffer, vec![[30, 20, 10, 40], [7, 6, 5, 8]]);
}

#[test]
fn pixel_default_is_transparent_black() {
    assert_eq!(Pixel::default(), Pixel::new(0, 0, 0, 0));
}
