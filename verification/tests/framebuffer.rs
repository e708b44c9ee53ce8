use rasterizer::framebuffer::{Framebuffer, INITIAL_DRAW_COLOR};
use rasterizer::scalar::Scalar;

fn depth(v: f32) -> Scalar {
    Scalar::from_bits(v.to_bits())
}

fn depths_of(fb: &Framebuffer) -> Vec<f32> {
    fb.zbuffer().iter().map(|d| f32::from_bits(d.to_bits())).collect()
}

#[test]
fn new_framebuffer_is_black_and_empty() {
    let fb = Framebuffer::new(4, 3);
    assert_eq!(fb.width(), 4);
    assert_eq!(fb.height(), 3);
    assert_eq!(fb.buffer(), &vec![0u32; 12]);
    assert_eq!(depths_of(&fb), vec![f32::INFINITY; 12]);
}

#[test]
fn first_point_is_drawn_in_white() {
    let mut fb = Framebuffer::new(4, 3);
    fb.point(1, 2, depth(0.5));
    assert_eq!(INITIAL_DRAW_COLOR, 0xFFFFFF);
    assert_eq!(fb.buffer()[2 * 4 + 1], 0xFFFFFF);
    assert_eq!(depths_of(&fb)[2 * 4 + 1], 0.5);
    let touched = fb.buffer().iter().filter(|&&c| c != 0).count();
    assert_eq!(touched, 1);
}

#[test]
fn closer_point_wins() {
    let mut fb = Framebuffer::new(2, 2);
    fb.set_current_color(0x111111);
    fb.point(0, 1, depth(5.0));
    fb.set_current_color(0x222222);
    fb.point(0, 1, depth(3.0));
    assert_eq!(fb.buffer()[2], 0x222222);
    assert_eq!(depths_of(&fb)[2], 3.0);
}

#[test]
fn farther_point_is_dropped() {
    let mut fb = Framebuffer::new(2, 2);
    fb.set_current_color(0x111111);
    fb.point(1, 0, depth(3.0));
    fb.set_current_color(0x222222);
    fb.point(1, 0, depth(5.0));
    assert_eq!(fb.buffer()[1], 0x111111);
    assert_eq!(depths_of(&fb)[1], 3.0);
}

#[test]
fn equal_depth_does_not_overwrite() {
    let mut fb = Framebuffer::new(2, 2);
    fb.set_current_color(0x111111);
    fb.point(1, 1, depth(3.0));
    fb.set_current_color(0x222222);
    fb.point(1, 1, depth(3.0));
    assert_eq!(fb.buffer()[3], 0x111111);
}

#[test]
fn negative_depths_order_like_numbers() {
    let mut fb = Framebuffer::new(1, 1);
    fb.set_current_color(1);
    fb.point(0, 0, depth(-1.0));
    fb.set_current_color(2);
    fb.point(0, 0, depth(-0.5));
    assert_eq!(fb.buffer()[0], 1);
    fb.set_current_color(3);
    fb.point(0, 0, depth(-2.0));
    assert_eq!(fb.buffer()[0], 3);
    assert_eq!(depths_of(&fb)[0], -2.0);
}

#[test]
fn points_outside_are_ignored() {
    let mut fb = Framebuffer::new(3, 2);
    fb.point(3, 0, depth(0.0));
    fb.point(0, 2, depth(0.0));
    fb.point(usize::MAX, usize::MAX, depth(0.0));
    fb.point(usize::MAX, 0, depth(0.0));
    assert_eq!(fb.buffer(), &vec![0u32; 6]);
    assert_eq!(depths_of(&fb), vec![f32::INFINITY; 6]);
}

#[test]
fn point_without_depth_is_dropped() {
    let mut fb = Framebuffer::new(1, 1);
    fb.point(0, 0, depth(f32::NAN));
    assert_eq!(fb.buffer()[0], 0);
    fb.point(0, 0, depth(f32::INFINITY));
    assert_eq!(fb.buffer()[0], 0);
    assert_eq!(depths_of(&fb)[0], f32::INFINITY);
}

#[test]
fn clear_fills_with_the_background() {
    let mut fb = Framebuffer::new(3, 3);
    fb.point(1, 1, depth(0.25));
    fb.set_background_color(0x336699);
    assert_eq!(fb.buffer()[4], 0xFFFFFF);
    fb.clear();
    assert_eq!(fb.buffer(), &vec![0x336699u32; 9]);
    assert_eq!(depths_of(&fb), vec![f32::INFINITY; 9]);
}

#[test]
fn after_clear_any_point_lands() {
    let mut fb = Framebuffer::new(3, 2);
    for y in 0..2 {
        for x in 0..3 {
            fb.point(x, y, depth(-1.0e30));
        }
    }
    fb.clear();
    fb.set_current_color(0xABCDEF);
    for y in 0..2 {
        for x in 0..3 {
            fb.point(x, y, depth(3.0e38));
            assert_eq!(fb.buffer()[y * 3 + x], 0xABCDEF);
            assert_eq!(depths_of(&fb)[y * 3 + x], 3.0e38);
        }
    }
}

#[test]
fn depth_never_grows() {
    let mut fb = Framebuffer::new(2, 1);
    let mut state: u32 = 7;
    for _ in 0..500 {
        state = state.wrapping_mul(1_664_525).wrapping_add(1_013_904_223);
        let d = f32::from_bits(state);
        let before = depths_of(&fb);
        fb.point((state % 2) as usize, 0, depth(d));
        let after = depths_of(&fb);
        for (old, new) in before.iter().zip(after.iter()) {
            assert!(new <= old);
        }
        assert!(fb.zbuffer().iter().all(|d| !d.is_nan()));
    }
}

#[test]
fn empty_framebuffer() {
    let mut fb = Framebuffer::new(0, 5);
    fb.point(0, 0, depth(0.0));
    fb.clear();
    assert!(fb.buffer().is_empty());
    assert!(fb.zbuffer().is_empty());
}

#[test]
fn draw_color_stays_after_clear() {
    let mut fb = Framebuffer::new(1, 1);
    fb.set_current_color(0x010203);
    fb.clear();
    fb.point(0, 0, depth(1.0));
    assert_eq!(fb.buffer()[0], 0x010203);
}
