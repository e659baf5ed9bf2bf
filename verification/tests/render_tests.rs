use solar_renderer::math::{Vec2, Vec3};
use solar_renderer::renderer::{Framebuffer, SoftwareRenderer, DEPTH_FAR};

const ONE: i64 = 65536;

fn px(fb: &Framebuffer, x: usize, y: usize) -> u32 {
    fb.color_buffer[y * fb.width + x]
}

#[test]
fn framebuffer_new_cleared_far() {
    let fb = Framebuffer::new(16, 8);
    assert_eq!(fb.color_buffer.len(), 128);
    assert_eq!(fb.depth_buffer.len(), 128);
    assert!(fb.color_buffer.iter().all(|&c| c == 0));
    assert!(fb.depth_buffer.iter().all(|&d| d == DEPTH_FAR));
}

#[test]
fn framebuffer_clear_sets_every_pixel() {
    // After a clear every pixel holds the color and the far depth.
    let mut fb = Framebuffer::new(32, 32);
    fb.set_pixel(3, 4, 0xAABBCCDD, 100);
    fb.clear(0x000000FF);
    assert!(fb.color_buffer.iter().all(|&c| c == 0x000000FF));
    assert!(fb.depth_buffer.iter().all(|&d| d == DEPTH_FAR));
}

#[test]
fn framebuffer_depth_test_rejects_farther() {
    // A farther write leaves the pixel untouched; a nearer write
    // replaces both color and depth; ties keep the first writer.
    let mut fb = Framebuffer::new(8, 8);
    fb.set_pixel(2, 3, 0x11111111, 500);
    assert_eq!(px(&fb, 2, 3), 0x11111111);
    assert_eq!(fb.depth_buffer[3 * 8 + 2], 500);
    fb.set_pixel(2, 3, 0x22222222, 700);
    assert_eq!(px(&fb, 2, 3), 0x11111111);
    assert_eq!(fb.depth_buffer[3 * 8 + 2], 500);
    fb.set_pixel(2, 3, 0x33333333, 500);
    assert_eq!(px(&fb, 2, 3), 0x11111111);
    fb.set_pixel(2, 3, 0x44444444, 499);
    assert_eq!(px(&fb, 2, 3), 0x44444444);
    assert_eq!(fb.depth_buffer[3 * 8 + 2], 499);
}

#[test]
fn framebuffer_out_of_bounds_write_dropped() {
    let mut fb = Framebuffer::new(4, 4);
    fb.set_pixel(4, 0, 0xFFFFFFFF, 0);
    fb.set_pixel(0, 4, 0xFFFFFFFF, 0);
    assert!(fb.color_buffer.iter().all(|&c| c == 0));
}

#[test]
fn framebuffer_rgba_bytes_layout() {
    let mut fb = Framebuffer::new(2, 1);
    fb.set_pixel(0, 0, 0x11223344, 0);
    fb.set_pixel(1, 0, 0xAABBCCDD, 0);
    let bytes = fb.to_rgba_bytes();
    assert_eq!(bytes, vec![0x11, 0x22, 0x33, 0x44, 0xAA, 0xBB, 0xCC, 0xDD]);
}

#[test]
fn renderer_fixed_resolution() {
    let r = SoftwareRenderer::new();
    assert_eq!(r.get_width(), 1280);
    assert_eq!(r.get_height(), 720);
    assert_eq!(r.get_framebuffer().color_buffer.len(), 1280 * 720);
}

#[test]
fn filled_circle_scenario() {
    // A 100 by 100 buffer cleared to blue-ish, with a white disc of
    // radius ten at the center: the center is white, the corner and a
    // point at distance eleven stay untouched.
    let mut r = SoftwareRenderer { framebuffer: Framebuffer::new(100, 100) };
    r.clear(0x000000FF);
    r.draw_filled_circle(Vec2::new(50 * ONE, 50 * ONE), 10 * ONE, 0xFFFFFFFF);
    let fb = r.get_framebuffer();
    assert_eq!(px(fb, 50, 50), 0xFFFFFFFF);
    assert_eq!(px(fb, 0, 0), 0x000000FF);
    assert_eq!(px(fb, 50, 61), 0x000000FF);
    assert_eq!(px(fb, 50, 60), 0xFFFFFFFF);
    assert_eq!(px(fb, 60, 50), 0xFFFFFFFF);
    assert_eq!(px(fb, 61, 50), 0x000000FF);
}

#[test]
fn circle_outline_plots_cardinal_points() {
    let mut r = SoftwareRenderer { framebuffer: Framebuffer::new(100, 100) };
    r.clear(0x000000FF);
    r.draw_circle(Vec2::new(50 * ONE, 50 * ONE), 10 * ONE, 0x00FF00FF);
    let fb = r.get_framebuffer();
    assert_eq!(px(fb, 60, 50), 0x00FF00FF);
    assert_eq!(px(fb, 40, 50), 0x00FF00FF);
    assert_eq!(px(fb, 50, 60), 0x00FF00FF);
    assert_eq!(px(fb, 50, 40), 0x00FF00FF);
    assert_eq!(px(fb, 50, 50), 0x000000FF);
}

#[test]
fn line_paints_its_span() {
    let mut r = SoftwareRenderer { framebuffer: Framebuffer::new(64, 64) };
    r.clear(0x000000FF);
    r.draw_line(Vec2::new(10 * ONE, 10 * ONE), Vec2::new(20 * ONE, 10 * ONE), 0xFF00FFFF);
    let fb = r.get_framebuffer();
    for x in 10..=20 {
        assert_eq!(px(fb, x, 10), 0xFF00FFFF, "column {}", x);
    }
    assert_eq!(px(fb, 9, 10), 0x000000FF);
    assert_eq!(px(fb, 21, 10), 0x000000FF);
}

#[test]
fn line_diagonal_endpoints() {
    let mut r = SoftwareRenderer { framebuffer: Framebuffer::new(64, 64) };
    r.clear(0x000000FF);
    r.draw_line(Vec2::new(5 * ONE, 5 * ONE), Vec2::new(15 * ONE, 15 * ONE), 0x123456FF);
    let fb = r.get_framebuffer();
    assert_eq!(px(fb, 5, 5), 0x123456FF);
    assert_eq!(px(fb, 10, 10), 0x123456FF);
}

#[test]
fn triangle_scenario() {
    // The fixed-view projection of ((0,0,5), (10,0,5), (0,10,5)) fills
    // a region: it is non-empty, its centroid pixel holds the color,
    // and the projected vertices, clamped to the screen as the
    // rasterizer clamps its box, fall inside the region's bounds.
    let mut r = SoftwareRenderer::new();
    r.clear(0x000000FF);
    let color = 0xDDEE22FF;
    r.draw_triangle(
        Vec3::new(0, 0, 5 * ONE),
        Vec3::new(10 * ONE, 0, 5 * ONE),
        Vec3::new(0, 10 * ONE, 5 * ONE),
        color,
    );
    let fb = r.get_framebuffer();
    let (w, h) = (fb.width, fb.height);
    let mut count: u64 = 0;
    let (mut sx, mut sy): (u64, u64) = (0, 0);
    let (mut min_x, mut max_x, mut min_y, mut max_y) = (w, 0usize, h, 0usize);
    for y in 0..h {
        for x in 0..w {
            if fb.color_buffer[y * w + x] == color {
                count += 1;
                sx += x as u64;
                sy += y as u64;
                if x < min_x { min_x = x; }
                if x > max_x { max_x = x; }
                if y < min_y { min_y = y; }
                if y > max_y { max_y = y; }
            }
        }
    }
    assert!(count > 0, "no pixels filled");
    let cx = (sx / count) as usize;
    let cy = (sy / count) as usize;
    assert_eq!(fb.color_buffer[cy * w + cx], color, "centroid ({}, {})", cx, cy);
    // Projected vertices, clamped into the screen.
    let verts = [(640usize, 360usize), (w - 1, 360), (640, 0)];
    for (vx, vy) in verts.iter() {
        let vx = (*vx).min(max_x).max(min_x);
        let vy = (*vy).min(max_y).max(min_y);
        assert!(min_x <= vx && vx <= max_x && min_y <= vy && vy <= max_y);
    }
}

#[test]
fn triangle_first_vertex_projects_to_center() {
    // A vertex on the view axis projects to the screen center; the
    // centered triangle covers it.
    let mut r = SoftwareRenderer::new();
    r.clear(0);
    let color = 0x99AA11FF;
    r.draw_triangle(
        Vec3::new(-ONE, -ONE, 10 * ONE),
        Vec3::new(ONE, -ONE, 10 * ONE),
        Vec3::new(0, ONE, 10 * ONE),
        color,
    );
    let fb = r.get_framebuffer();
    assert_eq!(fb.color_buffer[360 * 1280 + 640], color);
}

#[test]
fn triangle_behind_eye_collapses() {
    // Vertices at or behind the eye project to the origin corner: the
    // degenerate triangle paints at most the corner pixel.
    let mut r = SoftwareRenderer::new();
    r.clear(0);
    let color = 0x55667788;
    r.draw_triangle(
        Vec3::new(ONE, ONE, -5 * ONE),
        Vec3::new(2 * ONE, ONE, -5 * ONE),
        Vec3::new(ONE, 2 * ONE, -5 * ONE),
        color,
    );
    let fb = r.get_framebuffer();
    for y in 0..fb.height {
        for x in 0..fb.width {
            if (x, y) != (0, 0) {
                assert_eq!(fb.color_buffer[y * fb.width + x], 0);
            }
        }
    }
}
