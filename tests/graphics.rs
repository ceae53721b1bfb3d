use ndlm::buffer::Buffer;
use ndlm::graphics::{FramebufferBackend, GraphicsBackend};

fn painted(bytes: &[u8], w: usize, h: usize) -> Vec<(usize, usize)> {
    let mut r = Vec::new();
    for y in 0..h {
        for x in 0..w {
            let o = 4 * (x + w * y);
            if bytes[o..o + 4] != [0, 0, 0, 0] {
                r.push((x, y));
            }
        }
    }
    r
}

#[test]
fn midpoint_circle_of_radius_two() {
    let mut bytes = vec![0u8; 7 * 7 * 4];
    {
        let mut g = FramebufferBackend::new(Buffer::new(&mut bytes, (7, 7)));
        g.draw_circle(3, 3, 2, 0xFFFF_FFFF);
    }
    let mut expected = vec![
        (5, 3), (3, 5), (1, 3), (3, 1),
        (5, 4), (4, 5), (2, 5), (1, 4), (1, 2), (2, 1), (4, 1), (5, 2),
    ];
    expected.sort_by_key(|&(x, y)| (y, x));
    assert_eq!(painted(&bytes, 7, 7), expected);
}

#[test]
fn circle_clipped_at_the_edge_and_negative_radius() {
    let mut bytes = vec![0u8; 3 * 3 * 4];
    {
        let mut g = FramebufferBackend::new(Buffer::new(&mut bytes, (3, 3)));
        g.draw_circle(0, 0, -1, 0xFFFF_FFFF);
        g.draw_circle(0, 0, 1, 0xFFFF_FFFF);
    }
    assert_eq!(painted(&bytes, 3, 3), vec![(1, 0), (0, 1), (1, 1)]);
}

#[test]
fn rect_fills_half_open_box() {
    let mut bytes = vec![0u8; 4 * 4 * 4];
    {
        let mut g = FramebufferBackend::new(Buffer::new(&mut bytes, (4, 4)));
        g.draw_rect(0, 0, 2, 2, 0xFF00_00FF);
    }
    assert_eq!(painted(&bytes, 4, 4), vec![(0, 0), (1, 0), (0, 1), (1, 1)]);
    assert_eq!(&bytes[4 * 5..4 * 5 + 4], &[0xFF, 0, 0, 0xFF]);
}

#[test]
fn rect_of_one_pixel_and_empty_rects() {
    let mut bytes = vec![0u8; 4 * 4 * 4];
    {
        let mut g = FramebufferBackend::new(Buffer::new(&mut bytes, (4, 4)));
        g.draw_rect(2, 3, 3, 4, 0xFFFF_FFFF);
        g.draw_rect(1, 1, 1, 3, 0xFFFF_FFFF);
        g.draw_rect(3, 1, 0, 2, 0xFFFF_FFFF);
        g.draw_rect(-5, -5, 1, 1, 0xFFFF_FFFF);
    }
    assert_eq!(painted(&bytes, 4, 4), vec![(0, 0), (2, 3)]);
}

#[test]
fn pixel_line_clear_and_size() {
    let mut bytes = vec![0u8; 4 * 3 * 4];
    {
        let mut g = FramebufferBackend::new(Buffer::new(&mut bytes, (4, 3)));
        assert_eq!(g.get_screen_size(), (4, 3));
        g.clear(0x0102_0304);
    }
    assert_eq!(bytes, [1, 2, 3, 4].repeat(12));
    let mut bytes = vec![0u8; 4 * 3 * 4];
    {
        let mut g = FramebufferBackend::new(Buffer::new(&mut bytes, (4, 3)));
        g.draw_pixel(-1, 0, 0xFFFF_FFFF);
        g.draw_pixel(3, 2, 0xFFFF_FFFF);
        g.draw_line(-2, 1, 5, 1, 0xFFFF_FFFF);
    }
    assert_eq!(painted(&bytes, 4, 3), vec![(0, 1), (1, 1), (2, 1), (3, 1), (3, 2)]);
}
