use ndlm::buffer::Buffer;
use ndlm::color::Color;
use ndlm::draw::{draw_ellipse, draw_line, draw_rect};

fn painted(bytes: &[u8], w: usize, h: usize) -> Vec<(usize, usize)> {
    let mut r = Vec::new();
    for y in 0..h {
        for x in 0..w {
            let o = 4 * (x + w * y);
            if bytes[o..o + 4] != [0, 0, 0, 0] {
                r.push((x, y));
            }
        }
    }
    r
}

fn pixel(bytes: &[u8], w: usize, x: usize, y: usize) -> [u8; 4] {
    let o = 4 * (x + w * y);
    [bytes[o], bytes[o + 1], bytes[o + 2], bytes[o + 3]]
}

#[test]
fn diagonal_line_paints_exactly_the_diagonal() {
    let mut bytes = vec![0u8; 4 * 4 * 4];
    {
        let mut b = Buffer::new(&mut bytes, (4, 4));
        draw_line(&mut b, 0, 0, 3, 3, &Color::white());
    }
    assert_eq!(painted(&bytes, 4, 4), vec![(0, 0), (1, 1), (2, 2), (3, 3)]);
}

#[test]
fn line_includes_both_endpoints_in_every_direction() {
    let ends = [(0u32, 0u32, 6u32, 2u32), (6, 2, 0, 0), (1, 5, 4, 0), (4, 0, 1, 5), (3, 3, 3, 3), (0, 4, 6, 4), (2, 0, 2, 5)];
    for (x0, y0, x1, y1) in ends {
        let mut bytes = vec![0u8; 7 * 6 * 4];
        {
            let mut b = Buffer::new(&mut bytes, (7, 6));
            draw_line(&mut b, x0, y0, x1, y1, &Color::white());
        }
        let p = painted(&bytes, 7, 6);
        assert!(p.contains(&(x0 as usize, y0 as usize)));
        assert!(p.contains(&(x1 as usize, y1 as usize)));
        let steps = (x1 as i64 - x0 as i64).abs().max((y1 as i64 - y0 as i64).abs()) as usize;
        assert_eq!(p.len(), steps + 1);
    }
}

#[test]
fn line_leaving_the_buffer_is_clipped() {
    let mut bytes = vec![0u8; 3 * 3 * 4];
    {
        let mut b = Buffer::new(&mut bytes, (3, 3));
        draw_line(&mut b, 0, 1, 10, 1, &Color::white());
    }
    assert_eq!(painted(&bytes, 3, 3), vec![(0, 1), (1, 1), (2, 1)]);
}

#[test]
fn rect_fill_and_stroke() {
    let fill = Color::rgb(1, 1, 1);
    let stroke = Color::rgb(2, 2, 2);
    let mut bytes = vec![0u8; 6 * 6 * 4];
    {
        let mut b = Buffer::new(&mut bytes, (6, 6));
        draw_rect(&mut b, 1, 1, 4, 3, &fill, Some(&stroke));
    }
    for y in 0..6usize {
        for x in 0..6usize {
            let inside = (1..5).contains(&x) && (1..4).contains(&y);
            let border = inside && (x == 1 || x == 4 || y == 1 || y == 3);
            let expected = if border {
                stroke.argb_bytes()
            } else if inside {
                fill.argb_bytes()
            } else {
                [0, 0, 0, 0]
            };
            assert_eq!(pixel(&bytes, 6, x, y), expected, "at {x},{y}");
        }
    }
}

#[test]
fn rect_without_stroke_and_empty_rect() {
    let fill = Color::rgb(5, 5, 5);
    let mut bytes = vec![0u8; 4 * 4 * 4];
    {
        let mut b = Buffer::new(&mut bytes, (4, 4));
        draw_rect(&mut b, 2, 2, 5, 5, &fill, None);
        draw_rect(&mut b, 0, 0, 0, 3, &fill, Some(&fill));
    }
    assert_eq!(painted(&bytes, 4, 4), vec![(2, 2), (3, 2), (2, 3), (3, 3)]);
}

#[test]
fn ellipse_boundary_pixels_are_filled() {
    let mut bytes = vec![0u8; 5 * 5 * 4];
    {
        let mut b = Buffer::new(&mut bytes, (5, 5));
        draw_ellipse(&mut b, 0, 0, 4, 4, &Color::white(), None);
    }
    let p = painted(&bytes, 5, 5);
    assert!(p.contains(&(0, 2)));
    assert!(p.contains(&(4, 2)));
    assert!(p.contains(&(2, 0)));
    assert!(p.contains(&(2, 4)));
    assert!(!p.contains(&(0, 0)));
    assert!(!p.contains(&(4, 4)));
    // dx^2 * 4 + dy^2 * 4 <= 16: the 13 offsets with dx^2 + dy^2 <= 4
    assert_eq!(p.len(), 13);
}

#[test]
fn ellipse_is_symmetric_under_half_turn() {
    let mut bytes = vec![0u8; 9 * 9 * 4];
    {
        let mut b = Buffer::new(&mut bytes, (9, 9));
        draw_ellipse(&mut b, 1, 2, 6, 4, &Color::white(), Some(&Color::rgb(3, 3, 3)));
    }
    let (cx, cy) = (1 + 6 / 2, 2 + 4 / 2);
    for y in 0..9usize {
        for x in 0..9usize {
            let (rx, ry) = (2 * cx - x as i64, 2 * cy - y as i64);
            if (0..9).contains(&rx) && (0..9).contains(&ry) {
                assert_eq!(pixel(&bytes, 9, x, y), pixel(&bytes, 9, rx as usize, ry as usize));
            }
        }
    }
}

#[test]
fn ellipse_stroke_draws_extremal_rows_and_columns() {
    let stroke = Color::rgb(7, 7, 7);
    let mut bytes = vec![0u8; 5 * 5 * 4];
    {
        let mut b = Buffer::new(&mut bytes, (5, 5));
        draw_ellipse(&mut b, 0, 0, 4, 4, &Color::rgb(1, 1, 1), Some(&stroke));
    }
    for i in 0..5usize {
        assert_eq!(pixel(&bytes, 5, i, 0), stroke.argb_bytes());
        assert_eq!(pixel(&bytes, 5, i, 4), stroke.argb_bytes());
        assert_eq!(pixel(&bytes, 5, 0, i), stroke.argb_bytes());
        assert_eq!(pixel(&bytes, 5, 4, i), stroke.argb_bytes());
    }
    assert_eq!(pixel(&bytes, 5, 2, 2), Color::rgb(1, 1, 1).argb_bytes());
}

#[test]
fn ellipse_near_origin_skips_negative_positions() {
    let mut bytes = vec![0u8; 3 * 3 * 4];
    {
        let mut b = Buffer::new(&mut bytes, (3, 3));
        draw_ellipse(&mut b, 0, 0, 0, 0, &Color::white(), None);
    }
    assert_eq!(painted(&bytes, 3, 3), vec![(0, 0)]);
}
