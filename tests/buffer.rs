use ndlm::buffer::{BoundsError, Buffer};
use ndlm::color::Color;

fn red() -> Color {
    Color::rgb(255, 0, 0)
}

#[test]
fn put_writes_opacity_red_green_blue() {
    let mut bytes = vec![0u8; 4 * 4 * 4];
    {
        let mut b = Buffer::new(&mut bytes, (4, 4));
        assert_eq!(b.put((0, 0), &red()), Ok(()));
    }
    assert_eq!(&bytes[0..4], &[0xFF, 0xFF, 0x00, 0x00]);
    assert!(bytes[4..].iter().all(|&v| v == 0));
}

#[test]
fn put_addresses_rows_by_width() {
    let mut bytes = vec![0u8; 3 * 2 * 4];
    {
        let mut b = Buffer::new(&mut bytes, (3, 2));
        b.put((2, 1), &Color { red: 1, green: 2, blue: 3, opacity: 4 }).unwrap();
    }
    let o = 4 * (2 + 1 * 3);
    assert_eq!(&bytes[o..o + 4], &[4, 1, 2, 3]);
    assert_eq!(bytes.iter().filter(|&&v| v != 0).count(), 4);
}

#[test]
fn put_rejects_positions_outside_and_changes_nothing() {
    let mut bytes: Vec<u8> = (0..4 * 4 * 4).map(|i| i as u8).collect();
    let before = bytes.clone();
    {
        let mut b = Buffer::new(&mut bytes, (4, 4));
        assert_eq!(b.put((4, 0), &red()), Err(BoundsError));
        assert_eq!(b.put((0, 4), &red()), Err(BoundsError));
        assert_eq!(b.put((u32::MAX, u32::MAX), &red()), Err(BoundsError));
        assert_eq!(b.put((3, 3), &red()), Ok(()));
    }
    assert_eq!(&bytes[..60], &before[..60]);
}

#[test]
fn subregion_put_outside_extent_fails() {
    let mut bytes = vec![0u8; 4 * 4 * 4];
    {
        let b = Buffer::new(&mut bytes, (4, 4));
        let mut sub = b.with_subregion((1, 1, 2, 2)).unwrap();
        assert_eq!(sub.put((2, 2), &red()), Err(BoundsError));
        assert_eq!(sub.put((2, 0), &red()), Err(BoundsError));
        assert_eq!(sub.put((0, 2), &red()), Err(BoundsError));
    }
    assert!(bytes.iter().all(|&v| v == 0));
}

#[test]
fn subregion_put_matches_shifted_put() {
    let c = Color { red: 9, green: 8, blue: 7, opacity: 6 };
    for (px, py) in [(0u32, 0u32), (1, 0), (0, 1), (1, 1)] {
        let mut a = vec![0u8; 5 * 4 * 4];
        let mut b = vec![0u8; 5 * 4 * 4];
        {
            let sub = Buffer::new(&mut a, (5, 4)).with_subregion((2, 1, 2, 2)).unwrap();
            let mut sub = sub;
            sub.put((px, py), &c).unwrap();
            let mut full = Buffer::new(&mut b, (5, 4));
            full.put((px + 2, py + 1), &c).unwrap();
        }
        assert_eq!(a, b);
    }
}

#[test]
fn subregion_must_fit() {
    let mut bytes = vec![0u8; 4 * 4 * 4];
    let b = Buffer::new(&mut bytes, (4, 4));
    assert!(b.with_subregion((3, 0, 2, 1)).is_err());
    let mut bytes = vec![0u8; 4 * 4 * 4];
    let b = Buffer::new(&mut bytes, (4, 4));
    assert!(b.with_subregion((0, 0, 4, 4)).is_ok());
}

#[test]
fn memset_fills_region_only() {
    let mut bytes = vec![0u8; 3 * 3 * 4];
    {
        let b = Buffer::new(&mut bytes, (3, 3));
        let mut sub = b.with_subregion((1, 1, 2, 1)).unwrap();
        sub.memset(&red());
    }
    for y in 0..3usize {
        for x in 0..3usize {
            let o = 4 * (x + 3 * y);
            let expected: [u8; 4] = if y == 1 && x >= 1 { [0xFF, 0xFF, 0, 0] } else { [0, 0, 0, 0] };
            assert_eq!(&bytes[o..o + 4], &expected);
        }
    }
}

#[test]
fn memset_without_subregion_fills_all() {
    let mut bytes = vec![7u8; 2 * 2 * 4];
    {
        let mut b = Buffer::new(&mut bytes, (2, 2));
        b.memset(&Color { red: 1, green: 2, blue: 3, opacity: 4 });
    }
    assert_eq!(bytes, [4, 1, 2, 3].repeat(4));
}

#[test]
fn stride_steps_rows() {
    let mut bytes = vec![0u8; 12 * 2];
    {
        let mut b = Buffer::with_stride(&mut bytes, (2, 2), 12);
        b.memset(&red());
    }
    for row in 0..2usize {
        assert_eq!(&bytes[row * 12..row * 12 + 8], &[0xFF, 0xFF, 0, 0, 0xFF, 0xFF, 0, 0]);
        assert_eq!(&bytes[row * 12 + 8..row * 12 + 12], &[0, 0, 0, 0]);
    }
}

#[test]
fn empty_buffer_rejects_every_put() {
    let mut bytes: Vec<u8> = Vec::new();
    let mut b = Buffer::new(&mut bytes, (0, 0));
    assert_eq!(b.put((0, 0), &red()), Err(BoundsError));
    b.memset(&red());
    assert_eq!(b.as_bytes().len(), 0);
}
