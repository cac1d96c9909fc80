use chaosring::compositor::{
    compose, detect_width, fit, mask_outside_circle, normalize, overlay_ring, RingError,
};
use chaosring::pixel::PixelBuffer;

/// A synthetic centered ring: opaque white band where the squared distance
/// from the centre lies in `[(side/2 - t)^2, (side/2)^2)`, transparent
/// elsewhere.  Along the centre column this makes exactly `t` opaque pixels
/// in the top half.
fn make_band_ring(side: u32, t: u32) -> PixelBuffer {
    let mut ring = PixelBuffer::new(side);
    let r = (side / 2) as i64;
    let inner = r - t as i64;
    for y in 0..side {
        for x in 0..side {
            let dx = x as i64 - r;
            let dy = y as i64 - r;
            let d2 = dx * dx + dy * dy;
            if d2 >= inner * inner && d2 < r * r {
                ring.set_channel(x, y, 0, 255);
                ring.set_channel(x, y, 1, 255);
                ring.set_channel(x, y, 2, 255);
                ring.set_channel(x, y, 3, 255);
            }
        }
    }
    ring
}

/// A fully opaque buffer with a recognizable per-pixel pattern.
fn make_pattern(side: u32) -> PixelBuffer {
    let mut buf = PixelBuffer::new(side);
    for y in 0..side {
        for x in 0..side {
            buf.set_channel(x, y, 0, (x % 251) as u8);
            buf.set_channel(x, y, 1, (y % 251) as u8);
            buf.set_channel(x, y, 2, ((x + y) % 251) as u8);
            buf.set_channel(x, y, 3, 255);
        }
    }
    buf
}

#[test]
fn normalize_is_noop_on_equal_sides() {
    let ring = make_band_ring(50, 5);
    let before = ring.data.clone();
    let out = normalize(ring, 50);
    assert_eq!(out.side, 50);
    assert_eq!(out.data, before);
}

#[test]
fn normalize_is_noop_on_smaller_ring() {
    let ring = make_band_ring(40, 5);
    let before = ring.data.clone();
    let out = normalize(ring, 100);
    assert_eq!(out.side, 40);
    assert_eq!(out.data, before);
}

#[test]
fn normalize_downscales_larger_ring() {
    let ring = make_pattern(4);
    let out = normalize(ring, 2);
    assert_eq!(out.side, 2);
    assert_eq!(out.data.len(), 2 * 2 * 4);
    // the source was fully opaque, so nearest-neighbor sampling keeps alpha
    assert_eq!(out.get_channel(0, 0, 3), 255);
}

#[test]
fn detect_width_on_synthetic_band() {
    let ring = make_band_ring(100, 10);
    assert_eq!(detect_width(&ring), 10);
}

#[test]
fn detect_width_zero_on_transparent_ring() {
    let ring = PixelBuffer::new(64);
    assert_eq!(detect_width(&ring), 0);
}

#[test]
fn fit_produces_exact_opening_side() {
    let avatar = make_pattern(200);
    // a ring of side 100 with measured width 10 leaves an opening of 80
    let fitted = fit(avatar, 100 - 2 * 10);
    assert_eq!(fitted.side, 80);
    assert_eq!(fitted.data.len(), 80 * 80 * 4);
}

#[test]
fn compose_overlays_ring_pastes_avatar_and_clears_the_rest() {
    // ring: only pixel (0, 0) is opaque
    let mut ring = PixelBuffer::new(4);
    ring.set_channel(0, 0, 0, 9);
    ring.set_channel(0, 0, 1, 8);
    ring.set_channel(0, 0, 2, 7);
    ring.set_channel(0, 0, 3, 200);
    let fitted = make_pattern(2);
    let canvas = compose(&ring, &fitted, 1).unwrap();
    assert_eq!(canvas.side, 4);
    // ring pixel wins where the ring is opaque
    assert_eq!(canvas.get_channel(0, 0, 0), 9);
    assert_eq!(canvas.get_channel(0, 0, 1), 8);
    assert_eq!(canvas.get_channel(0, 0, 2), 7);
    assert_eq!(canvas.get_channel(0, 0, 3), 200);
    // avatar pixels show inside the opening rectangle [1, 3) x [1, 3)
    assert_eq!(canvas.get_channel(1, 1, 0), 0);
    assert_eq!(canvas.get_channel(2, 1, 0), 1);
    assert_eq!(canvas.get_channel(1, 2, 1), 1);
    assert_eq!(canvas.get_channel(2, 2, 3), 255);
    // everything else is fully transparent black
    for c in 0..4 {
        assert_eq!(canvas.get_channel(3, 3, c), 0);
        assert_eq!(canvas.get_channel(0, 3, c), 0);
        assert_eq!(canvas.get_channel(3, 0, c), 0);
    }
}

#[test]
fn compose_rejects_paste_that_does_not_fit() {
    let ring = PixelBuffer::new(4);
    let fitted = make_pattern(4);
    assert!(matches!(compose(&ring, &fitted, 1), Err(RingError::PasteOutOfBounds)));
}

#[test]
fn mask_is_idempotent() {
    let mut canvas = make_pattern(9);
    mask_outside_circle(&mut canvas);
    let once = canvas.data.clone();
    mask_outside_circle(&mut canvas);
    assert_eq!(canvas.data, once);
}

#[test]
fn mask_zeroes_alpha_outside_and_keeps_the_rest() {
    let mut canvas = make_pattern(9);
    mask_outside_circle(&mut canvas);
    // centre (4, 4), radius 4; the corner (0, 0) is at squared distance 32 > 16
    assert_eq!(canvas.get_channel(0, 0, 3), 0);
    // red, green, blue are untouched even outside the circle
    assert_eq!(canvas.get_channel(0, 0, 0), 0);
    assert_eq!(canvas.get_channel(0, 0, 1), 0);
    assert_eq!(canvas.get_channel(0, 0, 2), 0);
    assert_eq!(canvas.get_channel(8, 0, 0), 8);
    // the centre is inside and keeps its alpha
    assert_eq!(canvas.get_channel(4, 4, 3), 255);
    // a point on the axis at distance 4 is not strictly outside
    assert_eq!(canvas.get_channel(0, 4, 3), 255);
}

#[test]
fn pipeline_scenario_large_avatar() {
    // ring side 100 with band width 10, avatar side 200:
    // the normalized ring keeps side 100, the fitted avatar gets side 80,
    // the final canvas has side 100, and pixels at distance 51 from the
    // centre are fully transparent.
    let ring = make_band_ring(100, 10);
    assert_eq!(detect_width(&ring), 10);
    let avatar = make_pattern(200);
    let canvas = overlay_ring(avatar, ring).unwrap();
    assert_eq!(canvas.side, 100);
    assert_eq!(canvas.data.len(), 100 * 100 * 4);
    // (74, 95) is at squared distance 24^2 + 45^2 = 2601 = 51^2 from (50, 50)
    assert_eq!(canvas.get_channel(74, 95, 3), 0);
}

#[test]
fn pipeline_equal_sides_keeps_ring_side() {
    let ring = make_band_ring(50, 5);
    let avatar = make_pattern(50);
    let canvas = overlay_ring(avatar, ring).unwrap();
    assert_eq!(canvas.side, 50);
}

#[test]
fn pipeline_fails_on_ring_without_band() {
    // a fully transparent ring measures width 0, and fitting must fail
    let ring = PixelBuffer::new(50);
    let avatar = make_pattern(50);
    assert!(matches!(overlay_ring(avatar, ring), Err(RingError::DegenerateOpening)));
}

#[test]
fn pipeline_fails_on_ring_with_no_opening() {
    // a fully opaque ring measures width side / 2, closing the opening
    let ring = make_pattern(8);
    let avatar = make_pattern(8);
    assert!(matches!(overlay_ring(avatar, ring), Err(RingError::DegenerateOpening)));
}

#[test]
fn pipeline_is_deterministic() {
    let out1 = overlay_ring(make_pattern(64), make_band_ring(32, 4)).unwrap();
    let out2 = overlay_ring(make_pattern(64), make_band_ring(32, 4)).unwrap();
    assert_eq!(out1.side, out2.side);
    assert_eq!(out1.data, out2.data);
}

#[test]
fn from_raw_checks_the_length() {
    let good = PixelBuffer::from_raw(2, vec![1u8; 16]);
    assert!(good.is_some());
    let bad = PixelBuffer::from_raw(2, vec![1u8; 15]);
    assert!(bad.is_none());
    let zero = PixelBuffer::from_raw(0, Vec::new());
    assert!(zero.is_none());
}

#[test]
fn channels_read_back_what_was_written() {
    let mut buf = PixelBuffer::new(3);
    buf.set_channel(2, 1, 0, 11);
    buf.set_channel(2, 1, 3, 44);
    assert_eq!(buf.get_channel(2, 1, 0), 11);
    assert_eq!(buf.get_channel(2, 1, 3), 44);
    assert_eq!(buf.get_channel(1, 2, 0), 0);
    assert_eq!(buf.side(), 3);
}
