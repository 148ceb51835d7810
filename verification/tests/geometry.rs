use moba::stream::{be_bytes_to_u32, encode_frame, parse_frame, u32_to_be_bytes};
use moba::vector::{clamp_coord, mul_div_trunc, sqrt_ceil, Point, Vector, MAX_COORD};

#[test]
fn square_roots_round_up() {
    assert_eq!(sqrt_ceil(0), 0);
    assert_eq!(sqrt_ceil(1), 1);
    assert_eq!(sqrt_ceil(2), 2);
    assert_eq!(sqrt_ceil(4), 2);
    assert_eq!(sqrt_ceil(9), 3);
    assert_eq!(sqrt_ceil(10), 4);
    assert_eq!(sqrt_ceil(1_000_000_000_000_000_000), 1_000_000_000);
    assert_eq!(sqrt_ceil(1_000_000_000_000_000_001), 1_000_000_001);
}

#[test]
fn scaled_division_truncates_toward_zero() {
    assert_eq!(mul_div_trunc(7, 3, 2), 10);
    assert_eq!(mul_div_trunc(-7, 3, 2), -10);
    assert_eq!(mul_div_trunc(7, -3, 2), -10);
    assert_eq!(mul_div_trunc(-7, -3, 2), 10);
    assert_eq!(mul_div_trunc(0, 5, 7), 0);
}

#[test]
fn coordinates_clamp_to_world_range() {
    assert_eq!(clamp_coord(MAX_COORD + 5), MAX_COORD);
    assert_eq!(clamp_coord(-MAX_COORD - 5), -MAX_COORD);
    assert_eq!(clamp_coord(42), 42);
}

#[test]
fn distances_are_exact_on_pythagorean_triples() {
    let a = Point { x: 0, y: 0 };
    let b = Point { x: 300, y: 400 };
    assert_eq!(a.distance_to(b), 500);
    assert_eq!(b.distance_to(a), 500);
    assert_eq!(a.distance_to(a), 0);
}

#[test]
fn vector_norms() {
    let v = Vector { x: 3, y: 4 };
    assert_eq!(v.norm_sq(), 25);
    assert_eq!(v.norm(), 5);
    // a non-square magnitude rounds up
    let w = Vector { x: 1, y: 1 };
    assert_eq!(w.norm(), 2);
}

#[test]
fn header_bytes_are_big_endian() {
    assert_eq!(u32_to_be_bytes(0x01020304), vec![1, 2, 3, 4]);
    assert_eq!(u32_to_be_bytes(5), vec![0, 0, 0, 5]);
    assert_eq!(be_bytes_to_u32(1, 2, 3, 4), 0x01020304);
    assert_eq!(be_bytes_to_u32(0xff, 0xff, 0xff, 0xff), u32::MAX);
}

#[test]
fn frames_carry_their_length() {
    let payload: Vec<u8> = vec![10, 20, 30, 40, 50];
    let frame = encode_frame(&payload).unwrap();
    assert_eq!(frame, vec![0, 0, 0, 5, 10, 20, 30, 40, 50]);
}

#[test]
fn framing_round_trips_with_trailing_bytes() {
    let payload: Vec<u8> = vec![7, 8, 9];
    let mut buf = encode_frame(&payload).unwrap();
    buf.push(99);
    buf.push(98);
    let (got, consumed) = parse_frame(&buf).unwrap();
    assert_eq!(got, payload);
    assert_eq!(consumed, 7);
}

#[test]
fn partial_frames_are_not_parsed() {
    // too short for even the header
    assert!(parse_frame(&vec![0, 0, 0]).is_none());
    // header promises more bytes than are buffered
    assert!(parse_frame(&vec![0, 0, 0, 4, 1, 2]).is_none());
    // an empty payload is a complete frame
    let (got, consumed) = parse_frame(&vec![0, 0, 0, 0]).unwrap();
    assert_eq!(got, Vec::<u8>::new());
    assert_eq!(consumed, 4);
}
