use elevator_arm::{CollisionGrid, DecodeError, FloatBounds, HEADER_LEN, is_free_in};

fn sample_bounds() -> FloatBounds {
    FloatBounds {
        min_x: (-39.37f32).to_bits(),
        max_x: 39.37f32.to_bits(),
        min_y: (-53.02f32).to_bits(),
        max_y: 71.12f32.to_bits(),
        step_size: 2.0f32.to_bits(),
    }
}

fn sample_grid() -> CollisionGrid {
    // 3 wide, 2 high: row 0 = [free, obstructed, free], row 1 = [obstructed, free, obstructed]
    CollisionGrid::new(3, 2, sample_bounds(), vec![false, true, false, true, false, true])
}

#[test]
fn encode_layout_is_fixed() {
    let bytes = sample_grid().encode();
    assert_eq!(bytes.len(), HEADER_LEN + 6);
    assert_eq!(&bytes[0..4], &3u32.to_le_bytes());
    assert_eq!(&bytes[4..8], &2u32.to_le_bytes());
    assert_eq!(&bytes[8..12], &(-39.37f32).to_le_bytes());
    assert_eq!(&bytes[12..16], &39.37f32.to_le_bytes());
    assert_eq!(&bytes[16..20], &(-53.02f32).to_le_bytes());
    assert_eq!(&bytes[20..24], &71.12f32.to_le_bytes());
    assert_eq!(&bytes[24..28], &2.0f32.to_le_bytes());
    assert_eq!(&bytes[28..], &[0u8, 1, 0, 1, 0, 1]);
}

#[test]
fn decode_of_encode_gives_back_the_grid() {
    let g = sample_grid();
    let back = CollisionGrid::decode(&g.encode()).unwrap();
    assert_eq!(back.width, g.width);
    assert_eq!(back.height, g.height);
    assert_eq!(back.bounds, g.bounds);
    assert_eq!(back.grid, g.grid);
    assert_eq!(f32::from_bits(back.bounds.min_x), -39.37f32);
    assert_eq!(f32::from_bits(back.bounds.step_size), 2.0f32);
}

#[test]
fn round_trip_keeps_unusual_float_bits() {
    let bounds = FloatBounds {
        min_x: f32::NAN.to_bits() | 1,
        max_x: (-0.0f32).to_bits(),
        min_y: f32::INFINITY.to_bits(),
        max_y: u32::MAX,
        step_size: 0,
    };
    let g = CollisionGrid::new(1, 1, bounds, vec![true]);
    let back = CollisionGrid::decode(&g.encode()).unwrap();
    assert_eq!(back.bounds, bounds);
    assert_eq!(back.grid, vec![true]);
}

#[test]
fn round_trip_of_empty_grid() {
    let g = CollisionGrid::new(0, 5, sample_bounds(), Vec::new());
    let bytes = g.encode();
    assert_eq!(bytes.len(), HEADER_LEN);
    let back = CollisionGrid::decode(&bytes).unwrap();
    assert_eq!(back.width, 0);
    assert_eq!(back.height, 5);
    assert!(back.grid.is_empty());
}

#[test]
fn decode_declared_two_by_two_with_three_cells_is_truncated() {
    let mut bytes = Vec::new();
    bytes.extend_from_slice(&2u32.to_le_bytes());
    bytes.extend_from_slice(&2u32.to_le_bytes());
    for v in [-1.0f32, 1.0, -1.0, 1.0, 1.0] {
        bytes.extend_from_slice(&v.to_le_bytes());
    }
    bytes.extend_from_slice(&[0, 1, 0]);
    assert_eq!(CollisionGrid::decode(&bytes).unwrap_err(), DecodeError::Truncated);
    bytes.push(1);
    let g = CollisionGrid::decode(&bytes).unwrap();
    assert_eq!(g.grid, vec![false, true, false, true]);
}

#[test]
fn decode_short_header_is_truncated() {
    assert_eq!(CollisionGrid::decode(&[]).unwrap_err(), DecodeError::Truncated);
    let bytes = [0u8; HEADER_LEN - 1];
    assert_eq!(CollisionGrid::decode(&bytes).unwrap_err(), DecodeError::Truncated);
}

#[test]
fn decode_huge_declared_size_is_truncated() {
    let mut bytes = Vec::new();
    bytes.extend_from_slice(&u32::MAX.to_le_bytes());
    bytes.extend_from_slice(&u32::MAX.to_le_bytes());
    bytes.extend_from_slice(&[0u8; 20]);
    bytes.extend_from_slice(&[1u8; 16]);
    assert_eq!(CollisionGrid::decode(&bytes).unwrap_err(), DecodeError::Truncated);
}

#[test]
fn decode_ignores_trailing_bytes_and_reads_nonzero_as_obstructed() {
    let mut bytes = CollisionGrid::new(2, 1, sample_bounds(), vec![false, false]).encode();
    bytes[HEADER_LEN + 1] = 7;
    bytes.extend_from_slice(&[9, 9, 9]);
    let g = CollisionGrid::decode(&bytes).unwrap();
    assert_eq!(g.grid, vec![false, true]);
}

#[test]
fn is_free_reads_row_major_cells() {
    let g = sample_grid();
    assert!(g.is_free(0, 0));
    assert!(!g.is_free(1, 0));
    assert!(g.is_free(2, 0));
    assert!(!g.is_free(0, 1));
    assert!(g.is_free(1, 1));
    assert!(!g.is_free(2, 1));
    assert!(g.is_obstructed(2, 1));
    assert!(!g.is_obstructed(1, 1));
}

#[test]
fn is_free_refuses_indices_outside_the_grid() {
    let all_free = CollisionGrid::new(3, 2, sample_bounds(), vec![false; 6]);
    for (x, y) in [(-1, 0), (0, -1), (3, 0), (0, 2), (3, 2), (i64::MIN, 0), (0, i64::MAX)] {
        assert!(!all_free.is_free(x, y));
    }
    assert!(all_free.is_free(2, 1));
}

#[test]
fn without_a_grid_nothing_is_free() {
    let g = CollisionGrid::new(1, 1, sample_bounds(), vec![false]);
    assert!(is_free_in(Some(&g), 0, 0));
    assert!(!is_free_in(None, 0, 0));
}
