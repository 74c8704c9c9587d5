use scene::fog::Fog;

#[test]
fn test_reveal() {
    let mut fog = Fog::new(43, 25);
    assert!(fog.occluded(10, 12));
    fog.reveal_tile(45, 30); // Off the map: changes nothing.
    assert!(fog.occluded(42, 24));
    fog.reveal_tile(42, 24);
    assert!(!fog.occluded(42, 24));
}

#[test]
fn test_occlude() {
    let mut fog = Fog::new(8, 8);
    assert!(fog.occluded(3, 3));
    fog.reveal_tile(3, 3);
    assert!(!fog.occluded(3, 3));
    fog.occlude(3, 3);
    assert!(fog.occluded(3, 3));
}

#[test]
fn test_resize() {
    let mut fog = Fog::new(5, 5);
    fog.reveal_tile(3, 3);
    assert!(!fog.occluded(3, 3));
    fog.resize(142, 123);
    assert!(!fog.occluded(3, 3));
    assert!(fog.occluded(123, 111));
    fog.reveal_tile(123, 111);
    assert!(!fog.occluded(123, 111));
}

#[test]
fn test_resize_recounts_revealed() {
    let mut fog = Fog::new(5, 5);
    fog.reveal_tile(3, 3);
    fog.reveal_tile(0, 0);
    assert_eq!(fog.n_revealed, 2);
    fog.resize(2, 2);
    assert_eq!(fog.n_revealed, 1);
    fog.resize(1, 1);
    assert_eq!(fog.n_revealed, 1);
    fog.occlude(0, 0);
    assert_eq!(fog.n_revealed, 0);
}

#[test]
fn test_reveal_counts_and_events() {
    let mut fog = Fog::new(40, 3);
    assert_eq!(fog.n_revealed, 0);
    assert!(fog.reveal_tile(33, 2).is_some());
    assert_eq!(fog.n_revealed, 1);
    // Revealing a clear tile again gives no event and counts nothing.
    assert!(fog.reveal_tile(33, 2).is_none());
    assert_eq!(fog.n_revealed, 1);
    assert!(fog.occlude(33, 2).is_some());
    assert_eq!(fog.n_revealed, 0);
    assert!(fog.occlude(33, 2).is_none());
}

#[test]
fn test_occlude_undoes_reveal() {
    let mut fog = Fog::new(10, 10);
    fog.reveal_tile(1, 1);
    let before = fog.fog.clone();
    fog.reveal_tile(7, 4);
    fog.occlude(7, 4);
    assert_eq!(fog.fog, before);
}

#[test]
fn test_fog_bytes_round_trip() {
    let mut fog = Fog::new(37, 4);
    fog.reveal_tile(0, 0);
    fog.reveal_tile(36, 3);
    fog.reveal_tile(12, 2);
    let bytes = fog.bytes();
    assert_eq!(bytes.len(), fog.fog.len() * 4);
    let back = Fog::from_bytes(37, 4, &bytes);
    assert_eq!(back.fog, fog.fog);
    assert_eq!(back.n_revealed, 3);
    assert!(!back.occluded(36, 3));
    assert!(back.occluded(35, 3));
}

#[test]
fn test_row_ints() {
    assert_eq!(Fog::row_ints(0), 0);
    assert_eq!(Fog::row_ints(1), 1);
    assert_eq!(Fog::row_ints(32), 1);
    assert_eq!(Fog::row_ints(33), 2);
}

#[test]
fn test_nearest_clear() {
    let mut fog = Fog::new(8, 8);
    // Inactive fog hides nothing.
    assert_eq!(fog.nearest_clear(2, 2), (2, 2));
    fog.set_active(true);
    fog.reveal_tile(5, 2);
    let (x, y) = fog.nearest_clear(2, 2);
    assert!(!fog.occluded(x, y));
    assert_eq!(fog.nearest_clear(5, 2), (5, 2));
}

#[test]
fn test_nearest_clear_is_nearest() {
    let mut fog = Fog::new(10, 10);
    fog.set_active(true);
    // Nothing clear: the start comes back.
    assert_eq!(fog.nearest_clear(4, 4), (4, 4));
    fog.reveal_tile(9, 9);
    fog.reveal_tile(6, 3);
    assert_eq!(fog.nearest_clear(4, 4), (6, 3));
    assert_eq!(fog.nearest_clear(8, 8), (9, 9));
    // From off the map too.
    assert_eq!(fog.nearest_clear(20, 20), (9, 9));
}

#[test]
fn test_rect_occluded() {
    let mut fog = Fog::new(8, 8);
    // Inactive fog occludes nothing.
    assert!(!fog.rect_occluded(0, 0, 4, 4));
    fog.set_active(true);
    assert!(fog.rect_occluded(0, 0, 4, 4));
    fog.reveal_tile(3, 3);
    assert!(!fog.rect_occluded(0, 0, 4, 4));
    assert!(fog.rect_occluded(0, 0, 3, 3));
}

#[test]
fn test_bytes_hold_one_bit_per_tile() {
    let mut fog = Fog::new(40, 2);
    fog.reveal_tile(0, 0);
    fog.reveal_tile(9, 0);
    fog.reveal_tile(35, 1);
    let b = fog.bytes();
    // Two words per row, four bytes each.
    assert_eq!(b.len(), 16);
    let bit = |x: usize, y: usize| {
        let word = 2 * y + x / 32;
        (b[4 * word + 3 - (x % 32) / 8] >> (x % 8)) & 1 == 1
    };
    for y in 0..2u32 {
        for x in 0..40u32 {
            assert_eq!(bit(x as usize, y as usize), !fog.occluded(x, y));
        }
    }
    let back = Fog::from_bytes(40, 2, &b);
    assert_eq!(back.n_revealed, fog.n_revealed);
    assert_eq!(back.fog, fog.fog);
}

#[test]
fn test_resize_drops_tiles_past_the_edge() {
    let mut fog = Fog::new(40, 1);
    fog.reveal_tile(20, 0);
    assert_eq!(fog.n_revealed, 1);
    fog.resize(10, 1);
    assert_eq!(fog.n_revealed, 0);
    // Growing back shows the tile hidden.
    fog.resize(40, 1);
    assert!(fog.occluded(20, 0));
    assert_eq!(fog.n_revealed, 0);
}
