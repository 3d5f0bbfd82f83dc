use temp_reversi::utils::{
    rotate_mask_180, rotate_mask_270_ccw, rotate_mask_270_cw, rotate_mask_90_ccw,
    rotate_mask_90_cw,
};

#[test]
fn test_rotate_mask_90_cw() {
    assert_eq!(rotate_mask_90_cw(0x0000000000000080), 0x8000000000000000);
    assert_eq!(rotate_mask_90_cw(0xFF00000000000000), 0x0101010101010101);
    assert_eq!(rotate_mask_90_cw(0x1010101010101010), 0x000000FF00000000);
}

#[test]
fn test_rotate_mask_90_ccw() {
    assert_eq!(rotate_mask_90_ccw(0x0000000000000080), 0x0000000000000001);
    assert_eq!(rotate_mask_90_ccw(0xFF00000000000000), 0x8080808080808080);
    assert_eq!(rotate_mask_90_ccw(0x1010101010101010), 0x00000000FF000000);
}

#[test]
fn test_rotate_mask_180() {
    assert_eq!(rotate_mask_180(0x0000000000000080), 0x0100000000000000);
    assert_eq!(rotate_mask_180(0x00000000000000FF), 0xFF00000000000000);
    assert_eq!(rotate_mask_180(0x1010101010101010), 0x0808080808080808);
    assert_eq!(rotate_mask_180(0x8040201008040201), 0x8040201008040201);
}

#[test]
fn test_rotate_mask_270_cw() {
    assert_eq!(rotate_mask_270_cw(0x0000000000000080), 0x0000000000000001);
    assert_eq!(rotate_mask_270_cw(0xFF00000000000000), 0x8080808080808080);
    assert_eq!(rotate_mask_270_cw(0x1010101010101010), 0x00000000FF000000);
}

#[test]
fn test_rotate_mask_270_ccw() {
    assert_eq!(rotate_mask_270_ccw(0x0000000000000080), 0x8000000000000000);
    assert_eq!(rotate_mask_270_ccw(0xFF00000000000000), 0x0101010101010101);
    assert_eq!(rotate_mask_270_ccw(0x1010101010101010), 0x000000FF00000000);
}

#[test]
fn quarter_turns_undo_each_other() {
    for mask in [0u64, 1, 0x8040201008040201, 0x0123456789abcdef, u64::MAX, 0xf0f0] {
        assert_eq!(rotate_mask_90_ccw(rotate_mask_90_cw(mask)), mask);
        assert_eq!(rotate_mask_90_cw(rotate_mask_90_ccw(mask)), mask);
        let four = rotate_mask_90_cw(rotate_mask_90_cw(rotate_mask_90_cw(rotate_mask_90_cw(mask))));
        assert_eq!(four, mask);
        assert_eq!(rotate_mask_180(rotate_mask_180(mask)), mask);
        assert_eq!(rotate_mask_270_cw(mask), rotate_mask_90_ccw(mask));
        assert_eq!(rotate_mask_270_ccw(mask), rotate_mask_90_cw(mask));
        assert_eq!(rotate_mask_90_cw(mask).count_ones(), mask.count_ones());
    }
}
