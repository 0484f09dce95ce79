use plato::layout::{pack_coordinates, unpack_coordinates};

#[test]
fn pack_then_unpack_gives_back_coordinates() {
    let p = pack_coordinates(0x1234, 0xABCD);
    assert_eq!(p, 0x0000_1234_0000_ABCD);
    assert_eq!(unpack_coordinates(p), (0x1234, 0xABCD));
}

#[test]
fn pack_extremes() {
    assert_eq!(pack_coordinates(0, 0), 0);
    assert_eq!(pack_coordinates(u32::MAX, u32::MAX), u64::MAX);
    assert_eq!(pack_coordinates(1, 0), 1u64 << 32);
    assert_eq!(unpack_coordinates(u64::MAX), (u32::MAX, u32::MAX));
    assert_eq!(unpack_coordinates(7), (0, 7));
}
