use hostinfo::units::{
    bps_to_eibps, bps_to_gibps, bps_to_kibps, bps_to_mibps, bps_to_pibps, bps_to_tibps,
    eibps_to_bps, gibps_to_bps, kibps_to_bps, mibps_to_bps, pibps_to_bps, tibps_to_bps, GIB, KIB,
    MIB,
};

#[test]
fn binary_bitrate_divisions_round_down() {
    assert_eq!(bps_to_kibps(2048), 2);
    assert_eq!(bps_to_kibps(2047), 1);
    assert_eq!(bps_to_kibps(1023), 0);
    assert_eq!(bps_to_mibps(3 * 1024 * 1024), 3);
    assert_eq!(bps_to_gibps(1024 * 1024 * 1024), 1);
    assert_eq!(bps_to_tibps(1 << 41), 2);
    assert_eq!(bps_to_pibps(1 << 50), 1);
    assert_eq!(bps_to_eibps(1 << 60), 1);
}

#[test]
fn binary_bitrate_multiplications_are_exact() {
    assert_eq!(kibps_to_bps(3), 3 * 1024);
    assert_eq!(mibps_to_bps(2), 2 * 1024 * 1024);
    assert_eq!(gibps_to_bps(5), 5u64 << 30);
    assert_eq!(tibps_to_bps(1), 1u64 << 40);
    assert_eq!(pibps_to_bps(1), 1u64 << 50);
    assert_eq!(eibps_to_bps(1), 1u64 << 60);
}

#[test]
fn round_trip_through_bits_per_second() {
    assert_eq!(bps_to_kibps(kibps_to_bps(123)), 123);
    assert_eq!(bps_to_mibps(mibps_to_bps(7)), 7);
}

#[test]
fn unit_constants_are_binary_powers() {
    assert_eq!(KIB, 1024);
    assert_eq!(MIB, 1024 * 1024);
    assert_eq!(GIB, 1024 * 1024 * 1024);
}
