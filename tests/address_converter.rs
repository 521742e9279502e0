use snes_compress::address_converter::{lorom_to_pc, pc_to_lorom};

#[test]
fn pc_to_lorom_works() {
    let result = pc_to_lorom(0x2156E8);
    assert_eq!(result, Ok(0xC2D6E8));
}

#[test]
fn pc_to_lorom_lowerbound() {
    let result = pc_to_lorom(0x000000);
    assert_eq!(result, Ok(0x808000));
}

#[test]
fn pc_to_lorom_upperbound() {
    let result = pc_to_lorom(0x3FFFFF);
    assert_eq!(result, Ok(0xFFFFFF));
}

#[test]
fn pc_to_lorom_out_of_bounds() {
    let result = pc_to_lorom(0x400000);
    assert_eq!(result, Err("pc out of bounds"));
}

#[test]
fn lorom_to_pc_works() {
    let result = lorom_to_pc(0xC2D6E8);
    assert_eq!(result, Ok(0x2156E8));
}

#[test]
fn lorom_to_pc_lowerbound() {
    let result = lorom_to_pc(0x808000);
    assert_eq!(result, Ok(0x000000));
}

#[test]
fn lorom_to_pc_upperbound() {
    let result = lorom_to_pc(0xFFFFFF);
    assert_eq!(result, Ok(0x3FFFFF));
}

#[test]
fn lorom_to_pc_out_of_bounds_lower() {
    let result = lorom_to_pc(0x7FFFFF);
    assert_eq!(result, Err("lorom out of bounds"));
}

#[test]
fn lorom_to_pc_out_of_bounds_upper() {
    let result = lorom_to_pc(0x1000000);
    assert_eq!(result, Err("lorom out of bounds"));
}

#[test]
fn pc_and_lorom_convert_back_and_forth() {
    for pc in [0u32, 0x7FFF, 0x8000, 0x123456, 0x3FFFFF] {
        let lorom = pc_to_lorom(pc).unwrap();
        assert_eq!(lorom_to_pc(lorom), Ok(pc));
    }
}
