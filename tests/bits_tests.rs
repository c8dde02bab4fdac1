use tiny_img::jpg::common::{
    get_abs_bit_conut, get_bit_conut, get_lowest_n_bits, get_ones_complements, to_highest_pos, Bits,
};

#[test]
fn concat_puts_left_operand_first() {
    let a = Bits::new(3, 0b101);
    let b = Bits::new(2, 0b01);
    assert_eq!(a.concat(b), Bits::new(5, 0b10101));
    assert_eq!(b.concat(a), Bits::new(5, 0b01101));
}

#[test]
fn dump_takes_whole_bytes() {
    let mut b = Bits::new(20, 0b1010_1010_1111_0000_0101);
    let bytes = b.dump();
    assert_eq!(bytes, vec![0b1010_1010, 0b1111_0000]);
    assert_eq!(b, Bits::new(4, 0b0101));
}

#[test]
fn complete_pads_with_ones() {
    let b = Bits::new(3, 0b010);
    assert_eq!(b.complete(), (0b0101_1111, false));
    // Asking twice changes nothing.
    assert_eq!(b.complete(), b.complete());
    let empty = Bits::new(0, 0);
    assert!(empty.complete().1);
}

#[test]
fn bit_helpers() {
    assert_eq!(to_highest_pos(4, 0b1011), 0b1011 << 28);
    assert_eq!(to_highest_pos(0, 0xffff_ffff), 0);
    assert_eq!(get_lowest_n_bits(3, 0b1111_1110), 0b110);
    assert_eq!(get_lowest_n_bits(8, 0xab), 0xab);
    assert_eq!(get_lowest_n_bits(3, 0b1111111), 0b111);
    assert_eq!(get_lowest_n_bits(0, 0xff), 0);
    assert_eq!(get_lowest_n_bits(15, 0xab), 0xab);
    assert_eq!(get_bit_conut(5), 3);
    assert_eq!(get_bit_conut(-1), 32);
    assert_eq!(get_abs_bit_conut(-1024), 11);
    assert_eq!(get_abs_bit_conut(0), 0);
    assert_eq!(get_ones_complements(-3), -4);
    assert_eq!(get_ones_complements(3), 3);
}
