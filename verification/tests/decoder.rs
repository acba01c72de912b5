use toydump::disassemble::aarch64_disassembler::{
    classify_aarch64_instruction, decode_section, DecodedLine, EncodingGroup,
    decode_aarch64_data_processing_immediate, decode_aarch64_data_processing_immediate_add_sub,
    decode_aarch64_data_processing_immediate_pc_rel_addressing,
    decode_aarch64_data_processing_one_source, decode_aarch64_data_processing_register,
    decode_aarch64_instruction, decode_aarch64_load_store,
    decode_aarch64_load_store_register_unsigned_immediate, format_instruction_rd_imm,
    format_instruction_rd_rn_imm, format_instruction_rd_rn_imm_offset, format_register,
    print_aarch64_disassembly,
};
use toydump::text::{
    decimal_string, push_hex, push_hex_at_least, push_left_aligned, push_repeated,
    push_right_aligned, push_spaces,
};

fn decode(word: u32) -> String {
    decode_aarch64_instruction(&word.to_le_bytes())
}

#[test]
fn register_31_is_the_stack_pointer() {
    assert_eq!(format_register(true, 31), "sp");
    assert_eq!(format_register(false, 31), "sp");
}

#[test]
fn numbered_registers() {
    assert_eq!(format_register(true, 0), "w0");
    assert_eq!(format_register(false, 0), "x0");
    assert_eq!(format_register(true, 9), "w9");
    assert_eq!(format_register(false, 10), "x10");
    assert_eq!(format_register(false, 30), "x30");
    assert_eq!(format_register(true, 32), "w32");
}

#[test]
fn operand_layouts() {
    assert_eq!(format_instruction_rd_imm("adr", false, 3, 4096), "adr x3, #4096");
    assert_eq!(format_instruction_rd_rn_imm("add", true, 1, 31, 0), "add w1, sp, #0");
    assert_eq!(format_instruction_rd_rn_imm_offset("ldr", false, 31, 2, 16), "ldr sp, [x2, #16]");
    assert_eq!(format_instruction_rd_imm("", false, 0, u32::MAX), " x0, #4294967295");
}

#[test]
fn decimal_numerals() {
    assert_eq!(decimal_string(0), "0");
    assert_eq!(decimal_string(9), "9");
    assert_eq!(decimal_string(10), "10");
    assert_eq!(decimal_string(4095), "4095");
    assert_eq!(decimal_string(u64::MAX), "18446744073709551615");
}

#[test]
fn hexadecimal_digits_are_upper_case_and_zero_padded() {
    let mut s = String::from("0x");
    push_hex(&mut s, 0xAB, 8);
    assert_eq!(s, "0x000000AB");
    let mut t = String::new();
    push_hex(&mut t, 0x1234_5678_9ABC_DEF0, 4);
    assert_eq!(t, "DEF0");
    let mut u = String::new();
    push_hex(&mut u, 0xFF, 0);
    assert_eq!(u, "");
}

#[test]
fn columns_are_padded_with_blanks() {
    let mut s = String::new();
    push_left_aligned(&mut s, "7", 5);
    s.push('|');
    push_right_aligned(&mut s, "7", 3);
    s.push('|');
    push_left_aligned(&mut s, "123456", 5);
    s.push('|');
    push_right_aligned(&mut s, "sp", 2);
    assert_eq!(s, "7    |  7|123456|sp");
}

#[test]
fn top_bits_clear_is_reserved() {
    assert_eq!(decode(0x0000_0000), "reserved");
    assert_eq!(decode(0x01FF_FFFF), "reserved");
    assert_eq!(decode(0x6000_0000), "reserved");
    assert_eq!(decode(0x0000_0000), decode(0x0000_0000));
}

#[test]
fn top_level_groups() {
    assert_eq!(decode(0x8000_0000), "sme");
    assert_eq!(decode(0x0400_0000), "sve");
    assert_eq!(decode(0x0200_0000), "unallocated");
    assert_eq!(decode(0x0600_0000), "unallocated");
    assert_eq!(decode(0x1E00_0000), "instruction");
    assert_eq!(decode(0x1400_0000), "instruction");
    assert_eq!(decode(0xD65F_03C0), "instruction");
    assert_eq!(decode(0xFFFF_FFFF), "instruction");
}

#[test]
fn add_and_sub_immediate() {
    assert_eq!(decode(0x9100_1020), "add x0, x1, #4");
    assert_eq!(decode(0x3100_1441), "adds w1, w2, #5");
    assert_eq!(decode(0xD100_83FF), "sub sp, sp, #32");
    assert_eq!(decode(0xF100_1C5F), "subs sp, x2, #7");
    assert_eq!(decode(0x7100_043F), "subs sp, w1, #1");
    assert_eq!(decode_aarch64_data_processing_immediate_add_sub(0x9100_1020), "add x0, x1, #4");
}

#[test]
fn add_immediate_with_stack_pointer_operands() {
    assert_eq!(decode(0x9100_43FF), "add sp, sp, #16");
    assert_eq!(decode(0x9100_03E0), "add x0, sp, #0");
    assert_eq!(decode(0x913F_FC1F), "add sp, x0, #4095");
}

#[test]
fn pc_relative_addressing() {
    assert_eq!(decode(0x1000_0001), "adr x1, #0");
    assert_eq!(decode(0x7000_001F), "adr sp, #3");
    assert_eq!(decode(0x1000_000F), "adr x15, #0");
    assert_eq!(decode(0x9000_0021), "adrp x1, #4");
    assert_eq!(decode(0xB0FF_FFEF), "adrp x15, #2097149");
    assert_eq!(
        decode_aarch64_data_processing_immediate_pc_rel_addressing(0x9000_0021),
        "adrp x1, #4"
    );
}

#[test]
fn pc_relative_destination_uses_all_five_bits() {
    assert_eq!(decode(0x1000_0010), "adr x16, #0");
    assert_eq!(decode(0x1000_001E), "adr x30, #0");
    assert_eq!(decode(0x1000_001F), "adr sp, #0");
    assert_eq!(decode(0x9000_003F), "adrp sp, #4");
    assert_eq!(
        decode_aarch64_data_processing_immediate_pc_rel_addressing(0x1000_001F),
        "adr sp, #0"
    );
}

#[test]
fn one_source_forms() {
    assert_eq!(decode(0xF380_001F), "autiasppc sp, #0");
    assert_eq!(decode(0xF382_469F), "autiasppc sp, #4660");
    assert_eq!(decode(0xF3A0_001F), "autibsppc sp, #0");
    assert_eq!(decode(0xF3C0_0005), "unknown x5, #0");
    assert_eq!(decode(0xF3C0_0002), "unallocated x2, #0");
    assert_eq!(decode_aarch64_data_processing_one_source(0x73C0_001F), "unallocated sp, #0");
}

#[test]
fn data_processing_immediate_without_a_decoded_form() {
    assert_eq!(decode(0x1200_0000), "data_processing_immediate");
    assert_eq!(decode(0x93C0_0000), "data_processing_immediate");
    assert_eq!(decode_aarch64_data_processing_immediate(0x1200_0000), "data_processing_immediate");
}

#[test]
fn data_processing_register_forms() {
    assert_eq!(decode(0x0B20_0000), "data_processing_register_extended_add_sub");
    assert_eq!(decode(0x1B00_0000), "data_processing_register_three_source");
    assert_eq!(decode(0x0A00_0000), "data_processing_register");
    assert_eq!(decode_aarch64_data_processing_register(0x0A00_0000), "data_processing_register");
}

#[test]
fn load_store_forms() {
    assert_eq!(decode(0x1800_0000), "load_store_load_register_literal");
    assert_eq!(decode(0x5800_0001), "load_store_load_register_literal");
    assert_eq!(decode(0x0800_0000), "load_store");
    assert_eq!(decode(0xA900_0000), "load_store");
    assert_eq!(decode(0x3D40_0420), "vectorized_load_store_register_unsigned_immediate");
    assert_eq!(decode_aarch64_load_store(0x0800_0000), "load_store");
}

#[test]
fn unsigned_immediate_is_scaled_by_the_access_size() {
    assert_eq!(decode(0x3940_0420), "ldr w0, [w1, #1]");
    assert_eq!(decode(0x7940_0420), "ldr w0, [w1, #2]");
    assert_eq!(decode(0xB940_0420), "ldr w0, [w1, #4]");
    assert_eq!(decode(0xF940_0420), "ldr x0, [x1, #8]");
    assert_eq!(decode(0x397F_FC20), "ldr w0, [w1, #4095]");
    assert_eq!(decode(0x797F_FC20), "ldr w0, [w1, #8190]");
    assert_eq!(decode(0xB97F_FC20), "ldr w0, [w1, #16380]");
    assert_eq!(decode(0xF97F_FFFF), "ldr sp, [sp, #32760]");
}

#[test]
fn loads_and_stores() {
    assert_eq!(decode(0xB900_07E2), "str w2, [sp, #4]");
    assert_eq!(decode(0x3900_001F), "str sp, [w0, #0]");
    assert_eq!(decode(0xF980_0420), "unknown x0, [x1, #8]");
    assert_eq!(
        decode_aarch64_load_store_register_unsigned_immediate(0xF940_0420),
        "ldr x0, [x1, #8]"
    );
}

#[test]
fn listing_of_no_code() {
    let mut out = String::from("before");
    print_aarch64_disassembly(&[], &mut out);
    assert_eq!(out, "before\n");
}

#[test]
fn listing_numbers_the_lines_from_zero() {
    let mut code = Vec::new();
    code.extend_from_slice(&0x9100_1020u32.to_le_bytes());
    code.extend_from_slice(&0xF940_0420u32.to_le_bytes());
    code.extend_from_slice(&0u32.to_le_bytes());
    let mut out = String::new();
    print_aarch64_disassembly(&code, &mut out);
    assert_eq!(
        out,
        "0              0x91001020          add x0, x1, #4\n\
         1              0xF9400420          ldr x0, [x1, #8]\n\
         2              0x00000000          reserved\n\n"
    );
}

#[test]
fn listing_drops_a_trailing_partial_word() {
    let mut code = Vec::new();
    code.extend_from_slice(&0x0000_00ABu32.to_le_bytes());
    code.extend_from_slice(&[0x20, 0x10, 0x00]);
    let mut out = String::new();
    print_aarch64_disassembly(&code, &mut out);
    assert_eq!(out, "0              0x000000AB          reserved\n\n");
    let mut short = String::new();
    print_aarch64_disassembly(&[0x20, 0x10, 0x00], &mut short);
    assert_eq!(short, "\n");
}

#[test]
fn listing_index_wider_than_its_column() {
    let code = vec![0u8; 4 * 100_001];
    let mut out = String::new();
    print_aarch64_disassembly(&code, &mut out);
    assert!(out.ends_with("100000          0x00000000          reserved\n\n"));
    assert!(out.contains("\n99999          0x00000000          reserved\n"));
    assert_eq!(out.lines().count(), 100_002);
}

#[test]
fn words_are_sorted_into_groups() {
    assert_eq!(classify_aarch64_instruction(0x0000_0000), EncodingGroup::Reserved);
    assert_eq!(classify_aarch64_instruction(0x01FF_FFFF), EncodingGroup::Reserved);
    assert_eq!(classify_aarch64_instruction(0x8000_0000), EncodingGroup::Sme);
    assert_eq!(classify_aarch64_instruction(0x0400_0000), EncodingGroup::Sve);
    assert_eq!(classify_aarch64_instruction(0x8400_0000), EncodingGroup::Sve);
    assert_eq!(classify_aarch64_instruction(0x0200_0000), EncodingGroup::Unallocated);
    assert_eq!(classify_aarch64_instruction(0x0600_0000), EncodingGroup::Unallocated);
    assert_eq!(classify_aarch64_instruction(0x9100_1020), EncodingGroup::DataProcessingImmediate);
    assert_eq!(classify_aarch64_instruction(0x1200_0000), EncodingGroup::DataProcessingImmediate);
    assert_eq!(classify_aarch64_instruction(0x0A00_0000), EncodingGroup::DataProcessingRegister);
    assert_eq!(classify_aarch64_instruction(0x1A00_0000), EncodingGroup::DataProcessingRegister);
    assert_eq!(classify_aarch64_instruction(0xF940_0420), EncodingGroup::LoadStore);
    assert_eq!(classify_aarch64_instruction(0x0800_0000), EncodingGroup::LoadStore);
    assert_eq!(classify_aarch64_instruction(0x1400_0000), EncodingGroup::Unimplemented);
    assert_eq!(classify_aarch64_instruction(0x1E00_0000), EncodingGroup::Unimplemented);
}

#[test]
fn a_section_decodes_to_one_line_for_each_word() {
    let mut code = Vec::new();
    code.extend_from_slice(&0xD100_83FFu32.to_le_bytes());
    code.extend_from_slice(&0xB900_07E2u32.to_le_bytes());
    code.extend_from_slice(&[0xAA, 0xBB]);
    let lines = decode_section(&code);
    assert_eq!(lines.len(), 2);
    assert_eq!(lines[0].index, 0);
    assert_eq!(lines[0].word, 0xD100_83FF);
    assert_eq!(lines[0].mnemonic, "sub sp, sp, #32");
    assert_eq!(lines[1].index, 1);
    assert_eq!(lines[1].word, 0xB900_07E2);
    assert_eq!(lines[1].mnemonic, "str w2, [sp, #4]");
    assert_eq!(lines[1].render(), "1              0xB90007E2          str w2, [sp, #4]\n");
    assert!(decode_section(&[1, 2, 3]).is_empty());
}

#[test]
fn a_line_renders_in_three_columns() {
    let line = DecodedLine { index: 12345, word: 0xAB, mnemonic: String::from("nop") };
    assert_eq!(line.render(), "12345          0x000000AB          nop\n");
    let wide = DecodedLine { index: 1234567, word: u32::MAX, mnemonic: String::new() };
    assert_eq!(wide.render(), "1234567          0xFFFFFFFF          \n");
}

#[test]
fn padded_hexadecimal_numbers_and_runs() {
    let mut s = String::new();
    push_hex_at_least(&mut s, 0, 8);
    s.push(' ');
    push_hex_at_least(&mut s, 0x1F, 0);
    s.push(' ');
    push_hex_at_least(&mut s, 0xABCDE, 3);
    s.push(' ');
    push_hex_at_least(&mut s, 0xABCDE, 8);
    s.push(' ');
    push_hex_at_least(&mut s, u64::MAX, 8);
    s.push(' ');
    push_hex_at_least(&mut s, 7, 1);
    assert_eq!(s, "00000000 1F ABCDE 000ABCDE FFFFFFFFFFFFFFFF 7");
    let mut t = String::from("a");
    push_repeated(&mut t, '-', 3);
    push_spaces(&mut t, 2);
    push_repeated(&mut t, 'x', 0);
    t.push('b');
    assert_eq!(t, "a---  b");
}
