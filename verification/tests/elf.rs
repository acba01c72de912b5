use toydump::decode_byte::Endianness;
use toydump::disassemble::{
    BitFormat, ElfHeader, HeaderError, InstructionSet, OSAbi, SectionError,
};

const ADD_X0_X1_4: u32 = 0x9100_1020;

fn put(image: &mut [u8], at: usize, value: u64, width: usize, little: bool) {
    for k in 0..width {
        let byte = (value >> (8 * k)) as u8;
        let place = if little { at + k } else { at + width - 1 - k };
        image[place] = byte;
    }
}

fn header(little: bool, abi: u8, table: u64, entry_size: u16, count: u16, names: u16) -> Vec<u8> {
    let mut h = vec![0u8; 64];
    h[0] = 0x7F;
    h[1] = b'E';
    h[2] = b'L';
    h[3] = b'F';
    h[4] = 2;
    h[5] = if little { 1 } else { 2 };
    h[6] = 1;
    h[7] = abi;
    put(&mut h, 0x12, 0xB7, 2, little);
    put(&mut h, 0x28, table, 8, little);
    put(&mut h, 0x3A, entry_size as u64, 2, little);
    put(&mut h, 0x3C, count as u64, 2, little);
    put(&mut h, 0x3E, names as u64, 2, little);
    h
}

fn record(image: &mut [u8], at: usize, name: u32, offset: u64, size: u64, little: bool) {
    put(image, at, name as u64, 4, little);
    put(image, at + 0x18, offset, 8, little);
    put(image, at + 0x20, size, 8, little);
}

/// Header, four bytes of code at 64, the section names at 68, and at 88 the
/// records of an empty section, the code section and the name table.
fn image(little: bool, code_name: &str, word: u32) -> Vec<u8> {
    let mut image = header(little, 0, 88, 64, 3, 2);
    image.extend_from_slice(&word.to_le_bytes());
    image.push(0);
    image.extend_from_slice(code_name.as_bytes());
    image.push(0);
    image.extend_from_slice(b".shstrtab\0");
    let names_len = (image.len() - 68) as u64;
    image.resize(88 + 3 * 64, 0);
    record(&mut image, 88 + 64, 1, 64, 4, little);
    record(&mut image, 88 + 128, 2 + code_name.len() as u32, 68, names_len, little);
    image
}

fn parse(bytes: &[u8]) -> ElfHeader {
    match ElfHeader::parse(bytes) {
        Ok(header) => header,
        Err(e) => panic!("refused: {:?}", e),
    }
}

fn refusal(bytes: &[u8]) -> HeaderError {
    match ElfHeader::parse(bytes) {
        Ok(_) => panic!("accepted"),
        Err(e) => e,
    }
}

#[test]
fn parses_a_little_endian_header() {
    let bytes = header(true, 3, 0x1122_3344_5566_7788, 64, 7, 6);
    let h = parse(&bytes);
    assert_eq!(h.format(), BitFormat::Bit64);
    assert_eq!(h.endianness(), Endianness::LittleEndian);
    assert_eq!(h.abi(), OSAbi::Linux);
    assert_eq!(h.instruction_set(), InstructionSet::Arm64);
    assert_eq!(h.section_table_offset(), 0x1122_3344_5566_7788);
    assert_eq!(h.section_header_entry_size(), 64);
    assert_eq!(h.section_header_entry_count(), 7);
    assert_eq!(h.section_header_names_index(), 6);
    assert_eq!(h.data(), &bytes[..]);
}

#[test]
fn parses_a_big_endian_header() {
    let bytes = header(false, 0, 0x0102_0304_0506_0708, 0x0140, 0x0203, 0x0102);
    assert_eq!(bytes[0x12], 0x00);
    assert_eq!(bytes[0x13], 0xB7);
    let h = parse(&bytes);
    assert_eq!(h.endianness(), Endianness::BigEndian);
    assert_eq!(h.abi(), OSAbi::SystemV);
    assert_eq!(h.section_table_offset(), 0x0102_0304_0506_0708);
    assert_eq!(h.section_header_entry_size(), 0x0140);
    assert_eq!(h.section_header_entry_count(), 0x0203);
    assert_eq!(h.section_header_names_index(), 0x0102);
}

#[test]
fn any_data_byte_but_one_means_big_endian() {
    for data in [0u8, 2, 3, 0xFF] {
        let mut bytes = header(false, 0, 64, 64, 0, 0);
        bytes[5] = data;
        assert_eq!(parse(&bytes).endianness(), Endianness::BigEndian);
    }
}

#[test]
fn any_class_byte_but_one_means_64_bit() {
    for class in [0u8, 2, 3, 0xFF] {
        let mut bytes = header(true, 0, 64, 64, 0, 0);
        bytes[4] = class;
        assert_eq!(parse(&bytes).format(), BitFormat::Bit64);
    }
}

#[test]
fn section_header_offsets_are_a_stride_apart() {
    let h = parse(&header(true, 0, 1000, 64, 5, 4));
    assert_eq!(h.section_header_offset(0), 1000);
    assert_eq!(h.section_header_offset(1), 1064);
    assert_eq!(h.section_header_offset(4), 1256);
    let wide = parse(&header(true, 0, u64::MAX, 0xFFFF, 5, 4));
    assert_eq!(wide.section_header_offset(2), u64::MAX as u128 + 2 * 0xFFFF);
}

#[test]
fn refuses_short_buffers() {
    assert_eq!(refusal(&[]), HeaderError::InvalidHeader);
    let bytes = header(true, 0, 64, 64, 0, 0);
    assert_eq!(refusal(&bytes[..63]), HeaderError::InvalidHeader);
    assert!(ElfHeader::parse(&bytes[..64]).is_ok());
}

#[test]
fn refuses_a_wrong_magic_number_or_identity() {
    for (at, value) in [(0usize, 0x7Eu8), (1, b'e'), (2, b'X'), (3, 0)] {
        let mut bytes = header(true, 0, 64, 64, 0, 0);
        bytes[at] = value;
        assert_eq!(refusal(&bytes), HeaderError::InvalidHeader);
    }
}

#[test]
fn refuses_32_bit_files() {
    let mut bytes = header(true, 0, 64, 64, 0, 0);
    bytes[4] = 1;
    assert_eq!(refusal(&bytes), HeaderError::Unsupported32Bit);
}

#[test]
fn refuses_other_abis() {
    for abi in [1u8, 2, 4, 9, 0xFF] {
        let bytes = header(true, abi, 64, 64, 0, 0);
        assert_eq!(refusal(&bytes), HeaderError::UnsupportedAbi(abi));
    }
}

#[test]
fn refuses_other_instruction_sets() {
    let mut bytes = header(true, 0, 64, 64, 0, 0);
    bytes[0x12] = 0x3E;
    assert_eq!(refusal(&bytes), HeaderError::UnsupportedInstructionSet(0x3E));
    let mut swapped = header(true, 0, 64, 64, 0, 0);
    swapped[0x12] = 0x00;
    swapped[0x13] = 0xB7;
    assert_eq!(refusal(&swapped), HeaderError::UnsupportedInstructionSet(0xB700));
}

#[test]
fn the_first_failing_check_decides() {
    let mut bytes = header(true, 9, 64, 64, 0, 0);
    bytes[0x12] = 0x3E;
    assert_eq!(refusal(&bytes), HeaderError::UnsupportedAbi(9));
    bytes[4] = 1;
    assert_eq!(refusal(&bytes), HeaderError::Unsupported32Bit);
    bytes[0] = 0;
    assert_eq!(refusal(&bytes), HeaderError::InvalidHeader);
}

#[test]
fn diagnostics() {
    assert_eq!(HeaderError::InvalidHeader.message(), "invalid header");
    assert_eq!(
        HeaderError::Unsupported32Bit.message(),
        "currently unsupported on 32 bit systems"
    );
    assert_eq!(HeaderError::UnsupportedAbi(9).message(), "unsupported abi 09");
    assert_eq!(HeaderError::UnsupportedAbi(0xAB).message(), "unsupported abi AB");
    assert_eq!(
        HeaderError::UnsupportedInstructionSet(0x3E).message(),
        "unsupported instruction set 003E"
    );
    assert_eq!(
        HeaderError::UnsupportedInstructionSet(0xB700).message(),
        "unsupported instruction set B700"
    );
    assert_eq!(SectionError::Truncated.message(), "truncated or corrupt section table");
}

#[test]
fn new_reports_a_refusal_as_one_line() {
    let mut out = String::from("log:\n");
    let bytes = header(true, 9, 64, 64, 0, 0);
    assert!(ElfHeader::new(&bytes, &mut out).is_none());
    assert_eq!(out, "log:\nunsupported abi 09\n");
    assert!(ElfHeader::new(&bytes[..10], &mut out).is_none());
    assert_eq!(out, "log:\nunsupported abi 09\ninvalid header\n");
}

#[test]
fn new_writes_nothing_for_a_valid_header() {
    let mut out = String::from("log:\n");
    let bytes = header(true, 3, 64, 64, 0, 0);
    let h = ElfHeader::new(&bytes, &mut out);
    assert_eq!(out, "log:\n");
    assert_eq!(h.map(|h| h.abi()), Some(OSAbi::Linux));
}

#[test]
fn resolves_section_names() {
    let h = parse(&image(true, ".text", ADD_X0_X1_4));
    assert_eq!(h.string_from_shstrtab(0), Ok(String::new()));
    assert_eq!(h.string_from_shstrtab(1), Ok(String::from(".text")));
    assert_eq!(h.string_from_shstrtab(3), Ok(String::from("ext")));
    assert_eq!(h.string_from_shstrtab(7), Ok(String::from(".shstrtab")));
}

#[test]
fn name_bytes_become_one_character_each() {
    let h = parse(&image(true, "\u{e9}t\u{e9}", 0));
    let name = h.string_from_shstrtab(1).unwrap();
    let expected: String = "\u{e9}t\u{e9}".bytes().map(|b| b as char).collect();
    assert_eq!(name.chars().count(), 5);
    assert_eq!(name, expected);
}

#[test]
fn finds_the_code_section() {
    let h = parse(&image(true, ".text", ADD_X0_X1_4));
    assert_eq!(h.find_code_section(), Ok(Some((64, 4))));
    assert_eq!(h.code_section_at(0), Ok(None));
    assert_eq!(h.code_section_at(1), Ok(Some((64, 4))));
    assert_eq!(h.code_section_at(2), Ok(None));
}

#[test]
fn dumps_one_line_for_one_add_instruction() {
    let h = parse(&image(true, ".text", ADD_X0_X1_4));
    let mut out = String::new();
    assert_eq!(h.dump_disassembly(&mut out), Ok(()));
    assert_eq!(out, "section .text\n0              0x91001020          add x0, x1, #4\n\n");
}

#[test]
fn dumps_the_stack_pointer_by_name() {
    let h = parse(&image(true, ".text", 0x9100_43FF));
    let mut out = String::from(">");
    assert_eq!(h.dump_disassembly(&mut out), Ok(()));
    assert_eq!(out, ">section .text\n0              0x910043FF          add sp, sp, #16\n\n");
}

#[test]
fn dumps_a_big_endian_file() {
    let h = parse(&image(false, ".text", ADD_X0_X1_4));
    assert_eq!(h.find_code_section(), Ok(Some((64, 4))));
    let mut out = String::new();
    assert_eq!(h.dump_disassembly(&mut out), Ok(()));
    assert_eq!(out, "section .text\n0              0x91001020          add x0, x1, #4\n\n");
}

#[test]
fn a_file_with_a_single_section() {
    let mut bytes = header(true, 0, 80, 64, 1, 0);
    bytes.extend_from_slice(&ADD_X0_X1_4.to_le_bytes());
    bytes.extend_from_slice(b".text\0");
    bytes.resize(80 + 64, 0);
    record(&mut bytes, 80, 4, 64, 4, true);
    let h = parse(&bytes);
    assert_eq!(h.find_code_section(), Ok(Some((64, 4))));
    let mut out = String::new();
    assert_eq!(h.dump_disassembly(&mut out), Ok(()));
    assert_eq!(out, "section .text\n0              0x91001020          add x0, x1, #4\n\n");
}

#[test]
fn a_section_with_another_name_is_no_code_section() {
    for name in [".data", ".tex", ".text2", "text", ".TEXT", ""] {
        let h = parse(&image(true, name, ADD_X0_X1_4));
        assert_eq!(h.find_code_section(), Ok(None));
        let mut out = String::from("kept");
        assert_eq!(h.dump_disassembly(&mut out), Ok(()));
        assert_eq!(out, "kept");
    }
}

#[test]
fn a_file_without_sections_has_no_code_section() {
    let h = parse(&header(true, 0, 64, 64, 0, 0));
    assert_eq!(h.find_code_section(), Ok(None));
    let mut out = String::new();
    assert_eq!(h.dump_disassembly(&mut out), Ok(()));
    assert_eq!(out, "");
}

#[test]
fn the_first_section_named_text_is_taken() {
    let mut bytes = image(true, ".text", ADD_X0_X1_4);
    // The empty section becomes a second code section, earlier in the table.
    record(&mut bytes, 88, 1, 68, 8, true);
    let h = parse(&bytes);
    assert_eq!(h.find_code_section(), Ok(Some((68, 8))));
    assert_eq!(h.code_section_at(1), Ok(Some((64, 4))));
}

#[test]
fn dump_section_code_looks_at_one_section() {
    let h = parse(&image(true, ".text", ADD_X0_X1_4));
    let mut out = String::new();
    assert_eq!(h.dump_section_code(0, &mut out), Ok(()));
    assert_eq!(h.dump_section_code(2, &mut out), Ok(()));
    assert_eq!(out, "");
    assert_eq!(h.dump_section_code(1, &mut out), Ok(()));
    assert_eq!(out, "section .text\n0              0x91001020          add x0, x1, #4\n\n");
    assert_eq!(h.dump_section_code(3, &mut out), Err(SectionError::Truncated));
}

#[test]
fn a_table_beyond_the_file_is_an_error() {
    let mut bytes = image(true, ".text", ADD_X0_X1_4);
    put(&mut bytes, 0x28, 10_000, 8, true);
    let h = parse(&bytes);
    assert_eq!(h.find_code_section(), Err(SectionError::Truncated));
    let mut out = String::from("kept");
    assert_eq!(h.dump_disassembly(&mut out), Err(SectionError::Truncated));
    assert_eq!(out, "kept");
    assert_eq!(h.string_from_shstrtab(0), Err(SectionError::Truncated));
}

#[test]
fn a_table_at_the_largest_offset_is_an_error() {
    let mut bytes = image(true, ".text", ADD_X0_X1_4);
    put(&mut bytes, 0x28, u64::MAX, 8, true);
    put(&mut bytes, 0x3A, 0xFFFF, 2, true);
    let h = parse(&bytes);
    assert_eq!(h.find_code_section(), Err(SectionError::Truncated));
}

#[test]
fn a_cut_off_table_is_an_error() {
    let bytes = image(true, ".text", ADD_X0_X1_4);
    // The record of the name table ends before the field that locates it.
    let h = parse(&bytes[..88 + 128 + 0x1F]);
    assert_eq!(h.find_code_section(), Err(SectionError::Truncated));
    assert_eq!(h.string_from_shstrtab(1), Err(SectionError::Truncated));
    // With that field whole, the bytes behind it are not needed.
    let h = parse(&bytes[..88 + 128 + 0x20]);
    assert_eq!(h.find_code_section(), Ok(Some((64, 4))));
}

#[test]
fn a_name_outside_the_file_is_an_error() {
    let mut bytes = image(true, ".text", ADD_X0_X1_4);
    put(&mut bytes, 88 + 64, 100_000, 4, true);
    let h = parse(&bytes);
    assert_eq!(h.code_section_at(0), Ok(None));
    assert_eq!(h.code_section_at(1), Err(SectionError::Truncated));
    assert_eq!(h.find_code_section(), Err(SectionError::Truncated));
    assert_eq!(h.string_from_shstrtab(100_000), Err(SectionError::Truncated));
    assert_eq!(h.string_from_shstrtab(usize::MAX), Err(SectionError::Truncated));
}

#[test]
fn a_name_without_terminator_is_an_error() {
    let mut bytes = image(true, ".text", ADD_X0_X1_4);
    let last = bytes.len() - 1;
    for byte in bytes[88 + 128 + 0x28..].iter_mut() {
        *byte = b'a';
    }
    let h = parse(&bytes);
    assert_eq!(h.string_from_shstrtab(last - 68), Err(SectionError::Truncated));
    assert_eq!(h.string_from_shstrtab(last + 1 - 68), Err(SectionError::Truncated));
}

#[test]
fn code_beyond_the_file_is_an_error() {
    let mut bytes = image(true, ".text", ADD_X0_X1_4);
    let len = bytes.len() as u64;
    record(&mut bytes, 88 + 64, 1, len - 3, 4, true);
    let h = parse(&bytes);
    assert_eq!(h.find_code_section(), Ok(Some((len - 3, 4))));
    let mut out = String::from("kept");
    assert_eq!(h.dump_disassembly(&mut out), Err(SectionError::Truncated));
    assert_eq!(out, "kept");
    let mut huge = image(true, ".text", ADD_X0_X1_4);
    record(&mut huge, 88 + 64, 1, u64::MAX, u64::MAX, true);
    let h = parse(&huge);
    assert_eq!(h.dump_disassembly(&mut out), Err(SectionError::Truncated));
    assert_eq!(out, "kept");
}

#[test]
fn code_up_to_the_end_of_the_file_is_listed() {
    let mut bytes = image(true, ".text", ADD_X0_X1_4);
    bytes.extend_from_slice(&0xF940_0420u32.to_le_bytes());
    let len = bytes.len() as u64;
    record(&mut bytes, 88 + 64, 1, len - 4, 4, true);
    let h = parse(&bytes);
    let mut out = String::new();
    assert_eq!(h.dump_disassembly(&mut out), Ok(()));
    assert_eq!(out, "section .text\n0              0xF9400420          ldr x0, [x1, #8]\n\n");
}
