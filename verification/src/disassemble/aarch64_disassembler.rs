//! Decoder for AArch64 instruction words: a tree of bit-pattern tests that
//! sorts a 32-bit word into its encoding group and renders it as text.

use crate::decode_byte::{decode, get_value, Endianness};
use crate::disassemble::bit_pattern::{
    does_bit_pattern_match, lemma_pattern_of_four, lemma_pattern_of_leading,
};
use crate::text::{
    decimal, decimal_string, hex, left_aligned, push_decimal, push_hex, push_left_aligned,
    push_right_aligned, right_aligned,
};
use vstd::arithmetic::power2::lemma2_to64;
use vstd::prelude::*;
use vstd::slice::slice_subrange;
use vstd::string::*;

verus! {

/// The number of bytes of one instruction.
pub const ARM64_INSTRUCTION_SIZE: usize = 4;

/// The name of general register `r`: `sp` for index 31, else `w` or `x` and
/// the index, as the operand is 32 or 64 bits wide.
pub open spec fn register_name(is_w: bool, r: u32) -> Seq<char> {
    if r == 31 {
        "sp"@
    } else if is_w {
        "w"@ + decimal(r as nat)
    } else {
        "x"@ + decimal(r as nat)
    }
}

/// `<mnemonic> <rd>, #<imm>`
pub open spec fn rd_imm_text(name: Seq<char>, is_w: bool, rd: u32, imm: u32) -> Seq<char> {
    name + " "@ + right_aligned(register_name(is_w, rd), 2) + ", #"@ + decimal(imm as nat)
}

/// `<mnemonic> <rd>, <rn>, #<imm>`
pub open spec fn rd_rn_imm_text(name: Seq<char>, is_w: bool, rd: u32, rn: u32, imm: u32) -> Seq<
    char,
> {
    name + " "@ + right_aligned(register_name(is_w, rd), 2) + ", "@ + register_name(is_w, rn)
        + ", #"@ + decimal(imm as nat)
}

/// `<mnemonic> <rd>, [<rn>, #<imm>]`
pub open spec fn rd_rn_imm_offset_text(
    name: Seq<char>,
    is_w: bool,
    rd: u32,
    rn: u32,
    imm: u32,
) -> Seq<char> {
    name + " "@ + right_aligned(register_name(is_w, rd), 2) + ", ["@ + register_name(is_w, rn)
        + ", #"@ + decimal(imm as nat) + "]"@
}

/// Data processing with one source operand: the pointer-authentication forms.
pub open spec fn one_source_text(word: u32) -> Seq<char> {
    let sf = word >> 31;
    let opc = (word >> 21) & 0x03;
    let rd = word & 0x1F;
    let imm16 = (word >> 5) & 0xFFFF;
    let name = if sf == 0 || rd <= 3 {
        "unallocated"@
    } else if rd != 31 {
        "unknown"@
    } else if opc == 0 {
        "autiasppc"@
    } else {
        "autibsppc"@
    };
    rd_imm_text(name, false, rd, imm16)
}

/// PC-relative addressing: `adr` and `adrp`, told apart by bit 31. The
/// immediate is put together from its high 19 bits and its low 2 bits.
pub open spec fn pc_rel_addressing_text(word: u32) -> Seq<char> {
    let immlo = (word >> 29) & 0x3;
    let immhi = (word >> 5) & 0x7FFFF;
    let name = if word >> 31 == 0 {
        "adr"@
    } else {
        "adrp"@
    };
    rd_imm_text(name, false, word & 0x1F, (immhi << 2) | immlo)
}

/// The mnemonic of an add/subtract: `add` or `sub` by the operation bit,
/// with `s` behind it where the flags are set.
pub open spec fn add_sub_mnemonic(op: u32, s: u32) -> Seq<char> {
    let base = if op == 0 {
        "add"@
    } else {
        "sub"@
    };
    if s == 1 {
        base + "s"@
    } else {
        base
    }
}

/// Add/subtract with a 12-bit immediate.
pub open spec fn add_sub_immediate_text(word: u32) -> Seq<char> {
    rd_rn_imm_text(
        add_sub_mnemonic((word >> 30) & 1, (word >> 29) & 1),
        (word >> 31) & 1 == 0,
        word & 0x1F,
        (word >> 5) & 0x1F,
        (word >> 10) & 0xFFF,
    )
}

/// The data-processing-immediate group, sorted by bits 30-29 and 25-22.
pub open spec fn data_processing_immediate_text(word: u32) -> Seq<char> {
    let op0 = (word >> 29) & 0x3;
    let op1 = (word >> 22) & 0xF;
    if op0 == 0x3 && op1 & 0b1110 == 0b1110 {
        one_source_text(word)
    } else if op1 & 0b1100 == 0b0000 {
        pc_rel_addressing_text(word)
    } else if op1 & 0b1110 == 0b0100 {
        add_sub_immediate_text(word)
    } else {
        "data_processing_immediate"@
    }
}

/// The data-processing-register group, sorted by bit 28 and bits 24-21. Its
/// forms are recognised and named, not decoded.
pub open spec fn data_processing_register_text(word: u32) -> Seq<char> {
    let op1 = (word >> 28) & 1;
    let op2 = (word >> 21) & 0xF;
    if op1 == 0 && op2 & 0b1001 == 0b1001 {
        "data_processing_register_extended_add_sub"@
    } else if op1 == 1 && op2 & 0b1000 == 0b1000 {
        "data_processing_register_three_source"@
    } else {
        "data_processing_register"@
    }
}

/// The factor by which a load or store of the given size scales its
/// immediate: the number of bytes moved.
pub open spec fn access_scale(size: u32) -> u32 {
    if size == 0 {
        1
    } else if size == 1 {
        2
    } else if size == 2 {
        4
    } else {
        8
    }
}

/// The mnemonic that the opcode of a load or store selects.
pub open spec fn load_store_mnemonic(opc: u32) -> Seq<char> {
    if opc == 0 {
        "str"@
    } else if opc == 1 {
        "ldr"@
    } else {
        "unknown"@
    }
}

/// Load or store of a register at a base register plus a scaled unsigned
/// 12-bit immediate.
pub open spec fn register_unsigned_immediate_text(word: u32) -> Seq<char> {
    let size = word >> 30;
    let opc = (word >> 22) & 0x3;
    let imm12 = (word >> 10) & 0xFFF;
    if (word >> 26) & 1 != 0 {
        "vectorized_load_store_register_unsigned_immediate"@
    } else {
        rd_rn_imm_offset_text(
            load_store_mnemonic(opc),
            size != 3,
            word & 0x1F,
            (word >> 5) & 0x1F,
            (imm12 * access_scale(size)) as u32,
        )
    }
}

/// The load/store group, sorted by bits 29-28 and bit 24.
pub open spec fn load_store_text(word: u32) -> Seq<char> {
    let op0 = word >> 28;
    let op2 = (word >> 10) & 0x7FFF;
    if op0 & 0b0011 == 0b0001 && op2 & 0x4000 == 0 {
        "load_store_load_register_literal"@
    } else if op0 & 0b0011 == 0b0011 && op2 & 0x4000 == 0x4000 {
        register_unsigned_immediate_text(word)
    } else {
        "load_store"@
    }
}

/// The groups into which the top level of the tree sorts the instruction
/// words.
#[derive(Clone, Copy, Debug, PartialEq, Eq, Structural)]
pub enum EncodingGroup {
    Reserved,
    Sme,
    Sve,
    Unallocated,
    DataProcessingImmediate,
    DataProcessingRegister,
    LoadStore,
    /// None of the groups that the decoder knows.
    Unimplemented,
}

/// The group of an instruction word, by its bit 31 and its bits 28-25, the
/// more specific tests first.
pub open spec fn encoding_group(word: u32) -> EncodingGroup {
    let op0 = word >> 31;
    let op1 = (word >> 25) & 0xF;
    if op1 == 0 && op0 == 0 {
        EncodingGroup::Reserved
    } else if op1 == 0 {
        EncodingGroup::Sme
    } else if op1 == 0b0010 {
        EncodingGroup::Sve
    } else if op1 & 0b1101 == 0b0001 {
        EncodingGroup::Unallocated
    } else if op1 & 0b1110 == 0b1000 {
        EncodingGroup::DataProcessingImmediate
    } else if op1 & 0b0111 == 0b0101 {
        EncodingGroup::DataProcessingRegister
    } else if op1 & 0b0101 == 0b0100 {
        EncodingGroup::LoadStore
    } else {
        EncodingGroup::Unimplemented
    }
}

/// The text of one instruction word: that of its form within its group
/// where the decoder covers the group, else the name of the group.
pub open spec fn instruction_text(word: u32) -> Seq<char> {
    match encoding_group(word) {
        EncodingGroup::Reserved => "reserved"@,
        EncodingGroup::Sme => "sme"@,
        EncodingGroup::Sve => "sve"@,
        EncodingGroup::Unallocated => "unallocated"@,
        EncodingGroup::DataProcessingImmediate => data_processing_immediate_text(word),
        EncodingGroup::DataProcessingRegister => data_processing_register_text(word),
        EncodingGroup::LoadStore => load_store_text(word),
        EncodingGroup::Unimplemented => "instruction"@,
    }
}

/// The name of general register `r`, 32 bits wide where `is_w` is set.
pub fn format_register(is_w: bool, r: u32) -> (name: String)
    ensures
        name@ == register_name(is_w, r),
{
    if r == 31 {
        return String::from_str("sp");
    }
    let mut name = if is_w {
        String::from_str("w")
    } else {
        String::from_str("x")
    };
    push_decimal(&mut name, r as u64);
    name
}

/// Renders a destination register and an immediate behind a mnemonic.
pub fn format_instruction_rd_imm(name: &str, is_w: bool, rd: u32, imm: u32) -> (text: String)
    ensures
        text@ == rd_imm_text(name@, is_w, rd, imm),
{
    let mut text = String::from_str(name);
    text.append(" ");
    push_right_aligned(&mut text, format_register(is_w, rd).as_str(), 2);
    text.append(", #");
    push_decimal(&mut text, imm as u64);
    text
}

/// Renders a destination register, a source register and an immediate
/// behind a mnemonic.
pub fn format_instruction_rd_rn_imm(name: &str, is_w: bool, rd: u32, rn: u32, imm: u32) -> (text:
    String)
    ensures
        text@ == rd_rn_imm_text(name@, is_w, rd, rn, imm),
{
    let mut text = String::from_str(name);
    text.append(" ");
    push_right_aligned(&mut text, format_register(is_w, rd).as_str(), 2);
    text.append(", ");
    text.append(format_register(is_w, rn).as_str());
    text.append(", #");
    push_decimal(&mut text, imm as u64);
    text
}

/// Renders a register and a memory operand, a base register with a byte
/// offset, behind a mnemonic.
pub fn format_instruction_rd_rn_imm_offset(name: &str, s: bool, rd: u32, rn: u32, imm: u32) -> (text:
    String)
    ensures
        text@ == rd_rn_imm_offset_text(name@, s, rd, rn, imm),
{
    let mut text = String::from_str(name);
    text.append(" ");
    push_right_aligned(&mut text, format_register(s, rd).as_str(), 2);
    text.append(", [");
    text.append(format_register(s, rn).as_str());
    text.append(", #");
    push_decimal(&mut text, imm as u64);
    text.append("]");
    text
}

/// Renders a word of the one-source forms of data processing.
pub fn decode_aarch64_data_processing_one_source(instruction: u32) -> (text: String)
    ensures
        text@ == one_source_text(instruction),
{
    let sf = instruction >> 31;
    let opc = (instruction >> 21) & 0x03;
    let rd = instruction & 0x1F;
    let imm16 = (instruction >> 5) & 0xFFFF;
    proof {
        assert((rd & 0b11 == rd) == (rd <= 3)) by (bit_vector);
    }
    if sf == 0 || (rd & 0b11) == rd {
        return format_instruction_rd_imm("unallocated", false, rd, imm16);
    }
    if rd == 0x1F {
        if opc == 0 {
            return format_instruction_rd_imm("autiasppc", false, rd, imm16);
        } else {
            return format_instruction_rd_imm("autibsppc", false, rd, imm16);
        }
    }
    format_instruction_rd_imm("unknown", false, rd, imm16)
}

/// Renders an `adr` or `adrp`.
pub fn decode_aarch64_data_processing_immediate_pc_rel_addressing(instruction: u32) -> (text:
    String)
    ensures
        text@ == pc_rel_addressing_text(instruction),
{
    let op = instruction >> 31;
    let immlo = (instruction >> 29) & 0x3;
    let immhi = (instruction >> 5) & 0x7FFFF;
    let data = (immhi << 2) | immlo;
    let rd = instruction & 0x1F;
    if op == 0 {
        return format_instruction_rd_imm("adr", false, rd, data);
    }
    format_instruction_rd_imm("adrp", false, rd, data)
}

/// Renders an add or subtract with an immediate.
pub fn decode_aarch64_data_processing_immediate_add_sub(instruction: u32) -> (text: String)
    ensures
        text@ == add_sub_immediate_text(instruction),
{
    let sf = (instruction >> 31) & 1;
    let op = (instruction >> 30) & 1;
    let s = (instruction >> 29) & 1;
    let rd = instruction & 0x1F;
    let rn = (instruction >> 5) & 0x1F;
    let imm12 = (instruction >> 10) & 0xFFF;
    let mut inst_name = if op == 0 {
        String::from_str("add")
    } else {
        String::from_str("sub")
    };
    if s == 1 {
        inst_name.append("s");
    }
    format_instruction_rd_rn_imm(inst_name.as_str(), sf == 0, rd, rn, imm12)
}

/// Renders a word of the data-processing-immediate group.
pub fn decode_aarch64_data_processing_immediate(instruction: u32) -> (text: String)
    ensures
        text@ == data_processing_immediate_text(instruction),
{
    let op0 = (instruction >> 29) & 0x3;
    let op1 = (instruction >> 22) & 0xF;
    proof {
        reveal_strlit("111x");
        reveal_strlit("00xx");
        reveal_strlit("010x");
        lemma_pattern_of_four("111x"@);
        lemma_pattern_of_four("00xx"@);
        lemma_pattern_of_four("010x"@);
    }
    if op0 == 0x3 && does_bit_pattern_match("111x", op1) {
        return decode_aarch64_data_processing_one_source(instruction);
    }
    if does_bit_pattern_match("00xx", op1) {
        return decode_aarch64_data_processing_immediate_pc_rel_addressing(instruction);
    }
    if does_bit_pattern_match("010x", op1) {
        return decode_aarch64_data_processing_immediate_add_sub(instruction);
    }
    String::from_str("data_processing_immediate")
}

/// Names the add/subtract forms with an extended register, which are
/// recognised and not decoded.
pub fn decode_aarch64_data_processing_register_extended_add_sub(_instruction: u32) -> (text:
    String)
    ensures
        text@ == "data_processing_register_extended_add_sub"@,
{
    String::from_str("data_processing_register_extended_add_sub")
}

/// Names the three-source forms, which are recognised and not decoded.
pub fn decode_aarch64_data_processing_register_three_source(_instruction: u32) -> (text: String)
    ensures
        text@ == "data_processing_register_three_source"@,
{
    String::from_str("data_processing_register_three_source")
}

/// Renders a word of the data-processing-register group.
pub fn decode_aarch64_data_processing_register(instruction: u32) -> (text: String)
    ensures
        text@ == data_processing_register_text(instruction),
{
    let op1 = (instruction >> 28) & 1;
    let op2 = (instruction >> 21) & 0xF;
    proof {
        reveal_strlit("1xx1");
        reveal_strlit("1xxx");
        lemma_pattern_of_four("1xx1"@);
        lemma_pattern_of_four("1xxx"@);
    }
    if op1 == 0 {
        if does_bit_pattern_match("1xx1", op2) {
            return decode_aarch64_data_processing_register_extended_add_sub(instruction);
        }
    }
    if op1 == 1 {
        if does_bit_pattern_match("1xxx", op2) {
            return decode_aarch64_data_processing_register_three_source(instruction);
        }
    }
    String::from_str("data_processing_register")
}

/// Names the scalable matrix extension, which is recognised and not
/// decoded.
pub fn decode_aarch64_sme(_instruction: u32) -> (text: String)
    ensures
        text@ == "sme"@,
{
    String::from_str("sme")
}

/// Names the scalable vector extension, which is recognised and not
/// decoded.
pub fn decode_aarch64_sve(_instruction: u32) -> (text: String)
    ensures
        text@ == "sve"@,
{
    String::from_str("sve")
}

/// Names the loads of a PC-relative literal, which are recognised and not
/// decoded.
pub fn decode_aarch64_load_store_load_register_literal(_instruction: u32) -> (text: String)
    ensures
        text@ == "load_store_load_register_literal"@,
{
    String::from_str("load_store_load_register_literal")
}

/// Renders a load or store at a base register plus a scaled immediate.
pub fn decode_aarch64_load_store_register_unsigned_immediate(instruction: u32) -> (text: String)
    ensures
        text@ == register_unsigned_immediate_text(instruction),
{
    let size = instruction >> 30;
    let v = (instruction >> 26) & 1;
    let opc = (instruction >> 22) & 0x3;
    let imm12 = (instruction >> 10) & 0xFFF;
    let rn = (instruction >> 5) & 0x1F;
    let rd = instruction & 0x1F;
    if v != 0 {
        return String::from_str("vectorized_load_store_register_unsigned_immediate");
    }
    let inst_name = match opc {
        0 => "str",
        1 => "ldr",
        _ => "unknown",
    };
    let scale: u32 = match size {
        0 => 1,
        1 => 2,
        2 => 4,
        _ => 8,
    };
    proof {
        assert(imm12 <= 0xFFF) by (bit_vector)
            requires
                imm12 == (instruction >> 10) & 0xFFF,
        ;
        assert(size <= 3) by (bit_vector)
            requires
                size == instruction >> 30,
        ;
        assert(scale == access_scale(size));
        assert(imm12 * scale <= 0xFFF * 8) by (nonlinear_arith)
            requires
                imm12 <= 0xFFF,
                scale <= 8,
        ;
    }
    let use_w_register = size != 3;
    format_instruction_rd_rn_imm_offset(inst_name, use_w_register, rd, rn, imm12 * scale)
}

/// Renders a word of the load/store group.
pub fn decode_aarch64_load_store(instruction: u32) -> (text: String)
    ensures
        text@ == load_store_text(instruction),
{
    let op0 = instruction >> 28;
    let op2 = (instruction >> 10) & 0x7FFF;
    proof {
        reveal_strlit("xx01");
        reveal_strlit("xx11");
        reveal_strlit("0xxxxxxxxxxxxxx");
        reveal_strlit("1xxxxxxxxxxxxxx");
        lemma_pattern_of_four("xx01"@);
        lemma_pattern_of_four("xx11"@);
        lemma_pattern_of_leading("0xxxxxxxxxxxxxx"@);
        lemma_pattern_of_leading("1xxxxxxxxxxxxxx"@);
        lemma2_to64();
    }
    if does_bit_pattern_match("xx01", op0) && does_bit_pattern_match("0xxxxxxxxxxxxxx", op2) {
        return decode_aarch64_load_store_load_register_literal(instruction);
    }
    if does_bit_pattern_match("xx11", op0) && does_bit_pattern_match("1xxxxxxxxxxxxxx", op2) {
        return decode_aarch64_load_store_register_unsigned_immediate(instruction);
    }
    String::from_str("load_store")
}

/// Sorts an instruction word into its group.
pub fn classify_aarch64_instruction(instruction: u32) -> (group: EncodingGroup)
    ensures
        group == encoding_group(instruction),
{
    let op0 = instruction >> 31;
    let op1 = (instruction >> 25) & 0xF;
    if op1 == 0 && op0 == 0 {
        return EncodingGroup::Reserved;
    }
    if op1 == 0 && op0 == 1 {
        return EncodingGroup::Sme;
    }
    if op1 == 0b0010 {
        return EncodingGroup::Sve;
    }
    proof {
        assert(op0 == 0 || op0 == 1) by (bit_vector)
            requires
                op0 == instruction >> 31,
        ;
        reveal_strlit("00x1");
        reveal_strlit("100x");
        reveal_strlit("x101");
        reveal_strlit("x1x0");
        lemma_pattern_of_four("00x1"@);
        lemma_pattern_of_four("100x"@);
        lemma_pattern_of_four("x101"@);
        lemma_pattern_of_four("x1x0"@);
    }
    if does_bit_pattern_match("00x1", op1) {
        return EncodingGroup::Unallocated;
    }
    if does_bit_pattern_match("100x", op1) {
        return EncodingGroup::DataProcessingImmediate;
    }
    if does_bit_pattern_match("x101", op1) {
        return EncodingGroup::DataProcessingRegister;
    }
    if does_bit_pattern_match("x1x0", op1) {
        return EncodingGroup::LoadStore;
    }
    EncodingGroup::Unimplemented
}

/// Renders the instruction stored in the four bytes of `instruction`, least
/// significant byte first. Words that the decoder does not cover render as
/// the name of the group they fall in.
pub fn decode_aarch64_instruction(instruction: &[u8]) -> (text: String)
    requires
        instruction@.len() == ARM64_INSTRUCTION_SIZE,
    ensures
        text@ == instruction_text(decode(Endianness::LittleEndian, instruction@) as u32),
{
    let instruction = get_value::<u32>(Endianness::LittleEndian, instruction);
    match classify_aarch64_instruction(instruction) {
        EncodingGroup::Reserved => String::from_str("reserved"),
        EncodingGroup::Sme => decode_aarch64_sme(instruction),
        EncodingGroup::Sve => decode_aarch64_sve(instruction),
        EncodingGroup::Unallocated => String::from_str("unallocated"),
        EncodingGroup::DataProcessingImmediate => decode_aarch64_data_processing_immediate(
            instruction,
        ),
        EncodingGroup::DataProcessingRegister => decode_aarch64_data_processing_register(
            instruction,
        ),
        EncodingGroup::LoadStore => decode_aarch64_load_store(instruction),
        EncodingGroup::Unimplemented => String::from_str("instruction"),
    }
}

/// The instruction word that starts at byte `4 * index` of a code section.
pub open spec fn word_at(bytes: Seq<u8>, index: int) -> u32 {
    decode(Endianness::LittleEndian, bytes.subrange(4 * index, 4 * index + 4)) as u32
}

/// One instruction of a code section: its place in the section, counted
/// from zero, its word, and the text it decodes to.
pub struct DecodedLine {
    pub index: usize,
    pub word: u32,
    pub mnemonic: String,
}

impl DecodedLine {
    /// This is the line of instruction `index` of the code in `bytes`.
    pub open spec fn is_line_of(self, bytes: Seq<u8>, index: int) -> bool {
        &&& self.index == index
        &&& self.word == word_at(bytes, index)
        &&& self.mnemonic@ == instruction_text(self.word)
    }

    /// The line as it stands in a listing.
    pub open spec fn text(self) -> Seq<char> {
        line_text(self.index as nat, self.word, self.mnemonic@)
    }

    /// Renders the line in its three columns.
    pub fn render(&self) -> (text: String)
        ensures
            text@ == self.text(),
    {
        let mut text = String::new();
        push_left_aligned(&mut text, decimal_string(self.index as u64).as_str(), 5);
        text.append("          0x");
        push_hex(&mut text, self.word as u64, 8);
        text.append("          ");
        text.append(self.mnemonic.as_str());
        text.append("\n");
        proof {
            assert(text@ =~= self.text());
        }
        text
    }
}

/// One line of a listing in its three columns: the index in a column of
/// five, the word as eight hexadecimal digits behind `0x`, and the text.
pub open spec fn line_text(index: nat, word: u32, mnemonic: Seq<char>) -> Seq<char> {
    left_aligned(decimal(index), 5) + "          0x"@ + hex(word as nat, 8) + "          "@
        + mnemonic + "\n"@
}

/// The line of a listing for the instruction `word` at place `index`.
pub open spec fn listing_line(index: nat, word: u32) -> Seq<char> {
    line_text(index, word, instruction_text(word))
}

/// The lines of the first `count` instructions of a code section, in file
/// order, numbered from zero.
pub open spec fn listing_lines(bytes: Seq<u8>, count: nat) -> Seq<char>
    decreases count,
{
    if count == 0 {
        Seq::empty()
    } else {
        listing_lines(bytes, (count - 1) as nat) + listing_line(
            (count - 1) as nat,
            word_at(bytes, count - 1),
        )
    }
}

/// The listing of a code section: one line for each whole group of four
/// bytes, then an empty line. Bytes behind the last whole group are left out.
pub open spec fn listing(bytes: Seq<u8>) -> Seq<char> {
    listing_lines(bytes, bytes.len() / 4) + "\n"@
}

/// Decodes the code in `bytes`, four bytes at a time and in file order, into
/// one line for each instruction. Bytes behind the last whole group of four
/// are left out.
pub fn decode_section(bytes: &[u8]) -> (lines: Vec<DecodedLine>)
    ensures
        lines@.len() == bytes@.len() / 4,
        forall|i: int| 0 <= i < lines@.len() ==> (#[trigger] lines@[i]).is_line_of(bytes@, i),
{
    let count = bytes.len() / ARM64_INSTRUCTION_SIZE;
    let mut lines: Vec<DecodedLine> = Vec::new();
    let mut i: usize = 0;
    while i < count
        invariant
            i <= count,
            count == bytes@.len() / 4,
            4 * count <= bytes@.len() <= usize::MAX,
            lines@.len() == i,
            forall|j: int| 0 <= j < i ==> (#[trigger] lines@[j]).is_line_of(bytes@, j),
        decreases count - i,
    {
        let instruction = slice_subrange(bytes, 4 * i, 4 * i + 4);
        let mnemonic = decode_aarch64_instruction(instruction);
        let word = get_value::<u32>(Endianness::LittleEndian, instruction);
        lines.push(DecodedLine { index: i, word, mnemonic });
        i += 1;
    }
    lines
}

/// Appends the listing of the code in `bytes` to `output_string`.
pub fn print_aarch64_disassembly(bytes: &[u8], output_string: &mut String)
    ensures
        final(output_string)@ == old(output_string)@ + listing(bytes@),
{
    let lines = decode_section(bytes);
    let mut i: usize = 0;
    while i < lines.len()
        invariant
            i <= lines@.len(),
            lines@.len() == bytes@.len() / 4,
            forall|j: int| 0 <= j < lines@.len() ==> (#[trigger] lines@[j]).is_line_of(bytes@, j),
            output_string@ == old(output_string)@ + listing_lines(bytes@, i as nat),
        decreases lines@.len() - i,
    {
        let text = lines[i].render();
        output_string.append(text.as_str());
        proof {
            assert(lines@[i as int].is_line_of(bytes@, i as int));
            assert(text@ == listing_line(i as nat, word_at(bytes@, i as int)));
            assert(output_string@ =~= old(output_string)@ + listing_lines(bytes@, (i + 1) as nat));
        }
        i += 1;
    }
    output_string.append("\n");
    proof {
        assert(output_string@ =~= old(output_string)@ + listing(bytes@));
    }
}

/// A word whose bit 31 and bits 28-25 are all clear is reserved, whatever
/// its other bits hold.
pub proof fn lemma_reserved(word: u32)
    requires
        word >> 31 == 0,
        (word >> 25) & 0xF == 0,
    ensures
        encoding_group(word) == EncodingGroup::Reserved,
        instruction_text(word) == "reserved"@,
{
}

/// In the unsigned-immediate form of a load or store without the vector
/// bit, the size field takes the values 0 to 3; the byte offset shown is the
/// 12-bit immediate times 1, 2, 4 or 8 in turn; and the registers are shown
/// 32 bits wide for the sizes 0 to 2 and 64 bits wide for size 3.
pub proof fn lemma_unsigned_immediate_scaling(word: u32)
    requires
        (word >> 26) & 1 == 0,
    ensures
        ({
            let size = word >> 30;
            let name = load_store_mnemonic((word >> 22) & 0x3);
            let imm12 = (word >> 10) & 0xFFF;
            let rn = (word >> 5) & 0x1F;
            let rd = word & 0x1F;
            let text = register_unsigned_immediate_text(word);
            &&& size <= 3
            &&& imm12 <= 0xFFF
            &&& size == 0 ==> text == rd_rn_imm_offset_text(name, true, rd, rn, imm12)
            &&& size == 1 ==> text == rd_rn_imm_offset_text(name, true, rd, rn, (2 * imm12) as u32)
            &&& size == 2 ==> text == rd_rn_imm_offset_text(name, true, rd, rn, (4 * imm12) as u32)
            &&& size == 3 ==> text == rd_rn_imm_offset_text(name, false, rd, rn, (8 * imm12) as u32)
        }),
{
    let size = word >> 30;
    let imm12 = (word >> 10) & 0xFFF;
    assert(size <= 3) by (bit_vector)
        requires
            size == word >> 30,
    ;
    assert(imm12 <= 0xFFF) by (bit_vector)
        requires
            imm12 == (word >> 10) & 0xFFF,
    ;
    let scale = access_scale(size);
    if size == 0 {
        assert(imm12 * scale == imm12) by (nonlinear_arith)
            requires
                scale == 1,
        ;
    } else if size == 1 {
        assert(imm12 * scale == 2 * imm12) by (nonlinear_arith)
            requires
                scale == 2,
        ;
    } else if size == 2 {
        assert(imm12 * scale == 4 * imm12) by (nonlinear_arith)
            requires
                scale == 4,
        ;
    } else {
        assert(imm12 * scale == 8 * imm12) by (nonlinear_arith)
            requires
                scale == 8,
        ;
    }
}

} // verus!
