//! ELF64 header and section table, and from them the listing of the code
//! section.

pub mod aarch64_disassembler;
pub mod bit_pattern;

use crate::decode_byte::{decode, get_value, Endianness, FromBytes};
use crate::disassemble::aarch64_disassembler::{listing, print_aarch64_disassembly};
use crate::text::{hex, push_char, push_hex};
use vstd::prelude::*;
use vstd::slice::{slice_subrange, slice_to_vec};
use vstd::string::*;

verus! {

/// The first byte of every ELF file.
pub const ELF_MAGIC_NUMBER: u8 = 0x7F;

/// The word size that a file declares.
#[derive(Clone, Copy, Debug, PartialEq, Eq, Structural)]
pub enum BitFormat {
    Bit32,
    Bit64,
}

/// The operating-system convention that a file declares.
#[derive(Clone, Copy, Debug, PartialEq, Eq, Structural)]
pub enum OSAbi {
    Linux,
    SystemV,
    Unsupported,
}

/// The instruction set that a file declares.
#[derive(Clone, Copy, Debug, PartialEq, Eq, Structural)]
pub enum InstructionSet {
    Arm64,
    Unsupported,
}

/// Why a buffer is not the header of a supported file.
#[derive(Clone, Copy, Debug, PartialEq, Eq, Structural)]
pub enum HeaderError {
    /// Fewer than 64 bytes, or the magic number or the identity is wrong.
    InvalidHeader,
    /// The file is for 32-bit machines.
    Unsupported32Bit,
    /// The ABI byte, which is neither Linux's nor System V's.
    UnsupportedAbi(u8),
    /// The machine type, which is not AArch64's.
    UnsupportedInstructionSet(u16),
}

/// A section table that points outside the file.
#[derive(Clone, Copy, Debug, PartialEq, Eq, Structural)]
pub enum SectionError {
    /// A record, a name or a section's contents lie beyond the end of the
    /// data, or a name has no terminator.
    Truncated,
}

/// The field of `width` bytes at offset `at`, if the data reaches that far.
pub open spec fn field(data: Seq<u8>, endianness: Endianness, at: int, width: int) -> Option<int> {
    if 0 <= at && at + width <= data.len() {
        Some(decode(endianness, data.subrange(at, at + width)))
    } else {
        None
    }
}

/// The characters of the zero-terminated string that starts at `start`, one
/// for each byte; none where the data ends before a zero byte is met.
pub open spec fn terminated_string(data: Seq<u8>, start: int) -> Option<Seq<char>>
    decreases data.len() - start,
{
    if start < 0 || start >= data.len() {
        None
    } else if data[start] == 0 {
        Some(Seq::empty())
    } else {
        match terminated_string(data, start + 1) {
            Some(rest) => Some(seq![data[start] as char] + rest),
            None => None,
        }
    }
}

/// What a header holds: the file's bytes and the fields read from its first
/// 64 bytes.
pub struct ElfHeaderView {
    pub data: Seq<u8>,
    pub format: BitFormat,
    pub endianness: Endianness,
    pub abi: OSAbi,
    pub instruction_set: InstructionSet,
    pub section_header_offset: u64,
    pub section_header_entry_size: u16,
    pub section_header_entry_count: u16,
    pub section_header_names_index: u16,
}

/// The byte order that byte 5 of a header selects: little-endian for 1,
/// big-endian for every other value.
pub open spec fn header_endianness(bytes: Seq<u8>) -> Endianness {
    if bytes[5] == 1 {
        Endianness::LittleEndian
    } else {
        Endianness::BigEndian
    }
}

/// The machine type of a header of at least 64 bytes.
pub open spec fn header_machine(bytes: Seq<u8>) -> int {
    decode(header_endianness(bytes), bytes.subrange(0x12, 0x14))
}

/// The header that `bytes` start with, or the first check that fails.
pub open spec fn parsed_header(bytes: Seq<u8>) -> Result<ElfHeaderView, HeaderError> {
    if bytes.len() < 64 || bytes[0] != 0x7F || bytes[1] != 0x45 || bytes[2] != 0x4C || bytes[3]
        != 0x46 {
        Err(HeaderError::InvalidHeader)
    } else if bytes[4] == 1 {
        Err(HeaderError::Unsupported32Bit)
    } else if bytes[7] != 0x03 && bytes[7] != 0x00 {
        Err(HeaderError::UnsupportedAbi(bytes[7]))
    } else if header_machine(bytes) != 0xB7 {
        Err(HeaderError::UnsupportedInstructionSet(header_machine(bytes) as u16))
    } else {
        let endianness = header_endianness(bytes);
        Ok(
            (ElfHeaderView {
                data: bytes,
                format: BitFormat::Bit64,
                endianness,
                abi: if bytes[7] == 0x03 {
                    OSAbi::Linux
                } else {
                    OSAbi::SystemV
                },
                instruction_set: InstructionSet::Arm64,
                section_header_offset: decode(endianness, bytes.subrange(0x28, 0x30)) as u64,
                section_header_entry_size: decode(endianness, bytes.subrange(0x3A, 0x3C)) as u16,
                section_header_entry_count: decode(endianness, bytes.subrange(0x3C, 0x3E)) as u16,
                section_header_names_index: decode(endianness, bytes.subrange(0x3E, 0x40)) as u16,
            }),
        )
    }
}

impl HeaderError {
    /// The diagnostic for this error.
    pub open spec fn message_text(self) -> Seq<char> {
        match self {
            HeaderError::InvalidHeader => "invalid header"@,
            HeaderError::Unsupported32Bit => "currently unsupported on 32 bit systems"@,
            HeaderError::UnsupportedAbi(abi) => "unsupported abi "@ + hex(abi as nat, 2),
            HeaderError::UnsupportedInstructionSet(machine) => "unsupported instruction set "@
                + hex(machine as nat, 4),
        }
    }

    /// The diagnostic for this error; the offending value in upper-case
    /// hexadecimal digits.
    pub fn message(&self) -> (text: String)
        ensures
            text@ == self.message_text(),
    {
        match self {
            HeaderError::InvalidHeader => String::from_str("invalid header"),
            HeaderError::Unsupported32Bit => String::from_str(
                "currently unsupported on 32 bit systems",
            ),
            HeaderError::UnsupportedAbi(abi) => {
                let mut text = String::from_str("unsupported abi ");
                push_hex(&mut text, *abi as u64, 2);
                text
            },
            HeaderError::UnsupportedInstructionSet(machine) => {
                let mut text = String::from_str("unsupported instruction set ");
                push_hex(&mut text, *machine as u64, 4);
                text
            },
        }
    }
}

impl SectionError {
    /// The diagnostic for this error.
    pub open spec fn message_text(self) -> Seq<char> {
        "truncated or corrupt section table"@
    }

    /// The diagnostic for this error.
    pub fn message(&self) -> (text: String)
        ensures
            text@ == self.message_text(),
    {
        String::from_str("truncated or corrupt section table")
    }
}

impl ElfHeaderView {
    /// Where the record of section `index` starts in the file.
    pub open spec fn section_header_offset(self, index: int) -> int {
        self.section_header_offset + index * self.section_header_entry_size
    }

    /// The field of `width` bytes at offset `at` of the record of section
    /// `index`.
    pub open spec fn section_field(self, index: int, at: int, width: int) -> Option<int> {
        field(self.data, self.endianness, self.section_header_offset(index) + at, width)
    }

    /// Where the contents of the section that holds the section names start.
    pub open spec fn string_table_offset(self) -> Option<int> {
        self.section_field(self.section_header_names_index as int, 0x18, 8)
    }

    /// The section name that starts `offset` bytes into the name table.
    pub open spec fn string_from_shstrtab(self, offset: int) -> Option<Seq<char>> {
        match self.string_table_offset() {
            Some(table) => terminated_string(self.data, table + offset),
            None => None,
        }
    }

    /// The name of section `index`.
    pub open spec fn section_name(self, index: int) -> Option<Seq<char>> {
        match self.section_field(index, 0x00, 4) {
            Some(offset) => self.string_from_shstrtab(offset),
            None => None,
        }
    }

    /// File offset and size of the contents of section `index`.
    pub open spec fn section_range(self, index: int) -> Option<(u64, u64)> {
        match (self.section_field(index, 0x18, 8), self.section_field(index, 0x20, 8)) {
            (Some(offset), Some(size)) => Some((offset as u64, size as u64)),
            _ => None,
        }
    }

    /// Section `index` seen as a candidate for the code section: its range
    /// where its name is `.text`, nothing where it has another name, an
    /// error where its record or its name cannot be read.
    pub open spec fn code_section_at(self, index: int) -> Result<Option<(u64, u64)>, SectionError> {
        match self.section_name(index) {
            None => Err(SectionError::Truncated),
            Some(name) => if name != ".text"@ {
                Ok(None)
            } else {
                match self.section_range(index) {
                    Some(range) => Ok(Some(range)),
                    None => Err(SectionError::Truncated),
                }
            },
        }
    }

    /// The search for the code section among the sections from `index` on.
    pub open spec fn find_code_section_from(self, index: int) -> Result<
        Option<(u64, u64)>,
        SectionError,
    >
        decreases self.section_header_entry_count - index,
    {
        if index >= self.section_header_entry_count {
            Ok(None)
        } else {
            match self.code_section_at(index) {
                Ok(None) => self.find_code_section_from(index + 1),
                found => found,
            }
        }
    }

    /// The first section named `.text`, by file offset and size; nothing
    /// where no section has that name.
    pub open spec fn find_code_section(self) -> Result<Option<(u64, u64)>, SectionError> {
        self.find_code_section_from(0)
    }

    /// The text written for a code section at the given file offset and of
    /// the given size: a heading and the listing of its instructions.
    pub open spec fn section_code(self, range: (u64, u64)) -> Result<Seq<char>, SectionError> {
        if range.0 + range.1 <= self.data.len() {
            Ok("section .text\n"@ + listing(self.data.subrange(range.0 as int, range.0 + range.1)))
        } else {
            Err(SectionError::Truncated)
        }
    }

    /// The text written for section `index`: that of a code section, or
    /// nothing where the section has another name.
    pub open spec fn section_code_at(self, index: int) -> Result<Seq<char>, SectionError> {
        match self.code_section_at(index) {
            Err(e) => Err(e),
            Ok(None) => Ok(Seq::empty()),
            Ok(Some(range)) => self.section_code(range),
        }
    }

    /// The text written for the whole file: that of its code section, or
    /// nothing where it has none.
    pub open spec fn disassembly(self) -> Result<Seq<char>, SectionError> {
        match self.find_code_section() {
            Err(e) => Err(e),
            Ok(None) => Ok(Seq::empty()),
            Ok(Some(range)) => self.section_code(range),
        }
    }
}

/// Reads the field of `width` bytes at offset `at`, if the data reaches that
/// far.
fn read_field<T: FromBytes>(data: &[u8], endianness: Endianness, at: u128, width: usize) -> (value:
    Option<T>)
    requires
        width == T::width(),
    ensures
        match value {
            Some(v) => field(data@, endianness, at as int, width as int) == Some(v.number()),
            None => field(data@, endianness, at as int, width as int).is_none(),
        },
{
    let len = data.len();
    if width > len || at > (len - width) as u128 {
        return None;
    }
    let start = at as usize;
    Some(get_value::<T>(endianness, slice_subrange(data, start, start + width)))
}

/// The validated header of an ELF64 file for AArch64, together with the
/// file's bytes.
pub struct ElfHeader {
    data: Vec<u8>,
    format: BitFormat,
    endianness: Endianness,
    abi: OSAbi,
    instruction_set: InstructionSet,
    section_header_offset: u64,
    section_header_entry_size: u16,
    section_header_entry_count: u16,
    section_header_names_index: u16,
}

impl View for ElfHeader {
    type V = ElfHeaderView;

    closed spec fn view(&self) -> ElfHeaderView {
        ElfHeaderView {
            data: self.data@,
            format: self.format,
            endianness: self.endianness,
            abi: self.abi,
            instruction_set: self.instruction_set,
            section_header_offset: self.section_header_offset,
            section_header_entry_size: self.section_header_entry_size,
            section_header_entry_count: self.section_header_entry_count,
            section_header_names_index: self.section_header_names_index,
        }
    }
}

impl ElfHeader {
    /// A header's fields are those that its own bytes parse to.
    #[verifier::type_invariant]
    spec fn consistent(self) -> bool {
        parsed_header(self.data@) == Ok::<ElfHeaderView, HeaderError>(self@)
    }

    /// The bytes of the file. Every header is the result of parsing the
    /// bytes it holds.
    pub fn data(&self) -> (bytes: &[u8])
        ensures
            bytes@ == self@.data,
            parsed_header(bytes@) == Ok::<ElfHeaderView, HeaderError>(self@),
    {
        proof {
            use_type_invariant(self);
        }
        self.data.as_slice()
    }

    /// The word size that the file declares.
    pub fn format(&self) -> (format: BitFormat)
        ensures
            format == self@.format,
    {
        self.format
    }

    /// The byte order of the file's fields.
    pub fn endianness(&self) -> (endianness: Endianness)
        ensures
            endianness == self@.endianness,
    {
        self.endianness
    }

    /// The ABI that the file declares.
    pub fn abi(&self) -> (abi: OSAbi)
        ensures
            abi == self@.abi,
    {
        self.abi
    }

    /// The instruction set of the file's code.
    pub fn instruction_set(&self) -> (instruction_set: InstructionSet)
        ensures
            instruction_set == self@.instruction_set,
    {
        self.instruction_set
    }

    /// Where the section table starts in the file.
    pub fn section_table_offset(&self) -> (offset: u64)
        ensures
            offset == self@.section_header_offset,
    {
        self.section_header_offset
    }

    /// The size of one record of the section table.
    pub fn section_header_entry_size(&self) -> (size: u16)
        ensures
            size == self@.section_header_entry_size,
    {
        self.section_header_entry_size
    }

    /// The number of records in the section table.
    pub fn section_header_entry_count(&self) -> (count: u16)
        ensures
            count == self@.section_header_entry_count,
    {
        self.section_header_entry_count
    }

    /// The index of the section that holds the section names.
    pub fn section_header_names_index(&self) -> (index: u16)
        ensures
            index == self@.section_header_names_index,
    {
        self.section_header_names_index
    }

    /// Validates the first 64 bytes of `bytes` and reads the geometry of the
    /// section table from them. The checks are made in a fixed order, and the
    /// first that fails gives the error.
    pub fn parse(bytes: &[u8]) -> (result: Result<ElfHeader, HeaderError>)
        ensures
            match result {
                Ok(header) => parsed_header(bytes@) == Ok::<ElfHeaderView, HeaderError>(header@),
                Err(e) => parsed_header(bytes@) == Err::<ElfHeaderView, HeaderError>(e),
            },
    {
        if bytes.len() < 64 {
            return Err(HeaderError::InvalidHeader);
        }
        if bytes[0] != ELF_MAGIC_NUMBER {
            return Err(HeaderError::InvalidHeader);
        }
        if bytes[1] != 0x45 || bytes[2] != 0x4C || bytes[3] != 0x46 {
            return Err(HeaderError::InvalidHeader);
        }
        let format = if bytes[4] == 1 {
            BitFormat::Bit32
        } else {
            BitFormat::Bit64
        };
        if let BitFormat::Bit32 = format {
            return Err(HeaderError::Unsupported32Bit);
        }
        let endianness = if bytes[5] == 1 {
            Endianness::LittleEndian
        } else {
            Endianness::BigEndian
        };
        let abi = match bytes[7] {
            0x03 => OSAbi::Linux,
            0x00 => OSAbi::SystemV,
            _ => OSAbi::Unsupported,
        };
        if let OSAbi::Unsupported = abi {
            return Err(HeaderError::UnsupportedAbi(bytes[7]));
        }
        let value = get_value::<u16>(endianness, slice_subrange(bytes, 0x12, 0x12 + 2));
        if value != 0xB7 {
            return Err(HeaderError::UnsupportedInstructionSet(value));
        }
        let section_header_offset = get_value::<u64>(
            endianness,
            slice_subrange(bytes, 0x28, 0x28 + 8),
        );
        let section_header_entry_size = get_value::<u16>(
            endianness,
            slice_subrange(bytes, 0x3A, 0x3A + 2),
        );
        let section_header_entry_count = get_value::<u16>(
            endianness,
            slice_subrange(bytes, 0x3C, 0x3C + 2),
        );
        let section_header_names_index = get_value::<u16>(
            endianness,
            slice_subrange(bytes, 0x3E, 0x3E + 2),
        );
        Ok(
            ElfHeader {
                data: slice_to_vec(bytes),
                format,
                endianness,
                abi,
                instruction_set: InstructionSet::Arm64,
                section_header_offset,
                section_header_entry_size,
                section_header_entry_count,
                section_header_names_index,
            },
        )
    }

    /// Parses `bytes` as `parse` does. Where they are refused, the
    /// diagnostic is appended to `output_string` as one line and no header
    /// is returned.
    pub fn new(bytes: &[u8], output_string: &mut String) -> (header: Option<ElfHeader>)
        ensures
            match parsed_header(bytes@) {
                Ok(view) => header.is_some() && header.unwrap()@ == view && final(output_string)@
                    == old(output_string)@,
                Err(e) => header.is_none() && final(output_string)@ == old(output_string)@
                    + e.message_text() + "\n"@,
            },
    {
        match ElfHeader::parse(bytes) {
            Ok(header) => Some(header),
            Err(e) => {
                output_string.append(e.message().as_str());
                output_string.append("\n");
                None
            },
        }
    }

    /// Where the record of section `index` starts in the file: the start of
    /// the table, and `index` records further.
    pub fn section_header_offset(&self, index: usize) -> (offset: u128)
        ensures
            offset == self@.section_header_offset(index as int),
            offset < 0x1_0001_0000_0000_0000_0000,
    {
        assert(index * self.section_header_entry_size <= 0x1_0000_0000_0000_0000 * 0x1_0000)
            by (nonlinear_arith)
            requires
                0 <= index <= 0x1_0000_0000_0000_0000,
                0 <= self.section_header_entry_size <= 0x1_0000,
        ;
        self.section_header_offset as u128 + index as u128 * (self.section_header_entry_size as u128)
    }

    /// The section name that starts `offset` bytes into the table of section
    /// names: the bytes up to the next zero byte, each as one character.
    pub fn string_from_shstrtab(&self, offset: usize) -> (name: Result<String, SectionError>)
        ensures
            match name {
                Ok(s) => self@.string_from_shstrtab(offset as int) == Some(s@),
                Err(e) => self@.string_from_shstrtab(offset as int).is_none(),
            },
    {
        let record = self.section_header_offset(self.section_header_names_index as usize);
        let table = match read_field::<u64>(self.data.as_slice(), self.endianness, record + 0x18, 8) {
            Some(table) => table,
            None => {
                return Err(SectionError::Truncated);
            },
        };
        let len = self.data.len();
        let start: u128 = table as u128 + offset as u128;
        if start >= len as u128 {
            return Err(SectionError::Truncated);
        }
        let mut name = String::new();
        let mut i: usize = start as usize;
        while i < len
            invariant
                start <= i <= len,
                len == self.data@.len(),
                start == table + offset,
                self@.string_table_offset() == Some(table as int),
                terminated_string(self.data@, start as int) == match terminated_string(
                    self.data@,
                    i as int,
                ) {
                    Some(rest) => Some(name@ + rest),
                    None => None,
                },
            decreases len - i,
        {
            let byte = self.data[i];
            if byte == 0 {
                proof {
                    assert(name@ + Seq::<char>::empty() =~= name@);
                }
                return Ok(name);
            }
            let ghost before = name@;
            push_char(&mut name, byte as char);
            proof {
                match terminated_string(self.data@, i + 1) {
                    Some(rest) => {
                        assert(before + (seq![byte as char] + rest) =~= name@ + rest);
                    },
                    None => {},
                }
            }
            i += 1;
        }
        Err(SectionError::Truncated)
    }

    /// Looks at section `header_index` as a candidate for the code section.
    pub fn code_section_at(&self, header_index: usize) -> (found: Result<
        Option<(u64, u64)>,
        SectionError,
    >)
        ensures
            found == self@.code_section_at(header_index as int),
    {
        let record = self.section_header_offset(header_index);
        let data = self.data.as_slice();
        let name_offset = match read_field::<u32>(data, self.endianness, record, 4) {
            Some(name_offset) => name_offset,
            None => {
                return Err(SectionError::Truncated);
            },
        };
        let name = match self.string_from_shstrtab(name_offset as usize) {
            Ok(name) => name,
            Err(e) => {
                return Err(e);
            },
        };
        if name != String::from_str(".text") {
            return Ok(None);
        }
        let section_offset = read_field::<u64>(data, self.endianness, record + 0x18, 8);
        let section_size = read_field::<u64>(data, self.endianness, record + 0x20, 8);
        match (section_offset, section_size) {
            (Some(offset), Some(size)) => Ok(Some((offset, size))),
            _ => Err(SectionError::Truncated),
        }
    }

    /// Finds the first section named `.text` and returns the file offset and
    /// the size of its contents; nothing where no section has that name.
    pub fn find_code_section(&self) -> (found: Result<Option<(u64, u64)>, SectionError>)
        ensures
            found == self@.find_code_section(),
    {
        let mut i: u16 = 0;
        while i < self.section_header_entry_count
            invariant
                i <= self.section_header_entry_count,
                self@.find_code_section() == self@.find_code_section_from(i as int),
            decreases self.section_header_entry_count - i,
        {
            match self.code_section_at(i as usize) {
                Ok(None) => {},
                found => {
                    return found;
                },
            }
            i += 1;
        }
        Ok(None)
    }

    /// Appends the heading and the listing of the code section that is
    /// `size` bytes long and starts at `offset`.
    fn write_section_code(&self, offset: u64, size: u64, output_string: &mut String) -> (result:
        Result<(), SectionError>)
        ensures
            match self@.section_code((offset, size)) {
                Ok(text) => result.is_ok() && final(output_string)@ == old(output_string)@ + text,
                Err(e) => result == Err::<(), SectionError>(e) && final(output_string)@ == old(
                    output_string,
                )@,
            },
    {
        let len = self.data.len();
        if offset as u128 + size as u128 > len as u128 {
            return Err(SectionError::Truncated);
        }
        let code = slice_subrange(self.data.as_slice(), offset as usize, (offset + size) as usize);
        output_string.append("section .text\n");
        print_aarch64_disassembly(code, output_string);
        proof {
            assert(final(output_string)@ =~= old(output_string)@ + ("section .text\n"@ + listing(
                code@,
            )));
        }
        Ok(())
    }

    /// Appends the heading and the listing of section `header_index` to
    /// `output_string` where that section is named `.text`, and nothing
    /// where it has another name.
    pub fn dump_section_code(&self, header_index: usize, output_string: &mut String) -> (result:
        Result<(), SectionError>)
        ensures
            match self@.section_code_at(header_index as int) {
                Ok(text) => result.is_ok() && final(output_string)@ == old(output_string)@ + text,
                Err(e) => result == Err::<(), SectionError>(e) && final(output_string)@ == old(
                    output_string,
                )@,
            },
    {
        match self.code_section_at(header_index) {
            Err(e) => Err(e),
            Ok(None) => {
                proof {
                    assert(old(output_string)@ + Seq::<char>::empty() =~= old(output_string)@);
                }
                Ok(())
            },
            Ok(Some(range)) => self.write_section_code(range.0, range.1, output_string),
        }
    }

    /// Appends the listing of the file's code section to `output_string`:
    /// a heading, one line for each instruction, and an empty line. A file
    /// without a code section adds nothing, and neither does one whose
    /// section table cannot be read, which gives the error.
    pub fn dump_disassembly(&self, output_string: &mut String) -> (result: Result<
        (),
        SectionError,
    >)
        ensures
            match self@.disassembly() {
                Ok(text) => result.is_ok() && final(output_string)@ == old(output_string)@ + text,
                Err(e) => result == Err::<(), SectionError>(e) && final(output_string)@ == old(
                    output_string,
                )@,
            },
    {
        match self.find_code_section() {
            Err(e) => Err(e),
            Ok(None) => {
                proof {
                    assert(old(output_string)@ + Seq::<char>::empty() =~= old(output_string)@);
                }
                Ok(())
            },
            Ok(Some(range)) => self.write_section_code(range.0, range.1, output_string),
        }
    }
}

/// A buffer is refused exactly when it is shorter than 64 bytes, or does not
/// start with the magic number and the identity, or declares 32-bit words,
/// or an ABI other than Linux and System V, or a machine type other than
/// AArch64's; and each of these is refused with its own error.
pub proof fn lemma_rejected_headers(bytes: Seq<u8>)
    ensures
        parsed_header(bytes).is_err() <==> (bytes.len() < 64 || bytes[0] != 0x7F || bytes[1] != 0x45
            || bytes[2] != 0x4C || bytes[3] != 0x46 || bytes[4] == 1 || (bytes[7] != 0x00
            && bytes[7] != 0x03) || header_machine(bytes) != 0xB7),
        bytes.len() < 64 ==> parsed_header(bytes) == Err::<ElfHeaderView, HeaderError>(
            HeaderError::InvalidHeader,
        ),
        parsed_header(bytes).is_ok() ==> parsed_header(bytes).unwrap().data == bytes,
{
}

/// The search from `index` on finds nothing where every section from there
/// on has a name that can be read and is not `.text`.
proof fn lemma_no_code_section_from(header: ElfHeaderView, index: int)
    requires
        0 <= index,
        forall|i: int|
            index <= i < header.section_header_entry_count ==> header.code_section_at(i) == Ok::<
                Option<(u64, u64)>,
                SectionError,
            >(None),
    ensures
        header.find_code_section_from(index) == Ok::<Option<(u64, u64)>, SectionError>(None),
    decreases header.section_header_entry_count - index,
{
    if index < header.section_header_entry_count {
        lemma_no_code_section_from(header, index + 1);
    }
}

/// Where every section has a name other than `.text`, no code section is
/// found and nothing is written for the file.
pub proof fn lemma_no_code_section(header: ElfHeaderView)
    requires
        forall|i: int|
            0 <= i < header.section_header_entry_count ==> (#[trigger] header.section_name(
                i,
            )).is_some() && header.section_name(i).unwrap() != ".text"@,
    ensures
        header.find_code_section() == Ok::<Option<(u64, u64)>, SectionError>(None),
        header.disassembly() == Ok::<Seq<char>, SectionError>(Seq::empty()),
{
    assert forall|i: int| 0 <= i < header.section_header_entry_count implies header.code_section_at(
        i,
    ) == Ok::<Option<(u64, u64)>, SectionError>(None) by {
        assert(header.section_name(i).is_some());
    }
    lemma_no_code_section_from(header, 0);
}

/// The search from `index` on stops at section `first` where the sections
/// between the two have names that can be read and are not `.text`.
proof fn lemma_first_code_section_from(header: ElfHeaderView, index: int, first: int)
    requires
        0 <= index <= first < header.section_header_entry_count,
        forall|i: int|
            index <= i < first ==> header.code_section_at(i) == Ok::<
                Option<(u64, u64)>,
                SectionError,
            >(None),
        header.section_name(first) == Some(".text"@),
    ensures
        header.find_code_section_from(index) == header.code_section_at(first),
    decreases first - index,
{
    if index < first {
        lemma_first_code_section_from(header, index + 1, first);
    }
}

/// The code section is the first section named `.text`: where the sections
/// before section `first` have other names and that section has this one,
/// the search gives its file offset and size as its record holds them, and
/// an error where the record cannot be read.
pub proof fn lemma_first_code_section(header: ElfHeaderView, first: int)
    requires
        0 <= first < header.section_header_entry_count,
        forall|i: int|
            0 <= i < first ==> (#[trigger] header.section_name(i)).is_some()
                && header.section_name(i).unwrap() != ".text"@,
        header.section_name(first) == Some(".text"@),
    ensures
        header.find_code_section() == match header.section_range(first) {
            Some(range) => Ok::<Option<(u64, u64)>, SectionError>(Some(range)),
            None => Err::<Option<(u64, u64)>, SectionError>(SectionError::Truncated),
        },
{
    assert forall|i: int| 0 <= i < first implies header.code_section_at(i) == Ok::<
        Option<(u64, u64)>,
        SectionError,
    >(None) by {
        assert(header.section_name(i).is_some());
    }
    lemma_first_code_section_from(header, 0, first);
}

} // verus!
