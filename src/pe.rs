//! Import table of a PE image held in memory: the list of DLL names that the
//! image imports, lowercased, sorted and without duplicates.
use vstd::prelude::*;
use crate::order::{insert_sorted, strictly_sorted, views};
use crate::text::{lower_char, string_of};

verus! {

/// One entry of the section table.
#[derive(Clone, Copy)]
pub struct Section {
    pub virtual_address: u32,
    pub virtual_size: u32,
    pub raw_data_ptr: u32,
    pub raw_data_size: u32,
}

/// What the PE headers give the import reader.
pub struct PeLayout {
    pub import_rva: u32,
    pub sections: Vec<Section>,
}

/// Why a byte buffer is not a readable PE image.
#[derive(Clone, Copy, Debug, PartialEq, Eq, Structural)]
pub enum PeError {
    TooSmallForDosHeader,
    MissingMz,
    InvalidPeOffset,
    MissingPeSignature,
    TruncatedOptionalHeader,
    OptionalHeaderTooSmall,
    UnsupportedMagic,
    MissingDataDirectories,
    TruncatedSectionTable,
    InvalidImportRva,
    TruncatedDescriptorTable,
    InvalidNameRva,
    NameOutOfBounds,
    UnterminatedName,
    NameNotAscii,
    UnexpectedEof,
}

/// Little-endian 16-bit value at `off`.
pub open spec fn u16_at(d: Seq<u8>, off: int) -> int {
    d[off] as int + d[off + 1] as int * 256
}

/// Little-endian 32-bit value at `off`.
pub open spec fn u32_at(d: Seq<u8>, off: int) -> int {
    d[off] as int + d[off + 1] as int * 256 + d[off + 2] as int * 65536 + d[off + 3] as int
        * 16777216
}

/// The section-table entry that starts at `base`.
pub open spec fn section_at(d: Seq<u8>, base: int) -> Section {
    Section {
        virtual_size: u32_at(d, base + 8) as u32,
        virtual_address: u32_at(d, base + 12) as u32,
        raw_data_size: u32_at(d, base + 16) as u32,
        raw_data_ptr: u32_at(d, base + 20) as u32,
    }
}

/// Offset of the optional header's data directories for a known magic.
pub open spec fn data_dir_rel(magic: int) -> int {
    if magic == 0x010B {
        96
    } else {
        112
    }
}

/// The import-directory RVA and the section table, or why the headers are unreadable.
pub open spec fn spec_layout(d: Seq<u8>) -> Result<(u32, Seq<Section>), PeError> {
    if d.len() < 0x40 {
        Err(PeError::TooSmallForDosHeader)
    } else if d[0] != 0x4D || d[1] != 0x5A {
        Err(PeError::MissingMz)
    } else {
        let pe = u32_at(d, 0x3C);
        if pe + 24 > d.len() {
            Err(PeError::InvalidPeOffset)
        } else if !(d[pe] == 0x50 && d[pe + 1] == 0x45 && d[pe + 2] == 0 && d[pe + 3] == 0) {
            Err(PeError::MissingPeSignature)
        } else {
            let nsec = u16_at(d, pe + 6);
            let sopt = u16_at(d, pe + 20);
            let opt = pe + 24;
            if opt + sopt > d.len() {
                Err(PeError::TruncatedOptionalHeader)
            } else if sopt < 2 {
                Err(PeError::OptionalHeaderTooSmall)
            } else if u16_at(d, opt) != 0x010B && u16_at(d, opt) != 0x020B {
                Err(PeError::UnsupportedMagic)
            } else if data_dir_rel(u16_at(d, opt)) + 16 > sopt {
                Err(PeError::MissingDataDirectories)
            } else if opt + sopt + nsec * 40 > d.len() {
                Err(PeError::TruncatedSectionTable)
            } else {
                Ok(
                    (
                        u32_at(d, opt + data_dir_rel(u16_at(d, opt)) + 8) as u32,
                        Seq::new(nsec as nat, |i: int| section_at(d, opt + sopt + i * 40)),
                    ),
                )
            }
        }
    }
}

/// `rva` falls in the section's virtual range; the end of the range saturates at `u32::MAX`.
pub open spec fn section_contains(s: Section, rva: u32) -> bool {
    let size = if s.virtual_size >= s.raw_data_size {
        s.virtual_size
    } else {
        s.raw_data_size
    };
    let end = if s.virtual_address + size > u32::MAX {
        u32::MAX as int
    } else {
        s.virtual_address + size
    };
    s.virtual_address <= rva && rva < end
}

/// File offset of `rva` by the first section from index `i` on that contains it;
/// none where that offset does not fit in 32 bits.
pub open spec fn rva_offset_from(rva: u32, secs: Seq<Section>, i: int) -> Option<int>
    decreases secs.len() - i,
{
    if i < 0 || i >= secs.len() {
        None
    } else if section_contains(secs[i], rva) {
        let v = secs[i].raw_data_ptr + (rva - secs[i].virtual_address);
        if v <= u32::MAX {
            Some(v)
        } else {
            None
        }
    } else {
        rva_offset_from(rva, secs, i + 1)
    }
}

/// Index of the first zero byte at or after `i`, or the length.
pub open spec fn nul_from(d: Seq<u8>, i: int) -> int
    decreases d.len() - i,
{
    if i < 0 || i >= d.len() {
        d.len() as int
    } else if d[i] == 0 {
        i
    } else {
        nul_from(d, i + 1)
    }
}

/// The NUL-terminated 7-bit string at `off`.
pub open spec fn c_string(d: Seq<u8>, off: int) -> Result<Seq<u8>, PeError> {
    if off < 0 || off >= d.len() {
        Err(PeError::NameOutOfBounds)
    } else if nul_from(d, off) == d.len() {
        Err(PeError::UnterminatedName)
    } else if exists|k: int| off <= k < nul_from(d, off) && d[k] >= 0x80 {
        Err(PeError::NameNotAscii)
    } else {
        Ok(d.subrange(off, nul_from(d, off)))
    }
}

/// An import name as lowercase characters.
pub open spec fn lower_name(b: Seq<u8>) -> Seq<char> {
    b.map_values(|x: u8| lower_char(x as char))
}

/// The 20 bytes of the descriptor at `off` are all zero.
pub open spec fn descriptor_is_zero(d: Seq<u8>, off: int) -> bool {
    forall|k: int| off <= k < off + 20 ==> d[k] == 0
}

/// Import names of the descriptors from `off` up to the all-zero one, in table order.
pub open spec fn import_walk(d: Seq<u8>, secs: Seq<Section>, off: int) -> Result<Seq<Seq<char>>, PeError>
    decreases d.len() - off,
{
    if off < 0 || off + 20 > d.len() {
        Err(PeError::TruncatedDescriptorTable)
    } else if descriptor_is_zero(d, off) {
        Ok(Seq::empty())
    } else {
        match rva_offset_from(u32_at(d, off + 12) as u32, secs, 0) {
            None => Err(PeError::InvalidNameRva),
            Some(name_off) => match c_string(d, name_off) {
                Err(e) => Err(e),
                Ok(name) => match import_walk(d, secs, off + 20) {
                    Err(e) => Err(e),
                    Ok(rest) => Ok(seq![lower_name(name)] + rest),
                },
            },
        }
    }
}

/// The imported DLL names of an image, in table order and with repeats, or why
/// the image cannot be read.
pub open spec fn spec_imports(d: Seq<u8>) -> Result<Seq<Seq<char>>, PeError> {
    match spec_layout(d) {
        Err(e) => Err(e),
        Ok((rva, secs)) => if rva == 0 {
            Ok(Seq::empty())
        } else {
            match rva_offset_from(rva, secs, 0) {
                None => Err(PeError::InvalidImportRva),
                Some(off) => import_walk(d, secs, off),
            }
        },
    }
}

/// `v`'s strings are the set `names`, each once, in increasing order.
pub open spec fn is_sorted_set_of(v: Seq<String>, names: Seq<Seq<char>>) -> bool {
    let s = v.map_values(|x: String| x@);
    &&& strictly_sorted(s)
    &&& s.to_set() == names.to_set()
}

/// The message that reports `e`.
pub open spec fn pe_error_text(e: PeError) -> Seq<char> {
    match e {
        PeError::TooSmallForDosHeader => "file too small for DOS header"@,
        PeError::MissingMz => "missing MZ header"@,
        PeError::InvalidPeOffset => "invalid PE header offset"@,
        PeError::MissingPeSignature => "missing PE signature"@,
        PeError::TruncatedOptionalHeader => "truncated optional header"@,
        PeError::OptionalHeaderTooSmall => "optional header too small"@,
        PeError::UnsupportedMagic => "unsupported optional header format"@,
        PeError::MissingDataDirectories => "optional header missing data directories"@,
        PeError::TruncatedSectionTable => "truncated section table"@,
        PeError::InvalidImportRva => "invalid import table RVA"@,
        PeError::TruncatedDescriptorTable => "truncated import descriptor table"@,
        PeError::InvalidNameRva => "invalid import name RVA"@,
        PeError::NameOutOfBounds => "string offset out of bounds"@,
        PeError::UnterminatedName => "unterminated import string"@,
        PeError::NameNotAscii => "import name is not valid 7-bit text"@,
        PeError::UnexpectedEof => "unexpected EOF"@,
    }
}

impl PeError {
    /// The message that reports this error.
    pub fn message(&self) -> (r: String)
        ensures
            r@ == pe_error_text(*self),
    {
        let s = match self {
            PeError::TooSmallForDosHeader => "file too small for DOS header",
            PeError::MissingMz => "missing MZ header",
            PeError::InvalidPeOffset => "invalid PE header offset",
            PeError::MissingPeSignature => "missing PE signature",
            PeError::TruncatedOptionalHeader => "truncated optional header",
            PeError::OptionalHeaderTooSmall => "optional header too small",
            PeError::UnsupportedMagic => "unsupported optional header format",
            PeError::MissingDataDirectories => "optional header missing data directories",
            PeError::TruncatedSectionTable => "truncated section table",
            PeError::InvalidImportRva => "invalid import table RVA",
            PeError::TruncatedDescriptorTable => "truncated import descriptor table",
            PeError::InvalidNameRva => "invalid import name RVA",
            PeError::NameOutOfBounds => "string offset out of bounds",
            PeError::UnterminatedName => "unterminated import string",
            PeError::NameNotAscii => "import name is not valid 7-bit text",
            PeError::UnexpectedEof => "unexpected EOF",
        };
        s.to_owned()
    }
}

/// Little-endian 16-bit value at `offset`.
pub fn read_u16(data: &[u8], offset: usize) -> (r: Result<u16, PeError>)
    ensures
        offset + 2 <= data@.len() ==> r == Ok::<u16, PeError>(u16_at(data@, offset as int) as u16),
        offset + 2 > data@.len() ==> r == Err::<u16, PeError>(PeError::UnexpectedEof),
{
    if offset > data.len() || data.len() - offset < 2 {
        return Err(PeError::UnexpectedEof);
    }
    Ok(data[offset] as u16 + (data[offset + 1] as u16) * 256)
}

/// Little-endian 32-bit value at `offset`.
pub fn read_u32(data: &[u8], offset: usize) -> (r: Result<u32, PeError>)
    ensures
        offset + 4 <= data@.len() ==> r == Ok::<u32, PeError>(u32_at(data@, offset as int) as u32),
        offset + 4 > data@.len() ==> r == Err::<u32, PeError>(PeError::UnexpectedEof),
{
    if offset > data.len() || data.len() - offset < 4 {
        return Err(PeError::UnexpectedEof);
    }
    Ok(
        data[offset] as u32 + (data[offset + 1] as u32) * 256 + (data[offset + 2] as u32) * 65536
            + (data[offset + 3] as u32) * 16777216,
    )
}

} // verus!

verus! {

/// Reads the PE headers: the import-directory RVA and the section table.
pub fn parse_pe_layout(data: &[u8]) -> (r: Result<PeLayout, PeError>)
    ensures
        match spec_layout(data@) {
            Ok((rva, secs)) => r matches Ok(l) && l.import_rva == rva && l.sections@ == secs,
            Err(e) => r == Err::<PeLayout, PeError>(e),
        },
{
    let len = data.len();
    if len < 0x40 {
        return Err(PeError::TooSmallForDosHeader);
    }
    if data[0] != 0x4D || data[1] != 0x5A {
        return Err(PeError::MissingMz);
    }
    let pe_offset = match read_u32(data, 0x3C) {
        Ok(v) => v as usize,
        Err(e) => return Err(e),
    };
    if pe_offset > len - 24 {
        return Err(PeError::InvalidPeOffset);
    }
    if !(data[pe_offset] == 0x50 && data[pe_offset + 1] == 0x45 && data[pe_offset + 2] == 0
        && data[pe_offset + 3] == 0) {
        return Err(PeError::MissingPeSignature);
    }
    let number_of_sections = match read_u16(data, pe_offset + 6) {
        Ok(v) => v as usize,
        Err(e) => return Err(e),
    };
    let size_of_optional_header = match read_u16(data, pe_offset + 20) {
        Ok(v) => v as usize,
        Err(e) => return Err(e),
    };
    let optional_header_off = pe_offset + 24;
    if size_of_optional_header > len - optional_header_off {
        return Err(PeError::TruncatedOptionalHeader);
    }
    if size_of_optional_header < 2 {
        return Err(PeError::OptionalHeaderTooSmall);
    }
    let magic = match read_u16(data, optional_header_off) {
        Ok(v) => v,
        Err(e) => return Err(e),
    };
    let data_dir_rel: usize = if magic == 0x010B {
        96
    } else if magic == 0x020B {
        112
    } else {
        return Err(PeError::UnsupportedMagic);
    };
    if data_dir_rel + 16 > size_of_optional_header {
        return Err(PeError::MissingDataDirectories);
    }
    let import_rva = match read_u32(data, optional_header_off + data_dir_rel + 8) {
        Ok(v) => v,
        Err(e) => return Err(e),
    };
    let section_table_off = optional_header_off + size_of_optional_header;
    let section_table_len = number_of_sections * 40;
    if section_table_len > len - section_table_off {
        return Err(PeError::TruncatedSectionTable);
    }
    let ghost d = data@;
    let ghost secs = Seq::new(
        number_of_sections as nat,
        |i: int| section_at(d, section_table_off + i * 40),
    );
    let mut sections: Vec<Section> = Vec::new();
    let mut i: usize = 0;
    while i < number_of_sections
        invariant
            i <= number_of_sections,
            d == data@,
            len == data@.len(),
            section_table_off + number_of_sections * 40 <= len,
            secs == Seq::new(
                number_of_sections as nat,
                |i: int| section_at(d, section_table_off + i * 40),
            ),
            sections@ == secs.subrange(0, i as int),
        decreases number_of_sections - i,
    {
        let base = section_table_off + i * 40;
        let virtual_size = match read_u32(data, base + 8) {
            Ok(v) => v,
            Err(e) => return Err(e),
        };
        let virtual_address = match read_u32(data, base + 12) {
            Ok(v) => v,
            Err(e) => return Err(e),
        };
        let raw_data_size = match read_u32(data, base + 16) {
            Ok(v) => v,
            Err(e) => return Err(e),
        };
        let raw_data_ptr = match read_u32(data, base + 20) {
            Ok(v) => v,
            Err(e) => return Err(e),
        };
        sections.push(Section { virtual_address, virtual_size, raw_data_ptr, raw_data_size });
        proof {
            assert(secs.subrange(0, i + 1) == secs.subrange(0, i as int).push(secs[i as int]));
        }
        i += 1;
    }
    proof {
        assert(secs.subrange(0, number_of_sections as int) == secs);
    }
    Ok(PeLayout { import_rva, sections })
}

/// File offset of `rva` by the first section that contains it.
pub fn rva_to_offset(rva: u32, sections: &[Section]) -> (r: Option<usize>)
    ensures
        match rva_offset_from(rva, sections@, 0) {
            Some(v) => r matches Some(x) && x as int == v,
            None => r is None,
        },
{
    let mut i: usize = 0;
    while i < sections.len()
        invariant
            i <= sections.len(),
            rva_offset_from(rva, sections@, 0) == rva_offset_from(rva, sections@, i as int),
        decreases sections.len() - i,
    {
        let section = sections[i];
        let size = if section.virtual_size >= section.raw_data_size {
            section.virtual_size
        } else {
            section.raw_data_size
        };
        let end = section.virtual_address.saturating_add(size);
        if rva >= section.virtual_address && rva < end {
            let delta = rva - section.virtual_address;
            return match section.raw_data_ptr.checked_add(delta) {
                Some(v) => Some(v as usize),
                None => None,
            };
        }
        i += 1;
    }
    None
}

/// The NUL-terminated 7-bit string at `offset`, as characters.
pub fn read_c_string(data: &[u8], offset: usize) -> (r: Result<Vec<char>, PeError>)
    ensures
        match c_string(data@, offset as int) {
            Ok(b) => r matches Ok(v) && v@ == b.map_values(|x: u8| x as char),
            Err(e) => r == Err::<Vec<char>, PeError>(e),
        },
{
    if offset >= data.len() {
        return Err(PeError::NameOutOfBounds);
    }
    let mut end = offset;
    while end < data.len() && data[end] != 0
        invariant
            offset <= end <= data.len(),
            nul_from(data@, offset as int) == nul_from(data@, end as int),
            forall|k: int| offset <= k < end ==> data@[k] != 0,
        decreases data.len() - end,
    {
        end += 1;
    }
    if end == data.len() {
        return Err(PeError::UnterminatedName);
    }
    let mut out: Vec<char> = Vec::new();
    let mut i = offset;
    while i < end
        invariant
            offset <= i <= end,
            end < data.len(),
            nul_from(data@, offset as int) == end,
            out@ == data@.subrange(offset as int, i as int).map_values(|x: u8| x as char),
            forall|k: int| offset <= k < i ==> data@[k] < 0x80,
        decreases end - i,
    {
        let b = data[i];
        if b >= 0x80 {
            assert(offset <= i < nul_from(data@, offset as int) && data@[i as int] >= 0x80);
            return Err(PeError::NameNotAscii);
        }
        out.push(b as char);
        proof {
            assert(data@.subrange(offset as int, i + 1) == data@.subrange(offset as int, i as int).push(
                b,
            ));
        }
        i += 1;
    }
    Ok(out)
}

} // verus!

verus! {

/// `seen` put before the names of a walk result; errors pass through.
pub open spec fn prefixed(seen: Seq<Seq<char>>, r: Result<Seq<Seq<char>>, PeError>) -> Result<Seq<Seq<char>>, PeError> {
    match r {
        Ok(rest) => Ok(seen + rest),
        Err(e) => Err(e),
    }
}

/// Reads the descriptor at `off`: `None` for the all-zero one, else the
/// lowercase name it imports.
fn read_descriptor(data: &[u8], off: usize, sections: &[Section]) -> (r: Result<Option<Vec<char>>, PeError>)
    ensures
        match r {
            Err(e) => import_walk(data@, sections@, off as int) == Err::<Seq<Seq<char>>, PeError>(e),
            Ok(None) => import_walk(data@, sections@, off as int) == Ok::<Seq<Seq<char>>, PeError>(Seq::empty()),
            Ok(Some(n)) => off + 20 <= data@.len() && import_walk(data@, sections@, off as int)
                == prefixed(seq![n@], import_walk(data@, sections@, off + 20)),
        },
{
    let ghost d = data@;
    if off > data.len() || data.len() - off < 20 {
        return Err(PeError::TruncatedDescriptorTable);
    }
    let original_first_thunk = match read_u32(data, off) {
        Ok(v) => v,
        Err(e) => return Err(e),
    };
    let time_date_stamp = match read_u32(data, off + 4) {
        Ok(v) => v,
        Err(e) => return Err(e),
    };
    let forwarder_chain = match read_u32(data, off + 8) {
        Ok(v) => v,
        Err(e) => return Err(e),
    };
    let name_rva = match read_u32(data, off + 12) {
        Ok(v) => v,
        Err(e) => return Err(e),
    };
    let first_thunk = match read_u32(data, off + 16) {
        Ok(v) => v,
        Err(e) => return Err(e),
    };
    if original_first_thunk == 0 && time_date_stamp == 0 && forwarder_chain == 0 && name_rva == 0
        && first_thunk == 0 {
        proof {
            assert forall|k: int| off <= k < off + 20 implies d[k] == 0 by {
                if k < off + 4 {
                    assert(u32_at(d, off as int) == 0);
                } else if k < off + 8 {
                    assert(u32_at(d, off + 4) == 0);
                } else if k < off + 12 {
                    assert(u32_at(d, off + 8) == 0);
                } else if k < off + 16 {
                    assert(u32_at(d, off + 12) == 0);
                } else {
                    assert(u32_at(d, off + 16) == 0);
                }
            }
        }
        return Ok(None);
    }
    proof {
        if descriptor_is_zero(d, off as int) {
            assert(d[off + 12] == 0 && d[off + 13] == 0 && d[off + 14] == 0 && d[off + 15] == 0);
            assert(d[off as int] == 0 && d[off + 1] == 0 && d[off + 2] == 0 && d[off + 3] == 0);
            assert(d[off + 4] == 0 && d[off + 5] == 0 && d[off + 6] == 0 && d[off + 7] == 0);
            assert(d[off + 8] == 0 && d[off + 9] == 0 && d[off + 10] == 0 && d[off + 11] == 0);
            assert(d[off + 16] == 0 && d[off + 17] == 0 && d[off + 18] == 0 && d[off + 19] == 0);
        }
    }
    let name_off = match rva_to_offset(name_rva, sections) {
        Some(v) => v,
        None => return Err(PeError::InvalidNameRva),
    };
    assert(name_rva == u32_at(d, off + 12) as u32);
    let name = match read_c_string(data, name_off) {
        Ok(v) => v,
        Err(e) => return Err(e),
    };
    let lower = crate::text::lower_chars(&name);
    proof {
        let b = c_string(d, name_off as int)->Ok_0;
        assert(lower@ =~= lower_name(b));
    }
    Ok(Some(lower))
}

fn import_names_sorted(data: &[u8]) -> (r: Result<Vec<Vec<char>>, PeError>)
    ensures
        match spec_imports(data@) {
            Ok(names) => r matches Ok(v) && strictly_sorted(views(v@)) && views(v@).to_set()
                == names.to_set(),
            Err(e) => r == Err::<Vec<Vec<char>>, PeError>(e),
        },
{
    let pe = match parse_pe_layout(data) {
        Ok(l) => l,
        Err(e) => return Err(e),
    };
    let mut imports: Vec<Vec<char>> = Vec::new();
    if pe.import_rva == 0 {
        assert(views(imports@).to_set() =~= Seq::<Seq<char>>::empty().to_set());
        return Ok(imports);
    }
    let mut off = match rva_to_offset(pe.import_rva, pe.sections.as_slice()) {
        Some(v) => v,
        None => return Err(PeError::InvalidImportRva),
    };
    let ghost d = data@;
    let ghost secs = pe.sections@;
    let ghost mut seen: Seq<Seq<char>> = Seq::empty();
    proof {
        match import_walk(d, secs, off as int) {
            Ok(rest) => {
                assert(seen + rest =~= rest);
            },
            Err(_) => {},
        }
        assert(views(imports@).to_set() =~= seen.to_set());
    }
    loop
        invariant
            d == data@,
            secs == pe.sections@,
            spec_imports(d) == prefixed(seen, import_walk(d, secs, off as int)),
            strictly_sorted(views(imports@)),
            views(imports@).to_set() == seen.to_set(),
        decreases data.len() - off,
    {
        let lower = match read_descriptor(data, off, pe.sections.as_slice()) {
            Err(e) => return Err(e),
            Ok(None) => {
                assert(seen + Seq::<Seq<char>>::empty() =~= seen);
                return Ok(imports);
            },
            Ok(Some(n)) => n,
        };
        let ghost lname = lower@;
        insert_sorted(&mut imports, lower);
        proof {
            match import_walk(d, secs, off + 20) {
                Ok(rest) => {
                    assert(seen + (seq![lname] + rest) =~= seen.push(lname) + rest);
                },
                Err(_) => {},
            }
            seen.lemma_push_to_set_commute(lname);
            seen = seen.push(lname);
        }
        off = off + 20;
    }
}

/// The DLL names that the image in `data` imports: lowercased, each once, in
/// increasing order; or the message of the first defect found.
pub fn direct_imports_from_bytes(data: &[u8]) -> (r: Result<Vec<String>, String>)
    ensures
        match spec_imports(data@) {
            Ok(names) => r matches Ok(v) && is_sorted_set_of(v@, names),
            Err(e) => r matches Err(m) && m@ == pe_error_text(e),
        },
{
    let sorted = match import_names_sorted(data) {
        Ok(v) => v,
        Err(e) => return Err(e.message()),
    };
    let mut out: Vec<String> = Vec::new();
    let mut i: usize = 0;
    while i < sorted.len()
        invariant
            i <= sorted.len(),
            out@.map_values(|x: String| x@) == views(sorted@).subrange(0, i as int),
        decreases sorted.len() - i,
    {
        let s = string_of(&sorted[i]);
        let ghost before = out@;
        out.push(s);
        proof {
            assert(out@ == before.push(s));
            assert(out@.map_values(|x: String| x@) =~= before.map_values(|x: String| x@).push(s@));
            assert(views(sorted@).subrange(0, i + 1) =~= views(sorted@).subrange(0, i as int).push(
                sorted@[i as int]@,
            ));
        }
        i += 1;
    }
    proof {
        assert(views(sorted@).subrange(0, sorted@.len() as int) == views(sorted@));
    }
    Ok(out)
}

/// The bytes are a PE image whose headers read without error.
pub fn looks_like_pe_image(data: &[u8]) -> (r: bool)
    ensures
        r == spec_layout(data@) is Ok,
{
    parse_pe_layout(data).is_ok()
}

} // verus!

verus! {

/// Reading the same image twice yields the identical import list: any two
/// lists that `direct_imports_from_bytes` may return for one buffer hold the
/// same names in the same order.
pub proof fn lemma_reparse_identical(d: Seq<u8>, first: Seq<String>, second: Seq<String>)
    requires
        spec_imports(d) is Ok,
        is_sorted_set_of(first, spec_imports(d)->Ok_0),
        is_sorted_set_of(second, spec_imports(d)->Ok_0),
    ensures
        first.map_values(|x: String| x@) == second.map_values(|x: String| x@),
{
    crate::order::lemma_sorted_unique(
        first.map_values(|x: String| x@),
        second.map_values(|x: String| x@),
    );
}

} // verus!
