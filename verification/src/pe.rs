use vstd::prelude::*;

use crate::bytes::{le_u16, le_u32, read_u16, read_u32, spec_u16_at, spec_u32_at};
use crate::error::IcoError;
use crate::results::{collect, lemma_collect_all_ok, lemma_collect_err, lemma_collect_ok};

verus! {

/// One 40-byte section header, reduced to the four fields that map virtual
/// addresses to file offsets.
#[derive(Clone, Copy, Debug, PartialEq, Eq, Structural)]
pub struct Section {
    pub virtual_address: u32,
    pub virtual_size: u32,
    pub raw_pointer: u32,
    pub raw_size: u32,
}

/// The section header at file offset `s`: VirtualSize, VirtualAddress,
/// SizeOfRawData and PointerToRawData are read in that order.
pub open spec fn spec_section(b: Seq<u8>, s: int) -> Result<Section, IcoError> {
    match spec_u32_at(b, s + 8) {
        Err(e) => Err(e),
        Ok(virtual_size) => match spec_u32_at(b, s + 12) {
            Err(e) => Err(e),
            Ok(virtual_address) => match spec_u32_at(b, s + 16) {
                Err(e) => Err(e),
                Ok(raw_size) => match spec_u32_at(b, s + 20) {
                    Err(e) => Err(e),
                    Ok(raw_pointer) => Ok(Section { virtual_address, virtual_size, raw_pointer, raw_size }),
                },
            },
        },
    }
}

/// Reading the `i`-th header of the section table at file offset `sec_off`.
pub open spec fn section_step(b: Seq<u8>, sec_off: int) -> spec_fn(int) -> Result<Section, IcoError> {
    |i: int| spec_section(b, sec_off + 40 * i)
}

/// The first `n` section headers of the table at file offset `sec_off`.
pub open spec fn spec_sections(b: Seq<u8>, sec_off: int, n: nat) -> Result<Seq<Section>, IcoError> {
    collect(n, section_step(b, sec_off))
}

/// What the PE headers of `b` give: the section table and the RVA of the
/// resource directory (data directory 2).
pub open spec fn spec_parse_pe(b: Seq<u8>) -> Result<(Seq<Section>, u32), IcoError> {
    if b.len() < 0x40 || b[0] != 0x4d || b[1] != 0x5a {
        Err(IcoError::MissingMzHeader)
    } else {
        let pe_off = le_u32(b, 0x3c) as int;
        if !(pe_off + 4 <= b.len() && b[pe_off] == 0x50 && b[pe_off + 1] == 0x45 && b[pe_off + 2]
            == 0 && b[pe_off + 3] == 0) {
            Err(IcoError::MissingPeSignature)
        } else {
            let coff = pe_off + 4;
            match spec_u16_at(b, coff + 2) {
                Err(e) => Err(e),
                Ok(num_sections) => match spec_u16_at(b, coff + 16) {
                    Err(e) => Err(e),
                    Ok(opt_size) => match spec_u16_at(b, coff + 20) {
                        Err(e) => Err(e),
                        Ok(magic) => if magic != 0x10b && magic != 0x20b {
                            Err(IcoError::UnknownOptionalMagic { magic })
                        } else {
                            let data_dir = coff + 20 + if magic == 0x10b {
                                96int
                            } else {
                                112int
                            };
                            match spec_u32_at(b, data_dir + 16) {
                                Err(e) => Err(e),
                                Ok(resource_rva) => match spec_sections(
                                    b,
                                    coff + 20 + opt_size,
                                    num_sections as nat,
                                ) {
                                    Err(e) => Err(e),
                                    Ok(sections) => Ok((sections, resource_rva)),
                                },
                            }
                        },
                    },
                },
            }
        }
    }
}

/// The end of a section's address range: its VirtualAddress plus the larger
/// of its two sizes, in `u32` arithmetic (modulo 2^32).
pub open spec fn section_end(s: Section) -> int {
    let size = if s.virtual_size >= s.raw_size {
        s.virtual_size
    } else {
        s.raw_size
    };
    (s.virtual_address + size) % 0x1_0000_0000
}

/// Whether `rva` falls in the section's range.
pub open spec fn section_holds(s: Section, rva: u32) -> bool {
    s.virtual_address <= rva && rva < section_end(s)
}

/// The file offset of `rva` inside the section, in `u32` arithmetic.
pub open spec fn section_offset(s: Section, rva: u32) -> u32 {
    ((s.raw_pointer + (rva - s.virtual_address)) % 0x1_0000_0000) as u32
}

/// The offset of `rva` in the first of `secs[i..]` that holds it.
pub open spec fn spec_rva_from(secs: Seq<Section>, rva: u32, i: int) -> Result<u32, IcoError>
    decreases secs.len() - i,
{
    if i < 0 || i >= secs.len() {
        Err(IcoError::RvaNotInSection { rva })
    } else if section_holds(secs[i], rva) {
        Ok(section_offset(secs[i], rva))
    } else {
        spec_rva_from(secs, rva, i + 1)
    }
}

/// The file offset of `rva`, found in the first section that holds it.
pub open spec fn spec_rva_to_offset(secs: Seq<Section>, rva: u32) -> Result<u32, IcoError> {
    spec_rva_from(secs, rva, 0)
}

/// A parsed PE file: its bytes, its section table and the RVA of its
/// resource directory.
pub struct Pe<'a> {
    pub bytes: &'a [u8],
    pub sections: Vec<Section>,
    pub resource_rva: u32,
}

/// Whether `r` is what `spec_parse_pe` gives for `b`.
pub open spec fn pe_result_matches(b: Seq<u8>, r: Result<Pe, IcoError>) -> bool {
    match spec_parse_pe(b) {
        Ok((sections, rva)) => r matches Ok(pe) && pe.bytes@ == b && pe.sections@ == sections
            && pe.resource_rva == rva,
        Err(e) => r == Err::<Pe, IcoError>(e),
    }
}

/// Reads the section header at file offset `s`.
fn read_section(b: &[u8], s: u64) -> (r: Result<Section, IcoError>)
    requires
        s + 24 <= u64::MAX,
    ensures
        r == spec_section(b@, s as int),
{
    let virtual_size = read_u32(b, s + 8)?;
    let virtual_address = read_u32(b, s + 12)?;
    let raw_size = read_u32(b, s + 16)?;
    let raw_pointer = read_u32(b, s + 20)?;
    Ok(Section { virtual_address, virtual_size, raw_pointer, raw_size })
}

impl<'a> Pe<'a> {
    /// Reads the DOS header, the PE signature, the COFF and optional headers
    /// and the section table of `bytes`.
    pub fn parse(bytes: &'a [u8]) -> (r: Result<Pe<'a>, IcoError>)
        ensures
            pe_result_matches(bytes@, r),
    {
        if bytes.len() < 0x40 || bytes[0] != 0x4d || bytes[1] != 0x5a {
            return Err(IcoError::MissingMzHeader);
        }
        let pe_off = read_u32(bytes, 0x3c)? as u64;
        let len = bytes.len() as u64;
        if !(pe_off <= len && len - pe_off >= 4 && bytes[pe_off as usize] == 0x50 && bytes[(pe_off
            + 1) as usize] == 0x45 && bytes[(pe_off + 2) as usize] == 0 && bytes[(pe_off
            + 3) as usize] == 0) {
            return Err(IcoError::MissingPeSignature);
        }
        let coff = pe_off + 4;
        let num_sections = read_u16(bytes, coff + 2)?;
        let opt_size = read_u16(bytes, coff + 16)?;
        let opt_off = coff + 20;
        let magic = read_u16(bytes, opt_off)?;
        let data_dir = if magic == 0x10b {
            opt_off + 96
        } else if magic == 0x20b {
            opt_off + 112
        } else {
            return Err(IcoError::UnknownOptionalMagic { magic });
        };
        let resource_rva = read_u32(bytes, data_dir + 16)?;
        let sec_off = opt_off + opt_size as u64;
        let mut sections: Vec<Section> = Vec::new();
        let mut i: u16 = 0;
        while i < num_sections
            invariant
                i <= num_sections,
                sec_off < 0x2_0000_0000,
                spec_parse_pe(bytes@) == match spec_sections(
                    bytes@,
                    sec_off as int,
                    num_sections as nat,
                ) {
                    Err(e) => Err(e),
                    Ok(secs) => Ok((secs, resource_rva)),
                },
                spec_sections(bytes@, sec_off as int, i as nat) == Ok::<Seq<Section>, IcoError>(
                    sections@,
                ),
            decreases num_sections - i,
        {
            match read_section(bytes, sec_off + 40 * (i as u64)) {
                Err(e) => {
                    proof {
                        lemma_collect_err(
                            (i + 1) as nat,
                            num_sections as nat,
                            section_step(bytes@, sec_off as int),
                        );
                    }
                    return Err(e);
                },
                Ok(s) => {
                    sections.push(s);
                },
            }
            i = i + 1;
        }
        Ok(Pe { bytes, sections, resource_rva })
    }

    /// Converts a relative virtual address to a file offset, through the first
    /// section whose range holds it.
    pub fn rva_to_offset(&self, rva: u32) -> (r: Result<u32, IcoError>)
        ensures
            r == spec_rva_to_offset(self.sections@, rva),
    {
        let n = self.sections.len();
        let mut i: usize = 0;
        while i < n
            invariant
                n == self.sections@.len(),
                i <= n,
                spec_rva_from(self.sections@, rva, i as int) == spec_rva_to_offset(
                    self.sections@,
                    rva,
                ),
            decreases n - i,
        {
            let s = self.sections[i];
            let size = if s.virtual_size >= s.raw_size {
                s.virtual_size
            } else {
                s.raw_size
            };
            let end = ((s.virtual_address as u64 + size as u64) % 0x1_0000_0000) as u32;
            if rva >= s.virtual_address && rva < end {
                let off = ((s.raw_pointer as u64 + (rva - s.virtual_address) as u64) % 0x1_0000_0000) as u32;
                return Ok(off);
            }
            i = i + 1;
        }
        Err(IcoError::RvaNotInSection { rva })
    }
}

/// The headers a PE file needs, all present: the `MZ` DOS header, the
/// `PE\0\0` signature at `e_lfanew`, a PE32 or PE32+ optional header magic,
/// the resource entry of the data directory, and every 40-byte section header
/// of the table that starts `SizeOfOptionalHeader` bytes after the optional
/// header.
pub open spec fn pe_headers_present(b: Seq<u8>) -> bool {
    let p = le_u32(b, 0x3c) as int;
    let opt = p + 24;
    let magic = le_u16(b, opt);
    let table = opt + le_u16(b, p + 20);
    let n = le_u16(b, p + 6) as int;
    &&& b.len() >= 0x40 && b[0] == 0x4d && b[1] == 0x5a
    &&& p + 4 <= b.len() && b[p] == 0x50 && b[p + 1] == 0x45 && b[p + 2] == 0 && b[p + 3] == 0
    &&& opt + 2 <= b.len()
    &&& magic == 0x10b || magic == 0x20b
    &&& (magic == 0x10b ==> opt + 116 <= b.len())
    &&& (magic == 0x20b ==> opt + 132 <= b.len())
    &&& (n > 0 ==> table + 40 * (n - 1) + 24 <= b.len())
}

/// Parsing the PE headers succeeds exactly when they are all present; the
/// resource RVA is then the first word of data directory 2 (at offset 96 of a
/// PE32 optional header, 112 of a PE32+ one), and the sections are the
/// `NumberOfSections` headers found at the optional header's offset plus
/// `SizeOfOptionalHeader`, 40 bytes apart, each giving VirtualSize,
/// VirtualAddress, SizeOfRawData and PointerToRawData at offsets 8, 12, 16, 20.
pub proof fn lemma_parse_pe_reads_headers(b: Seq<u8>)
    ensures
        spec_parse_pe(b) is Ok <==> pe_headers_present(b),
        spec_parse_pe(b) matches Ok((secs, rva)) ==> {
            let p = le_u32(b, 0x3c) as int;
            let opt = p + 24;
            let table = opt + le_u16(b, p + 20);
            &&& le_u16(b, opt) == 0x10b ==> rva == le_u32(b, opt + 112)
            &&& le_u16(b, opt) == 0x20b ==> rva == le_u32(b, opt + 128)
            &&& secs.len() == le_u16(b, p + 6)
            &&& forall|k: int|
                0 <= k < secs.len() ==> table + 40 * k + 24 <= b.len() && #[trigger] secs[k]
                    == (Section {
                    virtual_size: le_u32(b, table + 40 * k + 8),
                    virtual_address: le_u32(b, table + 40 * k + 12),
                    raw_size: le_u32(b, table + 40 * k + 16),
                    raw_pointer: le_u32(b, table + 40 * k + 20),
                })
        },
{
    let p = le_u32(b, 0x3c) as int;
    let opt = p + 24;
    let table = opt + le_u16(b, p + 20);
    let n = le_u16(b, p + 6);
    let f = section_step(b, table);
    if b.len() >= 0x40 && b[0] == 0x4d && b[1] == 0x5a && p + 4 <= b.len() && b[p] == 0x50 && b[p
        + 1] == 0x45 && b[p + 2] == 0 && b[p + 3] == 0 && opt + 2 <= b.len() {
        assert(spec_u16_at(b, p + 6) == Ok::<u16, IcoError>(n));
        assert(spec_u16_at(b, p + 20) == Ok::<u16, IcoError>(le_u16(b, p + 20)));
        assert(spec_u16_at(b, opt) == Ok::<u16, IcoError>(le_u16(b, opt)));
        lemma_collect_ok(n as nat, f);
        if pe_headers_present(b) {
            assert forall|i: int| 0 <= i < n implies (#[trigger] f(i)) is Ok by {
                assert(table + 40 * i + 24 <= b.len());
            }
            lemma_collect_all_ok(n as nat, f);
        }
        if spec_parse_pe(b) is Ok && n > 0 {
            assert(f(n - 1) is Ok);
        }
    }
}

/// The raw test that a section holds `rva`: its VirtualAddress is at most
/// `rva`, and `rva` is below VirtualAddress plus the larger of its two sizes
/// (a `u32` sum, modulo 2^32).
pub open spec fn holds_raw(s: Section, rva: u32) -> bool {
    s.virtual_address <= rva && rva < (s.virtual_address + if s.virtual_size >= s.raw_size {
        s.virtual_size
    } else {
        s.raw_size
    }) % 0x1_0000_0000
}

/// An RVA is mapped through the first section (in table order) that holds
/// it, whichever its index: the offset is PointerToRawData plus the distance
/// from VirtualAddress (a `u32` sum, modulo 2^32). An RVA that no section
/// holds is rejected.
pub proof fn lemma_rva_maps_through_first_holding_section(secs: Seq<Section>, rva: u32, k: int)
    ensures
        0 <= k < secs.len() && holds_raw(secs[k], rva) && (forall|j: int|
            0 <= j < k ==> !holds_raw(#[trigger] secs[j], rva)) ==> spec_rva_to_offset(secs, rva)
            == Ok::<u32, IcoError>(
            ((secs[k].raw_pointer + (rva - secs[k].virtual_address)) % 0x1_0000_0000) as u32,
        ),
        (forall|j: int| 0 <= j < secs.len() ==> !holds_raw(#[trigger] secs[j], rva))
            ==> spec_rva_to_offset(secs, rva) == Err::<u32, IcoError>(
            IcoError::RvaNotInSection { rva },
        ),
{
    if 0 <= k < secs.len() && holds_raw(secs[k], rva) && (forall|j: int|
        0 <= j < k ==> !holds_raw(#[trigger] secs[j], rva)) {
        lemma_rva_from_reaches(secs, rva, k, 0);
    }
    if forall|j: int| 0 <= j < secs.len() ==> !holds_raw(#[trigger] secs[j], rva) {
        lemma_rva_from_none(secs, rva, 0);
    }
}

proof fn lemma_rva_from_reaches(secs: Seq<Section>, rva: u32, k: int, i: int)
    requires
        0 <= i <= k < secs.len(),
        holds_raw(secs[k], rva),
        forall|j: int| 0 <= j < k ==> !holds_raw(#[trigger] secs[j], rva),
    ensures
        spec_rva_from(secs, rva, i) == Ok::<u32, IcoError>(
            ((secs[k].raw_pointer + (rva - secs[k].virtual_address)) % 0x1_0000_0000) as u32,
        ),
    decreases k - i,
{
    if i < k {
        assert(!holds_raw(secs[i], rva));
        lemma_rva_from_reaches(secs, rva, k, i + 1);
    }
}

proof fn lemma_rva_from_none(secs: Seq<Section>, rva: u32, i: int)
    requires
        0 <= i <= secs.len(),
        forall|j: int| 0 <= j < secs.len() ==> !holds_raw(#[trigger] secs[j], rva),
    ensures
        spec_rva_from(secs, rva, i) == Err::<u32, IcoError>(IcoError::RvaNotInSection { rva }),
    decreases secs.len() - i,
{
    if i < secs.len() {
        assert(!holds_raw(secs[i], rva));
        lemma_rva_from_none(secs, rva, i + 1);
    }
}

} // verus!
