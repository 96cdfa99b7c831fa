use vstd::prelude::*;

use crate::bytes::{le_u16, le_u32, read_u16, read_u32, spec_u16_at, spec_u32_at};
use crate::error::IcoError;
use crate::pe::{Pe, Section, spec_rva_to_offset};
use crate::results::{collect, lemma_collect_all_ok, lemma_collect_err, lemma_collect_ok};

verus! {

/// One entry of an `IMAGE_RESOURCE_DIRECTORY`: its id and either a
/// subdirectory offset or a leaf data-entry offset (both relative to the
/// resource base).
#[derive(Clone, Copy, Debug, PartialEq, Eq, Structural)]
pub struct ResEntry {
    pub id: u32,
    pub offset: u32,
    pub is_dir: bool,
}

/// The 8-byte directory entry at file offset `e`: the id is the low 31 bits of
/// its first word; the second word's high bit marks a subdirectory and its low
/// 31 bits give the offset.
pub open spec fn spec_dir_entry(b: Seq<u8>, e: int) -> Result<ResEntry, IcoError> {
    match spec_u32_at(b, e) {
        Err(err) => Err(err),
        Ok(name) => match spec_u32_at(b, e + 4) {
            Err(err) => Err(err),
            Ok(off) => Ok(
                ResEntry {
                    id: (name % 0x8000_0000) as u32,
                    offset: (off % 0x8000_0000) as u32,
                    is_dir: off >= 0x8000_0000,
                },
            ),
        },
    }
}

/// Reading the `i`-th entry of the directory whose header is at file offset `base`.
pub open spec fn entry_step(b: Seq<u8>, base: int) -> spec_fn(int) -> Result<ResEntry, IcoError> {
    |i: int| spec_dir_entry(b, base + 16 + 8 * i)
}

/// All entries (named ones first, then id ones) of the directory at offset
/// `dir_off` from the resource base `res_base`.
pub open spec fn spec_dir_entries(b: Seq<u8>, res_base: int, dir_off: int) -> Result<
    Seq<ResEntry>,
    IcoError,
> {
    let base = res_base + dir_off;
    match spec_u16_at(b, base + 12) {
        Err(e) => Err(e),
        Ok(named) => match spec_u16_at(b, base + 14) {
            Err(e) => Err(e),
            Ok(ids) => collect((named + ids) as nat, entry_step(b, base)),
        },
    }
}

/// The `IMAGE_RESOURCE_DATA_ENTRY` at offset `leaf_off` from the resource
/// base: the data's RVA and its size.
pub open spec fn spec_data_entry(b: Seq<u8>, res_base: int, leaf_off: int) -> Result<
    (u32, u32),
    IcoError,
> {
    match spec_u32_at(b, res_base + leaf_off) {
        Err(e) => Err(e),
        Ok(rva) => match spec_u32_at(b, res_base + leaf_off + 4) {
            Err(e) => Err(e),
            Ok(size) => Ok((rva, size)),
        },
    }
}

/// The data of the first language leaf under a resource name entry.
pub open spec fn spec_first_leaf_data(
    b: Seq<u8>,
    secs: Seq<Section>,
    res_base: int,
    entry: ResEntry,
) -> Result<Seq<u8>, IcoError> {
    if !entry.is_dir {
        Err(IcoError::NotASubdirectory)
    } else {
        match spec_dir_entries(b, res_base, entry.offset as int) {
            Err(e) => Err(e),
            Ok(langs) => if langs.len() == 0 {
                Err(IcoError::NoLanguageEntry)
            } else {
                match spec_data_entry(b, res_base, langs[0].offset as int) {
                    Err(e) => Err(e),
                    Ok((rva, size)) => match spec_rva_to_offset(secs, rva) {
                        Err(e) => Err(e),
                        Ok(off) => if off + size <= b.len() {
                            Ok(b.subrange(off as int, off + size))
                        } else {
                            Err(IcoError::ResourceDataOutOfBounds)
                        },
                    },
                }
            },
        }
    }
}

/// Reads the directory entry at file offset `e`.
fn read_dir_entry(b: &[u8], e: u64) -> (r: Result<ResEntry, IcoError>)
    requires
        e + 8 <= u64::MAX,
    ensures
        r == spec_dir_entry(b@, e as int),
{
    let name = read_u32(b, e)?;
    let off = read_u32(b, e + 4)?;
    Ok(ResEntry { id: name % 0x8000_0000, offset: off % 0x8000_0000, is_dir: off >= 0x8000_0000 })
}

/// Reads every entry of the directory at offset `dir_off` from the resource
/// base `res_base`.
pub fn read_dir_entries(b: &[u8], res_base: u32, dir_off: u32) -> (r: Result<
    Vec<ResEntry>,
    IcoError,
>)
    ensures
        match spec_dir_entries(b@, res_base as int, dir_off as int) {
            Ok(s) => r matches Ok(v) && v@ == s,
            Err(e) => r == Err::<Vec<ResEntry>, IcoError>(e),
        },
{
    let base = res_base as u64 + dir_off as u64;
    let named = read_u16(b, base + 12)?;
    let ids = read_u16(b, base + 14)?;
    let n: u32 = named as u32 + ids as u32;
    let mut out: Vec<ResEntry> = Vec::new();
    let mut i: u32 = 0;
    while i < n
        invariant
            i <= n,
            base < 0x2_0000_0000,
            spec_dir_entries(b@, res_base as int, dir_off as int) == collect(
                n as nat,
                entry_step(b@, base as int),
            ),
            collect(i as nat, entry_step(b@, base as int)) == Ok::<Seq<ResEntry>, IcoError>(out@),
        decreases n - i,
    {
        match read_dir_entry(b, base + 16 + 8 * (i as u64)) {
            Err(e) => {
                proof {
                    lemma_collect_err((i + 1) as nat, n as nat, entry_step(b@, base as int));
                }
                return Err(e);
            },
            Ok(entry) => {
                out.push(entry);
            },
        }
        i = i + 1;
    }
    Ok(out)
}

/// Reads the data entry at offset `leaf_off` from the resource base: the
/// data's RVA and size.
pub fn read_data_entry(b: &[u8], res_base: u32, leaf_off: u32) -> (r: Result<(u32, u32), IcoError>)
    ensures
        r == spec_data_entry(b@, res_base as int, leaf_off as int),
{
    let p = res_base as u64 + leaf_off as u64;
    let rva = read_u32(b, p)?;
    let size = read_u32(b, p + 4)?;
    Ok((rva, size))
}

/// Copies `b[start..end]` into a new vector.
pub fn copy_range(b: &[u8], start: usize, end: usize) -> (v: Vec<u8>)
    requires
        start <= end <= b@.len(),
    ensures
        v@ == b@.subrange(start as int, end as int),
{
    let mut v: Vec<u8> = Vec::new();
    let mut k = start;
    while k < end
        invariant
            start <= k <= end <= b@.len(),
            v@ == b@.subrange(start as int, k as int),
        decreases end - k,
    {
        v.push(b[k]);
        k = k + 1;
    }
    v
}

/// Descends from a resource name entry to its first language leaf and copies
/// that leaf's data out of the file.
pub fn first_leaf_data(pe: &Pe, res_base: u32, entry: &ResEntry) -> (r: Result<Vec<u8>, IcoError>)
    ensures
        match spec_first_leaf_data(pe.bytes@, pe.sections@, res_base as int, *entry) {
            Ok(s) => r matches Ok(v) && v@ == s,
            Err(e) => r == Err::<Vec<u8>, IcoError>(e),
        },
{
    if !entry.is_dir {
        return Err(IcoError::NotASubdirectory);
    }
    let langs = read_dir_entries(pe.bytes, res_base, entry.offset)?;
    if langs.len() == 0 {
        return Err(IcoError::NoLanguageEntry);
    }
    let (rva, size) = read_data_entry(pe.bytes, res_base, langs[0].offset)?;
    let off = pe.rva_to_offset(rva)?;
    let len = pe.bytes.len() as u64;
    if off as u64 + size as u64 <= len {
        Ok(copy_range(pe.bytes, off as usize, (off as u64 + size as u64) as usize))
    } else {
        Err(IcoError::ResourceDataOutOfBounds)
    }
}

/// The first entry of `es[i..]` whose id is `id`.
pub open spec fn find_from(es: Seq<ResEntry>, id: u32, i: int) -> Option<ResEntry>
    decreases es.len() - i,
{
    if i < 0 || i >= es.len() {
        None
    } else if es[i].id == id {
        Some(es[i])
    } else {
        find_from(es, id, i + 1)
    }
}

/// The first entry of `es` whose id is `id`.
pub open spec fn find_by_id(es: Seq<ResEntry>, id: u32) -> Option<ResEntry> {
    find_from(es, id, 0)
}

/// Finds the first entry whose id is `id`.
pub fn find_entry(es: &Vec<ResEntry>, id: u32) -> (r: Option<ResEntry>)
    ensures
        r == find_by_id(es@, id),
{
    let n = es.len();
    let mut i: usize = 0;
    while i < n
        invariant
            n == es@.len(),
            i <= n,
            find_from(es@, id, i as int) == find_by_id(es@, id),
        decreases n - i,
    {
        if es[i].id == id {
            return Some(es[i]);
        }
        i = i + 1;
    }
    None
}

/// The entry at index `i` is the one found by its id when no earlier entry
/// carries the same id.
pub proof fn lemma_find_first_occurrence(es: Seq<ResEntry>, i: int)
    requires
        0 <= i < es.len(),
        forall|j: int| 0 <= j < i ==> (#[trigger] es[j]).id != es[i].id,
    ensures
        find_by_id(es, es[i].id) == Some(es[i]),
{
    lemma_find_from_at(es, i, 0);
}

/// `find_from(es, es[i].id, k) == Some(es[i])` for every `k <= i` when no
/// entry before `i` carries `es[i].id`.
proof fn lemma_find_from_at(es: Seq<ResEntry>, i: int, k: int)
    requires
        0 <= k <= i < es.len(),
        forall|j: int| 0 <= j < i ==> (#[trigger] es[j]).id != es[i].id,
    ensures
        find_from(es, es[i].id, k) == Some(es[i]),
    decreases i - k,
{
    if k < i {
        lemma_find_from_at(es, i, k + 1);
    }
}

/// A resource directory at `res_base + dir_off` reads successfully exactly
/// when its 16-byte header and all its 8-byte entries are in the file, and
/// then yields one entry per named entry and per id entry
/// (`NumberOfNamedEntries + NumberOfIdEntries`, the words at offsets 12 and
/// 14), the `i`-th read from the 8 bytes at `16 + 8 * i`: id from the low 31
/// bits of its first word, offset from the low 31 bits of its second word,
/// and a subdirectory exactly when that word's high bit is set.
pub proof fn lemma_dir_entries_layout(b: Seq<u8>, res_base: int, dir_off: int)
    requires
        0 <= res_base,
        0 <= dir_off,
    ensures
        ({
            let base = res_base + dir_off;
            let n = le_u16(b, base + 12) + le_u16(b, base + 14);
            &&& spec_dir_entries(b, res_base, dir_off) is Ok <==> (base + 16 <= b.len() && base + 16
                + 8 * n <= b.len())
            &&& spec_dir_entries(b, res_base, dir_off) matches Ok(s) ==> {
                &&& s.len() == n
                &&& forall|i: int|
                    0 <= i < n ==> #[trigger] s[i] == (ResEntry {
                        id: (le_u32(b, base + 16 + 8 * i) % 0x8000_0000) as u32,
                        offset: (le_u32(b, base + 20 + 8 * i) % 0x8000_0000) as u32,
                        is_dir: le_u32(b, base + 20 + 8 * i) >= 0x8000_0000,
                    })
            }
        }),
{
    let base = res_base + dir_off;
    let n = le_u16(b, base + 12) + le_u16(b, base + 14);
    let f = entry_step(b, base);
    if base + 16 <= b.len() {
        assert(spec_u16_at(b, base + 12) == Ok::<u16, IcoError>(le_u16(b, base + 12)));
        assert(spec_u16_at(b, base + 14) == Ok::<u16, IcoError>(le_u16(b, base + 14)));
        lemma_collect_ok(n as nat, f);
        if base + 16 + 8 * n <= b.len() {
            assert forall|i: int| 0 <= i < n implies (#[trigger] f(i)) is Ok by {
                assert(base + 16 + 8 * i + 8 <= b.len());
            }
            lemma_collect_all_ok(n as nat, f);
        }
        if spec_dir_entries(b, res_base, dir_off) is Ok && n > 0 {
            assert(f(n - 1) is Ok);
        }
        if let Ok(s) = spec_dir_entries(b, res_base, dir_off) {
            assert forall|i: int| 0 <= i < n implies #[trigger] s[i] == (ResEntry {
                id: (le_u32(b, base + 16 + 8 * i) % 0x8000_0000) as u32,
                offset: (le_u32(b, base + 20 + 8 * i) % 0x8000_0000) as u32,
                is_dir: le_u32(b, base + 20 + 8 * i) >= 0x8000_0000,
            }) by {
                assert(f(i) == Ok::<ResEntry, IcoError>(s[i]));
            }
        }
    }
}

/// Looking an id up finds nothing exactly when no entry carries it.
pub proof fn lemma_find_none(es: Seq<ResEntry>, id: u32)
    ensures
        find_by_id(es, id) is None <==> forall|j: int| 0 <= j < es.len() ==> (#[trigger] es[j]).id
            != id,
{
    if forall|j: int| 0 <= j < es.len() ==> (#[trigger] es[j]).id != id {
        lemma_find_from_none(es, id, 0);
    } else {
        let k = choose|k: int| 0 <= k < es.len() && (#[trigger] es[k]).id == id;
        lemma_find_first_exists(es, id, k);
    }
}

/// Some entry carries `id`, so one of them is the first; the lookup finds it.
proof fn lemma_find_first_exists(es: Seq<ResEntry>, id: u32, k: int)
    requires
        0 <= k < es.len(),
        es[k].id == id,
    ensures
        find_by_id(es, id) is Some,
    decreases k,
{
    if exists|j: int| 0 <= j < k && (#[trigger] es[j]).id == id {
        let j = choose|j: int| 0 <= j < k && (#[trigger] es[j]).id == id;
        lemma_find_first_exists(es, id, j);
    } else {
        lemma_find_first_occurrence(es, k);
    }
}

proof fn lemma_find_from_none(es: Seq<ResEntry>, id: u32, i: int)
    requires
        0 <= i <= es.len(),
        forall|j: int| 0 <= j < es.len() ==> (#[trigger] es[j]).id != id,
    ensures
        find_from(es, id, i) is None,
    decreases es.len() - i,
{
    if i < es.len() {
        assert(es[i].id != id);
        lemma_find_from_none(es, id, i + 1);
    }
}

/// A resource's data is the leaf of the first language entry under its
/// name entry: the `size` bytes found at the file offset of the leaf's RVA,
/// where the leaf (at that language entry's offset from the resource base)
/// holds the RVA and then the size. It is read exactly when the name entry
/// is a subdirectory with at least one language entry, the leaf is in the
/// file, some section maps its RVA, and all `size` bytes are in the file.
pub proof fn lemma_leaf_data_is_first_language_leaf(
    b: Seq<u8>,
    secs: Seq<Section>,
    res_base: int,
    entry: ResEntry,
)
    requires
        0 <= res_base,
    ensures
        spec_first_leaf_data(b, secs, res_base, entry) is Ok <==> {
            &&& entry.is_dir
            &&& spec_dir_entries(b, res_base, entry.offset as int) matches Ok(langs) && langs.len() > 0
                && {
                let p = res_base + langs[0].offset;
                let rva = le_u32(b, p);
                let size = le_u32(b, p + 4);
                &&& p + 8 <= b.len()
                &&& spec_rva_to_offset(secs, rva) matches Ok(off) && off + size <= b.len()
            }
        },
        spec_first_leaf_data(b, secs, res_base, entry) matches Ok(d) ==> {
            let langs = spec_dir_entries(b, res_base, entry.offset as int)->Ok_0;
            let p = res_base + langs[0].offset;
            let off = spec_rva_to_offset(secs, le_u32(b, p))->Ok_0;
            d == b.subrange(off as int, off + le_u32(b, p + 4))
        },
{
    if entry.is_dir {
        if let Ok(langs) = spec_dir_entries(b, res_base, entry.offset as int) {
            if langs.len() > 0 {
                let p = res_base + langs[0].offset;
                if p + 8 <= b.len() {
                    assert(spec_u32_at(b, p) == Ok::<u32, IcoError>(le_u32(b, p)));
                    assert(spec_u32_at(b, p + 4) == Ok::<u32, IcoError>(le_u32(b, p + 4)));
                }
            }
        }
    }
}

} // verus!
