use vstd::prelude::*;

use crate::error::IcoError;
use crate::bytes::{le_u16, spec_u16_at, spec_u32_at};
use crate::ico::{
    lemma_group_images_layout, lemma_ico_from_group_entries, sum_lens,
    build_ico, collect_group_images, image_step, spec_build_ico, spec_group_image, spec_group_images,
};
use crate::pe::{Pe, Section, spec_parse_pe, spec_rva_to_offset};
use crate::resource::{
    ResEntry, find_by_id, lemma_find_first_occurrence, find_entry, first_leaf_data, read_dir_entries, spec_dir_entries,
    spec_first_leaf_data,
};
use crate::results::{lemma_collect_ok, vec_result};

verus! {

/// The resource type id of `RT_ICON`.
pub const RT_ICON: u32 = 3;

/// The resource type id of `RT_GROUP_ICON`.
pub const RT_GROUP_ICON: u32 = 14;

/// The section table of `b` and the file offset of its resource directory.
pub open spec fn spec_resource_base(b: Seq<u8>) -> Result<(Seq<Section>, u32), IcoError> {
    match spec_parse_pe(b) {
        Err(e) => Err(e),
        Ok((secs, rva)) => match spec_rva_to_offset(secs, rva) {
            Err(e) => Err(e),
            Ok(base) => Ok((secs, base)),
        },
    }
}

/// The resource ids of every `RT_GROUP_ICON` in `b`, in tree order; none when
/// the file has no such type.
pub open spec fn spec_list_icon_groups(b: Seq<u8>) -> Result<Seq<u32>, IcoError> {
    match spec_resource_base(b) {
        Err(e) => Err(e),
        Ok((_secs, base)) => match spec_dir_entries(b, base as int, 0) {
            Err(e) => Err(e),
            Ok(types) => match find_by_id(types, RT_GROUP_ICON) {
                None => Ok(Seq::empty()),
                Some(group_type) => match spec_dir_entries(b, base as int, group_type.offset as int) {
                    Err(e) => Err(e),
                    Ok(names) => Ok(names.map_values(|e: ResEntry| e.id)),
                },
            },
        },
    }
}

/// The `RT_ICON` name entries and the `RT_GROUP_ICON` name entries below the
/// resource root at `base`.
pub open spec fn spec_icon_dirs(b: Seq<u8>, base: int) -> Result<
    (Seq<ResEntry>, Seq<ResEntry>),
    IcoError,
> {
    match spec_dir_entries(b, base, 0) {
        Err(e) => Err(e),
        Ok(types) => match find_by_id(types, RT_ICON) {
            None => Err(IcoError::NoIconResources),
            Some(icon_type) => match find_by_id(types, RT_GROUP_ICON) {
                None => Err(IcoError::NoGroupIconResources),
                Some(group_type) => match spec_dir_entries(b, base, icon_type.offset as int) {
                    Err(e) => Err(e),
                    Ok(icon_names) => match spec_dir_entries(b, base, group_type.offset as int) {
                        Err(e) => Err(e),
                        Ok(groups) => Ok((icon_names, groups)),
                    },
                },
            },
        },
    }
}

/// The `.ico` for one group entry: its `GRPICONDIR`, then its images.
pub open spec fn spec_ico_for_group(
    b: Seq<u8>,
    secs: Seq<Section>,
    base: int,
    icon_names: Seq<ResEntry>,
    group: ResEntry,
) -> Result<Seq<u8>, IcoError> {
    match spec_first_leaf_data(b, secs, base, group) {
        Err(e) => Err(e),
        Ok(group_data) => match spec_group_images(b, secs, base, icon_names, group_data) {
            Err(e) => Err(e),
            Ok(imgs) => Ok(spec_build_ico(imgs)),
        },
    }
}

/// The `.ico` of the icon group at `index` (tree order).
pub open spec fn spec_extract_icon(b: Seq<u8>, index: usize) -> Result<Seq<u8>, IcoError> {
    match spec_resource_base(b) {
        Err(e) => Err(e),
        Ok((secs, base)) => match spec_icon_dirs(b, base as int) {
            Err(e) => Err(e),
            Ok((icon_names, groups)) => if index < groups.len() {
                spec_ico_for_group(b, secs, base as int, icon_names, groups[index as int])
            } else {
                Err(IcoError::GroupIndexOutOfRange { index, count: groups.len() as usize })
            },
        },
    }
}

/// The `.ico` of the first icon group whose resource id is `id`.
pub open spec fn spec_extract_icon_by_id(b: Seq<u8>, id: u32) -> Result<Seq<u8>, IcoError> {
    match spec_resource_base(b) {
        Err(e) => Err(e),
        Ok((secs, base)) => match spec_icon_dirs(b, base as int) {
            Err(e) => Err(e),
            Ok((icon_names, groups)) => match find_by_id(groups, id) {
                None => Err(IcoError::NoGroupWithId { id }),
                Some(group) => spec_ico_for_group(b, secs, base as int, icon_names, group),
            },
        },
    }
}

/// Reads the `RT_ICON` name directory and the `RT_GROUP_ICON` name directory.
pub fn icon_dirs(pe: &Pe, res_base: u32) -> (r: Result<(Vec<ResEntry>, Vec<ResEntry>), IcoError>)
    ensures
        match spec_icon_dirs(pe.bytes@, res_base as int) {
            Ok((icon_names, groups)) => r matches Ok((i, g)) && i@ == icon_names && g@ == groups,
            Err(e) => r == Err::<(Vec<ResEntry>, Vec<ResEntry>), IcoError>(e),
        },
{
    let types = read_dir_entries(pe.bytes, res_base, 0)?;
    let icon_type = match find_entry(&types, RT_ICON) {
        Some(t) => t,
        None => return Err(IcoError::NoIconResources),
    };
    let group_type = match find_entry(&types, RT_GROUP_ICON) {
        Some(t) => t,
        None => return Err(IcoError::NoGroupIconResources),
    };
    let icon_names = read_dir_entries(pe.bytes, res_base, icon_type.offset)?;
    let groups = read_dir_entries(pe.bytes, res_base, group_type.offset)?;
    Ok((icon_names, groups))
}

/// Builds the `.ico` for one resolved `RT_GROUP_ICON` entry.
pub fn build_ico_for_group(pe: &Pe, res_base: u32, icon_names: &Vec<ResEntry>, group: &ResEntry) -> (r:
    Result<Vec<u8>, IcoError>)
    ensures
        vec_result(r) == spec_ico_for_group(
            pe.bytes@,
            pe.sections@,
            res_base as int,
            icon_names@,
            *group,
        ),
{
    let group_data = first_leaf_data(pe, res_base, group)?;
    let images = collect_group_images(pe, res_base, icon_names, group_data.as_slice())?;
    Ok(build_ico(images.as_slice()))
}

/// Parses `pe_bytes` and locates its resource directory.
fn open_resources(pe_bytes: &[u8]) -> (r: Result<(Pe, u32), IcoError>)
    ensures
        match spec_resource_base(pe_bytes@) {
            Ok((secs, base)) => r matches Ok((pe, b)) && pe.bytes@ == pe_bytes@ && pe.sections@
                == secs && b == base,
            Err(e) => r is Err && r->Err_0 == e,
        },
{
    let pe = Pe::parse(pe_bytes)?;
    let res_base = pe.rva_to_offset(pe.resource_rva)?;
    Ok((pe, res_base))
}

/// Lists the resource ids of every `RT_GROUP_ICON` in the file, in tree
/// order; an empty list when the file has no icon groups.
pub fn list_icon_groups(pe_bytes: &[u8]) -> (r: Result<Vec<u32>, IcoError>)
    ensures
        vec_result(r) == spec_list_icon_groups(pe_bytes@),
{
    let (pe, res_base) = open_resources(pe_bytes)?;
    let types = read_dir_entries(pe.bytes, res_base, 0)?;
    let group_type = match find_entry(&types, RT_GROUP_ICON) {
        Some(t) => t,
        None => return Ok(Vec::new()),
    };
    let names = read_dir_entries(pe.bytes, res_base, group_type.offset)?;
    let mut ids: Vec<u32> = Vec::new();
    let mut i: usize = 0;
    while i < names.len()
        invariant
            i <= names@.len(),
            ids@ == names@.subrange(0, i as int).map_values(|e: ResEntry| e.id),
        decreases names@.len() - i,
    {
        ids.push(names[i].id);
        i = i + 1;
        assert(ids@ =~= names@.subrange(0, i as int).map_values(|e: ResEntry| e.id));
    }
    assert(names@.subrange(0, names@.len() as int) =~= names@);
    Ok(ids)
}

/// Extracts the icon group at `group_index` (0-based, tree order) as a `.ico`.
pub fn extract_icon(pe_bytes: &[u8], group_index: usize) -> (r: Result<Vec<u8>, IcoError>)
    ensures
        vec_result(r) == spec_extract_icon(pe_bytes@, group_index),
{
    let (pe, res_base) = open_resources(pe_bytes)?;
    let (icon_names, groups) = icon_dirs(&pe, res_base)?;
    if group_index >= groups.len() {
        return Err(IcoError::GroupIndexOutOfRange { index: group_index, count: groups.len() });
    }
    build_ico_for_group(&pe, res_base, &icon_names, &groups[group_index])
}

/// Extracts the icon group whose Windows resource id is `id` as a `.ico`.
pub fn extract_icon_by_id(pe_bytes: &[u8], id: u32) -> (r: Result<Vec<u8>, IcoError>)
    ensures
        vec_result(r) == spec_extract_icon_by_id(pe_bytes@, id),
{
    let (pe, res_base) = open_resources(pe_bytes)?;
    let (icon_names, groups) = icon_dirs(&pe, res_base)?;
    let group = match find_entry(&groups, id) {
        Some(g) => g,
        None => return Err(IcoError::NoGroupWithId { id }),
    };
    build_ico_for_group(&pe, res_base, &icon_names, &group)
}

/// Extracting the `i`-th listed group by index and extracting it by its
/// listed id give the same result, provided no earlier group carries the same id.
pub proof fn lemma_index_and_id_agree(b: Seq<u8>, ids: Seq<u32>, i: usize)
    requires
        spec_list_icon_groups(b) == Ok::<Seq<u32>, IcoError>(ids),
        i < ids.len(),
        forall|j: int| 0 <= j < i ==> #[trigger] ids[j] != ids[i as int],
    ensures
        spec_extract_icon(b, i) == spec_extract_icon_by_id(b, ids[i as int]),
{
    let (secs, base) = spec_resource_base(b)->Ok_0;
    let types = spec_dir_entries(b, base as int, 0)->Ok_0;
    let group_type = find_by_id(types, RT_GROUP_ICON)->Some_0;
    let names = spec_dir_entries(b, base as int, group_type.offset as int)->Ok_0;
    assert(ids == names.map_values(|e: ResEntry| e.id));
    if let Ok((icon_names, groups)) = spec_icon_dirs(b, base as int) {
        assert(groups == names);
        assert forall|j: int| 0 <= j < i implies #[trigger] groups[j].id != groups[i as int].id by {
            assert(ids[j] == groups[j].id);
        }
        assert(ids[i as int] == groups[i as int].id);
        lemma_find_first_occurrence(groups, i as int);
    }
}

/// Asking for a group index at or past the number of listed groups fails.
pub proof fn lemma_index_past_groups_fails(b: Seq<u8>, ids: Seq<u32>, i: usize)
    requires
        spec_list_icon_groups(b) == Ok::<Seq<u32>, IcoError>(ids),
        i >= ids.len(),
    ensures
        spec_extract_icon(b, i) is Err,
{
    let (secs, base) = spec_resource_base(b)->Ok_0;
    let types = spec_dir_entries(b, base as int, 0)->Ok_0;
    if let Ok((icon_names, groups)) = spec_icon_dirs(b, base as int) {
        let group_type = find_by_id(types, RT_GROUP_ICON)->Some_0;
        let names = spec_dir_entries(b, base as int, group_type.offset as int)->Ok_0;
        assert(groups == names);
        assert(ids.len() == names.len());
    }
}

/// Input without a DOS `MZ` header is rejected by every entry point with the
/// same error.
pub proof fn lemma_non_pe_rejected(b: Seq<u8>, index: usize, id: u32)
    requires
        b.len() < 0x40 || b[0] != 0x4d || b[1] != 0x5a,
    ensures
        spec_list_icon_groups(b) == Err::<Seq<u32>, IcoError>(IcoError::MissingMzHeader),
        spec_extract_icon(b, index) == Err::<Seq<u8>, IcoError>(IcoError::MissingMzHeader),
        spec_extract_icon_by_id(b, id) == Err::<Seq<u8>, IcoError>(IcoError::MissingMzHeader),
{
}

/// Every `.ico` extracted for a group is the assembly of (entry, image) pairs
/// whose entries are 14 bytes long, so `lemma_ico_layout` describes it.
pub proof fn lemma_extracted_is_ico(
    b: Seq<u8>,
    secs: Seq<Section>,
    base: int,
    icon_names: Seq<ResEntry>,
    group: ResEntry,
)
    ensures
        spec_ico_for_group(b, secs, base, icon_names, group) matches Ok(ico) ==> exists|
            imgs: Seq<(Seq<u8>, Seq<u8>)>,
        |
            #![trigger spec_build_ico(imgs)]
            ico == spec_build_ico(imgs) && forall|j: int|
                0 <= j < imgs.len() ==> (#[trigger] imgs[j]).0.len() == 14,
{
    if let Ok(group_data) = spec_first_leaf_data(b, secs, base, group) {
        if let Ok(imgs) = spec_group_images(b, secs, base, icon_names, group_data) {
            let count = crate::bytes::spec_u16_at(group_data, 4)->Ok_0;
            let step = image_step(b, secs, base, icon_names, group_data);
            lemma_collect_ok(count as nat, step);
            assert forall|j: int| 0 <= j < imgs.len() implies (#[trigger] imgs[j]).0.len() == 14 by {
                assert(step(j) == Ok::<(Seq<u8>, Seq<u8>), IcoError>(imgs[j]));
                assert(spec_group_image(b, secs, base, icon_names, group_data, j) == step(j));
            }
        }
    }
}

/// The `.ico` extracted for a group holds every image of the group: it is
/// produced exactly when the group's data and all its images can be read;
/// its header says "icon" with the group's `idCount`; it is 6 bytes, plus 16
/// per image, plus the images long; and (below 4 GiB, where no offset wraps)
/// the `i`-th directory entry starts with the first 12 bytes of the `i`-th
/// `GRPICONDIRENTRY` and records where the `i`-th image lies, whole.
pub proof fn lemma_ico_holds_every_group_image(
    b: Seq<u8>,
    secs: Seq<Section>,
    base: int,
    icon_names: Seq<ResEntry>,
    group: ResEntry,
)
    ensures
        spec_ico_for_group(b, secs, base, icon_names, group) is Ok <==> (spec_first_leaf_data(
            b,
            secs,
            base,
            group,
        ) is Ok && spec_group_images(
            b,
            secs,
            base,
            icon_names,
            spec_first_leaf_data(b, secs, base, group)->Ok_0,
        ) is Ok),
        spec_ico_for_group(b, secs, base, icon_names, group) matches Ok(ico) ==> ({
            let gd = spec_first_leaf_data(b, secs, base, group)->Ok_0;
            let imgs = spec_group_images(b, secs, base, icon_names, gd)->Ok_0;
            let count = le_u16(gd, 4) as int;
            &&& imgs.len() == count
            &&& ico.len() == 6 + 16 * count + sum_lens(imgs, count)
            &&& spec_u16_at(ico, 0) == Ok::<u16, IcoError>(0)
            &&& spec_u16_at(ico, 2) == Ok::<u16, IcoError>(1)
            &&& spec_u16_at(ico, 4) == Ok::<u16, IcoError>(le_u16(gd, 4))
            &&& ico.len() < 0x1_0000_0000 ==> forall|i: int|
                0 <= i < count ==> {
                    &&& #[trigger] ico.subrange(6 + 16 * i, 6 + 16 * i + 12) == gd.subrange(
                        6 + 14 * i,
                        6 + 14 * i + 12,
                    )
                    &&& spec_u32_at(ico, 6 + 16 * i + 12) matches Ok(off) && off + imgs[i].1.len()
                        <= ico.len() && ico.subrange(off as int, off + imgs[i].1.len())
                        == imgs[i].1
                }
        }),
{
    if let Ok(ico) = spec_ico_for_group(b, secs, base, icon_names, group) {
        let gd = spec_first_leaf_data(b, secs, base, group)->Ok_0;
        let imgs = spec_group_images(b, secs, base, icon_names, gd)->Ok_0;
        assert(ico == spec_build_ico(imgs));
        lemma_group_images_layout(b, secs, base, icon_names, gd);
        lemma_ico_from_group_entries(imgs, gd);
    }
}

} // verus!
