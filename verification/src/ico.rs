use vstd::prelude::*;

use crate::bytes::{
    le16_bytes, le32_bytes, le_u16, lemma_le16_roundtrip, lemma_le32_roundtrip, read_u16,
    spec_u16_at, spec_u32_at,
};
use crate::error::IcoError;
use crate::pe::{Pe, Section};
use crate::resource::{ResEntry, find_by_id, find_entry, first_leaf_data, spec_first_leaf_data};
use crate::results::{collect, lemma_collect_all_ok, lemma_collect_err, lemma_collect_ok};

verus! {

/// The value of a (group entry, image) pair: the 14 bytes of its
/// `GRPICONDIRENTRY` and the image bytes.
pub open spec fn images_view(v: Seq<([u8; 14], Vec<u8>)>) -> Seq<(Seq<u8>, Seq<u8>)> {
    v.map_values(|p: ([u8; 14], Vec<u8>)| (p.0@, p.1@))
}

/// Total length of the first `k` images.
pub open spec fn sum_lens(imgs: Seq<(Seq<u8>, Seq<u8>)>, k: int) -> int
    decreases k,
{
    if k <= 0 {
        0
    } else {
        sum_lens(imgs, k - 1) + imgs[k - 1].1.len()
    }
}

/// Where the `i`-th image starts in the `.ico`: after the 6-byte header, the
/// 16-byte entry of every image and the images before it; a `u32` field, so
/// taken modulo 2^32.
pub open spec fn image_offset(imgs: Seq<(Seq<u8>, Seq<u8>)>, i: int) -> int {
    (6 + 16 * imgs.len() + sum_lens(imgs, i)) % 0x1_0000_0000
}

/// The 16-byte `ICONDIRENTRY` of the `i`-th image: the first 12 bytes of its
/// group entry (size, colours, planes, bit count, byte count) and its offset.
pub open spec fn ico_entry(imgs: Seq<(Seq<u8>, Seq<u8>)>, i: int) -> Seq<u8> {
    imgs[i].0.subrange(0, 12) + le32_bytes(image_offset(imgs, i))
}

/// The entries of the first `k` images.
pub open spec fn ico_entries(imgs: Seq<(Seq<u8>, Seq<u8>)>, k: int) -> Seq<u8>
    decreases k,
{
    if k <= 0 {
        Seq::empty()
    } else {
        ico_entries(imgs, k - 1) + ico_entry(imgs, k - 1)
    }
}

/// The bytes of the first `k` images, one after another.
pub open spec fn ico_data(imgs: Seq<(Seq<u8>, Seq<u8>)>, k: int) -> Seq<u8>
    decreases k,
{
    if k <= 0 {
        Seq::empty()
    } else {
        ico_data(imgs, k - 1) + imgs[k - 1].1
    }
}

/// The 6-byte `ICONDIR` header: reserved 0, type 1 (icon), image count (a
/// `u16` field, so taken modulo 2^16).
pub open spec fn ico_header(n: int) -> Seq<u8> {
    le16_bytes(0) + le16_bytes(1) + le16_bytes(n)
}

/// The `.ico` file holding `imgs`: header, directory, then the images.
pub open spec fn spec_build_ico(imgs: Seq<(Seq<u8>, Seq<u8>)>) -> Seq<u8> {
    ico_header(imgs.len() as int) + ico_entries(imgs, imgs.len() as int) + ico_data(
        imgs,
        imgs.len() as int,
    )
}

/// Appends the four little-endian bytes of `v` to `out`.
fn push_le32(out: &mut Vec<u8>, v: u32)
    ensures
        final(out)@ == old(out)@ + le32_bytes(v as int),
{
    out.push((v % 0x100) as u8);
    out.push(((v / 0x100) % 0x100) as u8);
    out.push(((v / 0x1_0000) % 0x100) as u8);
    out.push(((v / 0x100_0000) % 0x100) as u8);
}

/// Assembles a `.ico` file from (`GRPICONDIRENTRY`, image) pairs: each
/// directory entry keeps the first 12 bytes of its group entry and records
/// where its image starts; the images follow the directory in order.
pub fn build_ico(images: &[([u8; 14], Vec<u8>)]) -> (ico: Vec<u8>)
    ensures
        ico@ == spec_build_ico(images_view(images@)),
{
    let ghost imgs = images_view(images@);
    let n = images.len();
    let mut out: Vec<u8> = Vec::new();
    out.push(0);
    out.push(0);
    out.push(1);
    out.push(0);
    out.push((n % 0x100) as u8);
    out.push(((n / 0x100) % 0x100) as u8);
    assert(out@ == ico_header(n as int));

    let n32: u64 = n as u64 % 0x1_0000_0000;
    let mut data_offset: u32 = ((6 + 16 * n32) % 0x1_0000_0000) as u32;
    proof {
        vstd::arithmetic::div_mod::lemma_mul_mod_noop_right(16, n as int, 0x1_0000_0000);
        vstd::arithmetic::div_mod::lemma_add_mod_noop_right(6, 16 * (n as int), 0x1_0000_0000);
        vstd::arithmetic::div_mod::lemma_add_mod_noop_right(
            6,
            16 * (n as int % 0x1_0000_0000),
            0x1_0000_0000,
        );
    }
    let mut i: usize = 0;
    while i < n
        invariant
            n == images@.len(),
            imgs == images_view(images@),
            i <= n,
            out@ == ico_header(n as int) + ico_entries(imgs, i as int),
            data_offset == image_offset(imgs, i as int),
        decreases n - i,
    {
        let ghost before = out@;
        let mut k: usize = 0;
        while k < 12
            invariant
                i < n == images@.len(),
                k <= 12,
                out@ == before + images@[i as int].0@.subrange(0, k as int),
            decreases 12 - k,
        {
            out.push(images[i].0[k]);
            k = k + 1;
        }
        push_le32(&mut out, data_offset);
        assert(imgs[i as int].0 == images@[i as int].0@);
        assert(ico_entries(imgs, i + 1) == ico_entries(imgs, i as int) + ico_entry(imgs, i as int));
        let len: u64 = images[i].1.len() as u64 % 0x1_0000_0000;
        proof {
            let m = 0x1_0000_0000int;
            let a = 6 + 16 * imgs.len() + sum_lens(imgs, i as int);
            let l = imgs[i as int].1.len() as int;
            assert(l == images@[i as int].1@.len());
            vstd::arithmetic::div_mod::lemma_add_mod_noop(a, l, m);
            vstd::arithmetic::div_mod::lemma_mod_twice(l, m);
            vstd::arithmetic::div_mod::lemma_mod_twice(a, m);
        }
        data_offset = ((data_offset as u64 + len) % 0x1_0000_0000) as u32;
        i = i + 1;
    }
    let mut i: usize = 0;
    while i < n
        invariant
            n == images@.len(),
            imgs == images_view(images@),
            i <= n,
            out@ == ico_header(n as int) + ico_entries(imgs, n as int) + ico_data(imgs, i as int),
        decreases n - i,
    {
        let ghost before = out@;
        let img = &images[i].1;
        let mut k: usize = 0;
        while k < img.len()
            invariant
                k <= img@.len(),
                out@ == before + img@.subrange(0, k as int),
            decreases img@.len() - k,
        {
            out.push(img[k]);
            k = k + 1;
        }
        assert(img@.subrange(0, img@.len() as int) == img@);
        assert(imgs[i as int].1 == img@);
        i = i + 1;
    }
    out
}

/// The images before the `k`-th take up `sum_lens(imgs, k)` bytes, at least
/// as much as any shorter prefix.
proof fn lemma_sum_lens_monotone(imgs: Seq<(Seq<u8>, Seq<u8>)>, i: int, k: int)
    requires
        0 <= i <= k <= imgs.len(),
    ensures
        0 <= sum_lens(imgs, i) <= sum_lens(imgs, k),
    decreases k,
{
    if k > i {
        lemma_sum_lens_monotone(imgs, i, k - 1);
    }
    if k > 0 {
        lemma_sum_lens_monotone(imgs, 0, k - 1);
    }
}

/// The directory of `k` images is `16 * k` bytes long and holds the entry of
/// image `i` at `16 * i`.
proof fn lemma_entries_layout(imgs: Seq<(Seq<u8>, Seq<u8>)>, k: int, i: int)
    requires
        0 <= k <= imgs.len(),
        forall|j: int| 0 <= j < imgs.len() ==> (#[trigger] imgs[j]).0.len() == 14,
    ensures
        ico_entries(imgs, k).len() == 16 * k,
        0 <= i < k ==> ico_entries(imgs, k).subrange(16 * i, 16 * i + 16) == ico_entry(imgs, i),
    decreases k,
{
    if k > 0 {
        lemma_entries_layout(imgs, k - 1, i);
        let prev = ico_entries(imgs, k - 1);
        assert(ico_entry(imgs, k - 1).len() == 16);
        if 0 <= i && i < k - 1 {
            assert(ico_entries(imgs, k).subrange(16 * i, 16 * i + 16) =~= prev.subrange(
                16 * i,
                16 * i + 16,
            ));
        } else if i == k - 1 {
            assert(ico_entries(imgs, k).subrange(16 * i, 16 * i + 16) =~= ico_entry(imgs, i));
        }
    }
}

/// The images of the first `k` pairs take `sum_lens(imgs, k)` bytes, image
/// `i` starting at `sum_lens(imgs, i)`.
proof fn lemma_data_layout(imgs: Seq<(Seq<u8>, Seq<u8>)>, k: int, i: int)
    requires
        0 <= k <= imgs.len(),
    ensures
        ico_data(imgs, k).len() == sum_lens(imgs, k),
        0 <= i < k ==> ico_data(imgs, k).subrange(
            sum_lens(imgs, i),
            sum_lens(imgs, i) + imgs[i].1.len(),
        ) == imgs[i].1,
    decreases k,
{
    if k > 0 {
        lemma_data_layout(imgs, k - 1, i);
        let prev = ico_data(imgs, k - 1);
        let last = imgs[k - 1].1;
        assert(ico_data(imgs, k) == prev + last);
        assert(prev.len() == sum_lens(imgs, k - 1));
        if 0 <= i && i < k - 1 {
            let x = sum_lens(imgs, i);
            let y = sum_lens(imgs, i) + imgs[i].1.len();
            lemma_sum_lens_monotone(imgs, i + 1, k - 1);
            lemma_sum_lens_monotone(imgs, 0, i);
            assert(sum_lens(imgs, i + 1) == y);
            assert(0 <= x <= y <= prev.len());
            assert((prev + last).subrange(x, y) =~= prev.subrange(x, y));
        } else if i == k - 1 {
            assert((prev + last).subrange(prev.len() as int, (prev.len() + last.len()) as int) =~= last);
        }
    }
}

/// The header part of a built `.ico`: reserved 0, type 1, and the image count.
pub proof fn lemma_ico_header(imgs: Seq<(Seq<u8>, Seq<u8>)>)
    ensures
        ({
            let ico = spec_build_ico(imgs);
            let n = imgs.len() as int;
            &&& ico.len() >= 6
            &&& spec_u16_at(ico, 0) == Ok::<u16, IcoError>(0)
            &&& spec_u16_at(ico, 2) == Ok::<u16, IcoError>(1)
            &&& spec_u16_at(ico, 4) == Ok::<u16, IcoError>((n % 0x1_0000) as u16)
        }),
{
    let ico = spec_build_ico(imgs);
    let n = imgs.len() as int;
    let rest = ico_entries(imgs, n) + ico_data(imgs, n);
    assert(ico =~= ico_header(n) + rest);
    assert(ico.subrange(0, 2) =~= le16_bytes(0));
    lemma_le16_roundtrip(ico, 0, 0);
    assert(ico.subrange(2, 4) =~= le16_bytes(1));
    lemma_le16_roundtrip(ico, 2, 1);
    assert(le16_bytes(n) =~= le16_bytes((n % 0x1_0000) as u16 as int));
    assert(ico.subrange(4, 6) =~= le16_bytes((n % 0x1_0000) as u16 as int));
    lemma_le16_roundtrip(ico, 4, (n % 0x1_0000) as u16);
}

/// A built `.ico` is the 6-byte header, 16 bytes per image and the images.
pub proof fn lemma_ico_len(imgs: Seq<(Seq<u8>, Seq<u8>)>)
    requires
        forall|j: int| 0 <= j < imgs.len() ==> (#[trigger] imgs[j]).0.len() == 14,
    ensures
        spec_build_ico(imgs).len() == 6 + 16 * imgs.len() + sum_lens(imgs, imgs.len() as int),
{
    lemma_entries_layout(imgs, imgs.len() as int, 0);
    lemma_data_layout(imgs, imgs.len() as int, 0);
}

/// The `i`-th directory entry of a built `.ico` lies at `6 + 16 * i`.
proof fn lemma_ico_entry_at(imgs: Seq<(Seq<u8>, Seq<u8>)>, i: int)
    requires
        0 <= i < imgs.len(),
        forall|j: int| 0 <= j < imgs.len() ==> (#[trigger] imgs[j]).0.len() == 14,
    ensures
        spec_build_ico(imgs).subrange(6 + 16 * i, 6 + 16 * i + 16) == ico_entry(imgs, i),
        spec_build_ico(imgs).len() == 6 + 16 * imgs.len() + sum_lens(imgs, imgs.len() as int),
{
    let n = imgs.len() as int;
    let header = ico_header(n);
    let entries = ico_entries(imgs, n);
    let data = ico_data(imgs, n);
    lemma_entries_layout(imgs, n, i);
    lemma_data_layout(imgs, n, i);
    let ico = spec_build_ico(imgs);
    assert(ico =~= header + (entries + data));
    assert(ico.subrange(6 + 16 * i, 6 + 16 * i + 16) =~= entries.subrange(16 * i, 16 * i + 16));
}

/// The `i`-th image of a built `.ico` lies right after the directory and the
/// images before it.
proof fn lemma_ico_image_at(imgs: Seq<(Seq<u8>, Seq<u8>)>, i: int)
    requires
        0 <= i < imgs.len(),
        forall|j: int| 0 <= j < imgs.len() ==> (#[trigger] imgs[j]).0.len() == 14,
    ensures
        ({
            let off = 6 + 16 * imgs.len() + sum_lens(imgs, i);
            &&& 0 <= off
            &&& off + imgs[i].1.len() <= spec_build_ico(imgs).len()
            &&& spec_build_ico(imgs).subrange(off, off + imgs[i].1.len()) == imgs[i].1
        }),
{
    let n = imgs.len() as int;
    let header = ico_header(n);
    let entries = ico_entries(imgs, n);
    let data = ico_data(imgs, n);
    lemma_entries_layout(imgs, n, i);
    lemma_data_layout(imgs, n, i);
    lemma_sum_lens_monotone(imgs, i + 1, n);
    lemma_sum_lens_monotone(imgs, 0, i);
    let ico = spec_build_ico(imgs);
    let s = sum_lens(imgs, i);
    let l = imgs[i].1.len() as int;
    assert(sum_lens(imgs, i + 1) == s + l);
    assert(ico =~= (header + entries) + data);
    assert((header + entries).len() == 6 + 16 * n);
    assert(ico.subrange(6 + 16 * n + s, 6 + 16 * n + s + l) =~= data.subrange(s, s + l));
}

/// Reading back a built `.ico`: the header says "icon" and gives the image
/// count; the `i`-th directory entry keeps the first 12 bytes of the `i`-th
/// group entry and holds the offset at which the `i`-th image's bytes are
/// found, whole and unchanged. Stated for files under 4 GiB, where no `u32`
/// offset wraps around.
pub proof fn lemma_ico_layout(imgs: Seq<(Seq<u8>, Seq<u8>)>, i: int)
    requires
        0 <= i < imgs.len(),
        forall|j: int| 0 <= j < imgs.len() ==> (#[trigger] imgs[j]).0.len() == 14,
        6 + 16 * imgs.len() + sum_lens(imgs, imgs.len() as int) < 0x1_0000_0000,
    ensures
        ({
            let ico = spec_build_ico(imgs);
            let n = imgs.len() as int;
            let e = 6 + 16 * i;
            let off = 6 + 16 * n + sum_lens(imgs, i);
            &&& ico.len() == 6 + 16 * n + sum_lens(imgs, n)
            &&& spec_u16_at(ico, 0) == Ok::<u16, IcoError>(0)
            &&& spec_u16_at(ico, 2) == Ok::<u16, IcoError>(1)
            &&& spec_u16_at(ico, 4) == Ok::<u16, IcoError>((n % 0x1_0000) as u16)
            &&& ico.subrange(e, e + 12) == imgs[i].0.subrange(0, 12)
            &&& spec_u32_at(ico, e + 12) == Ok::<u32, IcoError>(off as u32)
            &&& off + imgs[i].1.len() <= ico.len()
            &&& ico.subrange(off, off + imgs[i].1.len()) == imgs[i].1
        }),
{
    let ico = spec_build_ico(imgs);
    let n = imgs.len() as int;
    let e = 6 + 16 * i;
    let off = 6 + 16 * n + sum_lens(imgs, i);
    lemma_ico_header(imgs);
    lemma_ico_entry_at(imgs, i);
    lemma_ico_image_at(imgs, i);
    lemma_sum_lens_monotone(imgs, i, n);
    let entry = ico_entry(imgs, i);
    vstd::arithmetic::div_mod::lemma_small_mod(off as nat, 0x1_0000_0000nat);
    assert(image_offset(imgs, i) == off);
    assert(ico.subrange(e, e + 12) =~= entry.subrange(0, 12));
    assert(entry.subrange(0, 12) =~= imgs[i].0.subrange(0, 12));
    assert(ico.subrange(e + 12, e + 16) =~= entry.subrange(12, 16));
    assert(entry.subrange(12, 16) =~= le32_bytes(off as u32 as int));
    lemma_le32_roundtrip(ico, e + 12, off as u32);
}

/// The `i`-th (`GRPICONDIRENTRY`, image) pair of a group: the 14-byte entry
/// at `6 + 14 * i` in the group data, and the data of the `RT_ICON` whose id
/// is the entry's `nID` (its last two bytes).
pub open spec fn spec_group_image(
    b: Seq<u8>,
    secs: Seq<Section>,
    res_base: int,
    icon_names: Seq<ResEntry>,
    group_data: Seq<u8>,
    i: int,
) -> Result<(Seq<u8>, Seq<u8>), IcoError> {
    let e = 6 + 14 * i;
    if e + 14 > group_data.len() {
        Err(IcoError::GroupEntryOutOfBounds)
    } else {
        let icon_id = le_u16(group_data, e + 12) as u32;
        match find_by_id(icon_names, icon_id) {
            None => Err(IcoError::IconNotFound { id: icon_id }),
            Some(name) => match spec_first_leaf_data(b, secs, res_base, name) {
                Err(err) => Err(err),
                Ok(img) => Ok((group_data.subrange(e, e + 14), img)),
            },
        }
    }
}

/// Reading the `i`-th pair of a group.
pub open spec fn image_step(
    b: Seq<u8>,
    secs: Seq<Section>,
    res_base: int,
    icon_names: Seq<ResEntry>,
    group_data: Seq<u8>,
) -> spec_fn(int) -> Result<(Seq<u8>, Seq<u8>), IcoError> {
    |i: int| spec_group_image(b, secs, res_base, icon_names, group_data, i)
}

/// All pairs of a group (`GRPICONDIR`): as many as its `idCount` (offset 4) says.
pub open spec fn spec_group_images(
    b: Seq<u8>,
    secs: Seq<Section>,
    res_base: int,
    icon_names: Seq<ResEntry>,
    group_data: Seq<u8>,
) -> Result<Seq<(Seq<u8>, Seq<u8>)>, IcoError> {
    match spec_u16_at(group_data, 4) {
        Err(e) => Err(e),
        Ok(count) => collect(count as nat, image_step(b, secs, res_base, icon_names, group_data)),
    }
}

/// Reads the `i`-th (`GRPICONDIRENTRY`, image) pair of a group.
fn read_group_image(
    pe: &Pe,
    res_base: u32,
    icon_names: &Vec<ResEntry>,
    group_data: &[u8],
    i: u16,
) -> (r: Result<([u8; 14], Vec<u8>), IcoError>)
    ensures
        match spec_group_image(
            pe.bytes@,
            pe.sections@,
            res_base as int,
            icon_names@,
            group_data@,
            i as int,
        ) {
            Ok(p) => r matches Ok(x) && (x.0@, x.1@) == p,
            Err(e) => r == Err::<([u8; 14], Vec<u8>), IcoError>(e),
        },
{
    let len = group_data.len() as u64;
    let e: u64 = 6 + 14 * (i as u64);
    if e + 14 > len {
        return Err(IcoError::GroupEntryOutOfBounds);
    }
    let k = e as usize;
    let raw: [u8; 14] = [
        group_data[k],
        group_data[k + 1],
        group_data[k + 2],
        group_data[k + 3],
        group_data[k + 4],
        group_data[k + 5],
        group_data[k + 6],
        group_data[k + 7],
        group_data[k + 8],
        group_data[k + 9],
        group_data[k + 10],
        group_data[k + 11],
        group_data[k + 12],
        group_data[k + 13],
    ];
    assert(raw@ =~= group_data@.subrange(e as int, e + 14));
    let icon_id: u32 = group_data[k + 12] as u32 + 256 * (group_data[k + 13] as u32);
    assert(icon_id == le_u16(group_data@, e + 12) as u32);
    match find_entry(icon_names, icon_id) {
        None => Err(IcoError::IconNotFound { id: icon_id }),
        Some(name) => {
            let img = first_leaf_data(pe, res_base, &name)?;
            Ok((raw, img))
        },
    }
}

/// For each entry of a `GRPICONDIR`, fetches the matching `RT_ICON` image,
/// returning (`GRPICONDIRENTRY`, image) pairs.
pub fn collect_group_images(
    pe: &Pe,
    res_base: u32,
    icon_names: &Vec<ResEntry>,
    group_data: &[u8],
) -> (r: Result<Vec<([u8; 14], Vec<u8>)>, IcoError>)
    ensures
        match spec_group_images(pe.bytes@, pe.sections@, res_base as int, icon_names@, group_data@) {
            Ok(s) => r matches Ok(v) && images_view(v@) == s,
            Err(e) => r == Err::<Vec<([u8; 14], Vec<u8>)>, IcoError>(e),
        },
{
    let count = read_u16(group_data, 4)?;
    let ghost step = image_step(pe.bytes@, pe.sections@, res_base as int, icon_names@, group_data@);
    let mut out: Vec<([u8; 14], Vec<u8>)> = Vec::new();
    assert(images_view(out@) =~= Seq::<(Seq<u8>, Seq<u8>)>::empty());
    let mut i: u16 = 0;
    while i < count
        invariant
            i <= count,
            step == image_step(pe.bytes@, pe.sections@, res_base as int, icon_names@, group_data@),
            spec_group_images(pe.bytes@, pe.sections@, res_base as int, icon_names@, group_data@)
                == collect(count as nat, step),
            collect(i as nat, step) == Ok::<Seq<(Seq<u8>, Seq<u8>)>, IcoError>(images_view(out@)),
        decreases count - i,
    {
        match read_group_image(pe, res_base, icon_names, group_data, i) {
            Err(err) => {
                proof {
                    lemma_collect_err((i + 1) as nat, count as nat, step);
                }
                return Err(err);
            },
            Ok(pair) => {
                let ghost before = out@;
                let ghost pv = (pair.0@, pair.1@);
                out.push(pair);
                assert(images_view(out@) =~= images_view(before).push(pv));
            },
        }
        i = i + 1;
    }
    Ok(out)
}

/// The `RT_ICON` with id `id` is in `icon_names` and its leaf data can be read.
pub open spec fn icon_available(
    b: Seq<u8>,
    secs: Seq<Section>,
    res_base: int,
    icon_names: Seq<ResEntry>,
    id: u32,
) -> bool {
    find_by_id(icon_names, id) matches Some(name) && spec_first_leaf_data(
        b,
        secs,
        res_base,
        name,
    ) is Ok
}

/// A group's images are read from its `GRPICONDIR`: `idCount` (the word at
/// offset 4) entries of 14 bytes each, packed from offset 6; the `i`-th pair
/// is the entry at `6 + 14 * i` and the data of the `RT_ICON` whose id is the
/// entry's last word. Reading succeeds whenever all entries are present and
/// every icon they name can be read.
pub proof fn lemma_group_images_layout(
    b: Seq<u8>,
    secs: Seq<Section>,
    res_base: int,
    icon_names: Seq<ResEntry>,
    group_data: Seq<u8>,
)
    ensures
        ({
            let gd = group_data;
            let count = le_u16(gd, 4) as int;
            &&& spec_group_images(b, secs, res_base, icon_names, gd) matches Ok(imgs) ==> {
                &&& 6 <= gd.len() && 6 + 14 * count <= gd.len()
                &&& imgs.len() == count
                &&& forall|i: int|
                    0 <= i < count ==> {
                        &&& (#[trigger] imgs[i]).0 == gd.subrange(6 + 14 * i, 6 + 14 * i + 14)
                        &&& find_by_id(icon_names, le_u16(gd, 6 + 14 * i + 12) as u32) matches Some(
                            name,
                        ) && spec_first_leaf_data(b, secs, res_base, name) == Ok::<
                            Seq<u8>,
                            IcoError,
                        >(imgs[i].1)
                    }
            }
            &&& (6 <= gd.len() && 6 + 14 * count <= gd.len() && forall|i: int|
                0 <= i < count ==> #[trigger] icon_available(
                    b,
                    secs,
                    res_base,
                    icon_names,
                    le_u16(gd, 6 + 14 * i + 12) as u32,
                )) ==> spec_group_images(b, secs, res_base, icon_names, gd) is Ok
        }),
{
    let gd = group_data;
    let count = le_u16(gd, 4) as int;
    let f = image_step(b, secs, res_base, icon_names, gd);
    if 6 <= gd.len() {
        assert(spec_u16_at(gd, 4) == Ok::<u16, IcoError>(le_u16(gd, 4)));
        lemma_collect_ok(count as nat, f);
        if let Ok(imgs) = spec_group_images(b, secs, res_base, icon_names, gd) {
            if count > 0 {
                assert(f(count - 1) is Ok);
            }
            assert forall|i: int| 0 <= i < count implies {
                &&& (#[trigger] imgs[i]).0 == gd.subrange(6 + 14 * i, 6 + 14 * i + 14)
                &&& find_by_id(icon_names, le_u16(gd, 6 + 14 * i + 12) as u32) matches Some(name)
                    && spec_first_leaf_data(b, secs, res_base, name) == Ok::<Seq<u8>, IcoError>(
                    imgs[i].1,
                )
            } by {
                assert(f(i) == Ok::<(Seq<u8>, Seq<u8>), IcoError>(imgs[i]));
            }
        }
        if 6 + 14 * count <= gd.len() && forall|i: int|
            0 <= i < count ==> #[trigger] icon_available(
                b,
                secs,
                res_base,
                icon_names,
                le_u16(gd, 6 + 14 * i + 12) as u32,
            ) {
            assert forall|i: int| 0 <= i < count implies (#[trigger] f(i)) is Ok by {
                assert(icon_available(
                    b,
                    secs,
                    res_base,
                    icon_names,
                    le_u16(gd, 6 + 14 * i + 12) as u32,
                ));
            }
            lemma_collect_all_ok(count as nat, f);
        }
    }
}

/// The `.ico` assembled from a group's pairs, when the pairs carry the
/// group's 14-byte entries in order.
pub proof fn lemma_ico_from_group_entries(imgs: Seq<(Seq<u8>, Seq<u8>)>, gd: Seq<u8>)
    requires
        imgs.len() == le_u16(gd, 4),
        6 + 14 * imgs.len() <= gd.len(),
        forall|i: int|
            0 <= i < imgs.len() ==> (#[trigger] imgs[i]).0 == gd.subrange(6 + 14 * i, 6 + 14 * i + 14),
    ensures
        ({
            let ico = spec_build_ico(imgs);
            let count = le_u16(gd, 4) as int;
            &&& ico.len() == 6 + 16 * count + sum_lens(imgs, count)
            &&& spec_u16_at(ico, 0) == Ok::<u16, IcoError>(0)
            &&& spec_u16_at(ico, 2) == Ok::<u16, IcoError>(1)
            &&& spec_u16_at(ico, 4) == Ok::<u16, IcoError>(le_u16(gd, 4))
            &&& ico.len() < 0x1_0000_0000 ==> forall|i: int|
                0 <= i < count ==> {
                    &&& #[trigger] ico.subrange(6 + 16 * i, 6 + 16 * i + 12) == gd.subrange(
                        6 + 14 * i,
                        6 + 14 * i + 12,
                    )
                    &&& spec_u32_at(ico, 6 + 16 * i + 12) matches Ok(off) && off + imgs[i].1.len()
                        <= ico.len() && ico.subrange(off as int, off + imgs[i].1.len())
                        == imgs[i].1
                }
        }),
{
    let ico = spec_build_ico(imgs);
    let count = le_u16(gd, 4) as int;
    assert forall|j: int| 0 <= j < imgs.len() implies (#[trigger] imgs[j]).0.len() == 14 by {
        assert(imgs[j].0 == gd.subrange(6 + 14 * j, 6 + 14 * j + 14));
    }
    lemma_ico_len(imgs);
    lemma_ico_header(imgs);
    if ico.len() < 0x1_0000_0000 {
        assert forall|i: int| 0 <= i < count implies {
            &&& #[trigger] ico.subrange(6 + 16 * i, 6 + 16 * i + 12) == gd.subrange(
                6 + 14 * i,
                6 + 14 * i + 12,
            )
            &&& spec_u32_at(ico, 6 + 16 * i + 12) matches Ok(off) && off + imgs[i].1.len()
                <= ico.len() && ico.subrange(off as int, off + imgs[i].1.len()) == imgs[i].1
        } by {
            lemma_ico_layout(imgs, i);
            let off = 6 + 16 * count + sum_lens(imgs, i);
            let l = imgs[i].1.len() as int;
            lemma_sum_lens_monotone(imgs, 0, i);
            assert(0 <= off && off + l <= ico.len());
            assert((off as u32) as int == off);
            assert(spec_u32_at(ico, 6 + 16 * i + 12) == Ok::<u32, IcoError>(off as u32));
            assert(ico.subrange(off, off + l) == imgs[i].1);
            assert(imgs[i].0 == gd.subrange(6 + 14 * i, 6 + 14 * i + 14));
            assert(imgs[i].0.subrange(0, 12) =~= gd.subrange(6 + 14 * i, 6 + 14 * i + 12));
        }
    }
}

} // verus!
