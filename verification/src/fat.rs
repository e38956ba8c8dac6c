//! The FAT32 volume builder: formats a volume image of the minimum
//! megabyte-rounded size and places one file, the boot executable, at
//! `/EFI/BOOT/BOOTX64.EFI`.
//!
//! Fixed geometry: 512-byte sectors, one sector per cluster, 32 reserved
//! sectors, two FAT copies. Cluster 2 holds the root directory, cluster 3 the
//! `EFI` directory, cluster 4 the `BOOT` directory, and clusters 5 onward the
//! file's content. All identifying fields (volume id, timestamps) are fixed,
//! so rebuilding from the same input reproduces the volume byte for byte.

use vstd::prelude::*;
use crate::layout::{byte_of, le_at, zeroed, write_bytes, write_le, fill, lemma_byte_of_zero,
    lemma_le_unique, lemma_le_zero};
use crate::AssembleError;

verus! {

/// The largest accepted boot executable, 1 GiB: keeps every offset
/// computation comfortably inside `usize` on any machine.
pub const MAX_BOOT_BYTES: usize = 0x4000_0000;

/// Volume size: the input length rounded up to a whole megabyte.
pub open spec fn fat_volume_size(n: int) -> int {
    ((n + 0xFFFFF) / 0x100000) * 0x100000
}

/// The volume's sector count.
pub open spec fn total_sectors(n: int) -> int {
    fat_volume_size(n) / 512
}

/// Sectors per FAT copy: the least count whose entries (128 per sector)
/// cover the reserved entries and every data cluster left over once the
/// reserved region and the two FAT copies are laid out.
pub open spec fn sectors_per_fat(n: int) -> int {
    (total_sectors(n) + 99) / 130
}

/// Clusters available for directories and file content.
pub open spec fn data_clusters(n: int) -> int {
    total_sectors(n) - 32 - 2 * sectors_per_fat(n)
}

/// Clusters the file's content occupies.
pub open spec fn file_clusters(n: int) -> int {
    (n + 511) / 512
}

/// The inputs the builder accepts: a non-empty executable, not above the
/// size cap, whose rounded volume holds at least the 65525 clusters that
/// make a volume FAT32, with room for the three directories and the file.
pub open spec fn fat_input_ok(n: int) -> bool {
    &&& 0 < n <= MAX_BOOT_BYTES
    &&& data_clusters(n) >= 65525
    &&& 3 + file_clusters(n) <= data_clusters(n)
}

/// Value of FAT entry `j`: the two reserved entries, end-of-chain marks for
/// the three directory clusters, the file's chain, and zero elsewhere.
pub open spec fn fat_entry_val(n: int, j: int) -> int {
    if j == 0 {
        0x0FFFFFF8
    } else if 1 <= j <= 4 {
        0x0FFFFFFF
    } else if 5 <= j && j < 4 + file_clusters(n) {
        j + 1
    } else if j == 4 + file_clusters(n) {
        0x0FFFFFFF
    } else {
        0
    }
}

/// The boot sector (BIOS parameter block) for a volume of `t` sectors and
/// FAT copies of `f` sectors, at `base` in `s`.
pub open spec fn boot_sector_ok(s: Seq<u8>, base: int, t: int, f: int) -> bool {
    &&& s[base] == 0xEBu8 && s[base + 1] == 0x58u8 && s[base + 2] == 0x90u8  // jump
    &&& s[base + 3] == 0x4Du8 && s[base + 4] == 0x53u8 && s[base + 5] == 0x57u8  // OEM name
    &&& s[base + 6] == 0x49u8 && s[base + 7] == 0x4Eu8 && s[base + 8] == 0x34u8
    &&& s[base + 9] == 0x2Eu8 && s[base + 10] == 0x31u8
    &&& le_at(s, base + 11, 2, 512)  // bytes per sector
    &&& s[base + 13] == 1u8  // sectors per cluster
    &&& le_at(s, base + 14, 2, 32)  // reserved sectors
    &&& s[base + 16] == 2u8  // FAT copies
    &&& le_at(s, base + 17, 2, 0)  // root entries: none, FAT32
    &&& le_at(s, base + 19, 2, 0)  // 16-bit total sectors: unused
    &&& s[base + 21] == 0xF8u8  // media descriptor
    &&& le_at(s, base + 22, 2, 0)  // 16-bit FAT size: unused
    &&& le_at(s, base + 24, 2, 63)  // sectors per track
    &&& le_at(s, base + 26, 2, 255)  // heads
    &&& le_at(s, base + 28, 4, 0)  // hidden sectors
    &&& le_at(s, base + 32, 4, t)  // 32-bit total sectors
    &&& le_at(s, base + 36, 4, f)  // 32-bit FAT size
    &&& le_at(s, base + 40, 2, 0)  // extension flags
    &&& le_at(s, base + 42, 2, 0)  // filesystem version
    &&& le_at(s, base + 44, 4, 2)  // root directory cluster
    &&& le_at(s, base + 48, 2, 1)  // FSInfo sector
    &&& le_at(s, base + 50, 2, 6)  // backup boot sector
    &&& (forall|i: int| base + 52 <= i < base + 64 ==> s[i] == 0u8)  // reserved
    &&& s[base + 64] == 0x80u8  // drive number
    &&& s[base + 65] == 0u8
    &&& s[base + 66] == 0x29u8  // extended boot signature
    &&& le_at(s, base + 67, 4, 0)  // volume id, fixed for reproducible output
    &&& s[base + 71] == 0x4Eu8 && s[base + 72] == 0x4Fu8 && s[base + 73] == 0x20u8  // label
    &&& s[base + 74] == 0x4Eu8 && s[base + 75] == 0x41u8 && s[base + 76] == 0x4Du8
    &&& s[base + 77] == 0x45u8
    &&& (forall|i: int| base + 78 <= i < base + 82 ==> s[i] == 0x20u8)
    &&& s[base + 82] == 0x46u8 && s[base + 83] == 0x41u8 && s[base + 84] == 0x54u8  // "FAT32"
    &&& s[base + 85] == 0x33u8 && s[base + 86] == 0x32u8
    &&& (forall|i: int| base + 87 <= i < base + 90 ==> s[i] == 0x20u8)
    &&& (forall|i: int| base + 90 <= i < base + 510 ==> s[i] == 0u8)
    &&& s[base + 510] == 0x55u8 && s[base + 511] == 0xAAu8
}

/// The FSInfo sector at `base`: its three signatures, with the free-cluster
/// count and next-free hint left unknown (all bits set).
pub open spec fn fsinfo_ok(s: Seq<u8>, base: int) -> bool {
    &&& le_at(s, base, 4, 0x41615252)
    &&& (forall|i: int| base + 4 <= i < base + 484 ==> s[i] == 0u8)
    &&& le_at(s, base + 484, 4, 0x61417272)
    &&& le_at(s, base + 488, 4, 0xFFFFFFFF)
    &&& le_at(s, base + 492, 4, 0xFFFFFFFF)
    &&& (forall|i: int| base + 496 <= i < base + 508 ==> s[i] == 0u8)
    &&& le_at(s, base + 508, 4, 0xAA550000)
}

/// One FAT copy at `base`: every 32-bit entry holds `fat_entry_val`.
pub open spec fn fat_table_ok(s: Seq<u8>, base: int, n: int) -> bool {
    forall|j: int, c: int|
        0 <= j < 128 * sectors_per_fat(n) && 0 <= c < 4 ==> s[base + 4 * j + c] == #[trigger] byte_of(
            fat_entry_val(n, j),
            c,
        )
}

/// The bookkeeping fields of a directory entry at `off`: attributes, first
/// cluster (split high/low), size, and zeroed timestamps.
pub open spec fn dirent_fields_at(s: Seq<u8>, off: int, attr: u8, cluster: int, size: int) -> bool {
    &&& s[off + 11] == attr
    &&& (forall|i: int| off + 12 <= i < off + 20 ==> s[i] == 0u8)
    &&& le_at(s, off + 20, 2, cluster / 0x10000)
    &&& (forall|i: int| off + 22 <= i < off + 26 ==> s[i] == 0u8)
    &&& le_at(s, off + 26, 2, cluster % 0x10000)
    &&& le_at(s, off + 28, 4, size)
}

pub open spec fn name_spaces(s: Seq<u8>, lo: int, hi: int) -> bool {
    forall|i: int| lo <= i < hi ==> s[i] == 0x20u8
}

/// Short name `EFI`, space padded.
pub open spec fn name_efi_at(s: Seq<u8>, off: int) -> bool {
    &&& s[off] == 0x45u8 && s[off + 1] == 0x46u8 && s[off + 2] == 0x49u8
    &&& name_spaces(s, off + 3, off + 11)
}

/// Short name `BOOT`, space padded.
pub open spec fn name_boot_at(s: Seq<u8>, off: int) -> bool {
    &&& s[off] == 0x42u8 && s[off + 1] == 0x4Fu8 && s[off + 2] == 0x4Fu8 && s[off + 3] == 0x54u8
    &&& name_spaces(s, off + 4, off + 11)
}

/// Short name `BOOTX64.EFI` (base and extension, no dot on disk).
pub open spec fn name_bootx64_at(s: Seq<u8>, off: int) -> bool {
    &&& s[off] == 0x42u8 && s[off + 1] == 0x4Fu8 && s[off + 2] == 0x4Fu8 && s[off + 3] == 0x54u8
    &&& s[off + 4] == 0x58u8 && s[off + 5] == 0x36u8 && s[off + 6] == 0x34u8 && s[off + 7]
        == 0x20u8
    &&& s[off + 8] == 0x45u8 && s[off + 9] == 0x46u8 && s[off + 10] == 0x49u8
}

/// The `.` entry name.
pub open spec fn name_dot_at(s: Seq<u8>, off: int) -> bool {
    &&& s[off] == 0x2Eu8
    &&& name_spaces(s, off + 1, off + 11)
}

/// The `..` entry name.
pub open spec fn name_dotdot_at(s: Seq<u8>, off: int) -> bool {
    &&& s[off] == 0x2Eu8 && s[off + 1] == 0x2Eu8
    &&& name_spaces(s, off + 2, off + 11)
}

/// The three directory clusters at `base`: the root holding `EFI`
/// (cluster 3), `EFI` holding `BOOT` (cluster 4), and `BOOT` holding the
/// `BOOTX64.EFI` file entry (cluster 5, `n` bytes).
pub open spec fn dir_region_ok(s: Seq<u8>, base: int, n: int) -> bool {
    &&& name_efi_at(s, base) && dirent_fields_at(s, base, 0x10u8, 3, 0)
    &&& (forall|i: int| base + 32 <= i < base + 512 ==> s[i] == 0u8)
    &&& name_dot_at(s, base + 512) && dirent_fields_at(s, base + 512, 0x10u8, 3, 0)
    &&& name_dotdot_at(s, base + 544) && dirent_fields_at(s, base + 544, 0x10u8, 0, 0)
    &&& name_boot_at(s, base + 576) && dirent_fields_at(s, base + 576, 0x10u8, 4, 0)
    &&& (forall|i: int| base + 608 <= i < base + 1024 ==> s[i] == 0u8)
    &&& name_dot_at(s, base + 1024) && dirent_fields_at(s, base + 1024, 0x10u8, 4, 0)
    &&& name_dotdot_at(s, base + 1056) && dirent_fields_at(s, base + 1056, 0x10u8, 3, 0)
    &&& name_bootx64_at(s, base + 1088) && dirent_fields_at(s, base + 1088, 0x20u8, 5, n)
    &&& (forall|i: int| base + 1120 <= i < base + 1536 ==> s[i] == 0u8)
}

/// The whole volume image for input `b`: reserved region (boot sector,
/// FSInfo, backups), two identical FAT copies, the directory clusters, the
/// file's content, and zero everywhere else.
pub open spec fn fat_volume_ok(b: Seq<u8>, v: Seq<u8>) -> bool {
    let n = b.len() as int;
    let t = total_sectors(n);
    let f = sectors_per_fat(n);
    let content = (32 + 2 * f) * 512 + 1536;
    &&& v.len() == fat_volume_size(n)
    &&& boot_sector_ok(v, 0, t, f)
    &&& fsinfo_ok(v, 512)
    &&& (forall|i: int| 1024 <= i < 3072 ==> v[i] == 0u8)
    &&& boot_sector_ok(v, 3072, t, f)
    &&& fsinfo_ok(v, 3584)
    &&& (forall|i: int| 4096 <= i < 16384 ==> v[i] == 0u8)
    &&& fat_table_ok(v, 16384, n)
    &&& fat_table_ok(v, 16384 + f * 512, n)
    &&& dir_region_ok(v, (32 + 2 * f) * 512, n)
    &&& (forall|i: int| 0 <= i < n ==> v[content + i] == #[trigger] b[i])
    &&& (forall|i: int| content + n <= i < v.len() ==> v[i] == 0u8)
}

/// Arithmetic facts about the fixed geometry that the builder's bound and
/// bookkeeping proofs lean on.
pub proof fn lemma_fat_geometry(n: int)
    requires
        0 < n <= MAX_BOOT_BYTES,
    ensures
        n <= fat_volume_size(n) <= 0x4000_0000,
        fat_volume_size(n) == total_sectors(n) * 512,
        2048 <= total_sectors(n) <= 0x200000,
        16 <= sectors_per_fat(n),
        130 * sectors_per_fat(n) <= total_sectors(n) + 99,
        total_sectors(n) - 30 <= 130 * sectors_per_fat(n),
        data_clusters(n) + 2 <= 128 * sectors_per_fat(n),
        32 + 2 * sectors_per_fat(n) <= total_sectors(n),
        n <= 512 * file_clusters(n) < n + 512,
{
    let q = (n + 0xFFFFF) / 0x100000;
    vstd::arithmetic::div_mod::lemma_fundamental_div_mod(n + 0xFFFFF, 0x100000);
    assert(fat_volume_size(n) == q * 0x100000);
    assert(n <= fat_volume_size(n));
    assert(1 <= q);
    assert(q <= 0x400);
    let t = total_sectors(n);
    assert(fat_volume_size(n) == 512 * (q * 2048));
    vstd::arithmetic::div_mod::lemma_div_multiples_vanish(q * 2048, 512);
    assert(t == q * 2048);
    let f = sectors_per_fat(n);
    vstd::arithmetic::div_mod::lemma_fundamental_div_mod(t + 99, 130);
    assert(130 * f <= t + 99);
    assert(t - 30 <= 130 * f);
    assert(16 <= f);
    vstd::arithmetic::div_mod::lemma_fundamental_div_mod(n + 511, 512);
}

/// Builds the boot sector for a volume of `t` sectors with FAT copies of
/// `f` sectors.
fn build_boot_sector(t: usize, f: usize) -> (s: Vec<u8>)
    requires
        t <= 0x200000,
        f <= 0x200000,
    ensures
        s@.len() == 512,
        boot_sector_ok(s@, 0, t as int, f as int),
{
    let mut s = zeroed(512);
    s.set(0, 0xEB);
    s.set(1, 0x58);
    s.set(2, 0x90);
    s.set(3, 0x4D);
    s.set(4, 0x53);
    s.set(5, 0x57);
    s.set(6, 0x49);
    s.set(7, 0x4E);
    s.set(8, 0x34);
    s.set(9, 0x2E);
    s.set(10, 0x31);
    write_le(&mut s, 11, 2, 512);
    s.set(13, 1);
    write_le(&mut s, 14, 2, 32);
    s.set(16, 2);
    s.set(21, 0xF8);
    write_le(&mut s, 24, 2, 63);
    write_le(&mut s, 26, 2, 255);
    write_le(&mut s, 32, 4, t as u64);
    write_le(&mut s, 36, 4, f as u64);
    write_le(&mut s, 44, 4, 2);
    write_le(&mut s, 48, 2, 1);
    write_le(&mut s, 50, 2, 6);
    s.set(64, 0x80);
    s.set(66, 0x29);
    s.set(71, 0x4E);
    s.set(72, 0x4F);
    s.set(73, 0x20);
    s.set(74, 0x4E);
    s.set(75, 0x41);
    s.set(76, 0x4D);
    s.set(77, 0x45);
    fill(&mut s, 78, 82, 0x20);
    s.set(82, 0x46);
    s.set(83, 0x41);
    s.set(84, 0x54);
    s.set(85, 0x33);
    s.set(86, 0x32);
    fill(&mut s, 87, 90, 0x20);
    s.set(510, 0x55);
    s.set(511, 0xAA);
    proof {
        lemma_le_zero(s@, 17, 2);
        lemma_le_zero(s@, 19, 2);
        lemma_le_zero(s@, 22, 2);
        lemma_le_zero(s@, 28, 4);
        lemma_le_zero(s@, 40, 2);
        lemma_le_zero(s@, 42, 2);
        lemma_le_zero(s@, 67, 4);
    }
    s
}

/// Builds the FSInfo sector.
fn build_fsinfo() -> (s: Vec<u8>)
    ensures
        s@.len() == 512,
        fsinfo_ok(s@, 0),
{
    let mut s = zeroed(512);
    write_le(&mut s, 0, 4, 0x41615252);
    write_le(&mut s, 484, 4, 0x61417272);
    write_le(&mut s, 488, 4, 0xFFFFFFFF);
    write_le(&mut s, 492, 4, 0xFFFFFFFF);
    write_le(&mut s, 508, 4, 0xAA550000);
    s
}

/// Builds one FAT copy for an input of `n` bytes; `f` and `k` are the
/// computed FAT size and file cluster count.
fn build_fat_table(n: usize, f: usize, k: usize) -> (t: Vec<u8>)
    requires
        fat_input_ok(n as int),
        f == sectors_per_fat(n as int),
        k == file_clusters(n as int),
        f <= 0x200000,
    ensures
        t@.len() == f * 512,
        fat_table_ok(t@, 0, n as int),
{
    proof {
        lemma_fat_geometry(n as int);
        assert(5 + k <= 128 * f);
        assert(1 <= k);
    }
    let mut t = zeroed(f * 512);
    write_le(&mut t, 0, 4, 0x0FFFFFF8);
    write_le(&mut t, 4, 4, 0x0FFFFFFF);
    write_le(&mut t, 8, 4, 0x0FFFFFFF);
    write_le(&mut t, 12, 4, 0x0FFFFFFF);
    write_le(&mut t, 16, 4, 0x0FFFFFFF);
    proof {
        assert forall|j: int, c: int| 0 <= j < 5 && 0 <= c < 4 implies t@[4 * j + c]
            == #[trigger] byte_of(fat_entry_val(n as int, j), c) by {
            assert(le_at(t@, 0, 4, 0x0FFFFFF8));
            assert(le_at(t@, 4, 4, 0x0FFFFFFF));
            assert(le_at(t@, 8, 4, 0x0FFFFFFF));
            assert(le_at(t@, 12, 4, 0x0FFFFFFF));
            assert(le_at(t@, 16, 4, 0x0FFFFFFF));
        }
    }
    let mut e: usize = 0;
    while e < k
        invariant
            fat_input_ok(n as int),
            f == sectors_per_fat(n as int),
            k == file_clusters(n as int),
            1 <= k,
            5 + k <= 128 * f,
            e <= k,
            t@.len() == f * 512,
            forall|j: int, c: int|
                0 <= j < 5 + e && 0 <= c < 4 ==> t@[4 * j + c] == #[trigger] byte_of(
                    fat_entry_val(n as int, j),
                    c,
                ),
            forall|i: int| 20 + 4 * e <= i < f * 512 ==> t@[i] == 0u8,
        decreases k - e,
    {
        let val: u64 = if e + 1 < k {
            (6 + e) as u64
        } else {
            0x0FFFFFFF
        };
        write_le(&mut t, 20 + 4 * e, 4, val);
        proof {
            assert(val as int == fat_entry_val(n as int, 5 + e));
            assert forall|j: int, c: int| 0 <= j < 5 + e + 1 && 0 <= c < 4 implies t@[4 * j + c]
                == #[trigger] byte_of(fat_entry_val(n as int, j), c) by {
                if j == 5 + e {
                    assert(le_at(t@, 20 + 4 * e as int, 4, val as int));
                    assert(t@[20 + 4 * (e as int) + c] == byte_of(val as int, c));
                }
            }
        }
        e = e + 1;
    }
    proof {
        assert forall|j: int, c: int| 0 <= j < 128 * sectors_per_fat(n as int) && 0 <= c < 4 implies
            t@[4 * j + c] == #[trigger] byte_of(fat_entry_val(n as int, j), c) by {
            if j >= 5 + k {
                assert(fat_entry_val(n as int, j) == 0);
                assert(20 + 4 * (k as int) <= 4 * j + c < (f as int) * 512);
                assert(t@[4 * j + c] == 0u8);
                lemma_byte_of_zero(c);
            }
        }
    }
    t
}

/// Writes the bookkeeping fields of a directory entry at `off`.
fn write_dirent_fields(v: &mut Vec<u8>, off: usize, attr: u8, cluster: usize, size: usize)
    requires
        off + 32 <= old(v)@.len(),
        size <= MAX_BOOT_BYTES,
        cluster <= 5,
    ensures
        final(v)@.len() == old(v)@.len(),
        final(v)@[off + 11] == attr,
        le_at(final(v)@, off + 20, 2, cluster as int / 0x10000),
        le_at(final(v)@, off + 26, 2, cluster as int % 0x10000),
        le_at(final(v)@, off + 28, 4, size as int),
        forall|i: int|
            0 <= i < final(v)@.len() && !(off + 11 <= i < off + 32) ==> final(v)@[i] == old(v)@[i],
        forall|i: int| off + 12 <= i < off + 20 ==> final(v)@[i] == old(v)@[i],
        forall|i: int| off + 22 <= i < off + 26 ==> final(v)@[i] == old(v)@[i],
{
    let len = v.len();
    assert(off + 32 <= len);
    v.set(off + 11, attr);
    write_le(v, off + 20, 2, (cluster / 0x10000) as u64);
    write_le(v, off + 26, 2, (cluster % 0x10000) as u64);
    write_le(v, off + 28, 4, size as u64);
}

/// Builds the three directory clusters for a file of `n` bytes.
#[verifier::rlimit(100)]
fn build_dir_region(n: usize) -> (d: Vec<u8>)
    requires
        n <= MAX_BOOT_BYTES,
    ensures
        d@.len() == 1536,
        dir_region_ok(d@, 0, n as int),
{
    let mut d = zeroed(1536);
    // root directory, cluster 2: one entry for `EFI`, cluster 3
    d.set(0, 0x45);
    d.set(1, 0x46);
    d.set(2, 0x49);
    fill(&mut d, 3, 11, 0x20);
    write_dirent_fields(&mut d, 0, 0x10, 3, 0);
    // `EFI` directory, cluster 3: `.`, `..`, and `BOOT` at cluster 4
    d.set(512, 0x2E);
    fill(&mut d, 513, 523, 0x20);
    write_dirent_fields(&mut d, 512, 0x10, 3, 0);
    d.set(544, 0x2E);
    d.set(545, 0x2E);
    fill(&mut d, 546, 555, 0x20);
    write_dirent_fields(&mut d, 544, 0x10, 0, 0);
    d.set(576, 0x42);
    d.set(577, 0x4F);
    d.set(578, 0x4F);
    d.set(579, 0x54);
    fill(&mut d, 580, 587, 0x20);
    write_dirent_fields(&mut d, 576, 0x10, 4, 0);
    // `BOOT` directory, cluster 4: `.`, `..`, and the file entry
    d.set(1024, 0x2E);
    fill(&mut d, 1025, 1035, 0x20);
    write_dirent_fields(&mut d, 1024, 0x10, 4, 0);
    d.set(1056, 0x2E);
    d.set(1057, 0x2E);
    fill(&mut d, 1058, 1067, 0x20);
    write_dirent_fields(&mut d, 1056, 0x10, 3, 0);
    d.set(1088, 0x42);
    d.set(1089, 0x4F);
    d.set(1090, 0x4F);
    d.set(1091, 0x54);
    d.set(1092, 0x58);
    d.set(1093, 0x36);
    d.set(1094, 0x34);
    d.set(1095, 0x20);
    d.set(1096, 0x45);
    d.set(1097, 0x46);
    d.set(1098, 0x49);
    write_dirent_fields(&mut d, 1088, 0x20, 5, n);
    d
}

/// Builds a FAT32 volume image holding the boot executable at
/// `/EFI/BOOT/BOOTX64.EFI`. Refuses, with a capacity error, exactly the
/// inputs whose rounded volume cannot be a FAT32 filesystem with room for
/// the file.
#[verifier::rlimit(100)]
pub fn build_fat_volume(boot: &Vec<u8>) -> (r: Result<Vec<u8>, AssembleError>)
    ensures
        r is Ok <==> fat_input_ok(boot@.len() as int),
        r is Ok ==> fat_volume_ok(boot@, r->Ok_0@),
        r is Err ==> r->Err_0 == AssembleError::Capacity,
{
    let n = boot.len();
    if n == 0 || n > MAX_BOOT_BYTES {
        return Err(AssembleError::Capacity);
    }
    proof {
        lemma_fat_geometry(n as int);
    }
    let s = ((n + 0xFFFFF) / 0x100000) * 0x100000;
    let t = s / 512;
    let f = (t + 99) / 130;
    assert(s == fat_volume_size(n as int));
    assert(t == total_sectors(n as int));
    assert(f == sectors_per_fat(n as int));
    let c = t - 32 - 2 * f;
    assert(c == data_clusters(n as int));
    if c < 65525 {
        return Err(AssembleError::Capacity);
    }
    let k = (n + 511) / 512;
    assert(k == file_clusters(n as int));
    if 3 + k > c {
        return Err(AssembleError::Capacity);
    }
    assert(fat_input_ok(n as int));

    let bs = build_boot_sector(t, f);
    let fsi = build_fsinfo();
    let ft = build_fat_table(n, f, k);
    let dir = build_dir_region(n);
    let dir_base = (32 + 2 * f) * 512;
    proof {
        assert(dir_base + 1536 + 512 * (k as int) <= s);
        assert(n <= 512 * (k as int));
    }
    let mut v = zeroed(s);
    write_bytes(&mut v, 0, &bs);
    write_bytes(&mut v, 512, &fsi);
    write_bytes(&mut v, 3072, &bs);
    write_bytes(&mut v, 3584, &fsi);
    write_bytes(&mut v, 16384, &ft);
    write_bytes(&mut v, 16384 + f * 512, &ft);
    write_bytes(&mut v, dir_base, &dir);
    write_bytes(&mut v, dir_base + 1536, boot);
    proof {
        let nn = boot@.len() as int;
        let tt = t as int;
        let ff = f as int;
        let content = (32 + 2 * ff) * 512 + 1536;
        assert forall|i: int| 0 <= i < 512 implies v@[0 + i] == bs@[i] by {}
        lemma_boot_sector_transfer(bs@, v@, 0, tt, ff);
        assert forall|i: int| 0 <= i < 512 implies v@[3072 + i] == bs@[i] by {
            assert(v@[3072 + i] == bs@[(3072 + i) - 3072]);
        }
        lemma_boot_sector_transfer(bs@, v@, 3072, tt, ff);
        assert forall|i: int| 0 <= i < 512 implies v@[512 + i] == fsi@[i] by {
            assert(v@[512 + i] == fsi@[(512 + i) - 512]);
        }
        lemma_fsinfo_transfer(fsi@, v@, 512);
        assert forall|i: int| 0 <= i < 512 implies v@[3584 + i] == fsi@[i] by {
            assert(v@[3584 + i] == fsi@[(3584 + i) - 3584]);
        }
        lemma_fsinfo_transfer(fsi@, v@, 3584);
        assert forall|i: int| 0 <= i < ff * 512 implies v@[16384 + i] == ft@[i] by {
            assert(v@[16384 + i] == ft@[(16384 + i) - 16384]);
        }
        lemma_fat_table_transfer(ft@, v@, 16384, nn);
        assert forall|i: int| 0 <= i < ff * 512 implies v@[16384 + ff * 512 + i] == ft@[i] by {
            assert(v@[(16384 + ff * 512) + i] == ft@[((16384 + ff * 512) + i) - (16384 + ff
                * 512)]);
        }
        lemma_fat_table_transfer(ft@, v@, 16384 + ff * 512, nn);
        assert forall|i: int| 0 <= i < 1536 implies v@[dir_base + i] == dir@[i] by {
            assert(v@[dir_base + i] == dir@[(dir_base as int + i) - dir_base as int]);
        }
        lemma_dir_region_transfer(dir@, v@, dir_base as int, nn);
        assert forall|i: int| 0 <= i < nn implies v@[content + i] == #[trigger] boot@[i] by {
            assert(v@[(dir_base + 1536) + i] == boot@[((dir_base as int + 1536) + i) - (dir_base
                as int + 1536)]);
        }
        assert forall|i: int| 1024 <= i < 3072 implies v@[i] == 0u8 by {}
        assert forall|i: int| 4096 <= i < 16384 implies v@[i] == 0u8 by {}
        assert forall|i: int| content + nn <= i < v@.len() implies v@[i] == 0u8 by {}
        assert(fat_volume_ok(boot@, v@));
    }
    Ok(v)
}

/// Carries `boot_sector_ok` from a sector buffer to its place in the image.
proof fn lemma_boot_sector_transfer(r: Seq<u8>, v: Seq<u8>, base: int, t: int, f: int)
    requires
        r.len() == 512,
        boot_sector_ok(r, 0, t, f),
        forall|i: int| 0 <= i < 512 ==> v[base + i] == r[i],
    ensures
        boot_sector_ok(v, base, t, f),
{
    assert forall|i: int| base + 52 <= i < base + 64 implies v[i] == 0u8 by {
        assert(v[base + (i - base)] == r[i - base]);
    }
    assert forall|i: int| base + 78 <= i < base + 82 implies v[i] == 0x20u8 by {
        assert(v[base + (i - base)] == r[i - base]);
    }
    assert forall|i: int| base + 87 <= i < base + 90 implies v[i] == 0x20u8 by {
        assert(v[base + (i - base)] == r[i - base]);
    }
    assert forall|i: int| base + 90 <= i < base + 510 implies v[i] == 0u8 by {
        assert(v[base + (i - base)] == r[i - base]);
    }
    lemma_le_transfer(r, v, base, 11, 2, 512);
    lemma_le_transfer(r, v, base, 14, 2, 32);
    lemma_le_transfer(r, v, base, 17, 2, 0);
    lemma_le_transfer(r, v, base, 19, 2, 0);
    lemma_le_transfer(r, v, base, 22, 2, 0);
    lemma_le_transfer(r, v, base, 24, 2, 63);
    lemma_le_transfer(r, v, base, 26, 2, 255);
    lemma_le_transfer(r, v, base, 28, 4, 0);
    lemma_le_transfer(r, v, base, 32, 4, t);
    lemma_le_transfer(r, v, base, 36, 4, f);
    lemma_le_transfer(r, v, base, 40, 2, 0);
    lemma_le_transfer(r, v, base, 42, 2, 0);
    lemma_le_transfer(r, v, base, 44, 4, 2);
    lemma_le_transfer(r, v, base, 48, 2, 1);
    lemma_le_transfer(r, v, base, 50, 2, 6);
    lemma_le_transfer(r, v, base, 67, 4, 0);
}

/// Carries a little-endian field from a region buffer to the image.
proof fn lemma_le_transfer(r: Seq<u8>, v: Seq<u8>, base: int, off: int, cnt: int, x: int)
    requires
        0 <= off,
        off + cnt <= r.len(),
        le_at(r, off, cnt, x),
        forall|i: int| 0 <= i < r.len() ==> v[base + i] == r[i],
    ensures
        le_at(v, base + off, cnt, x),
{
    assert forall|k: int| 0 <= k < cnt implies v[(base + off) + k] == #[trigger] byte_of(x, k) by {
        assert(v[base + (off + k)] == r[off + k]);
    }
}

/// Carries `fsinfo_ok` from a sector buffer to its place in the image.
proof fn lemma_fsinfo_transfer(r: Seq<u8>, v: Seq<u8>, base: int)
    requires
        r.len() == 512,
        fsinfo_ok(r, 0),
        forall|i: int| 0 <= i < 512 ==> v[base + i] == r[i],
    ensures
        fsinfo_ok(v, base),
{
    assert forall|i: int| base + 4 <= i < base + 484 implies v[i] == 0u8 by {
        assert(v[base + (i - base)] == r[i - base]);
    }
    assert forall|i: int| base + 496 <= i < base + 508 implies v[i] == 0u8 by {
        assert(v[base + (i - base)] == r[i - base]);
    }
    lemma_le_transfer(r, v, base, 0, 4, 0x41615252);
    lemma_le_transfer(r, v, base, 484, 4, 0x61417272);
    lemma_le_transfer(r, v, base, 488, 4, 0xFFFFFFFF);
    lemma_le_transfer(r, v, base, 492, 4, 0xFFFFFFFF);
    lemma_le_transfer(r, v, base, 508, 4, 0xAA550000);
}

/// Carries `fat_table_ok` from a table buffer to its place in the image.
proof fn lemma_fat_table_transfer(r: Seq<u8>, v: Seq<u8>, base: int, n: int)
    requires
        r.len() == sectors_per_fat(n) * 512,
        fat_table_ok(r, 0, n),
        forall|i: int| 0 <= i < r.len() ==> v[base + i] == r[i],
    ensures
        fat_table_ok(v, base, n),
{
    assert forall|j: int, c: int| 0 <= j < 128 * sectors_per_fat(n) && 0 <= c < 4 implies v[base + 4
        * j + c] == #[trigger] byte_of(fat_entry_val(n, j), c) by {
        assert(r[0 + 4 * j + c] == byte_of(fat_entry_val(n, j), c));
        assert(v[base + (4 * j + c)] == r[4 * j + c]);
    }
}

/// Carries a directory entry's fields from a region buffer to the image.
proof fn lemma_dirent_transfer(
    r: Seq<u8>,
    v: Seq<u8>,
    base: int,
    off: int,
    attr: u8,
    cluster: int,
    size: int,
)
    requires
        off + 32 <= r.len(),
        0 <= off,
        dirent_fields_at(r, off, attr, cluster, size),
        forall|i: int| 0 <= i < r.len() ==> v[base + i] == r[i],
    ensures
        dirent_fields_at(v, base + off, attr, cluster, size),
{
    assert(v[base + (off + 11)] == r[off + 11]);
    assert forall|i: int| (base + off) + 12 <= i < (base + off) + 20 implies v[i] == 0u8 by {
        assert(v[base + (i - base)] == r[i - base]);
    }
    assert forall|i: int| (base + off) + 22 <= i < (base + off) + 26 implies v[i] == 0u8 by {
        assert(v[base + (i - base)] == r[i - base]);
    }
    lemma_le_transfer(r, v, base, off + 20, 2, cluster / 0x10000);
    lemma_le_transfer(r, v, base, off + 26, 2, cluster % 0x10000);
    lemma_le_transfer(r, v, base, off + 28, 4, size);
}

/// Carries `dir_region_ok` from the region buffer to its place in the image.
proof fn lemma_dir_region_transfer(r: Seq<u8>, v: Seq<u8>, base: int, n: int)
    requires
        r.len() == 1536,
        dir_region_ok(r, 0, n),
        forall|i: int| 0 <= i < 1536 ==> v[base + i] == r[i],
    ensures
        dir_region_ok(v, base, n),
{
    assert forall|i: int| 0 <= i < 1536 implies v[base + i] == r[i] by {}
    assert forall|i: int| base + 32 <= i < base + 512 implies v[i] == 0u8 by {
        assert(v[base + (i - base)] == r[i - base]);
    }
    assert forall|i: int| base + 608 <= i < base + 1024 implies v[i] == 0u8 by {
        assert(v[base + (i - base)] == r[i - base]);
    }
    assert forall|i: int| base + 1120 <= i < base + 1536 implies v[i] == 0u8 by {
        assert(v[base + (i - base)] == r[i - base]);
    }
    assert forall|i: int| base + 3 <= i < base + 11 implies v[i] == 0x20u8 by {
        assert(v[base + (i - base)] == r[i - base]);
    }
    assert forall|i: int| base + 513 <= i < base + 523 implies v[i] == 0x20u8 by {
        assert(v[base + (i - base)] == r[i - base]);
    }
    assert forall|i: int| base + 546 <= i < base + 555 implies v[i] == 0x20u8 by {
        assert(v[base + (i - base)] == r[i - base]);
    }
    assert forall|i: int| base + 580 <= i < base + 587 implies v[i] == 0x20u8 by {
        assert(v[base + (i - base)] == r[i - base]);
    }
    assert forall|i: int| base + 1025 <= i < base + 1035 implies v[i] == 0x20u8 by {
        assert(v[base + (i - base)] == r[i - base]);
    }
    assert forall|i: int| base + 1058 <= i < base + 1067 implies v[i] == 0x20u8 by {
        assert(v[base + (i - base)] == r[i - base]);
    }
    lemma_dirent_transfer(r, v, base, 0, 0x10u8, 3, 0);
    lemma_dirent_transfer(r, v, base, 512, 0x10u8, 3, 0);
    lemma_dirent_transfer(r, v, base, 544, 0x10u8, 0, 0);
    lemma_dirent_transfer(r, v, base, 576, 0x10u8, 4, 0);
    lemma_dirent_transfer(r, v, base, 1024, 0x10u8, 4, 0);
    lemma_dirent_transfer(r, v, base, 1056, 0x10u8, 3, 0);
    lemma_dirent_transfer(r, v, base, 1088, 0x20u8, 5, n);
}

/// Two volumes with the same boot-sector parameters agree on that sector.
proof fn lemma_boot_sector_unique(s1: Seq<u8>, s2: Seq<u8>, base: int, t: int, f: int)
    requires
        boot_sector_ok(s1, base, t, f),
        boot_sector_ok(s2, base, t, f),
    ensures
        forall|i: int| base <= i < base + 512 ==> s1[i] == s2[i],
{
    lemma_le_unique(s1, s2, base + 11, 2, 512);
    lemma_le_unique(s1, s2, base + 14, 2, 32);
    lemma_le_unique(s1, s2, base + 17, 2, 0);
    lemma_le_unique(s1, s2, base + 19, 2, 0);
    lemma_le_unique(s1, s2, base + 22, 2, 0);
    lemma_le_unique(s1, s2, base + 24, 2, 63);
    lemma_le_unique(s1, s2, base + 26, 2, 255);
    lemma_le_unique(s1, s2, base + 28, 4, 0);
    lemma_le_unique(s1, s2, base + 32, 4, t);
    lemma_le_unique(s1, s2, base + 36, 4, f);
    lemma_le_unique(s1, s2, base + 40, 2, 0);
    lemma_le_unique(s1, s2, base + 42, 2, 0);
    lemma_le_unique(s1, s2, base + 44, 4, 2);
    lemma_le_unique(s1, s2, base + 48, 2, 1);
    lemma_le_unique(s1, s2, base + 50, 2, 6);
    lemma_le_unique(s1, s2, base + 67, 4, 0);
}

/// Two volumes agree on the FSInfo sector.
proof fn lemma_fsinfo_unique(s1: Seq<u8>, s2: Seq<u8>, base: int)
    requires
        fsinfo_ok(s1, base),
        fsinfo_ok(s2, base),
    ensures
        forall|i: int| base <= i < base + 512 ==> s1[i] == s2[i],
{
    lemma_le_unique(s1, s2, base, 4, 0x41615252);
    lemma_le_unique(s1, s2, base + 484, 4, 0x61417272);
    lemma_le_unique(s1, s2, base + 488, 4, 0xFFFFFFFF);
    lemma_le_unique(s1, s2, base + 492, 4, 0xFFFFFFFF);
    lemma_le_unique(s1, s2, base + 508, 4, 0xAA550000);
}

/// Two volumes for the same input agree on a FAT copy.
proof fn lemma_fat_table_unique(s1: Seq<u8>, s2: Seq<u8>, base: int, n: int)
    requires
        fat_table_ok(s1, base, n),
        fat_table_ok(s2, base, n),
    ensures
        forall|i: int| base <= i < base + sectors_per_fat(n) * 512 ==> s1[i] == s2[i],
{
    assert forall|i: int| base <= i < base + sectors_per_fat(n) * 512 implies s1[i] == s2[i] by {
        let j = (i - base) / 4;
        let c = (i - base) % 4;
        vstd::arithmetic::div_mod::lemma_fundamental_div_mod(i - base, 4);
        assert(s1[base + 4 * j + c] == byte_of(fat_entry_val(n, j), c));
        assert(s2[base + 4 * j + c] == byte_of(fat_entry_val(n, j), c));
    }
}

/// Two volumes for the same entry parameters agree on its bookkeeping bytes.
proof fn lemma_dirent_unique(
    s1: Seq<u8>,
    s2: Seq<u8>,
    off: int,
    attr: u8,
    cluster: int,
    size: int,
)
    requires
        dirent_fields_at(s1, off, attr, cluster, size),
        dirent_fields_at(s2, off, attr, cluster, size),
    ensures
        forall|i: int| off + 11 <= i < off + 32 ==> s1[i] == s2[i],
{
    lemma_le_unique(s1, s2, off + 20, 2, cluster / 0x10000);
    lemma_le_unique(s1, s2, off + 26, 2, cluster % 0x10000);
    lemma_le_unique(s1, s2, off + 28, 4, size);
}

/// Two volumes for the same input agree on the directory clusters.
proof fn lemma_dir_region_unique(s1: Seq<u8>, s2: Seq<u8>, base: int, n: int)
    requires
        dir_region_ok(s1, base, n),
        dir_region_ok(s2, base, n),
    ensures
        forall|i: int| base <= i < base + 1536 ==> s1[i] == s2[i],
{
    lemma_dirent_unique(s1, s2, base, 0x10u8, 3, 0);
    lemma_dirent_unique(s1, s2, base + 512, 0x10u8, 3, 0);
    lemma_dirent_unique(s1, s2, base + 544, 0x10u8, 0, 0);
    lemma_dirent_unique(s1, s2, base + 576, 0x10u8, 4, 0);
    lemma_dirent_unique(s1, s2, base + 1024, 0x10u8, 4, 0);
    lemma_dirent_unique(s1, s2, base + 1056, 0x10u8, 3, 0);
    lemma_dirent_unique(s1, s2, base + 1088, 0x20u8, 5, n);
}

/// A valid volume for a given input is unique: the builder pins every byte,
/// so rebuilding from the same executable reproduces the volume exactly.
pub proof fn lemma_fat_volume_unique(b: Seq<u8>, v1: Seq<u8>, v2: Seq<u8>)
    requires
        fat_input_ok(b.len() as int),
        fat_volume_ok(b, v1),
        fat_volume_ok(b, v2),
    ensures
        v1 == v2,
{
    let n = b.len() as int;
    let t = total_sectors(n);
    let f = sectors_per_fat(n);
    let content = (32 + 2 * f) * 512 + 1536;
    lemma_fat_geometry(n);
    lemma_boot_sector_unique(v1, v2, 0, t, f);
    lemma_fsinfo_unique(v1, v2, 512);
    lemma_boot_sector_unique(v1, v2, 3072, t, f);
    lemma_fsinfo_unique(v1, v2, 3584);
    lemma_fat_table_unique(v1, v2, 16384, n);
    lemma_fat_table_unique(v1, v2, 16384 + f * 512, n);
    lemma_dir_region_unique(v1, v2, (32 + 2 * f) * 512, n);
    assert forall|i: int| 0 <= i < v1.len() implies v1[i] == v2[i] by {
        if content <= i < content + n {
            assert(v1[content + (i - content)] == b[i - content]);
            assert(v2[content + (i - content)] == b[i - content]);
        }
    }
    assert(v1 =~= v2);
}

} // verus!
