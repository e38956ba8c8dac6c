//! The GPT disk assembler: wraps a finished FAT volume as the sole EFI
//! System Partition of a GPT-partitioned disk image.
//!
//! Layout, in 512-byte logical blocks: block 0 the protective MBR, block 1
//! the primary GPT header, blocks 2..34 the partition entry array (128
//! entries of 128 bytes), blocks 34 onward the partition holding the volume,
//! then the backup array at the 33rd-from-last block and the backup header
//! in the last block. The fixed metadata overhead is 64 KiB (128 blocks).
//! The disk and partition GUIDs are fixed constants, so rebuilding from the
//! same input reproduces the image byte for byte.

use vstd::prelude::*;
use crate::layout::{byte_of, le_at, zeroed, write_bytes, write_le, lemma_le_unique,
    lemma_le_zero};
use crate::crc::{crc32, crc32_of};
use crate::fat::MAX_BOOT_BYTES;
use crate::AssembleError;

verus! {

/// The metadata overhead added around the partition: 64 KiB.
pub const GPT_OVERHEAD: usize = 0x10000;

/// The partition's contents must be a whole, positive number of 512-byte
/// blocks, within the same cap as the volume builder's output.
pub open spec fn gpt_input_ok(p: int) -> bool {
    &&& 512 <= p <= MAX_BOOT_BYTES
    &&& p % 512 == 0
}

/// Total logical blocks of the assembled disk.
pub open spec fn total_lbas(p: int) -> int {
    p / 512 + 128
}

/// The protective MBR's 32-bit partition size: the whole disk less its
/// first block, clamped to the field's maximum.
pub open spec fn mbr_size_val(nlbas: int) -> int {
    if nlbas - 1 > 0xFFFFFFFF {
        0xFFFFFFFF
    } else {
        nlbas - 1
    }
}

/// The header bytes with their own CRC field (offsets 16..20) zeroed, the
/// form over which a GPT header's CRC is computed.
pub open spec fn with_crc_zeroed(h: Seq<u8>) -> Seq<u8> {
    h.update(16, 0u8).update(17, 0u8).update(18, 0u8).update(19, 0u8)
}

/// The protective MBR at the start of `s`: one partition entry of type
/// 0xEE covering the disk, and the boot signature.
pub open spec fn mbr_ok(s: Seq<u8>, nlbas: int) -> bool {
    &&& (forall|i: int| 0 <= i < 446 ==> s[i] == 0u8)
    &&& s[446] == 0u8  // not bootable
    &&& s[447] == 0u8 && s[448] == 0x02u8 && s[449] == 0u8  // first CHS
    &&& s[450] == 0xEEu8  // protective type
    &&& s[451] == 0xFFu8 && s[452] == 0xFFu8 && s[453] == 0xFFu8  // last CHS
    &&& le_at(s, 454, 4, 1)  // first LBA
    &&& le_at(s, 458, 4, mbr_size_val(nlbas))
    &&& (forall|i: int| 462 <= i < 510 ==> s[i] == 0u8)
    &&& s[510] == 0x55u8 && s[511] == 0xAAu8
}

/// The fixed disk GUID, in on-disk byte order.
pub open spec fn disk_guid_at(s: Seq<u8>, off: int) -> bool {
    &&& s[off] == 0x8Du8 && s[off + 1] == 0x41u8 && s[off + 2] == 0x5Fu8 && s[off + 3] == 0x20u8
    &&& s[off + 4] == 0x63u8 && s[off + 5] == 0x9Cu8 && s[off + 6] == 0x2Fu8 && s[off + 7]
        == 0x47u8
    &&& s[off + 8] == 0xB3u8 && s[off + 9] == 0x6Au8 && s[off + 10] == 0x11u8 && s[off + 11]
        == 0x8Au8
    &&& s[off + 12] == 0xD7u8 && s[off + 13] == 0x05u8 && s[off + 14] == 0xC4u8 && s[off + 15]
        == 0x92u8
}

/// The EFI System Partition type GUID, in on-disk (mixed-endian) byte order.
pub open spec fn esp_type_guid_at(s: Seq<u8>, off: int) -> bool {
    &&& s[off] == 0x28u8 && s[off + 1] == 0x73u8 && s[off + 2] == 0x2Au8 && s[off + 3] == 0xC1u8
    &&& s[off + 4] == 0x1Fu8 && s[off + 5] == 0xF8u8 && s[off + 6] == 0xD2u8 && s[off + 7]
        == 0x11u8
    &&& s[off + 8] == 0xBAu8 && s[off + 9] == 0x4Bu8 && s[off + 10] == 0x00u8 && s[off + 11]
        == 0xA0u8
    &&& s[off + 12] == 0xC9u8 && s[off + 13] == 0x3Eu8 && s[off + 14] == 0xC9u8 && s[off + 15]
        == 0x3Bu8
}

/// The fixed unique partition GUID, in on-disk byte order.
pub open spec fn part_guid_at(s: Seq<u8>, off: int) -> bool {
    &&& s[off] == 0x9Eu8 && s[off + 1] == 0x2Bu8 && s[off + 2] == 0x74u8 && s[off + 3] == 0x5Cu8
    &&& s[off + 4] == 0xA1u8 && s[off + 5] == 0x37u8 && s[off + 6] == 0x5Au8 && s[off + 7]
        == 0x4Eu8
    &&& s[off + 8] == 0x8Fu8 && s[off + 9] == 0x1Du8 && s[off + 10] == 0x60u8 && s[off + 11]
        == 0x23u8
    &&& s[off + 12] == 0x7Cu8 && s[off + 13] == 0x99u8 && s[off + 14] == 0xB4u8 && s[off + 15]
        == 0x41u8
}

/// A GPT header's fields at `base`: signature, revision, size, its own CRC
/// over its serialized bytes with the CRC field zeroed, the two header
/// locations, the usable range, the array location, and the array's CRC.
pub open spec fn gpt_header_at(
    s: Seq<u8>,
    base: int,
    my_lba: int,
    other_lba: int,
    parts_lba: int,
    nlbas: int,
    parts_crc: int,
) -> bool {
    &&& s[base] == 0x45u8 && s[base + 1] == 0x46u8 && s[base + 2] == 0x49u8 && s[base + 3]
        == 0x20u8  // "EFI PART"
    &&& s[base + 4] == 0x50u8 && s[base + 5] == 0x41u8 && s[base + 6] == 0x52u8 && s[base + 7]
        == 0x54u8
    &&& le_at(s, base + 8, 4, 0x00010000)  // revision 1.0
    &&& le_at(s, base + 12, 4, 92)  // header size
    &&& le_at(s, base + 16, 4, crc32_of(with_crc_zeroed(s.subrange(base, base + 92))) as int)
    &&& le_at(s, base + 20, 4, 0)  // reserved
    &&& le_at(s, base + 24, 8, my_lba)
    &&& le_at(s, base + 32, 8, other_lba)
    &&& le_at(s, base + 40, 8, 34)  // first usable block
    &&& le_at(s, base + 48, 8, nlbas - 34)  // last usable block
    &&& disk_guid_at(s, base + 56)
    &&& le_at(s, base + 72, 8, parts_lba)
    &&& le_at(s, base + 80, 4, 128)  // entry count
    &&& le_at(s, base + 84, 4, 128)  // entry size
    &&& le_at(s, base + 88, 4, parts_crc)
}

/// The partition entry array at `base`: one EFI System Partition entry
/// named `boot` spanning blocks `first..=last`, the rest zero.
pub open spec fn part_array_ok(s: Seq<u8>, base: int, first: int, last: int) -> bool {
    &&& esp_type_guid_at(s, base)
    &&& part_guid_at(s, base + 16)
    &&& le_at(s, base + 32, 8, first)
    &&& le_at(s, base + 40, 8, last)
    &&& (forall|i: int| base + 48 <= i < base + 56 ==> s[i] == 0u8)  // attributes
    &&& s[base + 56] == 0x62u8 && s[base + 57] == 0u8  // "boot", UTF-16LE
    &&& s[base + 58] == 0x6Fu8 && s[base + 59] == 0u8
    &&& s[base + 60] == 0x6Fu8 && s[base + 61] == 0u8
    &&& s[base + 62] == 0x74u8 && s[base + 63] == 0u8
    &&& (forall|i: int| base + 64 <= i < base + 128 ==> s[i] == 0u8)
    &&& (forall|i: int| base + 128 <= i < base + 16384 ==> s[i] == 0u8)  // unused entries
}

/// The whole disk image for partition contents `p`: protective MBR,
/// primary header and array, the partition's bytes at block 34, then the
/// backup array and backup header at the end, and zero in the gaps.
pub open spec fn disk_ok(p: Seq<u8>, d: Seq<u8>) -> bool {
    let ps = p.len() as int / 512;
    let nl = ps + 128;
    &&& d.len() == p.len() + GPT_OVERHEAD
    &&& mbr_ok(d, nl)
    &&& gpt_header_at(d, 512, 1, nl - 1, 2, nl, crc32_of(d.subrange(1024, 17408)) as int)
    &&& (forall|i: int| 604 <= i < 1024 ==> d[i] == 0u8)
    &&& part_array_ok(d, 1024, 34, 34 + ps - 1)
    &&& (forall|i: int| 0 <= i < p.len() ==> d[17408 + i] == #[trigger] p[i])
    &&& (forall|i: int| 17408 + p.len() <= i < (nl - 33) * 512 ==> d[i] == 0u8)
    &&& part_array_ok(d, (nl - 33) * 512, 34, 34 + ps - 1)
    &&& gpt_header_at(
        d,
        (nl - 1) * 512,
        nl - 1,
        1,
        nl - 33,
        nl,
        crc32_of(d.subrange((nl - 33) * 512, (nl - 33) * 512 + 16384)) as int,
    )
    &&& (forall|i: int| (nl - 1) * 512 + 92 <= i < d.len() ==> d[i] == 0u8)
}

/// Builds the partition entry array for a partition at blocks
/// `first..=last`.
fn build_part_array(first: usize, last: usize) -> (a: Vec<u8>)
    ensures
        a@.len() == 16384,
        part_array_ok(a@, 0, first as int, last as int),
{
    let mut a = zeroed(16384);
    a.set(0, 0x28);
    a.set(1, 0x73);
    a.set(2, 0x2A);
    a.set(3, 0xC1);
    a.set(4, 0x1F);
    a.set(5, 0xF8);
    a.set(6, 0xD2);
    a.set(7, 0x11);
    a.set(8, 0xBA);
    a.set(9, 0x4B);
    a.set(10, 0x00);
    a.set(11, 0xA0);
    a.set(12, 0xC9);
    a.set(13, 0x3E);
    a.set(14, 0xC9);
    a.set(15, 0x3B);
    a.set(16, 0x9E);
    a.set(17, 0x2B);
    a.set(18, 0x74);
    a.set(19, 0x5C);
    a.set(20, 0xA1);
    a.set(21, 0x37);
    a.set(22, 0x5A);
    a.set(23, 0x4E);
    a.set(24, 0x8F);
    a.set(25, 0x1D);
    a.set(26, 0x60);
    a.set(27, 0x23);
    a.set(28, 0x7C);
    a.set(29, 0x99);
    a.set(30, 0xB4);
    a.set(31, 0x41);
    write_le(&mut a, 32, 8, first as u64);
    write_le(&mut a, 40, 8, last as u64);
    a.set(56, 0x62);
    a.set(58, 0x6F);
    a.set(60, 0x6F);
    a.set(62, 0x74);
    a
}

/// Builds a 92-byte GPT header whose partition-array CRC field holds
/// `parts_crc`; its own CRC field is computed over the finished bytes.
fn build_gpt_header(
    my_lba: usize,
    other_lba: usize,
    parts_lba: usize,
    nlbas: usize,
    parts_crc: u32,
) -> (h: Vec<u8>)
    requires
        34 <= nlbas,
    ensures
        h@.len() == 92,
        gpt_header_at(
            h@,
            0,
            my_lba as int,
            other_lba as int,
            parts_lba as int,
            nlbas as int,
            parts_crc as int,
        ),
{
    let mut h = zeroed(92);
    h.set(0, 0x45);
    h.set(1, 0x46);
    h.set(2, 0x49);
    h.set(3, 0x20);
    h.set(4, 0x50);
    h.set(5, 0x41);
    h.set(6, 0x52);
    h.set(7, 0x54);
    write_le(&mut h, 8, 4, 0x00010000);
    write_le(&mut h, 12, 4, 92);
    write_le(&mut h, 24, 8, my_lba as u64);
    write_le(&mut h, 32, 8, other_lba as u64);
    write_le(&mut h, 40, 8, 34);
    write_le(&mut h, 48, 8, (nlbas - 34) as u64);
    h.set(56, 0x8D);
    h.set(57, 0x41);
    h.set(58, 0x5F);
    h.set(59, 0x20);
    h.set(60, 0x63);
    h.set(61, 0x9C);
    h.set(62, 0x2F);
    h.set(63, 0x47);
    h.set(64, 0xB3);
    h.set(65, 0x6A);
    h.set(66, 0x11);
    h.set(67, 0x8A);
    h.set(68, 0xD7);
    h.set(69, 0x05);
    h.set(70, 0xC4);
    h.set(71, 0x92);
    write_le(&mut h, 72, 8, parts_lba as u64);
    write_le(&mut h, 80, 4, 128);
    write_le(&mut h, 84, 4, 128);
    write_le(&mut h, 88, 4, parts_crc as u64);
    let ghost pre = h@;
    let c = crc32(&h);
    write_le(&mut h, 16, 4, c as u64);
    proof {
        lemma_le_zero(h@, 20, 4);
        assert(with_crc_zeroed(h@.subrange(0, 92)) =~= pre);
    }
    h
}

/// Assembles a GPT disk image whose sole partition holds `fat` byte for
/// byte. Refuses, with a capacity error, exactly the inputs that are not a
/// whole, positive number of blocks within the size cap.
#[verifier::rlimit(100)]
pub fn build_gpt_disk(fat: &Vec<u8>) -> (r: Result<Vec<u8>, AssembleError>)
    ensures
        r is Ok <==> gpt_input_ok(fat@.len() as int),
        r is Ok ==> disk_ok(fat@, r->Ok_0@),
        r is Err ==> r->Err_0 == AssembleError::Capacity,
{
    let p = fat.len();
    if p < 512 || p > MAX_BOOT_BYTES || p % 512 != 0 {
        return Err(AssembleError::Capacity);
    }
    let psecs = p / 512;
    proof {
        vstd::arithmetic::div_mod::lemma_fundamental_div_mod(p as int, 512);
        assert(512 * (psecs as int) == p as int);
    }
    let nl = psecs + 128;
    let dsize = p + GPT_OVERHEAD;
    assert((nl as int) * 512 == dsize as int);
    let mut d = zeroed(dsize);
    // protective MBR
    d.set(448, 0x02);
    d.set(450, 0xEE);
    d.set(451, 0xFF);
    d.set(452, 0xFF);
    d.set(453, 0xFF);
    write_le(&mut d, 454, 4, 1);
    let msize: u64 = if nl - 1 > 0xFFFFFFFFusize {
        0xFFFFFFFFu64
    } else {
        (nl - 1) as u64
    };
    assert(msize as int == mbr_size_val(nl as int));
    write_le(&mut d, 458, 4, msize);
    d.set(510, 0x55);
    d.set(511, 0xAA);
    // partition entry array and the two headers
    let arr = build_part_array(34, 34 + psecs - 1);
    let acrc = crc32(&arr);
    let h1 = build_gpt_header(1, nl - 1, 2, nl, acrc);
    let h2 = build_gpt_header(nl - 1, 1, nl - 33, nl, acrc);
    write_bytes(&mut d, 512, &h1);
    write_bytes(&mut d, 1024, &arr);
    write_bytes(&mut d, 17408, fat);
    write_bytes(&mut d, (nl - 33) * 512, &arr);
    write_bytes(&mut d, (nl - 1) * 512, &h2);
    proof {
        let pp = fat@.len() as int;
        let ps = pp / 512;
        let nn = nl as int;
        let back_arr = (nn - 33) * 512;
        let back_hdr = (nn - 1) * 512;
        // the protective MBR's bytes survived the later region writes
        assert forall|i: int| 0 <= i < 446 implies d@[i] == 0u8 by {}
        assert forall|i: int| 462 <= i < 510 implies d@[i] == 0u8 by {}
        lemma_le_survives(d@, 454, 4, 1);
        lemma_le_survives(d@, 458, 4, mbr_size_val(nn));
        assert(mbr_ok(d@, nn));
        // primary header
        assert forall|i: int| 0 <= i < 92 implies d@[512 + i] == h1@[i] by {
            assert(d@[512 + i] == h1@[(512 + i) - 512]);
        }
        assert(d@.subrange(512, 604) =~= h1@);
        lemma_header_transfer(h1@, d@, 512, 1, nn - 1, 2, nn, acrc as int);
        // primary array
        assert forall|i: int| 0 <= i < 16384 implies d@[1024 + i] == arr@[i] by {
            assert(d@[1024 + i] == arr@[(1024 + i) - 1024]);
        }
        assert(d@.subrange(1024, 17408) =~= arr@);
        lemma_array_transfer(arr@, d@, 1024, 34, 34 + ps - 1);
        // partition contents
        assert forall|i: int| 0 <= i < pp implies d@[17408 + i] == #[trigger] fat@[i] by {
            assert(d@[17408 + i] == fat@[(17408 + i) - 17408]);
        }
        // backup array
        assert forall|i: int| 0 <= i < 16384 implies d@[back_arr + i] == arr@[i] by {
            assert(d@[back_arr + i] == arr@[(back_arr + i) - back_arr]);
        }
        assert(d@.subrange(back_arr, back_arr + 16384) =~= arr@);
        lemma_array_transfer(arr@, d@, back_arr, 34, 34 + ps - 1);
        // backup header
        assert forall|i: int| 0 <= i < 92 implies d@[back_hdr + i] == h2@[i] by {
            assert(d@[back_hdr + i] == h2@[(back_hdr + i) - back_hdr]);
        }
        assert(d@.subrange(back_hdr, back_hdr + 92) =~= h2@);
        lemma_header_transfer(h2@, d@, back_hdr, nn - 1, 1, nn - 33, nn, acrc as int);
        // the gaps stayed zero
        assert forall|i: int| 604 <= i < 1024 implies d@[i] == 0u8 by {}
        assert forall|i: int| 17408 + pp <= i < back_arr implies d@[i] == 0u8 by {}
        assert forall|i: int| back_hdr + 92 <= i < d@.len() implies d@[i] == 0u8 by {}
        assert(disk_ok(fat@, d@));
    }
    Ok(d)
}

/// A little-endian field written before later, disjoint region writes is
/// still in place afterwards.
proof fn lemma_le_survives(s: Seq<u8>, off: int, cnt: int, x: int)
    requires
        forall|k: int| 0 <= k < cnt ==> s[off + k] == #[trigger] byte_of(x, k),
    ensures
        le_at(s, off, cnt, x),
{
}

/// Carries a header's fields from its 92-byte buffer to its place in the
/// image, rebasing the self-referential CRC clause.
proof fn lemma_header_transfer(
    r: Seq<u8>,
    v: Seq<u8>,
    base: int,
    my_lba: int,
    other_lba: int,
    parts_lba: int,
    nlbas: int,
    parts_crc: int,
)
    requires
        r.len() == 92,
        0 <= base,
        base + 92 <= v.len(),
        gpt_header_at(r, 0, my_lba, other_lba, parts_lba, nlbas, parts_crc),
        v.subrange(base, base + 92) == r,
        forall|i: int| 0 <= i < 92 ==> v[base + i] == r[i],
    ensures
        gpt_header_at(v, base, my_lba, other_lba, parts_lba, nlbas, parts_crc),
{
    lemma_le_transfer_g(r, v, base, 8, 4, 0x00010000);
    lemma_le_transfer_g(r, v, base, 12, 4, 92);
    lemma_le_transfer_g(
        r,
        v,
        base,
        16,
        4,
        crc32_of(with_crc_zeroed(r.subrange(0, 92))) as int,
    );
    assert(r.subrange(0, 92) =~= r);
    assert(v.subrange(base, base + 92) =~= r);
    lemma_le_transfer_g(r, v, base, 20, 4, 0);
    lemma_le_transfer_g(r, v, base, 24, 8, my_lba);
    lemma_le_transfer_g(r, v, base, 32, 8, other_lba);
    lemma_le_transfer_g(r, v, base, 40, 8, 34);
    lemma_le_transfer_g(r, v, base, 48, 8, nlbas - 34);
    lemma_le_transfer_g(r, v, base, 72, 8, parts_lba);
    lemma_le_transfer_g(r, v, base, 80, 4, 128);
    lemma_le_transfer_g(r, v, base, 84, 4, 128);
    lemma_le_transfer_g(r, v, base, 88, 4, parts_crc);
}

/// Carries the partition entry array from its buffer to its place in the
/// image.
proof fn lemma_array_transfer(r: Seq<u8>, v: Seq<u8>, base: int, first: int, last: int)
    requires
        r.len() == 16384,
        0 <= base,
        part_array_ok(r, 0, first, last),
        forall|i: int| 0 <= i < 16384 ==> v[base + i] == r[i],
    ensures
        part_array_ok(v, base, first, last),
{
    lemma_le_transfer_g(r, v, base, 32, 8, first);
    lemma_le_transfer_g(r, v, base, 40, 8, last);
    assert forall|i: int| base + 48 <= i < base + 56 implies v[i] == 0u8 by {
        assert(v[base + (i - base)] == r[i - base]);
    }
    assert forall|i: int| base + 64 <= i < base + 128 implies v[i] == 0u8 by {
        assert(v[base + (i - base)] == r[i - base]);
    }
    assert forall|i: int| base + 128 <= i < base + 16384 implies v[i] == 0u8 by {
        assert(v[base + (i - base)] == r[i - base]);
    }
}

/// Carries a little-endian field from a region buffer to the image.
proof fn lemma_le_transfer_g(r: Seq<u8>, v: Seq<u8>, base: int, off: int, cnt: int, x: int)
    requires
        0 <= off,
        off + cnt <= r.len(),
        le_at(r, off, cnt, x),
        forall|i: int| 0 <= i < r.len() ==> v[base + i] == r[i],
    ensures
        le_at(v, base + off, cnt, x),
{
    assert forall|k: int| 0 <= k < cnt implies v[(base + off) + k] == #[trigger] byte_of(x, k) by {
        assert(v[base + (off + k)] == r[off + k]);
    }
}

/// Two disks with the same partition extent agree on the entry array.
proof fn lemma_array_unique(s1: Seq<u8>, s2: Seq<u8>, base: int, first: int, last: int)
    requires
        part_array_ok(s1, base, first, last),
        part_array_ok(s2, base, first, last),
    ensures
        forall|i: int| base <= i < base + 16384 ==> s1[i] == s2[i],
{
    lemma_le_unique(s1, s2, base + 32, 8, first);
    lemma_le_unique(s1, s2, base + 40, 8, last);
}

/// Two disks with the same header parameters and equal arrays agree on the
/// header's bytes, its two CRC fields included.
proof fn lemma_header_unique(
    s1: Seq<u8>,
    s2: Seq<u8>,
    base: int,
    my_lba: int,
    other_lba: int,
    parts_lba: int,
    nlbas: int,
    parts_crc: int,
)
    requires
        0 <= base,
        base + 92 <= s1.len(),
        base + 92 <= s2.len(),
        gpt_header_at(s1, base, my_lba, other_lba, parts_lba, nlbas, parts_crc),
        gpt_header_at(s2, base, my_lba, other_lba, parts_lba, nlbas, parts_crc),
    ensures
        forall|i: int| base <= i < base + 92 ==> s1[i] == s2[i],
{
    lemma_le_unique(s1, s2, base + 8, 4, 0x00010000);
    lemma_le_unique(s1, s2, base + 12, 4, 92);
    lemma_le_unique(s1, s2, base + 20, 4, 0);
    lemma_le_unique(s1, s2, base + 24, 8, my_lba);
    lemma_le_unique(s1, s2, base + 32, 8, other_lba);
    lemma_le_unique(s1, s2, base + 40, 8, 34);
    lemma_le_unique(s1, s2, base + 48, 8, nlbas - 34);
    lemma_le_unique(s1, s2, base + 72, 8, parts_lba);
    lemma_le_unique(s1, s2, base + 80, 4, 128);
    lemma_le_unique(s1, s2, base + 84, 4, 128);
    lemma_le_unique(s1, s2, base + 88, 4, parts_crc);
    assert(with_crc_zeroed(s1.subrange(base, base + 92)) =~= with_crc_zeroed(
        s2.subrange(base, base + 92),
    ));
    lemma_le_unique(
        s1,
        s2,
        base + 16,
        4,
        crc32_of(with_crc_zeroed(s1.subrange(base, base + 92))) as int,
    );
}

/// A valid disk image for a given partition content is unique: the
/// assembler pins every byte, so rebuilding reproduces the image exactly.
pub proof fn lemma_disk_unique(p: Seq<u8>, d1: Seq<u8>, d2: Seq<u8>)
    requires
        gpt_input_ok(p.len() as int),
        disk_ok(p, d1),
        disk_ok(p, d2),
    ensures
        d1 == d2,
{
    let pp = p.len() as int;
    let ps = pp / 512;
    let nl = ps + 128;
    vstd::arithmetic::div_mod::lemma_fundamental_div_mod(pp, 512);
    assert(512 * ps == pp);
    lemma_array_unique(d1, d2, 1024, 34, 34 + ps - 1);
    lemma_array_unique(d1, d2, (nl - 33) * 512, 34, 34 + ps - 1);
    assert(d1.subrange(1024, 17408) =~= d2.subrange(1024, 17408));
    assert(d1.subrange((nl - 33) * 512, (nl - 33) * 512 + 16384) =~= d2.subrange(
        (nl - 33) * 512,
        (nl - 33) * 512 + 16384,
    ));
    lemma_header_unique(d1, d2, 512, 1, nl - 1, 2, nl, crc32_of(
        d1.subrange(1024, 17408),
    ) as int);
    lemma_header_unique(d1, d2, (nl - 1) * 512, nl - 1, 1, nl - 33, nl, crc32_of(
        d1.subrange((nl - 33) * 512, (nl - 33) * 512 + 16384),
    ) as int);
    lemma_le_unique(d1, d2, 454, 4, 1);
    lemma_le_unique(d1, d2, 458, 4, mbr_size_val(nl));
    assert forall|i: int| 0 <= i < d1.len() implies d1[i] == d2[i] by {
        if 17408 <= i < 17408 + pp {
            assert(d1[17408 + (i - 17408)] == p[i - 17408]);
            assert(d2[17408 + (i - 17408)] == p[i - 17408]);
        }
    }
    assert(d1 =~= d2);
}

} // verus!
