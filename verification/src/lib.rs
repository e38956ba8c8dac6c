//! Assembly of bootable GPT disk images.
//!
//! The library builds, byte for byte, the two nested on-disk formats that
//! firmware needs to boot a single executable: a FAT32 volume holding the
//! executable at `/EFI/BOOT/BOOTX64.EFI`, and a GPT-partitioned disk image
//! (protective MBR, primary and backup GPT structures) whose sole partition
//! is that volume.

use vstd::prelude::*;

pub mod crc;
pub mod fat;
pub mod gpt_disk;
pub mod layout;

use crate::fat::{
    build_fat_volume, fat_input_ok, fat_volume_ok, fat_volume_size, lemma_fat_geometry,
    sectors_per_fat, total_sectors,
};
use crate::gpt_disk::{build_gpt_disk, disk_ok, gpt_input_ok, GPT_OVERHEAD};

verus! {

/// Why an assembly step refused its input: the computed size violates the
/// target format's constraints (empty input, a volume too small or too large
/// for FAT32, or no room left for the file once the format's own metadata is
/// placed).
#[derive(Clone, Copy, PartialEq, Eq, Structural, Debug)]
pub enum AssembleError {
    Capacity,
}

/// Where the boot executable's first byte lands in the finished disk image:
/// past the GPT metadata (block 34), the FAT reserved region, the two FAT
/// copies and the three directory clusters.
pub open spec fn boot_content_offset(n: int) -> int {
    17408 + (32 + 2 * sectors_per_fat(n)) * 512 + 1536
}

/// The finished disk image for boot executable `b`: a valid GPT disk whose
/// sole partition, at block 34, is a valid FAT32 volume holding `b` at
/// `/EFI/BOOT/BOOTX64.EFI`.
pub open spec fn disk_image_ok(b: Seq<u8>, d: Seq<u8>) -> bool {
    let s = fat_volume_size(b.len() as int);
    &&& d.len() == s + GPT_OVERHEAD
    &&& fat_volume_ok(b, d.subrange(17408, 17408 + s))
    &&& disk_ok(d.subrange(17408, 17408 + s), d)
}

/// Assembles the bootable disk image for `boot`: builds the FAT32 volume,
/// then wraps it in a GPT disk. Succeeds exactly on the inputs the volume
/// builder accepts; the executable's bytes sit unchanged inside the image at
/// the offset the two formats dictate.
pub fn assemble_disk_image(boot: &Vec<u8>) -> (r: Result<Vec<u8>, AssembleError>)
    ensures
        r is Ok <==> fat_input_ok(boot@.len() as int),
        r is Ok ==> disk_image_ok(boot@, r->Ok_0@),
        r is Ok ==> forall|i: int|
            0 <= i < boot@.len() ==> r->Ok_0@[boot_content_offset(boot@.len() as int) + i]
                == #[trigger] boot@[i],
        r is Err ==> r->Err_0 == AssembleError::Capacity,
{
    let volume = match build_fat_volume(boot) {
        Ok(v) => v,
        Err(e) => {
            return Err(e);
        },
    };
    let ghost n = boot@.len() as int;
    proof {
        lemma_fat_geometry(n);
        vstd::arithmetic::div_mod::lemma_mod_multiples_basic(total_sectors(n), 512);
        assert(volume@.len() as int == total_sectors(n) * 512);
        assert(gpt_input_ok(volume@.len() as int));
    }
    let disk = match build_gpt_disk(&volume) {
        Ok(d) => d,
        Err(e) => {
            proof {
                assert(false);
            }
            return Err(e);
        },
    };
    proof {
        let s = fat_volume_size(n);
        let f = sectors_per_fat(n);
        assert forall|i: int| 0 <= i < s implies disk@.subrange(17408, 17408 + s)[i]
            == volume@[i] by {}
        assert(disk@.subrange(17408, 17408 + s) =~= volume@);
        let content = (32 + 2 * f) * 512 + 1536;
        assert(content + n <= s) by {
            assert(3 + fat::file_clusters(n) <= fat::data_clusters(n));
            assert(n <= 512 * fat::file_clusters(n));
        }
        assert forall|i: int| 0 <= i < n implies disk@[boot_content_offset(n) + i]
            == #[trigger] boot@[i] by {
            assert(volume@[content + i] == boot@[i]);
            assert(disk@[17408 + (content + i)] == volume@[content + i]);
        }
    }
    Ok(disk)
}

/// Idempotent rebuild: the assembler's contracts pin every byte of the
/// image as a function of the boot executable alone (all GUIDs and
/// timestamps are fixed constants), so two runs on the same input from a
/// clean target produce byte-identical disk images.
pub proof fn lemma_rebuild_deterministic(b: Seq<u8>, d1: Seq<u8>, d2: Seq<u8>)
    requires
        fat_input_ok(b.len() as int),
        disk_image_ok(b, d1),
        disk_image_ok(b, d2),
    ensures
        d1 == d2,
{
    let n = b.len() as int;
    let s = fat_volume_size(n);
    lemma_fat_geometry(n);
    vstd::arithmetic::div_mod::lemma_mod_multiples_basic(total_sectors(n), 512);
    assert(s == total_sectors(n) * 512);
    crate::fat::lemma_fat_volume_unique(
        b,
        d1.subrange(17408, 17408 + s),
        d2.subrange(17408, 17408 + s),
    );
    crate::gpt_disk::lemma_disk_unique(d1.subrange(17408, 17408 + s), d1, d2);
}

} // verus!
