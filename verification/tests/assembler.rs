//! End-to-end checks of the two format builders: exact bytes against the
//! format layouts, checksum validation, and round trips through independent
//! GPT and FAT32 readers.

use std::io::{Cursor, Read};

use disk_image::assemble_disk_image;
use disk_image::fat::build_fat_volume;
use disk_image::gpt_disk::build_gpt_disk;
use disk_image::AssembleError;

// A convenient accepted input size: it rounds up to a 33 MiB volume, the
// smallest whole-megabyte FAT32 volume under the fixed geometry (total
// sectors 67584, 520 sectors per FAT copy, 66512 data clusters).
const N_OK: usize = 33_600_000;
const VOLUME: usize = 33 * 1024 * 1024;
const DISK: usize = VOLUME + 0x10000;
const LBAS: usize = DISK / 512;
// data region: 32 reserved sectors plus two 520-sector FAT copies
const DATA_OFF: usize = (32 + 2 * 520) * 512;

fn sample_boot(n: usize) -> Vec<u8> {
    let mut v = Vec::with_capacity(n);
    for i in 0..n {
        v.push((i % 251) as u8);
    }
    v
}

fn u16le(d: &[u8], off: usize) -> u16 {
    u16::from_le_bytes([d[off], d[off + 1]])
}

fn u32le(d: &[u8], off: usize) -> u32 {
    u32::from_le_bytes([d[off], d[off + 1], d[off + 2], d[off + 3]])
}

fn u64le(d: &[u8], off: usize) -> u64 {
    let mut b = [0u8; 8];
    b.copy_from_slice(&d[off..off + 8]);
    u64::from_le_bytes(b)
}

#[test]
fn volume_size_is_input_rounded_to_megabyte() {
    let boot = sample_boot(N_OK);
    let v = build_fat_volume(&boot).unwrap();
    assert_eq!(v.len(), VOLUME);
}

#[test]
fn disk_size_is_volume_plus_fixed_overhead() {
    let boot = sample_boot(N_OK);
    let d = assemble_disk_image(&boot).unwrap();
    assert_eq!(d.len(), DISK);
}

#[test]
fn volume_boot_sector_bytes() {
    let boot = sample_boot(N_OK);
    let v = build_fat_volume(&boot).unwrap();
    assert_eq!(&v[510..512], &[0x55, 0xAA]);
    assert_eq!(&v[82..90], b"FAT32   ");
    assert_eq!(u16le(&v, 11), 512); // bytes per sector
    assert_eq!(v[13], 1); // sectors per cluster
    assert_eq!(u16le(&v, 14), 32); // reserved sectors
    assert_eq!(v[16], 2); // FAT copies
    assert_eq!(u32le(&v, 32), 67584); // total sectors
    assert_eq!(u32le(&v, 36), 520); // sectors per FAT
    assert_eq!(u32le(&v, 44), 2); // root cluster
    assert_eq!(u16le(&v, 48), 1); // FSInfo sector
    assert_eq!(u16le(&v, 50), 6); // backup boot sector
    // the backup boot sector is a copy
    assert_eq!(&v[0..512], &v[3072..3584]);
    // FSInfo signatures
    assert_eq!(u32le(&v, 512), 0x41615252);
    assert_eq!(u32le(&v, 512 + 484), 0x61417272);
    assert_eq!(u32le(&v, 512 + 508), 0xAA550000);
}

#[test]
fn volume_fat_entries_chain_the_file() {
    let boot = sample_boot(N_OK);
    let v = build_fat_volume(&boot).unwrap();
    let fat1 = 16384;
    assert_eq!(u32le(&v, fat1), 0x0FFFFFF8); // media entry
    assert_eq!(u32le(&v, fat1 + 4), 0x0FFFFFFF);
    // the three directory clusters are single-cluster chains
    assert_eq!(u32le(&v, fat1 + 8), 0x0FFFFFFF);
    assert_eq!(u32le(&v, fat1 + 12), 0x0FFFFFFF);
    assert_eq!(u32le(&v, fat1 + 16), 0x0FFFFFFF);
    // the file spans clusters 5..=65629
    assert_eq!(u32le(&v, fat1 + 4 * 5), 6);
    assert_eq!(u32le(&v, fat1 + 4 * 65628), 65629);
    assert_eq!(u32le(&v, fat1 + 4 * 65629), 0x0FFFFFFF);
    assert_eq!(u32le(&v, fat1 + 4 * 65630), 0);
    // the second copy mirrors the first
    let fat2 = fat1 + 520 * 512;
    assert_eq!(&v[fat1..fat1 + 520 * 512], &v[fat2..fat2 + 520 * 512]);
}

#[test]
fn volume_directory_entries() {
    let boot = sample_boot(N_OK);
    let v = build_fat_volume(&boot).unwrap();
    // root: EFI directory at cluster 3
    assert_eq!(&v[DATA_OFF..DATA_OFF + 11], b"EFI        ");
    assert_eq!(v[DATA_OFF + 11], 0x10);
    assert_eq!(u16le(&v, DATA_OFF + 26), 3);
    // EFI: BOOT directory at cluster 4
    let boot_entry = DATA_OFF + 512 + 64;
    assert_eq!(&v[boot_entry..boot_entry + 11], b"BOOT       ");
    assert_eq!(v[boot_entry + 11], 0x10);
    assert_eq!(u16le(&v, boot_entry + 26), 4);
    // BOOT: the file at cluster 5, with its exact size
    let file_entry = DATA_OFF + 1024 + 64;
    assert_eq!(&v[file_entry..file_entry + 11], b"BOOTX64 EFI");
    assert_eq!(v[file_entry + 11], 0x20);
    assert_eq!(u16le(&v, file_entry + 26), 5);
    assert_eq!(u32le(&v, file_entry + 28) as usize, N_OK);
    // the content itself, byte for byte
    let content = DATA_OFF + 1536;
    assert_eq!(&v[content..content + N_OK], &boot[..]);
}

#[test]
fn volume_reads_back_through_fatfs() {
    let boot = sample_boot(N_OK);
    let v = build_fat_volume(&boot).unwrap();
    let fs = fatfs::FileSystem::new(Cursor::new(v), fatfs::FsOptions::new()).unwrap();
    assert_eq!(fs.fat_type(), fatfs::FatType::Fat32);
    let root = fs.root_dir();
    let mut file = root.open_file("EFI/BOOT/BOOTX64.EFI").unwrap();
    let mut read = Vec::new();
    file.read_to_end(&mut read).unwrap();
    assert_eq!(read, boot);
}

#[test]
fn protective_mbr_bytes() {
    let boot = sample_boot(N_OK);
    let d = assemble_disk_image(&boot).unwrap();
    assert_eq!(&d[510..512], &[0x55, 0xAA]);
    assert_eq!(d[446], 0x00); // status
    assert_eq!(d[450], 0xEE); // protective type
    assert_eq!(u32le(&d, 454), 1); // first block
    // size: all blocks but the first, clamped to the 32-bit field; the
    // block arithmetic is over standard 512-byte logical blocks
    let expect = u64::min((LBAS - 1) as u64, 0xFFFF_FFFF) as u32;
    assert_eq!(u32le(&d, 458), expect);
    assert_eq!(u32le(&d, 458) as usize, LBAS - 1);
}

#[test]
fn gpt_header_checksums_validate() {
    let boot = sample_boot(N_OK);
    let d = assemble_disk_image(&boot).unwrap();
    let backup = (LBAS - 1) * 512;
    for base in [512usize, backup] {
        assert_eq!(&d[base..base + 8], b"EFI PART");
        let mut hdr = d[base..base + 92].to_vec();
        let stored = u32le(&hdr, 16);
        hdr[16..20].fill(0);
        assert_eq!(stored, crc32fast::hash(&hdr));
    }
    // the partition-array checksum in both headers, against both arrays
    let acrc1 = crc32fast::hash(&d[1024..1024 + 16384]);
    let back_arr = (LBAS - 33) * 512;
    let acrc2 = crc32fast::hash(&d[back_arr..back_arr + 16384]);
    assert_eq!(u32le(&d, 512 + 88), acrc1);
    assert_eq!(u32le(&d, backup + 88), acrc2);
    assert_eq!(acrc1, acrc2);
    // the two headers point at each other
    assert_eq!(u64le(&d, 512 + 24), 1);
    assert_eq!(u64le(&d, 512 + 32), (LBAS - 1) as u64);
    assert_eq!(u64le(&d, backup + 24), (LBAS - 1) as u64);
    assert_eq!(u64le(&d, backup + 32), 1);
}

#[test]
fn disk_parses_as_gpt_with_one_efi_partition() {
    let boot = sample_boot(N_OK);
    let d = assemble_disk_image(&boot).unwrap();
    let g = gpt::GptConfig::new()
        .writable(false)
        .open_from_device(Cursor::new(d))
        .unwrap();
    assert!(g.primary_header().is_ok());
    assert!(g.backup_header().is_ok());
    let parts = g.partitions();
    assert_eq!(parts.len(), 1);
    let part = parts.values().next().unwrap();
    assert_eq!(part.part_type_guid.guid, gpt::partition_types::EFI.guid);
    assert_eq!(part.name, "boot");
    assert_eq!(part.first_lba, 34);
    assert_eq!(part.last_lba, (34 + VOLUME / 512 - 1) as u64);
    assert_eq!(
        part
            .bytes_start(gpt::disk::LogicalBlockSize::Lb512)
            .unwrap(),
        34 * 512
    );
}

#[test]
fn round_trip_gpt_then_fat_recovers_the_executable() {
    let boot = sample_boot(N_OK);
    let d = assemble_disk_image(&boot).unwrap();
    let g = gpt::GptConfig::new()
        .writable(false)
        .open_from_device(Cursor::new(d.clone()))
        .unwrap();
    let part = g.partitions().values().next().unwrap().clone();
    let start = part
        .bytes_start(gpt::disk::LogicalBlockSize::Lb512)
        .unwrap() as usize;
    let len = part.bytes_len(gpt::disk::LogicalBlockSize::Lb512).unwrap() as usize;
    assert_eq!(len, VOLUME);
    let extent = d[start..start + len].to_vec();
    let fs = fatfs::FileSystem::new(Cursor::new(extent), fatfs::FsOptions::new()).unwrap();
    let mut file = fs.root_dir().open_file("EFI/BOOT/BOOTX64.EFI").unwrap();
    let mut read = Vec::new();
    file.read_to_end(&mut read).unwrap();
    assert_eq!(read, boot);
}

#[test]
fn rebuild_is_byte_identical() {
    let boot = sample_boot(N_OK);
    let d1 = assemble_disk_image(&boot).unwrap();
    let d2 = assemble_disk_image(&boot).unwrap();
    assert_eq!(d1, d2);
}

#[test]
fn empty_input_fails_with_capacity_error() {
    let boot: Vec<u8> = Vec::new();
    assert_eq!(build_fat_volume(&boot), Err(AssembleError::Capacity));
    assert_eq!(assemble_disk_image(&boot), Err(AssembleError::Capacity));
}

#[test]
fn input_too_small_for_fat32_fails() {
    // one byte rounds up to a 1 MiB volume, far below FAT32's minimum
    // cluster count
    let boot = sample_boot(1);
    assert_eq!(assemble_disk_image(&boot), Err(AssembleError::Capacity));
    // 32 MiB rounds to itself and still falls short of 65525 clusters
    let boot = sample_boot(32 * 1024 * 1024);
    assert_eq!(assemble_disk_image(&boot), Err(AssembleError::Capacity));
}

#[test]
fn input_at_volume_capacity_boundary() {
    // a 33 MiB volume holds at most 66509 file clusters beside its metadata
    let fits = 66509 * 512;
    assert!(assemble_disk_image(&sample_boot(fits)).is_ok());
    assert_eq!(
        assemble_disk_image(&sample_boot(fits + 1)),
        Err(AssembleError::Capacity)
    );
}

#[test]
fn misaligned_partition_contents_fail() {
    assert_eq!(build_gpt_disk(&vec![0u8; 100]), Err(AssembleError::Capacity));
    assert_eq!(build_gpt_disk(&Vec::new()), Err(AssembleError::Capacity));
}
