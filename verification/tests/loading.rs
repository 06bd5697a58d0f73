//! Tests for load-address classification and program-file handling.

use matrix65::io::{
    classify_file_name, load_prg, load_with_load_address, purge_load_address, select_prg_entry,
    DirEntry, FileKind, LoadedPrg,
};
use matrix65::{LoadAddress, M65Error};

#[test]
fn classify_names_the_canonical_entry_points() {
    assert_eq!(LoadAddress::new(0x0401), LoadAddress::PET);
    assert_eq!(LoadAddress::new(0x0801), LoadAddress::Commodore64);
    assert_eq!(LoadAddress::new(0x1001), LoadAddress::Commodore16);
    assert_eq!(LoadAddress::new(0x1c01), LoadAddress::Commodore128);
    assert_eq!(LoadAddress::new(0x2001), LoadAddress::Commodore65);
    assert_eq!(LoadAddress::new(0xc000), LoadAddress::Custom(0xc000));
}

#[test]
fn classification_round_trips_for_every_16_bit_value() {
    for a in 0..=0xffffu16 {
        assert_eq!(LoadAddress::new(a).value(), a);
    }
}

#[test]
fn load_address_values() {
    assert_eq!(LoadAddress::PET.value(), 0x0401);
    assert_eq!(LoadAddress::Commodore64.value(), 0x0801);
    assert_eq!(LoadAddress::Commodore16.value(), 0x1001);
    assert_eq!(LoadAddress::Commodore128.value(), 0x1c01);
    assert_eq!(LoadAddress::Commodore65.value(), 0x2001);
    assert_eq!(LoadAddress::Custom(0xc000).value(), 0xc000);
}

#[test]
fn from_bytes_reads_little_endian() {
    let bytes: [u8; 3] = [0x01, 0x08, 0xff];
    let la = LoadAddress::from_bytes(&bytes).unwrap();
    assert_eq!(la, LoadAddress::Commodore64);
    assert_eq!(la.value(), 0x0801);
}

#[test]
fn from_bytes_rejects_short_input() {
    assert_eq!(LoadAddress::from_bytes(&[0x01]), Err(M65Error::InvalidFormat));
}

#[test]
fn purge_load_address_strips_the_first_two_bytes() {
    let mut bytes: Vec<u8> = vec![0x01, 0x08, 0xff];
    let la = purge_load_address(&mut bytes);
    assert_eq!(la.value(), 0x0801);
    assert_eq!(bytes.len(), 1);
    assert_eq!(bytes[0], 0xff);
}

#[test]
fn direct_file_splits_address_and_payload() {
    let r = load_prg("game.prg", vec![0x01, 0x08, 0xaa, 0xbb]).unwrap();
    match r {
        LoadedPrg::Program(la, payload) => {
            assert_eq!(la, LoadAddress::Commodore64);
            assert_eq!(payload, vec![0xaa, 0xbb]);
        }
        LoadedPrg::DiskImage => panic!("a prg file is not a disk image"),
    }
}

#[test]
fn extensionless_file_is_direct() {
    let r = load_prg("game", vec![0x01, 0x04, 0x55]).unwrap();
    match r {
        LoadedPrg::Program(la, payload) => {
            assert_eq!(la, LoadAddress::PET);
            assert_eq!(payload, vec![0x55]);
        }
        LoadedPrg::DiskImage => panic!("an extensionless file is not a disk image"),
    }
}

#[test]
fn disk_images_are_announced_as_containers() {
    assert!(matches!(load_prg("disk.d81", vec![0, 1, 2]), Ok(LoadedPrg::DiskImage)));
    assert!(matches!(load_prg("DISK.D64", vec![]), Ok(LoadedPrg::DiskImage)));
}

#[test]
fn unknown_extensions_are_rejected() {
    assert_eq!(load_prg("notes.txt", vec![0x01, 0x08]), Err(M65Error::InvalidFormat));
}

#[test]
fn short_program_file_is_rejected() {
    assert_eq!(load_prg("game.prg", vec![0x01]), Err(M65Error::InvalidFormat));
}

#[test]
fn extension_classification() {
    assert_eq!(classify_file_name("a.prg"), FileKind::Direct);
    assert_eq!(classify_file_name("a.PRG"), FileKind::Direct);
    assert_eq!(classify_file_name("a"), FileKind::Direct);
    assert_eq!(classify_file_name("dir.d64/a"), FileKind::Direct);
    assert_eq!(classify_file_name("a.d64"), FileKind::DiskImage);
    assert_eq!(classify_file_name("a.d81"), FileKind::DiskImage);
    assert_eq!(classify_file_name("a.D81"), FileKind::DiskImage);
    assert_eq!(classify_file_name("a.bin"), FileKind::Unsupported);
    assert_eq!(classify_file_name("a."), FileKind::Unsupported);
}

#[test]
fn hidden_files_have_no_extension() {
    assert_eq!(classify_file_name(".d64"), FileKind::Direct);
    assert_eq!(classify_file_name("dir/.d64"), FileKind::Direct);
    assert_eq!(classify_file_name(".image.d64"), FileKind::DiskImage);
}

#[test]
fn load_with_load_address_splits_or_rejects() {
    let (la, payload) = load_with_load_address(vec![0x01, 0x1c, 0x42]).unwrap();
    assert_eq!(la, LoadAddress::Commodore128);
    assert_eq!(payload, vec![0x42]);
    assert_eq!(load_with_load_address(vec![0x01]), Err(M65Error::InvalidFormat));
}

fn entry(name: &str, is_prg: bool) -> DirEntry {
    DirEntry { name: name.to_string(), is_prg }
}

#[test]
fn selection_counts_only_program_entries() {
    let entries = vec![
        entry("header", false),
        entry("game one", true),
        entry("note", false),
        entry("game two", true),
    ];
    assert_eq!(select_prg_entry(&entries, 0), Ok(1));
    assert_eq!(select_prg_entry(&entries, 1), Ok(3));
    assert_eq!(select_prg_entry(&entries, 2), Err(M65Error::InvalidSelection));
}

#[test]
fn program_listing_numbers_match_selection() {
    let entries = vec![
        entry("header", false),
        entry("game one", true),
        entry("note", false),
        entry("game two", true),
    ];
    assert_eq!(matrix65::io::prg_entry_indices(&entries), vec![1, 3]);
}

#[test]
fn selection_on_empty_directory_is_invalid() {
    let entries: Vec<DirEntry> = Vec::new();
    assert_eq!(select_prg_entry(&entries, 0), Err(M65Error::InvalidSelection));
}
