//! The binary format's primitive readers and header tables.

use pleroma::ast::Hvalue;
use pleroma::bin_helpers::{
    read_le_u16, read_le_u32, read_s32_sz, read_u16_sz, read_u32_sz, read_u64_sz, read_u8,
    read_u8_sz, read_utf8_str, read_utf8_str_sz, try_read_utf8_str_sz,
};
use pleroma::fat::{read_bios_parameter_block, read_extended_boot_record, FatError, FatFs, FatType};
use pleroma::net::empty_ethernet_frame;
use pleroma::pbin::{
    load_entity_data_table, load_entity_function_table, load_entity_inoculation_table,
    lookup_function_location,
};

#[test]
fn integer_readers_both_byte_orders() {
    let b = [0x01, 0x02, 0x03, 0x04, 0x05, 0x06, 0x07, 0x08];
    assert_eq!(read_u8(&b), 1);
    assert_eq!(read_u8_sz(&b), (1, 1));
    assert_eq!(read_le_u16(&b), 0x0201);
    assert_eq!(read_le_u32(&b), 0x04030201);
    assert_eq!(read_u16_sz(&b), (2, 0x0102));
    assert_eq!(read_u32_sz(&b), (4, 0x01020304));
    assert_eq!(read_u64_sz(&b), (8, 0x0102030405060708));
    let neg = [0xFF, 0xFF, 0xFF, 0xFE];
    assert_eq!(read_s32_sz(&neg), (4, -2));
}

#[test]
fn string_readers_stop_at_the_terminator() {
    let b = [b'h', b'i', 0, b'x'];
    let (n, s) = read_utf8_str_sz(&b);
    assert_eq!(n, 3);
    assert_eq!(s, "hi");
    assert_eq!(read_utf8_str(&b[0..2]), "hi");
    // multi-byte characters survive the trip
    let mut multi = "caf\u{e9}".as_bytes().to_vec();
    multi.push(0);
    let (n2, s2) = try_read_utf8_str_sz(&multi).unwrap();
    assert_eq!(n2, multi.len());
    assert_eq!(s2, "caf\u{e9}");
    // no terminator: nothing to read
    assert!(try_read_utf8_str_sz(&[b'a', b'b']).is_none());
}

#[test]
fn defaults_table_loads_its_entries() {
    // two entries: (entity 0, "x", byte 5) and (entity 1, "y", promise 2)
    let table = vec![
        2u8,
        0, b'x', 0, 0x01, 5,
        1, b'y', 0, 0x02, 2,
    ];
    let mut loc = 0usize;
    let entries = load_entity_data_table(&mut loc, &table).unwrap();
    assert_eq!(loc, table.len());
    assert_eq!(entries.len(), 2);
    assert_eq!(entries[0].entity_id, 0);
    assert_eq!(entries[0].name, "x");
    assert!(matches!(entries[0].value, Hvalue::Hu8(5)));
    assert_eq!(entries[1].entity_id, 1);
    assert_eq!(entries[1].name, "y");
    assert!(matches!(entries[1].value, Hvalue::Promise(2)));
    let mut loc2 = 0usize;
    let same = load_entity_inoculation_table(&mut loc2, &table).unwrap();
    assert_eq!(same.len(), 2);
}

#[test]
fn defaults_table_rejects_truncation() {
    let mut loc = 0usize;
    assert!(load_entity_data_table(&mut loc, &[2u8, 0, b'x']).is_err());
}

#[test]
fn function_table_loads_and_looks_up_locations() {
    let table = vec![
        2u8,
        0, 0, 0x00, 0x10, 0x00, 0x05,
        0, 1, 0x00, 0x15, 0x00, 0x07,
    ];
    let mut loc = 0usize;
    let entries = load_entity_function_table(&mut loc, &table).unwrap();
    assert_eq!(loc, table.len());
    assert_eq!(entries.len(), 2);
    let e = lookup_function_location(&entries, 0, 1).unwrap();
    assert_eq!(e.start, 0x15);
    assert_eq!(e.flen, 7);
    assert!(lookup_function_location(&entries, 1, 0).is_none());
}

#[test]
fn ethernet_frame_layout() {
    let frame = empty_ethernet_frame(
        [0x00, 0x11, 0x22, 0x33, 0x44, 0x55],
        [0xAA, 0xBB, 0xCC, 0xDD, 0xEE, 0xFF],
    );
    assert_eq!(&frame[0..6], &[0xAA, 0xBB, 0xCC, 0xDD, 0xEE, 0xFF]);
    assert_eq!(&frame[6..12], &[0x00, 0x11, 0x22, 0x33, 0x44, 0x55]);
    assert_eq!(&frame[12..14], &[0x05, 0xDC]);
    assert!(frame[14..].iter().all(|b| *b == 0));
}

#[test]
fn invalid_character_data_is_rejected() {
    // a string field whose bytes are not character data never decodes
    assert!(try_read_utf8_str_sz(&[0xFF, 0xFE, 0]).is_none());
}

fn synthetic_volume() -> Vec<u8> {
    let mut img = vec![0u8; 2048];
    // BIOS parameter block: 512-byte sectors, 1 sector per cluster,
    // 1 reserved sector, 1 allocation table of 1 sector, 16 root entries
    img[11] = 0x00;
    img[12] = 0x02;
    img[13] = 1;
    img[14] = 1;
    img[15] = 0;
    img[16] = 1;
    img[17] = 16;
    img[18] = 0;
    img[22] = 1;
    img[23] = 0;
    // extended boot record text fields
    img[43..54].copy_from_slice(b"PLEROMAVOL ");
    img[54..62].copy_from_slice(b"FAT16   ");
    img[510] = 0x55;
    img[511] = 0xAA;
    // the allocation table: cluster 2 ends its chain
    img[512 + 4] = 0xF8;
    img[512 + 5] = 0xFF;
    // one root-directory entry: HELLO.TXT, 5 bytes, starting at cluster 2
    let base = 1024;
    img[base..base + 8].copy_from_slice(b"HELLO   ");
    img[base + 8..base + 11].copy_from_slice(b"TXT");
    img[base + 26] = 2;
    img[base + 27] = 0;
    img[base + 28] = 5;
    // file data in cluster 2
    img[1536..1541].copy_from_slice(b"WORLD");
    img
}

#[test]
fn fat16_volume_reads_its_structures_and_files() {
    let img = synthetic_volume();
    let bpb = read_bios_parameter_block(&img).unwrap();
    assert_eq!(bpb.bytes_per_sector, 512);
    assert_eq!(bpb.root_dir_entry_count, 16);
    let ebr = read_extended_boot_record(&img).unwrap();
    assert_eq!(ebr.volume_label, "PLEROMAVOL ");
    assert_eq!(ebr.system_id, "FAT16   ");
    assert_eq!(ebr.boot_partition_signature, 0xAA55);
    let fs = FatFs::new(&img, FatType::Fat16).unwrap();
    assert_eq!(fs.fat_size(), 1);
    assert_eq!(fs.root_dir_sectors().unwrap(), 1);
    assert_eq!(fs.first_data_sector().unwrap(), 3);
    let chain = fs.data_clusters(2).unwrap();
    assert_eq!(chain, vec![2]);
    let entries = fs.list_root_dir().unwrap();
    assert_eq!(entries.len(), 1);
    assert_eq!(entries[0].filename(), "HELLO   .TXT");
    let contents = fs.read_file(&entries[0]).unwrap();
    assert_eq!(contents, b"WORLD");
}

#[test]
fn fat16_reports_bad_sectors_and_truncation() {
    let mut img = synthetic_volume();
    // mark cluster 2 as a bad sector
    img[512 + 4] = 0xF7;
    img[512 + 5] = 0xFF;
    let fs = FatFs::new(&img, FatType::Fat16).unwrap();
    assert_eq!(fs.data_clusters(2).unwrap_err(), FatError::BadSector);
    // an image that ends before the boot structures never opens
    assert!(matches!(
        FatFs::new(&[0u8; 40], FatType::Fat16),
        Err(FatError::Truncated)
    ));
}

#[test]
fn ipv4_udp_test_packet_layout() {
    let p = pleroma::net::create_eth_ipv4_udp_packet();
    assert_eq!(p.len(), 62);
    assert_eq!(&p[12..14], &[0x08, 0x00]);
    assert_eq!(p[14], 0x45);
    assert_eq!(&p[16..18], &[0x00, 0x2E]);
    assert_eq!(p[22], 0x40);
    assert_eq!(p[23], 0x11);
    assert_eq!(&p[26..30], &[192, 168, 100, 2]);
    assert_eq!(&p[30..34], &[192, 168, 100, 3]);
    assert_eq!(&p[34..36], &[0x15, 0xB3]);
    assert_eq!(&p[38..40], &[0x00, 0x0D]);
    assert_eq!(&p[42..47], b"Hello");
    assert!(p[47..].iter().all(|b| *b == 0));
}
