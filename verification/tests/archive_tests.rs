use ysv_tools::archive::{ArchiveError, DataFile, DataInfo, Folder, Ysv};

fn put_u32(buf: &mut Vec<u8>, at: usize, v: u32) {
    buf[at..at + 4].copy_from_slice(&v.to_le_bytes());
}

fn put_str(buf: &mut Vec<u8>, at: usize, s: &[u8]) {
    buf[at..at + s.len()].copy_from_slice(s);
    buf[at + s.len()] = 0;
}

const BASE: u32 = 0xFFF80;

/// An executable image with one archive table at 0x100.
fn elf() -> Vec<u8> {
    let mut b = vec![0u8; 0x200];
    put_str(&mut b, 0x10, b"DATA.BIN");
    put_str(&mut b, 0x20, b"/F/");
    put_str(&mut b, 0x30, b"A.BIN");
    put_str(&mut b, 0x38, b"B");
    // Folder entry: name, index of the first file, file count.
    put_u32(&mut b, 0x40, 0x20 + BASE);
    put_u32(&mut b, 0x44, 1);
    put_u32(&mut b, 0x48, 2);
    // File entries 1 and 2.
    put_u32(&mut b, 0x90, 0x30 + BASE);
    put_u32(&mut b, 0x94, 5);
    put_u32(&mut b, 0x98, 3);
    put_u32(&mut b, 0x9C, 2);
    put_u32(&mut b, 0xA0, 0x38 + BASE);
    put_u32(&mut b, 0xA4, 6);
    put_u32(&mut b, 0xA8, 5);
    put_u32(&mut b, 0xAC, 1);
    // The table.
    put_u32(&mut b, 0x100, 0x10 + BASE);
    put_u32(&mut b, 0x104, 1);
    put_u32(&mut b, 0x108, 0x40 + BASE);
    put_u32(&mut b, 0x10C, 0x77);
    put_u32(&mut b, 0x110, 2);
    put_u32(&mut b, 0x114, 0x80 + BASE);
    b
}

fn expected() -> DataInfo {
    DataInfo {
        name: "DATA.BIN".to_string(),
        name_offset: 0x10,
        folder_count: 1,
        folders_offset: 0x40,
        unk: 0x77,
        file_count: 2,
        files_offset: 0x80,
        folders: vec![Folder {
            name_offset: 0x10,
            name: "/F/".to_string(),
            index: 1,
            file_count: 2,
            files: vec![
                DataFile { name_offset: 0x30, name: "A.BIN".to_string(), unk: 5, offset: 0x1800, size: 0x1000 },
                DataFile { name_offset: 0x38, name: "B".to_string(), unk: 6, offset: 0x2800, size: 0x800 },
            ],
        }],
    }
}

#[test]
fn read_archive_table() {
    let b = elf();
    assert_eq!(DataInfo::new(&b, 0x100), Ok(expected()));
}

#[test]
fn read_all_archive_tables() {
    let b = elf();
    let y = Ysv::new(&b, [0x100, 0x100, 0x100]).unwrap();
    assert_eq!(y.data_list.len(), 3);
    assert_eq!(y.data_list[2], expected());
}

#[test]
fn read_fails_below_load_base() {
    let mut b = elf();
    put_u32(&mut b, 0x108, 0x40);
    assert_eq!(DataInfo::new(&b, 0x100), Err(ArchiveError::Malformed));
}

#[test]
fn read_fails_past_end() {
    let b = elf();
    assert_eq!(DataInfo::new(&b, 0x1F0), Err(ArchiveError::Malformed));
    assert_eq!(Ysv::new(&b, [0x100, 0x100, 0x400]), Err(ArchiveError::Malformed));
}

#[test]
fn read_fails_on_sector_overflow() {
    let mut b = elf();
    put_u32(&mut b, 0x98, 0x0020_0000);
    assert_eq!(DataInfo::new(&b, 0x100), Err(ArchiveError::Malformed));
}

#[test]
fn read_fails_on_missing_name_terminator() {
    let mut b = elf();
    put_u32(&mut b, 0x100, 0x1FF + BASE);
    b[0x1FF] = 0x41;
    assert_eq!(DataInfo::new(&b, 0x100), Err(ArchiveError::Malformed));
}

#[test]
fn repack_writes_table_entries() {
    let b = elf();
    let y = Ysv::new(&b, [0x100, 0x100, 0x100]).unwrap();
    let lens = vec![vec![0x1000, 0x900]; 3];
    let out = y.repack(b.clone(), &lens).unwrap();
    assert_eq!(out.len(), b.len());
    // Entries are written from the start of the file table, one after the other.
    let words: Vec<u32> = (0..8)
        .map(|i| u32::from_le_bytes(out[0x80 + 4 * i..0x84 + 4 * i].try_into().unwrap()))
        .collect();
    assert_eq!(words, vec![0x30 + BASE, 5, 0, 2, 0x38 + BASE, 6, 2, 1]);
    // Nothing else changes.
    assert_eq!(&out[..0x80], &b[..0x80]);
    assert_eq!(&out[0xA0..], &b[0xA0..]);
}

#[test]
fn repack_past_end_of_executable_extends_it() {
    let y = Ysv {
        data_list: vec![DataInfo {
            name: "D".to_string(),
            name_offset: 0,
            folder_count: 1,
            folders_offset: 0,
            unk: 0,
            file_count: 1,
            files_offset: 8,
            folders: vec![Folder {
                name_offset: 0,
                name: "/".to_string(),
                index: 0,
                file_count: 1,
                files: vec![DataFile { name_offset: 1, name: "x".to_string(), unk: 2, offset: 0, size: 0 }],
            }],
        }],
    };
    let out = y.repack(vec![0xAA; 4], &vec![vec![0x1800]]).unwrap();
    let mut want = vec![0xAA, 0xAA, 0xAA, 0xAA, 0, 0, 0, 0];
    want.extend_from_slice(&(1 + BASE).to_le_bytes());
    want.extend_from_slice(&2u32.to_le_bytes());
    want.extend_from_slice(&0u32.to_le_bytes());
    want.extend_from_slice(&3u32.to_le_bytes());
    assert_eq!(out, want);
}

#[test]
fn repack_fails_on_name_address_overflow() {
    let y = Ysv {
        data_list: vec![DataInfo {
            name: "D".to_string(),
            name_offset: 0,
            folder_count: 1,
            folders_offset: 0,
            unk: 0,
            file_count: 1,
            files_offset: 0,
            folders: vec![Folder {
                name_offset: 0,
                name: "/".to_string(),
                index: 0,
                file_count: 1,
                files: vec![DataFile { name_offset: 0xFFFF_0000, name: "x".to_string(), unk: 0, offset: 0, size: 0 }],
            }],
        }],
    };
    assert_eq!(y.repack(vec![0; 16], &vec![vec![0]]), Err(ArchiveError::Overflow));
}

/// The same layout with the folder's files first in the table and stored
/// back to back from the start of the archive.
fn packed_elf() -> Vec<u8> {
    let mut b = elf();
    put_u32(&mut b, 0x44, 0);
    put_u32(&mut b, 0x80, 0x30 + BASE);
    put_u32(&mut b, 0x84, 5);
    put_u32(&mut b, 0x88, 0);
    put_u32(&mut b, 0x8C, 2);
    put_u32(&mut b, 0x90, 0x38 + BASE);
    put_u32(&mut b, 0x94, 6);
    put_u32(&mut b, 0x98, 2);
    put_u32(&mut b, 0x9C, 1);
    for i in 0xA0..0xB0 {
        b[i] = 0;
    }
    b
}

#[test]
fn repack_of_unpacked_sizes_restores_executable() {
    let b = packed_elf();
    let y = Ysv::new(&b, [0x100, 0x100, 0x100]).unwrap();
    let files = &y.data_list[0].folders[0].files;
    assert_eq!((files[0].offset, files[0].size), (0, 0x1000));
    assert_eq!((files[1].offset, files[1].size), (0x1000, 0x800));
    let lens: Vec<Vec<usize>> = y
        .data_list
        .iter()
        .map(|d| d.folders.iter().flat_map(|f| f.files.iter().map(|x| x.size as usize)).collect())
        .collect();
    let out = y.repack(b.clone(), &lens).unwrap();
    assert_eq!(out, b);
}
