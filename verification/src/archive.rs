//! The archive tables held in the game executable.
//!
//! Each table (one per `DATA*.BIN` archive) starts with six little-endian
//! 32-bit words: the name offset, the folder count, the folder table offset,
//! an unknown word, the file count and the file table offset. Offsets are
//! memory addresses: the executable is loaded at 0xFFF80, which is
//! subtracted. A folder entry is three words (name offset, index of its first
//! file, file count); a file entry is four (name offset, an unknown word,
//! position and size in 0x800-byte sectors). Names are zero-terminated
//! Shift-JIS texts.

use vstd::prelude::*;
use crate::cursor::{le32, u32_at, write_at, zero_from, ByteCursor, CursorHelper, WriterHelper};
use crate::text::shift_jis_decoded;

verus! {

/// Where the executable is loaded: table offsets are addresses past it.
pub const LOAD_BASE: u32 = 0xFFF80;

/// The sector size of the archives.
pub const SECTOR: u32 = 0x800;

/// A file entry as a value.
pub struct DataFileV {
    pub name_offset: u32,
    pub name: Seq<char>,
    pub unk: u32,
    pub offset: u32,
    pub size: u32,
}

/// A folder entry as a value.
pub struct FolderV {
    pub name_offset: u32,
    pub name: Seq<char>,
    pub index: u32,
    pub file_count: u32,
    pub files: Seq<DataFileV>,
}

/// An archive table as a value.
pub struct DataInfoV {
    pub name: Seq<char>,
    pub name_offset: u32,
    pub folder_count: u32,
    pub folders_offset: u32,
    pub unk: u32,
    pub file_count: u32,
    pub files_offset: u32,
    pub folders: Seq<FolderV>,
}

/// An address made an offset into the executable; `None` below the base.
pub open spec fn unbased(v: u32) -> Option<u32> {
    if v >= 0xFFF80 {
        Some((v - 0xFFF80) as u32)
    } else {
        None
    }
}

/// The zero-terminated name at `off`.
pub open spec fn name_at(b: Seq<u8>, off: int) -> Option<Seq<char>> {
    if 0 <= off && zero_from(b, off) < b.len() {
        Some(shift_jis_decoded(b.subrange(off, zero_from(b, off))))
    } else {
        None
    }
}

/// The file entry number `index + i` of the file table at `files_offset`.
pub open spec fn parse_file(b: Seq<u8>, files_offset: u32, index: u32, i: int) -> Option<DataFileV> {
    let k = index + i;
    if k > u32::MAX || k * 16 > u32::MAX {
        None
    } else {
        let p = files_offset + k * 16;
        if p + 16 > b.len() {
            None
        } else {
            match unbased(u32_at(b, p)) {
                None => None,
                Some(name_offset) => match name_at(b, name_offset as int) {
                    None => None,
                    Some(name) => {
                        let offset = u32_at(b, p + 8) * 0x800;
                        let size = u32_at(b, p + 12) * 0x800;
                        if offset > u32::MAX || size > u32::MAX {
                            None
                        } else {
                            Some(
                                DataFileV {
                                    name_offset,
                                    name,
                                    unk: u32_at(b, p + 4),
                                    offset: offset as u32,
                                    size: size as u32,
                                },
                            )
                        }
                    },
                },
            }
        }
    }
}

/// The file entries `index + i` up to `index + count - 1`.
pub open spec fn parse_files(b: Seq<u8>, files_offset: u32, index: u32, i: int, count: int) -> Option<
    Seq<DataFileV>,
>
    decreases count - i,
{
    if i >= count {
        Some(Seq::empty())
    } else {
        match parse_file(b, files_offset, index, i) {
            None => None,
            Some(f) => match parse_files(b, files_offset, index, i + 1, count) {
                None => None,
                Some(r) => Some(seq![f] + r),
            },
        }
    }
}

/// `count` folder entries at `p` (without their files). Each folder records
/// the name offset of the whole table (not its own).
pub open spec fn parse_folders(b: Seq<u8>, p: int, count: int, table_name_offset: u32) -> Option<
    Seq<FolderV>,
>
    decreases count,
{
    if count <= 0 {
        Some(Seq::empty())
    } else if p + 12 > b.len() {
        None
    } else {
        match unbased(u32_at(b, p)) {
            None => None,
            Some(fno) => match name_at(b, fno as int) {
                None => None,
                Some(name) => match parse_folders(b, p + 12, count - 1, table_name_offset) {
                    None => None,
                    Some(r) => Some(
                        seq![
                            FolderV {
                                name_offset: table_name_offset,
                                name,
                                index: u32_at(b, p + 4),
                                file_count: u32_at(b, p + 8),
                                files: Seq::empty(),
                            },
                        ] + r,
                    ),
                },
            },
        }
    }
}

/// The folders with their files filled in from the file table.
pub open spec fn fill_folders(b: Seq<u8>, files_offset: u32, fs: Seq<FolderV>) -> Option<Seq<FolderV>>
    decreases fs.len(),
{
    if fs.len() == 0 {
        Some(Seq::empty())
    } else {
        let f = fs[0];
        match parse_files(b, files_offset, f.index, 0, f.file_count as int) {
            None => None,
            Some(files) => match fill_folders(b, files_offset, fs.drop_first()) {
                None => None,
                Some(r) => Some(seq![FolderV { files, ..f }] + r),
            },
        }
    }
}

/// The archive table at `offset`; `None` where the reader runs
/// past the end, an address lies below the load base, or a sector count
/// overflows.
pub open spec fn parse_data_info(b: Seq<u8>, offset: u32) -> Option<DataInfoV> {
    let p = offset as int;
    if p + 24 > b.len() {
        None
    } else {
        match (unbased(u32_at(b, p)), unbased(u32_at(b, p + 8)), unbased(u32_at(b, p + 20))) {
            (Some(name_offset), Some(folders_offset), Some(files_offset)) => match name_at(
                b,
                name_offset as int,
            ) {
                None => None,
                Some(name) => match parse_folders(
                    b,
                    folders_offset as int,
                    u32_at(b, p + 4) as int,
                    name_offset,
                ) {
                    None => None,
                    Some(heads) => match fill_folders(b, files_offset, heads) {
                        None => None,
                        Some(folders) => Some(
                            DataInfoV {
                                name,
                                name_offset,
                                folder_count: u32_at(b, p + 4),
                                folders_offset,
                                unk: u32_at(b, p + 12),
                                file_count: u32_at(b, p + 16),
                                files_offset,
                                folders,
                            },
                        ),
                    },
                },
            },
            _ => None,
        }
    }
}

/// A file entry of an archive table.
#[derive(Debug, PartialEq, Eq)]
pub struct DataFile {
    pub name_offset: u32,
    pub name: String,
    pub unk: u32,
    pub offset: u32,
    pub size: u32,
}

impl View for DataFile {
    type V = DataFileV;

    open spec fn view(&self) -> DataFileV {
        DataFileV {
            name_offset: self.name_offset,
            name: self.name@,
            unk: self.unk,
            offset: self.offset,
            size: self.size,
        }
    }
}

/// A folder entry of an archive table, with its files.
#[derive(Debug, PartialEq, Eq)]
pub struct Folder {
    pub name_offset: u32,
    pub name: String,
    pub index: u32,
    pub file_count: u32,
    pub files: Vec<DataFile>,
}

/// The values of file entries.
pub open spec fn files_view(s: Seq<DataFile>) -> Seq<DataFileV> {
    s.map_values(|f: DataFile| f@)
}

impl View for Folder {
    type V = FolderV;

    open spec fn view(&self) -> FolderV {
        FolderV {
            name_offset: self.name_offset,
            name: self.name@,
            index: self.index,
            file_count: self.file_count,
            files: files_view(self.files@),
        }
    }
}

/// The values of folder entries.
pub open spec fn folders_view(s: Seq<Folder>) -> Seq<FolderV> {
    s.map_values(|f: Folder| f@)
}

/// An archive table.
#[derive(Debug, PartialEq, Eq)]
pub struct DataInfo {
    pub name: String,
    pub name_offset: u32,
    pub folder_count: u32,
    pub folders_offset: u32,
    pub unk: u32,
    pub file_count: u32,
    pub files_offset: u32,
    pub folders: Vec<Folder>,
}

impl View for DataInfo {
    type V = DataInfoV;

    open spec fn view(&self) -> DataInfoV {
        DataInfoV {
            name: self.name@,
            name_offset: self.name_offset,
            folder_count: self.folder_count,
            folders_offset: self.folders_offset,
            unk: self.unk,
            file_count: self.file_count,
            files_offset: self.files_offset,
            folders: folders_view(self.folders@),
        }
    }
}

/// Why an archive table could not be read or written.
#[derive(Debug, PartialEq, Eq)]
pub enum ArchiveError {
    /// The executable ends inside a table or a name, an address lies below
    /// the load base, or a sector count or index overflows.
    Malformed,
    /// A table entry cannot be written back (an address or a position
    /// overflows).
    Overflow,
}

fn read_u32_at(r: &mut ByteCursor, p: usize) -> (v: Option<u32>)
    requires
        old(r).pos() <= old(r).bytes().len(),
    ensures
        final(r).bytes() == old(r).bytes(),
        final(r).pos() <= final(r).bytes().len(),
        match v {
            Some(x) => p + 4 <= old(r).bytes().len() && x == u32_at(old(r).bytes(), p as int)
                && final(r).pos() == p + 4,
            None => p + 4 > old(r).bytes().len(),
        },
{
    let l = r.len();
    if p > l || l - p < 4 {
        return None;
    }
    r.seek(p);
    Some(r.read_u32())
}

fn unbased_exec(v: u32) -> (r: Option<u32>)
    ensures
        r == unbased(v),
{
    if v >= LOAD_BASE {
        Some(v - LOAD_BASE)
    } else {
        None
    }
}

fn name_at_exec(r: &mut ByteCursor, off: u32) -> (res: Option<String>)
    ensures
        final(r).bytes() == old(r).bytes(),
        final(r).pos() == old(r).pos(),
        match res {
            Some(s) => name_at(old(r).bytes(), off as int) == Some(s@),
            None => name_at(old(r).bytes(), off as int) is None,
        },
{
    let l = r.len();
    if off as u64 >= l as u64 {
        return None;
    }
    match r.terminator_from(off as usize) {
        None => None,
        Some(_) => Some(r.get_shift_jis(off as u64)),
    }
}

fn read_file(r: &mut ByteCursor, files_offset: u32, index: u32, i: u32) -> (res: Option<DataFile>)
    requires
        old(r).pos() <= old(r).bytes().len(),
    ensures
        final(r).bytes() == old(r).bytes(),
        final(r).pos() <= final(r).bytes().len(),
        match res {
            Some(f) => parse_file(old(r).bytes(), files_offset, index, i as int) == Some(f@),
            None => parse_file(old(r).bytes(), files_offset, index, i as int) is None,
        },
{
    if index > 0xFFFF_FFFF - i {
        return None;
    }
    let k = index + i;
    if k > 0xFFFF_FFFF / 16 {
        return None;
    }
    let pos = files_offset as u64 + (k * 16) as u64;
    if pos >= r.len() as u64 {
        return None;
    }
    let p = pos as usize;
    let raw_name = match read_u32_at(r, p) {
        None => {
            return None;
        },
        Some(v) => v,
    };
    let l = r.len();
    if l - p < 16 {
        return None;
    }
    let name_offset = match unbased_exec(raw_name) {
        None => {
            return None;
        },
        Some(v) => v,
    };
    let name = match name_at_exec(r, name_offset) {
        None => {
            return None;
        },
        Some(s) => s,
    };
    let unk = r.read_u32();
    let offset = r.read_u32();
    let size = r.read_u32();
    if offset > 0xFFFF_FFFF / 0x800 || size > 0xFFFF_FFFF / 0x800 {
        return None;
    }
    Some(DataFile { name_offset, name, unk, offset: offset * SECTOR, size: size * SECTOR })
}

fn read_files(r: &mut ByteCursor, files_offset: u32, index: u32, count: u32) -> (res: Option<
    Vec<DataFile>,
>)
    requires
        old(r).pos() <= old(r).bytes().len(),
    ensures
        final(r).bytes() == old(r).bytes(),
        final(r).pos() <= final(r).bytes().len(),
        match res {
            Some(fs) => parse_files(old(r).bytes(), files_offset, index, 0, count as int) == Some(
                files_view(fs@),
            ),
            None => parse_files(old(r).bytes(), files_offset, index, 0, count as int) is None,
        },
{
    let ghost b = r.bytes();
    let mut files: Vec<DataFile> = Vec::new();
    let mut i: u32 = 0;
    assert(files_view(files@) + Seq::<DataFileV>::empty() =~= files_view(files@));
    while i < count
        invariant
            i <= count,
            b == old(r).bytes(),
            r.bytes() == b,
            r.pos() <= b.len(),
            match parse_files(b, files_offset, index, i as int, count as int) {
                Some(rest) => parse_files(b, files_offset, index, 0, count as int) == Some(
                    files_view(files@) + rest,
                ),
                None => parse_files(b, files_offset, index, 0, count as int) is None,
            },
        decreases count - i,
    {
        let f = match read_file(r, files_offset, index, i) {
            None => {
                return None;
            },
            Some(f) => f,
        };
        let ghost before = files_view(files@);
        let ghost fv = f@;
        files.push(f);
        assert(files_view(files@) =~= before.push(fv));
        assert forall|rest: Seq<DataFileV>| #![auto] before + (seq![fv] + rest) == files_view(files@) + rest by {
            assert(before + (seq![fv] + rest) =~= files_view(files@) + rest);
        }
        i = i + 1;
    }
    assert(files_view(files@) + Seq::<DataFileV>::empty() =~= files_view(files@));
    Some(files)
}

impl DataInfo {
    /// Reads the archive table at `offset` of the executable image `buffer`.
    /// `Err` exactly where the table cannot be read: the table read is
    /// `parse_data_info` of the bytes.
    pub fn new(buffer: &[u8], offset: u32) -> (res: Result<DataInfo, ArchiveError>)
        ensures
            match res {
                Ok(d) => parse_data_info(buffer@, offset) == Some(d@),
                Err(_) => parse_data_info(buffer@, offset) is None,
            },
    {
        let ghost b = buffer@;
        let mut r = ByteCursor::from_slice(buffer);
        let l = r.len();
        if offset as u64 > l as u64 || l - (offset as usize) < 24 {
            return Err(ArchiveError::Malformed);
        }
        let p = offset as usize;
        r.seek(p);
        let raw_name = r.read_u32();
        let folder_count = r.read_u32();
        let raw_folders = r.read_u32();
        let unk = r.read_u32();
        let file_count = r.read_u32();
        let raw_files = r.read_u32();
        let (name_offset, folders_offset, files_offset) = match (
            unbased_exec(raw_name),
            unbased_exec(raw_folders),
            unbased_exec(raw_files),
        ) {
            (Some(a), Some(c), Some(d)) => (a, c, d),
            _ => {
                return Err(ArchiveError::Malformed);
            },
        };
        let name = match name_at_exec(&mut r, name_offset) {
            None => {
                return Err(ArchiveError::Malformed);
            },
            Some(s) => s,
        };
        // The folder entries.
        let mut heads: Vec<Folder> = Vec::new();
        let mut q: u64 = folders_offset as u64;
        let mut k: u32 = 0;
        assert(folders_view(heads@) + Seq::<FolderV>::empty() =~= folders_view(heads@));
        while k < folder_count
            invariant
                k <= folder_count,
                b == buffer@,
                offset + 24 <= b.len(),
                unbased(u32_at(b, offset as int)) == Some(name_offset),
                unbased(u32_at(b, offset + 8)) == Some(folders_offset),
                unbased(u32_at(b, offset + 20)) == Some(files_offset),
                name_at(b, name_offset as int) == Some(name@),
                folder_count == u32_at(b, offset + 4),
                unk == u32_at(b, offset + 12),
                file_count == u32_at(b, offset + 16),

                r.bytes() == b,
                r.pos() <= b.len(),
                q == folders_offset + 12 * k,
                forall|j: int| 0 <= j < heads@.len() ==> (#[trigger] heads@[j]).files@.len() == 0,
                match parse_folders(b, q as int, folder_count - k, name_offset) {
                    Some(rest) => parse_folders(b, folders_offset as int, folder_count as int, name_offset)
                        == Some(folders_view(heads@) + rest),
                    None => parse_folders(b, folders_offset as int, folder_count as int, name_offset) is None,
                },
            decreases folder_count - k,
        {
            if q >= r.len() as u64 || r.len() - (q as usize) < 12 {
                return Err(ArchiveError::Malformed);
            }
            let qp = q as usize;
            r.seek(qp);
            let raw = r.read_u32();
            let index = r.read_u32();
            let count = r.read_u32();
            let fno = match unbased_exec(raw) {
                None => {
                    return Err(ArchiveError::Malformed);
                },
                Some(v) => v,
            };
            let fname = match name_at_exec(&mut r, fno) {
                None => {
                    return Err(ArchiveError::Malformed);
                },
                Some(s) => s,
            };
            let ghost before = folders_view(heads@);
            let folder = Folder {
                name_offset,
                name: fname,
                index,
                file_count: count,
                files: Vec::new(),
            };
            let ghost fv = folder@;
            assert(folder.files@ =~= Seq::<DataFile>::empty());
            assert(files_view(folder.files@) =~= Seq::<DataFileV>::empty());
            heads.push(folder);
            assert(folders_view(heads@) =~= before.push(fv));
            assert forall|rest: Seq<FolderV>| #![auto] before + (seq![fv] + rest) == folders_view(heads@) + rest by {
                assert(before + (seq![fv] + rest) =~= folders_view(heads@) + rest);
            }
            q = q + 12;
            k = k + 1;
        }
        assert(folders_view(heads@) + Seq::<FolderV>::empty() =~= folders_view(heads@));
        let ghost hv = folders_view(heads@);
        // The files of each folder.
        let mut folders: Vec<Folder> = Vec::new();
        let mut heads = heads;
        let mut i: usize = 0;
        let n = heads.len();
        assert(hv.skip(0) =~= hv);
        assert(folders_view(folders@) + Seq::<FolderV>::empty() =~= folders_view(folders@));
        while i < n
            invariant
                i <= n,
                n == heads@.len(),
                hv == folders_view(heads@),
                b == buffer@,
                parse_folders(b, folders_offset as int, folder_count as int, name_offset) == Some(hv),
                offset + 24 <= b.len(),
                unbased(u32_at(b, offset as int)) == Some(name_offset),
                unbased(u32_at(b, offset + 8)) == Some(folders_offset),
                unbased(u32_at(b, offset + 20)) == Some(files_offset),
                name_at(b, name_offset as int) == Some(name@),
                folder_count == u32_at(b, offset + 4),
                unk == u32_at(b, offset + 12),
                file_count == u32_at(b, offset + 16),

                r.bytes() == b,
                r.pos() <= b.len(),
                match fill_folders(b, files_offset, hv.skip(i as int)) {
                    Some(rest) => fill_folders(b, files_offset, hv) == Some(folders_view(folders@) + rest),
                    None => fill_folders(b, files_offset, hv) is None,
                },
            decreases n - i,
        {
            assert(hv.skip(i as int)[0] == heads@[i as int]@);
            assert(hv.skip(i as int).drop_first() =~= hv.skip(i + 1));
            let index = heads[i].index;
            let count = heads[i].file_count;
            let files = match read_files(&mut r, files_offset, index, count) {
                None => {
                    return Err(ArchiveError::Malformed);
                },
                Some(fs) => fs,
            };
            let h = &heads[i];
            let folder = Folder {
                name_offset: h.name_offset,
                name: h.name.clone(),
                index: h.index,
                file_count: h.file_count,
                files,
            };
            let ghost before = folders_view(folders@);
            let ghost fv = folder@;
            assert(fv == FolderV { files: files_view(folder.files@), ..hv[i as int] });
            folders.push(folder);
            assert(folders_view(folders@) =~= before.push(fv));
            assert forall|rest: Seq<FolderV>| #![auto] before + (seq![fv] + rest) == folders_view(folders@) + rest by {
                assert(before + (seq![fv] + rest) =~= folders_view(folders@) + rest);
            }
            i = i + 1;
        }
        assert(hv.skip(n as int) =~= Seq::<FolderV>::empty());
        assert(folders_view(folders@) + Seq::<FolderV>::empty() =~= folders_view(folders@));
        Ok(
            DataInfo {
                name,
                name_offset,
                folder_count,
                folders_offset,
                unk,
                file_count,
                files_offset,
                folders,
            },
        )
    }
}


/// The archive tables at the given offsets of the executable.
pub open spec fn parse_ysv(b: Seq<u8>, offsets: Seq<u32>) -> Option<Seq<DataInfoV>>
    decreases offsets.len(),
{
    if offsets.len() == 0 {
        Some(Seq::empty())
    } else {
        match parse_data_info(b, offsets[0]) {
            None => None,
            Some(d) => match parse_ysv(b, offsets.drop_first()) {
                None => None,
                Some(r) => Some(seq![d] + r),
            },
        }
    }
}

/// The values of archive tables.
pub open spec fn data_view(s: Seq<DataInfo>) -> Seq<DataInfoV> {
    s.map_values(|d: DataInfo| d@)
}

/// The archive tables of the executable.
#[derive(Debug, PartialEq, Eq)]
pub struct Ysv {
    pub data_list: Vec<DataInfo>,
}

impl View for Ysv {
    type V = Seq<DataInfoV>;

    open spec fn view(&self) -> Seq<DataInfoV> {
        data_view(self.data_list@)
    }
}

/// The file entries of the folders, folder after folder.
pub open spec fn entries_of(fs: Seq<FolderV>) -> Seq<DataFileV>
    decreases fs.len(),
{
    if fs.len() == 0 {
        Seq::empty()
    } else {
        entries_of(fs.drop_last()) + fs.last().files
    }
}

/// The sum of the first `k` lengths.
pub open spec fn sum_lens(lens: Seq<usize>, k: int) -> int
    decreases k,
{
    if k <= 0 {
        0
    } else {
        sum_lens(lens, k - 1) + lens[k - 1]
    }
}

/// A file entry as it is written back: the name address, the unknown word,
/// and the position and length of the new file in whole sectors (rounded
/// down, cut to 32 bits).
pub open spec fn entry_bytes(f: DataFileV, start: int, len: int) -> Seq<u8> {
    le32((f.name_offset + 0xFFF80) as u32) + le32(f.unk) + le32(((start / 0x800) % 0x1_0000_0000) as u32)
        + le32(((len / 0x800) % 0x1_0000_0000) as u32)
}

/// The executable after writing back the first `k` file entries of a table
/// whose file table is at `base`, the new files having the lengths `lens`
/// and being stored one after the other. `None` where the name address or a
/// position overflows.
pub open spec fn table_writes(
    elf: Seq<u8>,
    base: int,
    es: Seq<DataFileV>,
    lens: Seq<usize>,
    k: nat,
) -> Option<Seq<u8>>
    decreases k,
{
    if k == 0 {
        Some(elf)
    } else {
        match table_writes(elf, base, es, lens, (k - 1) as nat) {
            None => None,
            Some(b) => {
                let e = es[k - 1];
                let p = base + 16 * (k - 1);
                if e.name_offset + 0xFFF80 > u32::MAX || p + 16 > usize::MAX || sum_lens(lens, k as int)
                    > u64::MAX {
                    None
                } else {
                    Some(write_at(b, p, entry_bytes(e, sum_lens(lens, k - 1), lens[k - 1] as int)))
                }
            },
        }
    }
}

/// The executable after writing back the file tables of all archives, in
/// order.
pub open spec fn repack_image(elf: Seq<u8>, ds: Seq<DataInfoV>, lens: Seq<Seq<usize>>) -> Option<Seq<u8>>
    decreases ds.len(),
{
    if ds.len() == 0 {
        Some(elf)
    } else {
        match repack_image(elf, ds.drop_last(), lens.drop_last()) {
            None => None,
            Some(b) => {
                let d = ds.last();
                let es = entries_of(d.folders);
                table_writes(b, d.files_offset as int, es, lens.last(), es.len())
            },
        }
    }
}

/// The values of lists of lengths.
pub open spec fn lens_view(s: Seq<Vec<usize>>) -> Seq<Seq<usize>> {
    s.map_values(|v: Vec<usize>| v@)
}

proof fn lemma_entries_prefix(fs: Seq<FolderV>, i: int)
    requires
        0 <= i <= fs.len(),
    ensures
        entries_of(fs.take(i)).len() <= entries_of(fs).len(),
        entries_of(fs).take(entries_of(fs.take(i)).len() as int) == entries_of(fs.take(i)),
    decreases fs.len() - i,
{
    if i < fs.len() {
        lemma_entries_prefix(fs, i + 1);
        assert(fs.take(i + 1).drop_last() =~= fs.take(i));
        let a = entries_of(fs.take(i));
        let c = entries_of(fs.take(i + 1));
        assert(c == a + fs[i].files);
        assert(entries_of(fs).take(a.len() as int) =~= c.take(a.len() as int));
        assert(c.take(a.len() as int) =~= a);
    } else {
        assert(fs.take(i) =~= fs);
        assert(entries_of(fs).take(entries_of(fs).len() as int) =~= entries_of(fs));
    }
}

proof fn lemma_table_writes_none(elf: Seq<u8>, base: int, es: Seq<DataFileV>, lens: Seq<usize>, k: nat, k2: nat)
    requires
        k <= k2,
        table_writes(elf, base, es, lens, k) is None,
    ensures
        table_writes(elf, base, es, lens, k2) is None,
    decreases k2,
{
    if k2 > k {
        lemma_table_writes_none(elf, base, es, lens, k, (k2 - 1) as nat);
    }
}

/// Writing back a file table changes only the bytes of its entries: every
/// other byte of the executable keeps its value; and each entry reads back
/// as written (the name address, the unknown word, the new position and
/// the new size in sectors).
pub proof fn lemma_table_writes_local(elf: Seq<u8>, base: int, es: Seq<DataFileV>, lens: Seq<usize>, k: nat)
    requires
        0 <= base,
        k <= es.len(),
        k <= lens.len(),
    ensures
        table_writes(elf, base, es, lens, k) matches Some(r) ==> {
            &&& r.len() >= elf.len()
            &&& forall|i: int|
                0 <= i < elf.len() && (i < base || i >= base + 16 * k) ==> #[trigger] r[i] == elf[i]
            &&& forall|j: int|
                0 <= j < k ==> #[trigger] r.subrange(base + 16 * j, base + 16 * j + 16) == entry_bytes(
                    es[j],
                    sum_lens(lens, j),
                    lens[j] as int,
                )
        },
    decreases k,
{
    if k > 0 {
        lemma_table_writes_local(elf, base, es, lens, (k - 1) as nat);
        if let Some(r) = table_writes(elf, base, es, lens, k) {
            let prev = table_writes(elf, base, es, lens, (k - 1) as nat)->0;
            let p = base + 16 * (k - 1);
            let d = entry_bytes(es[k - 1], sum_lens(lens, k - 1), lens[k - 1] as int);
            crate::cursor::lemma_write_at_bytes(prev, p, d);
            assert(r == write_at(prev, p, d));
            assert forall|j: int| 0 <= j < k implies #[trigger] r.subrange(base + 16 * j, base + 16 * j + 16)
                == entry_bytes(es[j], sum_lens(lens, j), lens[j] as int) by {
                if j < k - 1 {
                    let old_entry = prev.subrange(base + 16 * j, base + 16 * j + 16);
                    assert(old_entry == entry_bytes(es[j], sum_lens(lens, j), lens[j] as int));
                    assert(r.subrange(base + 16 * j, base + 16 * j + 16) =~= old_entry) by {
                        let rs = r.subrange(base + 16 * j, base + 16 * j + 16);
                        assert forall|x: int| 0 <= x < 16 implies #[trigger] rs[x] == old_entry[x] by {
                            assert(base + 16 * j + x < p);
                            assert(rs[x] == r[base + 16 * j + x]);
                            assert(old_entry[x] == prev[base + 16 * j + x]);
                        }
                    }
                } else {
                    assert(d.len() == 16);
                    assert(r.subrange(base + 16 * j, base + 16 * j + 16) =~= d) by {
                        let rs = r.subrange(base + 16 * j, base + 16 * j + 16);
                        assert forall|x: int| 0 <= x < 16 implies #[trigger] rs[x] == d[x] by {
                            assert(rs[x] == r[p + x]);
                        }
                    }
                }
            }
        }
    }
}

/// Writes back the file table of one archive into `elf`.
#[verifier::rlimit(50)]
fn patch_table(elf: &mut ByteCursor, d: &DataInfo, lens: &Vec<usize>) -> (ok: bool)
    requires
        lens@.len() == entries_of(d@.folders).len(),
    ensures
        ok ==> table_writes(
            old(elf).bytes(),
            d.files_offset as int,
            entries_of(d@.folders),
            lens@,
            entries_of(d@.folders).len(),
        ) == Some(final(elf).bytes()),
        !ok ==> table_writes(
            old(elf).bytes(),
            d.files_offset as int,
            entries_of(d@.folders),
            lens@,
            entries_of(d@.folders).len(),
        ) is None,
{
    let ghost b0 = elf.bytes();
    let ghost fs = d@.folders;
    let ghost es = entries_of(fs);
    let base = d.files_offset as usize;
    elf.seek(base);
    let mut k: usize = 0;
    let mut acc: u64 = 0;
    let mut fi: usize = 0;
    assert(fs.take(0) =~= Seq::<FolderV>::empty());
    while fi < d.folders.len()
        invariant
            fi <= d.folders@.len(),
            fs == d@.folders,
            es == entries_of(fs),
            b0 == old(elf).bytes(),
            lens@.len() == es.len(),
            base == d.files_offset,
            k == entries_of(fs.take(fi as int)).len(),
            acc == sum_lens(lens@, k as int),
            elf.pos() == base + 16 * k,
            table_writes(b0, base as int, es, lens@, k as nat) == Some(elf.bytes()),
        decreases d.folders@.len() - fi,
    {
        proof {
            lemma_entries_prefix(fs, fi + 1);
            assert(fs.take(fi + 1).drop_last() =~= fs.take(fi as int));
            assert(fs[fi as int] == d.folders@[fi as int]@);
        }
        let folder = &d.folders[fi];
        let ghost files = fs[fi as int].files;
        let mut j: usize = 0;
        while j < folder.files.len()
            invariant
                j <= folder.files@.len(),
                files == files_view(folder.files@),
                fs == d@.folders,
                es == entries_of(fs),
                b0 == old(elf).bytes(),
                lens@.len() == es.len(),
                base == d.files_offset,
                fi < fs.len(),
                entries_of(fs.take(fi + 1)) == entries_of(fs.take(fi as int)) + files,
                es.take(entries_of(fs.take(fi + 1)).len() as int) == entries_of(fs.take(fi + 1)),
                entries_of(fs.take(fi + 1)).len() <= es.len(),
                k == entries_of(fs.take(fi as int)).len() + j,
                acc == sum_lens(lens@, k as int),
                elf.pos() == base + 16 * k,
                table_writes(b0, base as int, es, lens@, k as nat) == Some(elf.bytes()),
            decreases folder.files@.len() - j,
        {
            let f = &folder.files[j];
            proof {
                assert(es[k as int] == es.take(entries_of(fs.take(fi + 1)).len() as int)[k as int]);
                assert(es[k as int] == files[j as int]);
                assert(files[j as int] == f@);
            }
            let len = lens[k];
            if f.name_offset > 0xFFFF_FFFF - LOAD_BASE || elf.position() > usize::MAX - 16 || len as u64
                > 0xFFFF_FFFF_FFFF_FFFF - acc {
                proof {
                    lemma_table_writes_none(b0, base as int, es, lens@, (k + 1) as nat, es.len());
                }
                return false;
            }
            let ghost bk = elf.bytes();
            let ghost p = elf.pos();
            let w0 = f.name_offset + LOAD_BASE;
            let w2 = ((acc / 0x800) % 0x1_0000_0000) as u32;
            let w3 = ((len as u64 / 0x800) % 0x1_0000_0000) as u32;
            elf.write_v(w0);
            elf.write_v(f.unk);
            elf.write_v(w2);
            elf.write_v(w3);
            proof {
                crate::cursor::lemma_write_at_extend(bk, p, le32(w0), le32(f.unk));
                crate::cursor::lemma_write_at_extend(bk, p, le32(w0) + le32(f.unk), le32(w2));
                crate::cursor::lemma_write_at_extend(bk, p, le32(w0) + le32(f.unk) + le32(w2), le32(w3));
                assert(le32(w0) + le32(f.unk) + le32(w2) + le32(w3) == entry_bytes(f@, acc as int, len as int));
            }
            acc = acc + len as u64;
            k = k + 1;
            j = j + 1;
        }
        assert(files.take(j as int) =~= files);
        fi = fi + 1;
    }
    assert(fs.take(fs.len() as int) =~= fs);
    true
}

impl Ysv {
    /// Reads the archive tables at `offsets` of the executable image.
    /// `Err` exactly where one of them cannot be read.
    pub fn new(buffer: &Vec<u8>, offsets: [u32; 3]) -> (res: Result<Ysv, ArchiveError>)
        ensures
            match res {
                Ok(y) => parse_ysv(buffer@, offsets@) == Some(y@),
                Err(_) => parse_ysv(buffer@, offsets@) is None,
            },
    {
        let mut data_list: Vec<DataInfo> = Vec::new();
        let mut i: usize = 0;
        assert(offsets@.skip(0) =~= offsets@);
        assert(data_view(data_list@) + Seq::<DataInfoV>::empty() =~= data_view(data_list@));
        while i < 3
            invariant
                i <= 3,
                offsets@.len() == 3,
                match parse_ysv(buffer@, offsets@.skip(i as int)) {
                    Some(rest) => parse_ysv(buffer@, offsets@) == Some(data_view(data_list@) + rest),
                    None => parse_ysv(buffer@, offsets@) is None,
                },
            decreases 3 - i,
        {
            assert(offsets@.skip(i as int)[0] == offsets@[i as int]);
            assert(offsets@.skip(i as int).drop_first() =~= offsets@.skip(i + 1));
            let d = match DataInfo::new(buffer.as_slice(), offsets[i]) {
                Err(e) => {
                    return Err(e);
                },
                Ok(d) => d,
            };
            let ghost before = data_view(data_list@);
            let ghost dv = d@;
            data_list.push(d);
            assert(data_view(data_list@) =~= before.push(dv));
            assert forall|rest: Seq<DataInfoV>| #![auto] before + (seq![dv] + rest) == data_view(data_list@) + rest by {
                assert(before + (seq![dv] + rest) =~= data_view(data_list@) + rest);
            }
            i = i + 1;
        }
        assert(offsets@.skip(3) =~= Seq::<u32>::empty());
        assert(data_view(data_list@) + Seq::<DataInfoV>::empty() =~= data_view(data_list@));
        Ok(Ysv { data_list })
    }

    /// Writes back the file tables for new archive contents: `lens[d][k]` is
    /// the length of the `k`-th file (folder after folder) of archive `d`,
    /// the files of an archive being stored one after the other from its
    /// start. The result is `repack_image` of the executable; `Err` exactly
    /// where that is `None`.
    pub fn repack(&self, elf: Vec<u8>, lens: &Vec<Vec<usize>>) -> (res: Result<Vec<u8>, ArchiveError>)
        requires
            lens@.len() == self.data_list@.len(),
            forall|d: int|
                0 <= d < lens@.len() ==> (#[trigger] lens@[d])@.len() == entries_of(
                    self.data_list@[d]@.folders,
                ).len(),
        ensures
            match res {
                Ok(v) => repack_image(elf@, self@, lens_view(lens@)) == Some(v@),
                Err(_) => repack_image(elf@, self@, lens_view(lens@)) is None,
            },
    {
        let ghost ds = self@;
        let ghost lv = lens_view(lens@);
        let mut cur = ByteCursor::new(elf);
        let mut i: usize = 0;
        assert(ds.take(0) =~= Seq::<DataInfoV>::empty());
        assert(lv.take(0) =~= Seq::<Seq<usize>>::empty());
        while i < self.data_list.len()
            invariant
                i <= self.data_list@.len(),
                ds == self@,
                lv == lens_view(lens@),
                lens@.len() == self.data_list@.len(),
                forall|d: int|
                    0 <= d < lens@.len() ==> (#[trigger] lens@[d])@.len() == entries_of(
                        self.data_list@[d]@.folders,
                    ).len(),
                repack_image(elf@, ds.take(i as int), lv.take(i as int)) == Some(cur.bytes()),
            decreases self.data_list@.len() - i,
        {
            assert(ds.take(i + 1).drop_last() =~= ds.take(i as int));
            assert(lv.take(i + 1).drop_last() =~= lv.take(i as int));
            assert(ds.take(i + 1).last() == self.data_list@[i as int]@);
            assert(lv.take(i + 1).last() == lens@[i as int]@);
            if !patch_table(&mut cur, &self.data_list[i], &lens[i]) {
                proof {
                    lemma_repack_none(elf@, ds, lv, i + 1);
                }
                return Err(ArchiveError::Overflow);
            }
            i = i + 1;
        }
        assert(ds.take(ds.len() as int) =~= ds);
        assert(lv.take(lv.len() as int) =~= lv);
        Ok(cur.into_bytes())
    }
}

proof fn lemma_repack_none(elf: Seq<u8>, ds: Seq<DataInfoV>, lv: Seq<Seq<usize>>, i: int)
    requires
        0 <= i <= ds.len(),
        ds.len() == lv.len(),
        repack_image(elf, ds.take(i), lv.take(i)) is None,
    ensures
        repack_image(elf, ds, lv) is None,
    decreases ds.len() - i,
{
    if i < ds.len() {
        assert(ds.take(i + 1).drop_last() =~= ds.take(i));
        assert(lv.take(i + 1).drop_last() =~= lv.take(i));
        lemma_repack_none(elf, ds, lv, i + 1);
    } else {
        assert(ds.take(i) =~= ds);
        assert(lv.take(i) =~= lv);
    }
}


/// File entry `e`, the `j`-th of its table at `base`, is written back as the
/// bytes that are already there, with no overflow on the way.
pub open spec fn entry_restores(elf: Seq<u8>, base: int, e: DataFileV, lens: Seq<usize>, j: int) -> bool {
    &&& 0 <= base
    &&& base + 16 * j + 16 <= elf.len()
    &&& j < lens.len()
    &&& e.name_offset + 0xFFF80 <= u32::MAX
    &&& sum_lens(lens, j + 1) <= u64::MAX
    &&& entry_bytes(e, sum_lens(lens, j), lens[j] as int) == elf.subrange(base + 16 * j, base + 16 * j + 16)
}

proof fn lemma_file_restores(b: Seq<u8>, fo: u32, idx: u32, i: int, f: DataFileV, lens: Seq<usize>, j: int)
    requires
        0 <= i,
        parse_file(b, fo, idx, i) == Some(f),
        j == idx + i,
        j < lens.len(),
        lens[j] == f.size,
        f.offset == sum_lens(lens, j),
    ensures
        entry_restores(b, fo as int, f, lens, j),
{
    let p = fo + j * 16;
    assert(p + 16 <= b.len());
    let w0 = u32_at(b, p);
    let w2 = u32_at(b, p + 8);
    let w3 = u32_at(b, p + 12);
    assert(f.name_offset + 0xFFF80 == w0);
    assert(f.offset == w2 * 0x800);
    assert(f.size == w3 * 0x800);
    assert(f.offset / 0x800 == w2);
    assert(f.size / 0x800 == w3);
    crate::cursor::lemma_le32_u32_at(b, p);
    crate::cursor::lemma_le32_u32_at(b, p + 4);
    crate::cursor::lemma_le32_u32_at(b, p + 8);
    crate::cursor::lemma_le32_u32_at(b, p + 12);
    assert(((f.name_offset + 0xFFF80) as u32) == w0);
    assert(((f.offset as int / 0x800) % 0x1_0000_0000) as u32 == w2);
    assert(((f.size as int / 0x800) % 0x1_0000_0000) as u32 == w3);
    assert(entry_bytes(f, sum_lens(lens, j), lens[j] as int) =~= b.subrange(p, p + 16));
    assert(fo as int + 16 * j == p);
}


proof fn lemma_table_writes_same(elf: Seq<u8>, base: int, es: Seq<DataFileV>, lens: Seq<usize>, k: nat)
    requires
        k <= es.len(),
        elf.len() <= usize::MAX,
        forall|j: int| 0 <= j < k ==> entry_restores(elf, base, #[trigger] es[j], lens, j),
    ensures
        table_writes(elf, base, es, lens, k) == Some(elf),
    decreases k,
{
    if k > 0 {
        lemma_table_writes_same(elf, base, es, lens, (k - 1) as nat);
        let j = k - 1;
        assert(entry_restores(elf, base, es[j], lens, j));
        crate::cursor::lemma_write_same(elf, base + 16 * j, 16);
    }
}

proof fn lemma_parse_files_each(b: Seq<u8>, fo: u32, idx: u32, i: int, count: int)
    ensures
        parse_files(b, fo, idx, i, count) matches Some(fs) ==> {
            &&& i <= count ==> fs.len() == count - i
            &&& forall|t: int| 0 <= t < fs.len() ==> parse_file(b, fo, idx, i + t) == Some(#[trigger] fs[t])
        },
    decreases count - i,
{
    if i < count {
        lemma_parse_files_each(b, fo, idx, i + 1, count);
        if let Some(fs) = parse_files(b, fo, idx, i, count) {
            let r = parse_files(b, fo, idx, i + 1, count)->0;
            assert forall|t: int| 0 <= t < fs.len() implies parse_file(b, fo, idx, i + t) == Some(
                #[trigger] fs[t],
            ) by {
                if t > 0 {
                    assert(fs[t] == r[t - 1]);
                    assert(i + 1 + (t - 1) == i + t);
                }
            }
        }
    }
}

/// Every file of the folder is the file entry its position names.
pub open spec fn files_parsed(b: Seq<u8>, fo: u32, f: FolderV) -> bool {
    forall|t: int| 0 <= t < f.files.len() ==> parse_file(b, fo, f.index, t) == Some(#[trigger] f.files[t])
}

proof fn lemma_fill_each(b: Seq<u8>, fo: u32, hs: Seq<FolderV>)
    ensures
        fill_folders(b, fo, hs) matches Some(fs) ==> forall|j: int|
            0 <= j < fs.len() ==> files_parsed(b, fo, #[trigger] fs[j]),
    decreases hs.len(),
{
    if hs.len() > 0 {
        lemma_fill_each(b, fo, hs.drop_first());
        if let Some(fs) = fill_folders(b, fo, hs) {
            let h = hs[0];
            lemma_parse_files_each(b, fo, h.index, 0, h.file_count as int);
            let r = fill_folders(b, fo, hs.drop_first())->0;
            assert forall|j: int| 0 <= j < fs.len() implies files_parsed(b, fo, #[trigger] fs[j]) by {
                if j > 0 {
                    assert(fs[j] == r[j - 1]);
                } else {
                    let f = fs[0];
                    assert forall|t: int| 0 <= t < f.files.len() implies parse_file(b, fo, f.index, t)
                        == Some(#[trigger] f.files[t]) by {
                        assert(0 + t == t);
                    }
                }
            }
        }
    }
}

proof fn lemma_entries_split(fs: Seq<FolderV>)
    requires
        fs.len() > 0,
    ensures
        entries_of(fs) == entries_of(fs.drop_last()) + fs.last().files,
{
}

/// The files of an archive are stored back to back from its start, in
/// folder order, and `lens` lists their sizes.
pub open spec fn stored_back_to_back(fs: Seq<FolderV>, lens: Seq<usize>) -> bool {
    &&& lens.len() == entries_of(fs).len()
    &&& forall|k: int|
        0 <= k < entries_of(fs).len() ==> lens[k] == (#[trigger] entries_of(fs)[k]).size
            && entries_of(fs)[k].offset == sum_lens(lens, k)
}

/// The folders list their files in table order: the first file of each
/// folder is the number of files of the folders before it.
pub open spec fn indexes_running(fs: Seq<FolderV>) -> bool {
    forall|j: int| 0 <= j < fs.len() ==> (#[trigger] fs[j]).index == entries_of(fs.take(j)).len()
}

proof fn lemma_folders_restore(b: Seq<u8>, fo: u32, fs: Seq<FolderV>, lens: Seq<usize>)
    requires
        forall|j: int| 0 <= j < fs.len() ==> files_parsed(b, fo, #[trigger] fs[j]),
        indexes_running(fs),
        lens.len() >= entries_of(fs).len(),
        forall|k: int|
            0 <= k < entries_of(fs).len() ==> lens[k] == (#[trigger] entries_of(fs)[k]).size
                && entries_of(fs)[k].offset == sum_lens(lens, k),
    ensures
        forall|k: int|
            0 <= k < entries_of(fs).len() ==> entry_restores(b, fo as int, #[trigger] entries_of(fs)[k], lens, k),
    decreases fs.len(),
{
    if fs.len() > 0 {
        let init = fs.drop_last();
        let last = fs.last();
        let n = fs.len() - 1;
        lemma_entries_split(fs);
        let ei = entries_of(init);
        assert forall|j: int| 0 <= j < init.len() implies (#[trigger] init[j]).index == entries_of(
            init.take(j),
        ).len() by {
            assert(init.take(j) =~= fs.take(j));
            assert(init[j] == fs[j]);
        }
        assert forall|j: int| 0 <= j < init.len() implies files_parsed(b, fo, #[trigger] init[j]) by {
            assert(init[j] == fs[j]);
        }
        assert forall|k: int| 0 <= k < ei.len() implies lens[k] == (#[trigger] ei[k]).size && ei[k].offset
            == sum_lens(lens, k) by {
            assert(entries_of(fs)[k] == ei[k]);
        }
        lemma_folders_restore(b, fo, init, lens);
        assert(fs.take(n) =~= init);
        assert(last.index == ei.len()) by {
            assert(fs[n] == last);
        }
        assert(files_parsed(b, fo, fs[n]));
        assert forall|k: int| 0 <= k < entries_of(fs).len() implies entry_restores(
            b,
            fo as int,
            #[trigger] entries_of(fs)[k],
            lens,
            k,
        ) by {
            if k < ei.len() {
                assert(entries_of(fs)[k] == ei[k]);
            } else {
                let i = k - ei.len();
                assert(entries_of(fs)[k] == last.files[i]);
                assert(parse_file(b, fo, last.index, i) == Some(last.files[i]));
                lemma_file_restores(b, fo, last.index, i, last.files[i], lens, k);
            }
        }
    }
}

proof fn lemma_data_info_restores(elf: Seq<u8>, offset: u32, d: DataInfoV, lens: Seq<usize>)
    requires
        parse_data_info(elf, offset) == Some(d),
        elf.len() <= usize::MAX,
        indexes_running(d.folders),
        stored_back_to_back(d.folders, lens),
    ensures
        table_writes(elf, d.files_offset as int, entries_of(d.folders), lens, entries_of(d.folders).len())
            == Some(elf),
{
    let p = offset as int;
    let heads = parse_folders(elf, d.folders_offset as int, u32_at(elf, p + 4) as int, d.name_offset)->0;
    lemma_fill_each(elf, d.files_offset, heads);
    assert(fill_folders(elf, d.files_offset, heads) == Some(d.folders));
    lemma_folders_restore(elf, d.files_offset, d.folders, lens);
    lemma_table_writes_same(elf, d.files_offset as int, entries_of(d.folders), lens, entries_of(d.folders).len());
}

proof fn lemma_ysv_each(b: Seq<u8>, offsets: Seq<u32>)
    ensures
        parse_ysv(b, offsets) matches Some(ds) ==> ds.len() == offsets.len() && forall|d: int|
            0 <= d < ds.len() ==> parse_data_info(b, offsets[d]) == Some(#[trigger] ds[d]),
    decreases offsets.len(),
{
    if offsets.len() > 0 {
        lemma_ysv_each(b, offsets.drop_first());
        if let Some(ds) = parse_ysv(b, offsets) {
            let r = parse_ysv(b, offsets.drop_first())->0;
            assert forall|d: int| 0 <= d < ds.len() implies parse_data_info(b, offsets[d]) == Some(
                #[trigger] ds[d],
            ) by {
                if d > 0 {
                    assert(ds[d] == r[d - 1]);
                    assert(offsets[d] == offsets.drop_first()[d - 1]);
                }
            }
        }
    }
}

proof fn lemma_repack_prefix(elf: Seq<u8>, offsets: Seq<u32>, ds: Seq<DataInfoV>, lens: Seq<Seq<usize>>, n: int)
    requires
        0 <= n <= ds.len(),
        parse_ysv(elf, offsets) == Some(ds),
        elf.len() <= usize::MAX,
        lens.len() == ds.len(),
        forall|d: int|
            0 <= d < ds.len() ==> indexes_running((#[trigger] ds[d]).folders) && stored_back_to_back(
                ds[d].folders,
                lens[d],
            ),
    ensures
        repack_image(elf, ds.take(n), lens.take(n)) == Some(elf),
    decreases n,
{
    if n > 0 {
        lemma_repack_prefix(elf, offsets, ds, lens, n - 1);
        assert(ds.take(n).drop_last() =~= ds.take(n - 1));
        assert(lens.take(n).drop_last() =~= lens.take(n - 1));
        lemma_ysv_each(elf, offsets);
        let d = ds[n - 1];
        assert(ds.take(n).last() == d);
        assert(lens.take(n).last() == lens[n - 1]);
        assert(indexes_running(d.folders) && stored_back_to_back(d.folders, lens[n - 1]));
        lemma_data_info_restores(elf, offsets[n - 1], d, lens[n - 1]);
    }
}

/// Repacking what was unpacked restores the executable: where the archive
/// files hold the unpacked files back to back from their start, in folder
/// order (so each file's recorded position is the sum of the sizes before
/// it, and `lens` lists the recorded sizes), and each folder's first file
/// number is the count of the files before it, writing the tables back
/// gives the executable unchanged.
pub proof fn lemma_repack_restores(elf: Seq<u8>, offsets: Seq<u32>, ds: Seq<DataInfoV>, lens: Seq<Seq<usize>>)
    requires
        parse_ysv(elf, offsets) == Some(ds),
        elf.len() <= usize::MAX,
        lens.len() == ds.len(),
        forall|d: int|
            0 <= d < ds.len() ==> indexes_running((#[trigger] ds[d]).folders) && stored_back_to_back(
                ds[d].folders,
                lens[d],
            ),
    ensures
        repack_image(elf, ds, lens) == Some(elf),
{
    lemma_repack_prefix(elf, offsets, ds, lens, ds.len() as int);
    assert(ds.take(ds.len() as int) =~= ds);
    assert(lens.take(lens.len() as int) =~= lens);
}


proof fn lemma_u32_at_le32(b: Seq<u8>, i: int, v: u32)
    requires
        0 <= i,
        i + 4 <= b.len(),
        b.subrange(i, i + 4) == le32(v),
    ensures
        u32_at(b, i) == v,
{
    assert(b[i] == le32(v)[0] && b[i + 1] == le32(v)[1] && b[i + 2] == le32(v)[2] && b[i + 3] == le32(v)[3]);
}

proof fn lemma_four_words(r: Seq<u8>, p: int, a: u32, b: u32, c: u32, d: u32)
    requires
        0 <= p,
        p + 16 <= r.len(),
        r.subrange(p, p + 16) == le32(a) + le32(b) + le32(c) + le32(d),
    ensures
        u32_at(r, p) == a,
        u32_at(r, p + 4) == b,
        u32_at(r, p + 8) == c,
        u32_at(r, p + 12) == d,
{
    let sub = r.subrange(p, p + 16);
    let w = le32(a) + le32(b) + le32(c) + le32(d);
    assert(r.subrange(p, p + 4) =~= le32(a)) by {
        assert forall|x: int| 0 <= x < 4 implies #[trigger] r.subrange(p, p + 4)[x] == le32(a)[x] by {
            assert(r.subrange(p, p + 4)[x] == sub[x]);
        }
    }
    assert(r.subrange(p + 4, p + 8) =~= le32(b)) by {
        assert forall|x: int| 0 <= x < 4 implies #[trigger] r.subrange(p + 4, p + 8)[x] == le32(b)[x] by {
            assert(r.subrange(p + 4, p + 8)[x] == sub[4 + x]);
            assert(w[4 + x] == le32(b)[x]);
        }
    }
    assert(r.subrange(p + 8, p + 12) =~= le32(c)) by {
        assert forall|x: int| 0 <= x < 4 implies #[trigger] r.subrange(p + 8, p + 12)[x] == le32(c)[x] by {
            assert(r.subrange(p + 8, p + 12)[x] == sub[8 + x]);
            assert(w[8 + x] == le32(c)[x]);
        }
    }
    assert(r.subrange(p + 12, p + 16) =~= le32(d)) by {
        assert forall|x: int| 0 <= x < 4 implies #[trigger] r.subrange(p + 12, p + 16)[x] == le32(d)[x] by {
            assert(r.subrange(p + 12, p + 16)[x] == sub[12 + x]);
            assert(w[12 + x] == le32(d)[x]);
        }
    }
    lemma_u32_at_le32(r, p, a);
    lemma_u32_at_le32(r, p + 4, b);
    lemma_u32_at_le32(r, p + 8, c);
    lemma_u32_at_le32(r, p + 12, d);
}

/// The four words at `p` of `r` are the file entry `e` written back for a
/// new file of length `len` stored at `start`: the name offset plus the load
/// base, the unknown word, and `start` and `len` in whole sectors (cut to 32
/// bits).
pub open spec fn entry_words(r: Seq<u8>, p: int, e: DataFileV, start: int, len: int) -> bool {
    &&& p + 16 <= r.len()
    &&& u32_at(r, p) == e.name_offset + 0xFFF80
    &&& u32_at(r, p + 4) == e.unk
    &&& u32_at(r, p + 8) == (start / 0x800) % 0x1_0000_0000
    &&& u32_at(r, p + 12) == (len / 0x800) % 0x1_0000_0000
}

/// Writing back a file table stores, for each file entry `j`, four words at
/// `base + 16 * j`: the name offset plus the load base, the unknown word,
/// the new file's position in sectors (the lengths before it summed, divided
/// by 0x800) and its new size in sectors (its length divided by 0x800), the
/// last two cut to 32 bits, whatever the new lengths are.
#[verifier::spinoff_prover]
#[verifier::rlimit(40)]
pub proof fn lemma_table_entry_words(elf: Seq<u8>, base: int, es: Seq<DataFileV>, lens: Seq<usize>, k: nat)
    requires
        0 <= base,
        k <= es.len(),
        k <= lens.len(),
    ensures
        table_writes(elf, base, es, lens, k) matches Some(r) ==> forall|j: int|
            0 <= j < k ==> entry_words(r, base + 16 * j, #[trigger] es[j], sum_lens(lens, j), lens[j] as int),
{
    lemma_table_writes_local(elf, base, es, lens, k);
    if let Some(r) = table_writes(elf, base, es, lens, k) {
        assert forall|j: int| 0 <= j < k implies entry_words(
            r,
            base + 16 * j,
            #[trigger] es[j],
            sum_lens(lens, j),
            lens[j] as int,
        ) by {
            lemma_table_writes_len(elf, base, es, lens, k, j);
            let p = base + 16 * j;
            let e = es[j];
            let w0 = (e.name_offset + 0xFFF80) as u32;
            let w2 = ((sum_lens(lens, j) / 0x800) % 0x1_0000_0000) as u32;
            let w3 = ((lens[j] as int / 0x800) % 0x1_0000_0000) as u32;
            assert(r.subrange(p, p + 16) == entry_bytes(e, sum_lens(lens, j), lens[j] as int));
            lemma_four_words(r, p, w0, e.unk, w2, w3);
            lemma_table_writes_name(elf, base, es, lens, k, j);
        }
    }
}

/// A successful write-back of `k` entries leaves room for each of them, and
/// the name offsets of those entries did not overflow.
proof fn lemma_table_writes_len(elf: Seq<u8>, base: int, es: Seq<DataFileV>, lens: Seq<usize>, k: nat, j: int)
    requires
        0 <= base,
        0 <= j < k,
        k <= es.len(),
        k <= lens.len(),
        table_writes(elf, base, es, lens, k) is Some,
    ensures
        base + 16 * j + 16 <= table_writes(elf, base, es, lens, k)->0.len(),
    decreases k,
{
    let r = table_writes(elf, base, es, lens, k)->0;
    let prev = table_writes(elf, base, es, lens, (k - 1) as nat)->0;
    let p = base + 16 * (k - 1);
    let d = entry_bytes(es[k - 1], sum_lens(lens, k - 1), lens[k - 1] as int);
    crate::cursor::lemma_write_at_len(prev, p, d);
    if j < k - 1 {
        lemma_table_writes_len(elf, base, es, lens, (k - 1) as nat, j);
    }
}

proof fn lemma_table_writes_name(elf: Seq<u8>, base: int, es: Seq<DataFileV>, lens: Seq<usize>, k: nat, j: int)
    requires
        0 <= j < k,
        table_writes(elf, base, es, lens, k) is Some,
    ensures
        es[j].name_offset + 0xFFF80 <= u32::MAX,
    decreases k,
{
    if j < k - 1 {
        lemma_table_writes_name(elf, base, es, lens, (k - 1) as nat, j);
    }
}


/// The zero-terminated Shift-JIS text at `off` of `b` is `name`.
pub open spec fn text_at(b: Seq<u8>, off: int, name: Seq<char>) -> bool {
    &&& 0 <= off
    &&& zero_from(b, off) < b.len()
    &&& name == shift_jis_decoded(b.subrange(off, zero_from(b, off)))
}

/// The file entry `f` is the four words at `p`: its name's address, the
/// unknown word, and its position and size in 0x800-byte sectors.
pub open spec fn file_entry_at(b: Seq<u8>, p: int, f: DataFileV) -> bool {
    &&& 0 <= p
    &&& p + 16 <= b.len()
    &&& u32_at(b, p) == f.name_offset + 0xFFF80
    &&& text_at(b, f.name_offset as int, f.name)
    &&& f.unk == u32_at(b, p + 4)
    &&& f.offset == u32_at(b, p + 8) * 0x800
    &&& f.size == u32_at(b, p + 12) * 0x800
}

/// The folder `f` is the three words at `p` (its name's address, the number
/// of its first file, its file count), and its files are the file entries
/// with those numbers, 16 bytes each from `files_offset`.
pub open spec fn folder_entry_at(b: Seq<u8>, p: int, files_offset: u32, table_name: u32, f: FolderV) -> bool {
    &&& 0 <= p
    &&& p + 12 <= b.len()
    &&& u32_at(b, p) >= 0xFFF80
    &&& text_at(b, u32_at(b, p) - 0xFFF80, f.name)
    &&& f.name_offset == table_name
    &&& f.index == u32_at(b, p + 4)
    &&& f.file_count == u32_at(b, p + 8)
    &&& f.files.len() == f.file_count
    &&& forall|i: int|
        0 <= i < f.files.len() ==> file_entry_at(b, files_offset + 16 * (f.index + i), #[trigger] f.files[i])
}

/// The folder `f` (without its files) is the three words at `p`.
pub open spec fn folder_head_at(b: Seq<u8>, p: int, table_name: u32, f: FolderV) -> bool {
    &&& 0 <= p
    &&& p + 12 <= b.len()
    &&& u32_at(b, p) >= 0xFFF80
    &&& text_at(b, u32_at(b, p) - 0xFFF80, f.name)
    &&& f.name_offset == table_name
    &&& f.index == u32_at(b, p + 4)
    &&& f.file_count == u32_at(b, p + 8)
}

proof fn lemma_parse_file_at(b: Seq<u8>, fo: u32, idx: u32, i: int)
    requires
        0 <= i,
    ensures
        parse_file(b, fo, idx, i) matches Some(f) ==> file_entry_at(b, fo + 16 * (idx + i), f),
{
    assert((idx + i) * 16 == 16 * (idx + i));
}

proof fn lemma_parse_folders_at(b: Seq<u8>, p: int, count: int, tno: u32)
    requires
        0 <= p,
    ensures
        parse_folders(b, p, count, tno) matches Some(fs) ==> {
            &&& fs.len() == (if count < 0 { 0 } else { count })
            &&& forall|k: int| 0 <= k < fs.len() ==> folder_head_at(b, p + 12 * k, tno, #[trigger] fs[k])
        },
    decreases count,
{
    if count > 0 && p + 12 <= b.len() {
        lemma_parse_folders_at(b, p + 12, count - 1, tno);
        if let Some(fs) = parse_folders(b, p, count, tno) {
            let r = parse_folders(b, p + 12, count - 1, tno)->0;
            assert forall|k: int| 0 <= k < fs.len() implies folder_head_at(b, p + 12 * k, tno, #[trigger] fs[k]) by {
                if k > 0 {
                    assert(fs[k] == r[k - 1]);
                    assert(p + 12 + 12 * (k - 1) == p + 12 * k);
                } else {
                    let fno = unbased(u32_at(b, p))->0;
                    assert(unbased(u32_at(b, p)) is Some);
                    assert(name_at(b, fno as int) == Some(fs[0].name));
                    assert(p + 12 * 0 == p);
                }
            }
        }
    }
}

proof fn lemma_fill_folders_at(b: Seq<u8>, fo: u32, hs: Seq<FolderV>)
    ensures
        fill_folders(b, fo, hs) matches Some(fs) ==> {
            &&& fs.len() == hs.len()
            &&& forall|j: int|
                0 <= j < fs.len() ==> {
                    &&& (#[trigger] fs[j]).name == hs[j].name
                    &&& fs[j].name_offset == hs[j].name_offset
                    &&& fs[j].index == hs[j].index
                    &&& fs[j].file_count == hs[j].file_count
                    &&& fs[j].files.len() == fs[j].file_count
                    &&& forall|i: int|
                        0 <= i < fs[j].files.len() ==> file_entry_at(
                            b,
                            fo + 16 * (fs[j].index + i),
                            #[trigger] fs[j].files[i],
                        )
                }
        },
    decreases hs.len(),
{
    if hs.len() > 0 {
        lemma_fill_folders_at(b, fo, hs.drop_first());
        if let Some(fs) = fill_folders(b, fo, hs) {
            let h = hs[0];
            lemma_parse_files_each(b, fo, h.index, 0, h.file_count as int);
            let r = fill_folders(b, fo, hs.drop_first())->0;
            assert forall|j: int| 0 <= j < fs.len() implies {
                &&& (#[trigger] fs[j]).name == hs[j].name
                &&& fs[j].name_offset == hs[j].name_offset
                &&& fs[j].index == hs[j].index
                &&& fs[j].file_count == hs[j].file_count
                &&& fs[j].files.len() == fs[j].file_count
                &&& forall|i: int|
                    0 <= i < fs[j].files.len() ==> file_entry_at(
                        b,
                        fo + 16 * (fs[j].index + i),
                        #[trigger] fs[j].files[i],
                    )
            } by {
                if j > 0 {
                    assert(fs[j] == r[j - 1]);
                    assert(hs[j] == hs.drop_first()[j - 1]);
                } else {
                    let f = fs[0];
                    assert forall|i: int| 0 <= i < f.files.len() implies file_entry_at(
                        b,
                        fo + 16 * (f.index + i),
                        #[trigger] f.files[i],
                    ) by {
                        assert(parse_file(b, fo, h.index, 0 + i) == Some(f.files[i]));
                        lemma_parse_file_at(b, fo, h.index, i);
                    }
                }
            }
        }
    }
}

/// A parsed archive table is what its bytes say: the six words at `offset`
/// (name address, folder count, folder table address, unknown word, file
/// count, file table address; addresses less the load base), the name text,
/// one folder for each three words from the folder table, and for each
/// folder the 16-byte file entries numbered from its first file.
pub proof fn lemma_data_info_layout(b: Seq<u8>, offset: u32)
    ensures
        parse_data_info(b, offset) matches Some(d) ==> {
            let p = offset as int;
            &&& p + 24 <= b.len()
            &&& u32_at(b, p) == d.name_offset + 0xFFF80
            &&& text_at(b, d.name_offset as int, d.name)
            &&& d.folder_count == u32_at(b, p + 4)
            &&& u32_at(b, p + 8) == d.folders_offset + 0xFFF80
            &&& d.unk == u32_at(b, p + 12)
            &&& d.file_count == u32_at(b, p + 16)
            &&& u32_at(b, p + 20) == d.files_offset + 0xFFF80
            &&& d.folders.len() == d.folder_count
            &&& forall|k: int|
                0 <= k < d.folders.len() ==> folder_entry_at(
                    b,
                    d.folders_offset + 12 * k,
                    d.files_offset,
                    d.name_offset,
                    #[trigger] d.folders[k],
                )
        },
{
    if let Some(d) = parse_data_info(b, offset) {
        let p = offset as int;
        let heads = parse_folders(b, d.folders_offset as int, u32_at(b, p + 4) as int, d.name_offset)->0;
        lemma_parse_folders_at(b, d.folders_offset as int, u32_at(b, p + 4) as int, d.name_offset);
        lemma_fill_folders_at(b, d.files_offset, heads);
        assert forall|k: int| 0 <= k < d.folders.len() implies folder_entry_at(
            b,
            d.folders_offset + 12 * k,
            d.files_offset,
            d.name_offset,
            #[trigger] d.folders[k],
        ) by {
            assert(heads[k].name == d.folders[k].name);
        }
    }
}

} // verus!
