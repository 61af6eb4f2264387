//! A read-only reader for the Project Oberon on-disk filesystem, the format of
//! `FileDir.Mod`/`Files.Mod` stored in a `.dsk` image. It parses the directory
//! B-tree and reconstructs file contents straight from the image bytes.
//!
//! The image is a flat array of 1024-byte sectors, sector `s` at byte offset
//! `(s - 1) * 1024` of the filesystem, and on-disk pointers are stored as
//! `DiskAdr = s * 29`. The directory is a B-tree rooted at `DiskAdr` 29 (sector
//! 1); each file's first sector is a header holding its length and the table of
//! its data sectors. Files up to 64 pages live in the header's `sec` table;
//! larger ones spill into index sectors via `ext`. A raw `.dsk` holds the
//! sector array from byte 0; a full SD-card image places it behind a fixed
//! prefix, detected from where the root directory mark lands.
use vstd::prelude::*;

use crate::text::{latin1_chars, push_char};
use crate::{name_char_ok, name_char_spec};

verus! {

/// Bytes per sector.
pub const SECTOR_SIZE: usize = 1024;

/// Bytes in a name field.
pub const FN_LENGTH: usize = 32;

/// Direct data-sector entries in a file header.
pub const SEC_TAB_SIZE: usize = 64;

/// Index-sector entries in a file header.
pub const EX_TAB_SIZE: usize = 12;

/// Disk addresses per index sector.
pub const INDEX_SIZE: usize = 256;

/// Bytes of the header at the start of a file's first sector.
pub const HEADER_SIZE: usize = 352;

/// Disk address of the directory root (sector 1).
pub const DIR_ROOT_ADR: u32 = 29;

/// Entries per directory page.
pub const DIR_PG_SIZE: usize = 24;

/// Mark of a directory page.
pub const DIR_MARK: u32 = 0x9B1E_A38D;

/// Mark of a file header.
pub const HEADER_MARK: u32 = 0x9BA7_1D86;

/// Byte offset of the filesystem in a full SD-card image (256 MiB + 1 KiB).
pub const SD_FS_OFFSET: usize = 0x1000_0400;

/// Header field offsets: the length in whole pages, the bytes on the last page,
/// the index-sector table and the data-sector table.
pub const OFF_ALENG: usize = 36;

pub const OFF_BLENG: usize = 40;

pub const OFF_EXT: usize = 48;

pub const OFF_SEC: usize = 96;

/// Directory page field offsets: entry count, leftmost child, entries.
pub const OFF_DIR_M: usize = 4;

pub const OFF_DIR_P0: usize = 8;

pub const OFF_DIR_E: usize = 64;

/// Bytes per directory entry: name, header address, child page.
pub const DIR_ENTRY_SIZE: usize = 40;

/// Why an image or one of its files could not be read.
#[derive(Debug, Clone, Copy, PartialEq, Eq, Structural)]
pub enum ImageError {
    /// No directory mark at sector 1 of either layout.
    NotAFilesystem,
    /// A disk address below 29 (sector 0).
    ZeroAddress,
    /// A disk address past the end of the image.
    PastEnd,
    /// A file header without the header mark.
    BadHeaderMark,
    /// A file header with a negative length, or more than a sector on its last page.
    BadLength,
    /// A file too large for the extension table.
    TooLarge,
    /// A single-page file whose length ends inside its header.
    InconsistentLength,
    /// A directory page without the directory mark.
    BadDirMark,
}

impl ImageError {
    /// A description of the error.
    pub fn message(&self) -> (m: &'static str)
        ensures
            m@ == match self {
                ImageError::NotAFilesystem => "not an Oberon filesystem image (no directory mark at sector 1)"@,
                ImageError::ZeroAddress => "invalid disk address 0"@,
                ImageError::PastEnd => "disk address points past the end of the image"@,
                ImageError::BadHeaderMark => "file header has the wrong mark"@,
                ImageError::BadLength => "file header has an invalid length"@,
                ImageError::TooLarge => "file is too large (extension table overflow)"@,
                ImageError::InconsistentLength => "file header length is inconsistent"@,
                ImageError::BadDirMark => "directory page has the wrong mark"@,
            },
    {
        match self {
            ImageError::NotAFilesystem => "not an Oberon filesystem image (no directory mark at sector 1)",
            ImageError::ZeroAddress => "invalid disk address 0",
            ImageError::PastEnd => "disk address points past the end of the image",
            ImageError::BadHeaderMark => "file header has the wrong mark",
            ImageError::BadLength => "file header has an invalid length",
            ImageError::TooLarge => "file is too large (extension table overflow)",
            ImageError::InconsistentLength => "file header length is inconsistent",
            ImageError::BadDirMark => "directory page has the wrong mark",
        }
    }
}

/// The little-endian word at `off` of `bs`.
pub open spec fn le_u32(bs: Seq<u8>, off: int) -> u32 {
    (bs[off] as u32) | ((bs[off + 1] as u32) << 8) | ((bs[off + 2] as u32) << 16) | ((bs[off + 3] as u32)
        << 24)
}

/// The little-endian word at `off` of `buf`.
pub fn rd_u32(buf: &[u8], off: usize) -> (w: u32)
    requires
        off + 4 <= buf@.len(),
    ensures
        w == le_u32(buf@, off as int),
{
    (buf[off] as u32) | ((buf[off + 1] as u32) << 8u32) | ((buf[off + 2] as u32) << 16u32) | ((buf[off
        + 3] as u32) << 24u32)
}

/// The table of `n` little-endian words at `off` of `bs`.
pub open spec fn adr_table(bs: Seq<u8>, off: int, n: int) -> Seq<u32> {
    Seq::new(n as nat, |k: int| le_u32(bs, off + 4 * k))
}

fn read_adr_table(buf: &[u8], off: usize, n: usize) -> (t: Vec<u32>)
    requires
        off + 4 * n <= buf@.len(),
    ensures
        t@ == adr_table(buf@, off as int, n as int),
{
    let blen = buf.len();
    let mut t: Vec<u32> = Vec::new();
    let mut k: usize = 0;
    while k < n
        invariant
            k <= n,
            blen == buf@.len(),
            off + 4 * n <= buf@.len(),
            t@ =~= adr_table(buf@, off as int, k as int),
        decreases n - k,
    {
        t.push(rd_u32(buf, off + k * 4));
        k = k + 1;
    }
    t
}

/// Whether the four bytes at `off` of `data` are the directory mark.
pub open spec fn dir_mark_at(data: Seq<u8>, off: int) -> bool {
    off + 4 <= data.len() && le_u32(data, off) == DIR_MARK
}

/// Whether the four bytes at `off` are the directory mark; an out-of-range
/// `off` is simply `false`.
pub fn has_dir_mark(data: &[u8], off: usize) -> (b: bool)
    ensures
        b == dir_mark_at(data@, off as int),
{
    if off > data.len() || data.len() - off < 4 {
        false
    } else {
        rd_u32(data, off) == DIR_MARK
    }
}

/// The length of the name in a NUL-terminated field: up to the first NUL
/// from `i` on, or the whole field.
pub open spec fn field_len(bs: Seq<u8>, i: int) -> int
    decreases bs.len() - i,
{
    if i >= bs.len() || i < 0 {
        bs.len() as int
    } else if bs[i] == 0 {
        i
    } else {
        field_len(bs, i + 1)
    }
}

/// The name in a directory entry's field: `None` when it is empty or holds a
/// character outside the Oberon file-name set.
pub open spec fn field_name(bs: Seq<u8>) -> Option<Seq<char>> {
    let k = field_len(bs, 0);
    if k > 0 && forall|i: int| 0 <= i < k ==> #[trigger] name_char_spec(i, bs[i]) {
        Some(latin1_chars(bs.subrange(0, k)))
    } else {
        None
    }
}

/// Decode a name field, enforcing the Oberon character set (a letter, then
/// letters, digits or `.`); `None` for an empty or malformed name, which also
/// stops a hostile image from yielding a surprising host path.
pub fn read_name(field: &[u8]) -> (name: Option<String>)
    ensures
        match name {
            Some(s) => field_name(field@) == Some(s@),
            None => field_name(field@) is None,
        },
{
    let ghost bs = field@;
    let mut s = String::new();
    let mut i: usize = 0;
    while i < field.len() && field[i] != 0
        invariant
            bs == field@,
            i <= bs.len(),
            field_len(bs, 0) == field_len(bs, i as int),
            forall|j: int| 0 <= j < i ==> #[trigger] name_char_spec(j, bs[j]),
            s@ == latin1_chars(bs.subrange(0, i as int)),
        decreases bs.len() - i,
    {
        let ch = field[i];
        if !name_char_ok(i, ch) {
            proof {
                lemma_field_len_bounds(bs, i as int);
                assert(!name_char_spec(i as int, bs[i as int]));
            }
            return None;
        }
        push_char(&mut s, ch as char);
        i = i + 1;
        assert(latin1_chars(bs.subrange(0, i as int)) =~= latin1_chars(bs.subrange(0, i - 1)).push(
            bs[i - 1] as char,
        ));
    }
    assert(field_len(bs, 0) == i);
    if i == 0 {
        None
    } else {
        Some(s)
    }
}

/// The first NUL at or after `j` lies between `j` and the end of the field.
proof fn lemma_field_len_range(bs: Seq<u8>, j: int)
    requires
        0 <= j <= bs.len(),
    ensures
        j <= field_len(bs, j) <= bs.len(),
    decreases bs.len() - j,
{
    if j < bs.len() && bs[j] != 0 {
        lemma_field_len_range(bs, j + 1);
    }
}

/// The first NUL at or after `i` lies past `i` when `bs[i]` is not NUL.
proof fn lemma_field_len_bounds(bs: Seq<u8>, i: int)
    requires
        0 <= i < bs.len(),
        bs[i] != 0,
    ensures
        field_len(bs, i) > i,
{
    lemma_field_len_range(bs, i + 1);
}

// ---------------------------------------------------------------------------
// Sectors, headers, files
// ---------------------------------------------------------------------------

/// An image's bytes and where its filesystem starts.
pub struct ImageState {
    pub data: Seq<u8>,
    pub base: int,
}

/// Where the filesystem of `data` starts: byte 0 for a raw `.dsk`, behind the
/// SD-card prefix for a full card image; `None` if neither holds the root
/// directory mark.
pub open spec fn fs_base(data: Seq<u8>) -> Option<int> {
    if dir_mark_at(data, 0) {
        Some(0)
    } else if dir_mark_at(data, SD_FS_OFFSET as int) {
        Some(SD_FS_OFFSET as int)
    } else {
        None
    }
}

/// The 1024 bytes of the sector at disk address `adr`.
pub open spec fn sector_spec(img: ImageState, adr: u32) -> Result<Seq<u8>, ImageError> {
    let s = adr / 29;
    if s == 0 {
        Err(ImageError::ZeroAddress)
    } else {
        let off = img.base + (s - 1) * 1024;
        if off + 1024 > img.data.len() {
            Err(ImageError::PastEnd)
        } else {
            Ok(img.data.subrange(off, off + 1024))
        }
    }
}

/// A validated file header: (whole pages, bytes on the last page, data-sector
/// table, index-sector table).
pub open spec fn header_spec(img: ImageState, header: u32) -> Result<(int, int, Seq<u32>, Seq<u32>), ImageError> {
    match sector_spec(img, header) {
        Err(e) => Err(e),
        Ok(h) => {
            if le_u32(h, 0) != HEADER_MARK {
                Err(ImageError::BadHeaderMark)
            } else {
                let aleng = crate::risc::signed(le_u32(h, OFF_ALENG as int));
                let bleng = crate::risc::signed(le_u32(h, OFF_BLENG as int));
                if aleng < 0 || bleng < 0 || bleng > SECTOR_SIZE {
                    Err(ImageError::BadLength)
                } else {
                    Ok(
                        (
                            aleng,
                            bleng,
                            adr_table(h, OFF_SEC as int, SEC_TAB_SIZE as int),
                            adr_table(h, OFF_EXT as int, EX_TAB_SIZE as int),
                        ),
                    )
                }
            }
        },
    }
}

/// The disk address of data page `page`: from the header's table for the
/// first 64, then from the index sectors.
pub open spec fn page_sector_spec(img: ImageState, page: int, sec: Seq<u32>, ext: Seq<u32>) -> Result<u32, ImageError> {
    if page < SEC_TAB_SIZE {
        Ok(sec[page])
    } else {
        let i = (page - SEC_TAB_SIZE) / (INDEX_SIZE as int);
        let j = (page - SEC_TAB_SIZE) % (INDEX_SIZE as int);
        if i >= EX_TAB_SIZE {
            Err(ImageError::TooLarge)
        } else {
            match sector_spec(img, ext[i]) {
                Err(e) => Err(e),
                Ok(b) => Ok(le_u32(b, j * 4)),
            }
        }
    }
}

/// The bytes of pages `page..=aleng` of a file: the header page past the
/// header, whole middle pages, the last page up to `bleng`.
pub open spec fn file_pages(
    img: ImageState,
    sec: Seq<u32>,
    ext: Seq<u32>,
    aleng: int,
    bleng: int,
    page: int,
) -> Result<Seq<u8>, ImageError>
    decreases aleng + 1 - page,
{
    if page > aleng || page < 0 {
        Ok(Seq::empty())
    } else {
        match page_sector_spec(img, page, sec, ext) {
            Err(e) => Err(e),
            Ok(a) => match sector_spec(img, a) {
                Err(e) => Err(e),
                Ok(buf) => {
                    let start: int = if page == 0 { HEADER_SIZE as int } else { 0 };
                    let end: int = if page == aleng { bleng } else { SECTOR_SIZE as int };
                    if start > end {
                        Err(ImageError::InconsistentLength)
                    } else {
                        match file_pages(img, sec, ext, aleng, bleng, page + 1) {
                            Err(e) => Err(e),
                            Ok(rest) => Ok(buf.subrange(start, end) + rest),
                        }
                    }
                },
            },
        }
    }
}

/// The contents of the file whose header is at `header`.
pub open spec fn file_contents(img: ImageState, header: u32) -> Result<Seq<u8>, ImageError> {
    match header_spec(img, header) {
        Err(e) => Err(e),
        Ok((aleng, bleng, sec, ext)) => file_pages(img, sec, ext, aleng, bleng, 0),
    }
}

/// A file found in the directory: its name and the disk address of its header.
pub struct Entry {
    pub name: String,
    pub header: u32,
}

/// An Oberon filesystem image held in memory, read only.
pub struct Image {
    data: Vec<u8>,
    base: usize,
}

impl View for Image {
    type V = ImageState;

    closed spec fn view(&self) -> ImageState {
        ImageState { data: self.data@, base: self.base as int }
    }
}

impl Image {
    #[verifier::type_invariant]
    spec fn inv(self) -> bool {
        self.base <= SD_FS_OFFSET && self.base + 4 <= self.data@.len()
    }

    /// Take an image's bytes; fails if neither a raw `.dsk` nor a full SD-card
    /// image begins its filesystem with a directory root page.
    pub fn from_bytes(data: Vec<u8>) -> (r: Result<Image, ImageError>)
        ensures
            match r {
                Ok(img) => fs_base(data@) == Some(img@.base) && img@.data == data@,
                Err(e) => fs_base(data@) is None && e == ImageError::NotAFilesystem,
            },
    {
        let base = if has_dir_mark(data.as_slice(), 0) {
            0
        } else if has_dir_mark(data.as_slice(), SD_FS_OFFSET) {
            SD_FS_OFFSET
        } else {
            return Err(ImageError::NotAFilesystem);
        };
        Ok(Image { data, base })
    }

    /// The 1024-byte sector at disk address `adr` (a copy).
    fn sector(&self, adr: u32) -> (r: Result<Vec<u8>, ImageError>)
        ensures
            match r {
                Ok(v) => sector_spec(self@, adr) == Ok::<Seq<u8>, ImageError>(v@),
                Err(e) => sector_spec(self@, adr) == Err::<Seq<u8>, ImageError>(e),
            },
    {
        proof {
            use_type_invariant(self);
        }
        let s = adr / 29;
        if s == 0 {
            return Err(ImageError::ZeroAddress);
        }
        let off: u64 = self.base as u64 + (s as u64 - 1) * 1024;
        if off + 1024 > self.data.len() as u64 {
            return Err(ImageError::PastEnd);
        }
        let dlen = self.data.len();
        let off = off as usize;
        let mut buf: Vec<u8> = Vec::new();
        let mut i: usize = 0;
        while i < SECTOR_SIZE
            invariant
                i <= SECTOR_SIZE,
                dlen == self.data@.len(),
                off + SECTOR_SIZE <= self.data@.len(),
                buf@ =~= self.data@.subrange(off as int, off + i),
            decreases SECTOR_SIZE - i,
        {
            buf.push(self.data[off + i]);
            i = i + 1;
        }
        Ok(buf)
    }

    /// Parse and validate the header sector at `header`.
    fn header(&self, header: u32) -> (r: Result<(usize, usize, Vec<u32>, Vec<u32>), ImageError>)
        ensures
            match r {
                Ok((a, b, sec, ext)) => header_spec(self@, header) == Ok::<
                    (int, int, Seq<u32>, Seq<u32>),
                    ImageError,
                >((a as int, b as int, sec@, ext@)),
                Err(e) => header_spec(self@, header) == Err::<(int, int, Seq<u32>, Seq<u32>), ImageError>(e),
            },
    {
        let h = match self.sector(header) {
            Ok(h) => h,
            Err(e) => return Err(e),
        };
        if rd_u32(h.as_slice(), 0) != HEADER_MARK {
            return Err(ImageError::BadHeaderMark);
        }
        let aleng = rd_u32(h.as_slice(), OFF_ALENG);
        let bleng = rd_u32(h.as_slice(), OFF_BLENG);
        if aleng >= 0x8000_0000 || bleng >= 0x8000_0000 || bleng as usize > SECTOR_SIZE {
            return Err(ImageError::BadLength);
        }
        let sec = read_adr_table(h.as_slice(), OFF_SEC, SEC_TAB_SIZE);
        let ext = read_adr_table(h.as_slice(), OFF_EXT, EX_TAB_SIZE);
        Ok((aleng as usize, bleng as usize, sec, ext))
    }

    /// The disk address of data page `page`.
    fn page_sector(&self, page: usize, sec: &Vec<u32>, ext: &Vec<u32>) -> (r: Result<u32, ImageError>)
        requires
            sec@.len() == SEC_TAB_SIZE,
            ext@.len() == EX_TAB_SIZE,
        ensures
            r == page_sector_spec(self@, page as int, sec@, ext@),
    {
        if page < SEC_TAB_SIZE {
            return Ok(sec[page]);
        }
        let i = (page - SEC_TAB_SIZE) / INDEX_SIZE;
        let j = (page - SEC_TAB_SIZE) % INDEX_SIZE;
        if i >= EX_TAB_SIZE {
            return Err(ImageError::TooLarge);
        }
        match self.sector(ext[i]) {
            Err(e) => Err(e),
            Ok(b) => Ok(rd_u32(b.as_slice(), j * 4)),
        }
    }

    /// Reconstruct the full contents of the file whose header is at `header`.
    /// A corrupt header cannot make this allocate more than the image holds:
    /// it stops at the first page outside the image.
    pub fn read_file(&self, header: u32) -> (r: Result<Vec<u8>, ImageError>)
        ensures
            match r {
                Ok(v) => file_contents(self@, header) == Ok::<Seq<u8>, ImageError>(v@),
                Err(e) => file_contents(self@, header) == Err::<Seq<u8>, ImageError>(e),
            },
    {
        let (aleng, bleng, sec, ext) = match self.header(header) {
            Ok(t) => t,
            Err(e) => return Err(e),
        };
        let ghost whole = file_pages(self@, sec@, ext@, aleng as int, bleng as int, 0);
        assert(file_contents(self@, header) == whole);
        let mut data: Vec<u8> = Vec::new();
        let mut page: usize = 0;
        while page <= aleng
            invariant
                aleng < 0x8000_0000,
                bleng <= SECTOR_SIZE,
                sec@.len() == SEC_TAB_SIZE,
                ext@.len() == EX_TAB_SIZE,
                page <= aleng + 1,
                whole == file_pages(self@, sec@, ext@, aleng as int, bleng as int, 0),
                file_contents(self@, header) == whole,
                whole == match file_pages(self@, sec@, ext@, aleng as int, bleng as int, page as int) {
                    Ok(rest) => Ok(data@ + rest),
                    Err(e) => Err::<Seq<u8>, ImageError>(e),
                },
            decreases aleng + 1 - page,
        {
            let a = match self.page_sector(page, &sec, &ext) {
                Ok(a) => a,
                Err(e) => return Err(e),
            };
            let buf = match self.sector(a) {
                Ok(b) => b,
                Err(e) => return Err(e),
            };
            let start = if page == 0 { HEADER_SIZE } else { 0 };
            let end = if page == aleng { bleng } else { SECTOR_SIZE };
            if start > end {
                return Err(ImageError::InconsistentLength);
            }
            let ghost before = data@;
            let mut k = start;
            while k < end
                invariant
                    start <= k <= end,
                    end <= SECTOR_SIZE,
                    buf@.len() == SECTOR_SIZE,
                    data@ =~= before + buf@.subrange(start as int, k as int),
                decreases end - k,
            {
                data.push(buf[k]);
                k = k + 1;
            }
            proof {
                let rest = file_pages(self@, sec@, ext@, aleng as int, bleng as int, page + 1);
                if rest is Ok {
                    assert(before + (buf@.subrange(start as int, end as int) + rest->Ok_0) =~= data@
                        + rest->Ok_0);
                }
            }
            page = page + 1;
        }
        assert(data@ + Seq::<u8>::empty() =~= data@);
        Ok(data)
    }
}

// ---------------------------------------------------------------------------
// The directory
// ---------------------------------------------------------------------------

/// The view of a directory entry: (name, header address).
pub open spec fn entry_view(e: Entry) -> (Seq<char>, u32) {
    (e.name@, e.header)
}

/// The progress of a directory walk: the entries found so far, and which
/// sectors have been entered (indexed by sector number).
pub struct WalkState {
    pub out: Seq<(Seq<char>, u32)>,
    pub seen: Seq<bool>,
}

/// How many sectors of the filesystem the image holds in full.
pub open spec fn sector_count(img: ImageState) -> int {
    (img.data.len() - img.base) / (SECTOR_SIZE as int)
}

/// How many sectors are not yet entered.
pub open spec fn count_unseen(seen: Seq<bool>) -> nat
    decreases seen.len(),
{
    if seen.len() == 0 {
        0
    } else {
        count_unseen(seen.drop_last()) + if seen.last() { 0nat } else { 1nat }
    }
}

/// The number of entries of directory page `page`, clamped to `0..=24`.
pub open spec fn page_entries(page: Seq<u8>) -> int {
    let m = crate::risc::signed(le_u32(page, OFF_DIR_M as int));
    if m < 0 {
        0
    } else if m > DIR_PG_SIZE {
        DIR_PG_SIZE as int
    } else {
        m
    }
}

/// The in-order walk of the directory subtree at `adr`, as `FileDir`
/// enumerates it: the leftmost child, then each entry followed by its right
/// child. A page already entered (a cyclic directory) or address 0 adds
/// nothing; a bad page or address fails the walk. Each nested page is a new
/// sector, so a walk never nests deeper than the image has sectors; `fuel`
/// bounds the nesting and is given that many.
pub open spec fn walk_spec(img: ImageState, adr: u32, st: WalkState, fuel: nat) -> Result<WalkState, ImageError>
    decreases fuel, 0int, 0int,
{
    let s = (adr / 29) as int;
    if adr == 0 {
        Ok(st)
    } else if s < st.seen.len() && st.seen[s] {
        Ok(st)
    } else if fuel == 0 {
        Ok(st)
    } else {
        let st1 = if s < st.seen.len() { WalkState { seen: st.seen.update(s, true), ..st } } else { st };
        match sector_spec(img, adr) {
            Err(e) => Err(e),
            Ok(page) => {
                if le_u32(page, 0) != DIR_MARK {
                    Err(ImageError::BadDirMark)
                } else {
                    match walk_spec(img, le_u32(page, OFF_DIR_P0 as int), st1, (fuel - 1) as nat) {
                        Err(e) => Err(e),
                        Ok(st2) => walk_entries(img, page, 0, page_entries(page), st2, (fuel - 1) as nat),
                    }
                }
            },
        }
    }
}

/// Entries `i..m` of directory page `page`, each followed by its right subtree.
pub open spec fn walk_entries(
    img: ImageState,
    page: Seq<u8>,
    i: int,
    m: int,
    st: WalkState,
    fuel: nat,
) -> Result<WalkState, ImageError>
    decreases fuel, 1int, m - i,
{
    if i >= m || i < 0 {
        Ok(st)
    } else {
        let base = OFF_DIR_E + i * DIR_ENTRY_SIZE;
        let st1 = match field_name(page.subrange(base, base + FN_LENGTH)) {
            Some(name) => WalkState { out: st.out.push((name, le_u32(page, base + FN_LENGTH))), ..st },
            None => st,
        };
        match walk_spec(img, le_u32(page, base + FN_LENGTH + 4), st1, fuel) {
            Err(e) => Err(e),
            Ok(st2) => walk_entries(img, page, i + 1, m, st2, fuel),
        }
    }
}

/// Every file of the directory, in name order: the walk from the root with
/// nothing entered yet.
pub open spec fn entries_spec(img: ImageState) -> Result<Seq<(Seq<char>, u32)>, ImageError> {
    let n = sector_count(img) + 1;
    match walk_spec(
        img,
        DIR_ROOT_ADR,
        WalkState { out: Seq::empty(), seen: Seq::new(n as nat, |i: int| false) },
        (n + 1) as nat,
    ) {
        Ok(st) => Ok(st.out),
        Err(e) => Err(e),
    }
}

/// Entering a sector not entered before leaves one fewer to enter.
proof fn lemma_count_unseen_mark(seen: Seq<bool>, s: int)
    requires
        0 <= s < seen.len(),
        !seen[s],
    ensures
        count_unseen(seen.update(s, true)) + 1 == count_unseen(seen),
    decreases seen.len(),
{
    let t = seen.update(s, true);
    if s < seen.len() - 1 {
        assert(t.drop_last() =~= seen.drop_last().update(s, true));
        lemma_count_unseen_mark(seen.drop_last(), s);
    } else {
        assert(t.drop_last() =~= seen.drop_last());
    }
}

/// Entering more sectors never leaves more to enter.
proof fn lemma_count_unseen_mono(a: Seq<bool>, b: Seq<bool>)
    requires
        a.len() == b.len(),
        forall|i: int| 0 <= i < a.len() && #[trigger] a[i] ==> b[i],
    ensures
        count_unseen(b) <= count_unseen(a),
    decreases a.len(),
{
    if a.len() > 0 {
        lemma_count_unseen_mono(a.drop_last(), b.drop_last());
    }
}

/// All `n` sectors are yet to be entered.
proof fn lemma_count_unseen_all(n: nat)
    ensures
        count_unseen(Seq::new(n, |i: int| false)) == n,
    decreases n,
{
    if n > 0 {
        assert(Seq::new(n, |i: int| false).drop_last() =~= Seq::new((n - 1) as nat, |i: int| false));
        lemma_count_unseen_all((n - 1) as nat);
    }
}

impl Image {
    /// The walk state of `out` and `seen`.
    spec fn walk_state(out: Seq<Entry>, seen: Seq<bool>) -> WalkState {
        WalkState { out: out.map_values(|e: Entry| entry_view(e)), seen }
    }

    /// In-order B-tree walk of the subtree at `adr`, collecting every entry into
    /// `out`; `seen` guards against a cyclic or corrupt directory.
    fn walk(&self, adr: u32, out: &mut Vec<Entry>, seen: &mut Vec<bool>, Ghost(fuel): Ghost<nat>) -> (r: Result<(), ImageError>)
        requires
            old(seen)@.len() == sector_count(self@) + 1,
            fuel >= count_unseen(old(seen)@) + 1,
        ensures
            final(seen)@.len() == old(seen)@.len(),
            forall|i: int| 0 <= i < old(seen)@.len() && #[trigger] old(seen)@[i] ==> final(seen)@[i],
            match r {
                Ok(()) => walk_spec(self@, adr, Self::walk_state(old(out)@, old(seen)@), fuel) == Ok::<
                    WalkState,
                    ImageError,
                >(Self::walk_state(final(out)@, final(seen)@)),
                Err(e) => walk_spec(self@, adr, Self::walk_state(old(out)@, old(seen)@), fuel) == Err::<
                    WalkState,
                    ImageError,
                >(e),
            },
        decreases fuel,
    {
        proof {
            use_type_invariant(self);
        }
        let ghost st0 = Self::walk_state(out@, seen@);
        if adr == 0 {
            return Ok(());
        }
        let s = (adr / 29) as usize;
        if s < seen.len() {
            if seen[s] {
                return Ok(());
            }
            proof {
                lemma_count_unseen_mark(seen@, s as int);
            }
            seen.set(s, true);
        }
        let ghost st1 = Self::walk_state(out@, seen@);
        assert(st1 == (if (s as int) < st0.seen.len() {
            WalkState { seen: st0.seen.update(s as int, true), ..st0 }
        } else {
            st0
        }));
        let page = match self.sector(adr) {
            Ok(p) => p,
            Err(e) => return Err(e),
        };
        proof {
            // A sector that reads is one of the image's, so it was counted.
            let n = sector_count(self@);
            vstd::arithmetic::div_mod::lemma_fundamental_div_mod(
                self@.data.len() - self@.base,
                SECTOR_SIZE as int,
            );
            assert(s as int <= n) by (nonlinear_arith)
                requires
                    self@.base + (s - 1) * 1024 + 1024 <= self@.data.len(),
                    self@.data.len() - self@.base == 1024 * n + (self@.data.len() - self@.base) % 1024,
                    0 <= (self@.data.len() - self@.base) % 1024 < 1024,
                    s >= 1;
        }
        if rd_u32(page.as_slice(), 0) != DIR_MARK {
            return Err(ImageError::BadDirMark);
        }
        let mraw = rd_u32(page.as_slice(), OFF_DIR_M);
        let m: usize = if mraw >= 0x8000_0000 {
            0
        } else if mraw as usize > DIR_PG_SIZE {
            DIR_PG_SIZE
        } else {
            mraw as usize
        };
        assert(m as int == page_entries(page@));
        let ghost seen1 = seen@;
        let res = self.walk(rd_u32(page.as_slice(), OFF_DIR_P0), out, seen, Ghost((fuel - 1) as nat));
        assert forall|j: int| 0 <= j < old(seen)@.len() && #[trigger] old(seen)@[j] implies seen@[j] by {
            assert(seen1[j]);
        }
        match res {
            Ok(()) => {},
            Err(e) => return Err(e),
        }
        proof {
            lemma_count_unseen_mono(seen1, seen@);
        }
        let ghost target = walk_entries(
            self@,
            page@,
            0,
            m as int,
            Self::walk_state(out@, seen@),
            (fuel - 1) as nat,
        );
        assert(walk_spec(self@, adr, st0, fuel) == target);
        let mut i: usize = 0;
        while i < m
            invariant
                m <= DIR_PG_SIZE,
                page@.len() == SECTOR_SIZE,
                i <= m,
                old(seen)@.len() == sector_count(self@) + 1,
                seen@.len() == old(seen)@.len(),
                forall|j: int| 0 <= j < old(seen)@.len() && #[trigger] old(seen)@[j] ==> seen@[j],
                count_unseen(seen@) + 2 <= fuel,
                st0 == Self::walk_state(old(out)@, old(seen)@),
                walk_spec(self@, adr, st0, fuel) == target,
                target == walk_entries(
                    self@,
                    page@,
                    i as int,
                    m as int,
                    Self::walk_state(out@, seen@),
                    (fuel - 1) as nat,
                ),
            decreases m - i,
        {
            let base = OFF_DIR_E + i * DIR_ENTRY_SIZE;
            let field = vstd::slice::slice_subrange(page.as_slice(), base, base + FN_LENGTH);
            let ghost cur = seen@;
            let ghost before = Self::walk_state(out@, seen@);
            match read_name(field) {
                Some(name) => {
                    let header = rd_u32(page.as_slice(), base + FN_LENGTH);
                    let ghost ev = (name@, header);
                    out.push(Entry { name, header });
                    assert(out@.map_values(|e: Entry| entry_view(e)) =~= before.out.push(ev));
                },
                None => {},
            }
            assert(Self::walk_state(out@, seen@) == match field_name(
                page@.subrange(base as int, base + FN_LENGTH),
            ) {
                Some(name) => WalkState {
                    out: before.out.push((name, le_u32(page@, base + FN_LENGTH))),
                    ..before
                },
                None => before,
            });
            let res = self.walk(
                rd_u32(page.as_slice(), base + FN_LENGTH + 4),
                out,
                seen,
                Ghost((fuel - 1) as nat),
            );
            assert forall|j: int| 0 <= j < old(seen)@.len() && #[trigger] old(seen)@[j] implies seen@[j] by {
                assert(cur[j]);
            }
            match res {
                Ok(()) => {},
                Err(e) => return Err(e),
            }
            proof {
                lemma_count_unseen_mono(cur, seen@);
            }
            i = i + 1;
        }
        Ok(())
    }

    /// Every file in the directory, in name order.
    pub fn entries(&self) -> (r: Result<Vec<Entry>, ImageError>)
        ensures
            match r {
                Ok(v) => entries_spec(self@) == Ok::<Seq<(Seq<char>, u32)>, ImageError>(
                    v@.map_values(|e: Entry| entry_view(e)),
                ),
                Err(e) => entries_spec(self@) == Err::<Seq<(Seq<char>, u32)>, ImageError>(e),
            },
    {
        proof {
            use_type_invariant(self);
        }
        let n = (self.data.len() - self.base) / SECTOR_SIZE + 1;
        let mut seen = vec![false; n];
        let mut out: Vec<Entry> = Vec::new();
        proof {
            lemma_count_unseen_all(n as nat);
            assert(seen@ =~= Seq::new(n as nat, |i: int| false));
            assert(out@.map_values(|e: Entry| entry_view(e)) =~= Seq::<(Seq<char>, u32)>::empty());
        }
        match self.walk(DIR_ROOT_ADR, &mut out, &mut seen, Ghost((n + 1) as nat)) {
            Ok(()) => Ok(out),
            Err(e) => Err(e),
        }
    }
}

} // verus!
