use risc_core::image::{
    has_dir_mark, read_name, Image, ImageError, DIR_ENTRY_SIZE, DIR_MARK, FN_LENGTH, HEADER_MARK,
    HEADER_SIZE, OFF_ALENG, OFF_BLENG, OFF_DIR_E, OFF_DIR_M, OFF_DIR_P0, OFF_SEC, SECTOR_SIZE,
};

// The header's name field; only needed to build realistic test headers.
const OFF_NAME: usize = 4;
const NSEC: usize = 16;

fn blank() -> Vec<u8> {
    vec![0u8; NSEC * SECTOR_SIZE]
}

fn at(sector: u32, off: usize) -> usize {
    (sector as usize - 1) * SECTOR_SIZE + off
}
fn put_u32(img: &mut [u8], sector: u32, off: usize, val: u32) {
    img[at(sector, off)..at(sector, off) + 4].copy_from_slice(&val.to_le_bytes());
}
fn put_bytes(img: &mut [u8], sector: u32, off: usize, bytes: &[u8]) {
    img[at(sector, off)..at(sector, off) + bytes.len()].copy_from_slice(bytes);
}
fn put_name(img: &mut [u8], sector: u32, off: usize, name: &str) {
    put_bytes(img, sector, off, name.as_bytes()); // rest stays NUL
}
fn adr(sector: u32) -> u32 {
    sector * 29
}

/// Write a directory entry `i` into the page at `sector`.
fn put_entry(img: &mut [u8], sector: u32, i: usize, name: &str, header: u32, child: u32) {
    let base = OFF_DIR_E + i * DIR_ENTRY_SIZE;
    put_name(img, sector, base, name);
    put_u32(img, sector, base + FN_LENGTH, header);
    put_u32(img, sector, base + FN_LENGTH + 4, child);
}

/// Write a leaf directory page at `sector` from `(name, header)` entries.
fn put_dir_page(img: &mut [u8], sector: u32, p0: u32, entries: &[(&str, u32)]) {
    put_u32(img, sector, 0, DIR_MARK);
    put_u32(img, sector, OFF_DIR_M, entries.len() as u32);
    put_u32(img, sector, OFF_DIR_P0, p0);
    for (i, (name, header)) in entries.iter().enumerate() {
        put_entry(img, sector, i, name, *header, 0);
    }
}

/// Write a single-sector file header at `sector`, with `content` inline.
fn put_small_file(img: &mut [u8], sector: u32, name: &str, content: &[u8]) {
    assert!(content.len() <= SECTOR_SIZE - HEADER_SIZE);
    put_u32(img, sector, 0, HEADER_MARK);
    put_name(img, sector, OFF_NAME, name);
    put_u32(img, sector, OFF_ALENG, 0);
    put_u32(img, sector, OFF_BLENG, (HEADER_SIZE + content.len()) as u32);
    put_u32(img, sector, OFF_SEC, adr(sector)); // sec[0] = this sector
    put_bytes(img, sector, HEADER_SIZE, content);
}

#[test]
fn reads_a_single_small_file() {
    let mut img = blank();
    put_dir_page(&mut img, 1, 0, &[("Hello.Mod", adr(2))]);
    put_small_file(&mut img, 2, "Hello.Mod", b"Hello, Oberon!");

    let image = Image::from_bytes(img).unwrap();
    let entries = image.entries().unwrap();
    assert_eq!(entries.len(), 1);
    assert_eq!(entries[0].name, "Hello.Mod");
    assert_eq!(
        image.read_file(entries[0].header).unwrap(),
        b"Hello, Oberon!"
    );
}

#[test]
fn reconstructs_a_multi_sector_file() {
    let mut img = blank();
    // 1000 content bytes: 672 inline in the header sector, 328 in sector 3.
    let content: Vec<u8> = (0..1000u32).map(|i| (i % 251) as u8).collect();
    put_dir_page(&mut img, 1, 0, &[("Big.Mod", adr(2))]);
    put_u32(&mut img, 2, 0, HEADER_MARK);
    put_name(&mut img, 2, OFF_NAME, "Big.Mod");
    put_u32(&mut img, 2, OFF_ALENG, 1);
    put_u32(
        &mut img,
        2,
        OFF_BLENG,
        (1000 + HEADER_SIZE - SECTOR_SIZE) as u32,
    ); // 328
    put_u32(&mut img, 2, OFF_SEC, adr(2)); // sec[0]
    put_u32(&mut img, 2, OFF_SEC + 4, adr(3)); // sec[1]
    put_bytes(&mut img, 2, HEADER_SIZE, &content[..672]);
    put_bytes(&mut img, 3, 0, &content[672..]);

    let image = Image::from_bytes(img).unwrap();
    let e = &image.entries().unwrap()[0];
    assert_eq!(e.name, "Big.Mod");
    assert_eq!(image.read_file(e.header).unwrap(), content);
}

#[test]
fn walks_the_btree_in_name_order() {
    let mut img = blank();
    // Root holds "M", with p0 -> leaf {"A"} and e[0].p -> leaf {"Z"}.
    put_u32(&mut img, 1, 0, DIR_MARK);
    put_u32(&mut img, 1, OFF_DIR_M, 1);
    put_u32(&mut img, 1, OFF_DIR_P0, adr(4));
    put_entry(&mut img, 1, 0, "M", adr(3), adr(5));
    put_dir_page(&mut img, 4, 0, &[("A", adr(6))]);
    put_dir_page(&mut img, 5, 0, &[("Z", adr(7))]);
    put_small_file(&mut img, 3, "M", b"m");
    put_small_file(&mut img, 6, "A", b"a");
    put_small_file(&mut img, 7, "Z", b"z");

    let image = Image::from_bytes(img).unwrap();
    let names: Vec<_> = image
        .entries()
        .unwrap()
        .into_iter()
        .map(|e| e.name)
        .collect();
    assert_eq!(names, ["A", "M", "Z"]);
}

#[test]
fn rejects_a_non_filesystem_image() {
    let err = Image::from_bytes(vec![0u8; SECTOR_SIZE]).err().unwrap();
    assert_eq!(err, ImageError::NotAFilesystem);
}

#[test]
fn has_dir_mark_finds_the_mark_and_tolerates_out_of_range() {
    let mut d = vec![0u8; 16];
    d[4..8].copy_from_slice(&DIR_MARK.to_le_bytes());
    assert!(has_dir_mark(&d, 4));
    assert!(!has_dir_mark(&d, 0)); // zeros
    assert!(!has_dir_mark(&d, 14)); // past the end -> false, no panic
}

#[test]
fn read_name_enforces_the_oberon_charset() {
    assert_eq!(read_name(b"Kernel.Mod\0\0").as_deref(), Some("Kernel.Mod"));
    assert_eq!(read_name(b"\0").as_deref(), None); // empty
    assert_eq!(read_name(b"9bad\0").as_deref(), None); // must start with a letter
    assert_eq!(read_name(b"a/b\0").as_deref(), None); // no path separators
}

#[test]
fn reading_a_file_checks_its_header() {
    let mut img = blank();
    put_dir_page(&mut img, 1, 0, &[("A", adr(2))]);
    put_small_file(&mut img, 2, "A", b"a");
    let image = Image::from_bytes(img).unwrap();
    // Address 0, past the end, and a sector that is no header.
    assert_eq!(image.read_file(0).err(), Some(ImageError::ZeroAddress));
    assert_eq!(image.read_file(adr(NSEC as u32 + 1)).err(), Some(ImageError::PastEnd));
    assert_eq!(image.read_file(adr(3)).err(), Some(ImageError::BadHeaderMark));
}

#[test]
fn a_full_sd_card_image_is_found_behind_its_prefix() {
    // A directory mark only at the SD-card offset: the filesystem starts there.
    let mut img = vec![0u8; risc_core::image::SD_FS_OFFSET + 2 * SECTOR_SIZE];
    let base = risc_core::image::SD_FS_OFFSET;
    img[base..base + 4].copy_from_slice(&DIR_MARK.to_le_bytes());
    let image = Image::from_bytes(img).unwrap();
    assert_eq!(image.entries().unwrap().len(), 0);
}

#[test]
fn a_directory_page_without_its_mark_is_refused() {
    let mut img = blank();
    put_u32(&mut img, 1, 0, DIR_MARK);
    put_u32(&mut img, 1, OFF_DIR_M, 0);
    put_u32(&mut img, 1, OFF_DIR_P0, adr(4)); // child page 4 holds no mark
    let image = Image::from_bytes(img).unwrap();
    assert_eq!(image.entries().err(), Some(ImageError::BadDirMark));
}
