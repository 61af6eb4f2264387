use std::cell::RefCell;
use std::rc::Rc;

use risc_core::disk::{BlockStore, Disk, FS_OFFSET};
use risc_core::io::Spi;

/// An image held in memory, shared so a test can look at what was written.
struct MemImage {
    bytes: Rc<RefCell<Vec<u8>>>,
    pos: usize,
}

impl BlockStore for MemImage {
    fn seek(&mut self, pos: u64) {
        self.pos = pos as usize;
    }
    fn read_block(&mut self) -> Vec<u8> {
        let bytes = self.bytes.borrow();
        let start = self.pos.min(bytes.len());
        let end = (self.pos + 512).min(bytes.len());
        self.pos = end;
        bytes[start..end].to_vec()
    }
    fn write_block(&mut self, block: &[u8]) {
        let mut bytes = self.bytes.borrow_mut();
        if bytes.len() < self.pos + block.len() {
            bytes.resize(self.pos + block.len(), 0);
        }
        bytes[self.pos..self.pos + block.len()].copy_from_slice(block);
        self.pos += block.len();
    }
}

fn disk_over(img: &Rc<RefCell<Vec<u8>>>) -> Disk {
    Disk::new(Some(Box::new(MemImage { bytes: img.clone(), pos: 0 })))
}

fn sector_bytes(words: &[u32]) -> Vec<u8> {
    let mut v = vec![0u8; 512];
    for (i, w) in words.iter().enumerate() {
        v[i * 4..i * 4 + 4].copy_from_slice(&w.to_le_bytes());
    }
    v
}

fn send_command(disk: &mut Disk, cmd: u32, arg: u32) {
    disk.write_data(cmd);
    disk.write_data((arg >> 24) & 0xFF);
    disk.write_data((arg >> 16) & 0xFF);
    disk.write_data((arg >> 8) & 0xFF);
    disk.write_data(arg & 0xFF);
    disk.write_data(0xFF); // CRC byte (ignored)
}

#[test]
fn detects_filesystem_only_image_magic() {
    let mut img = vec![0u8; 1024];
    img[0..4].copy_from_slice(&0x9B1E_A38Du32.to_le_bytes());
    let disk = disk_over(&Rc::new(RefCell::new(img)));
    assert_eq!(disk.offset(), 0x8_0002);

    let disk2 = disk_over(&Rc::new(RefCell::new(vec![0u8; 1024])));
    assert_eq!(disk2.offset(), 0);
}

#[test]
fn read_command_returns_response_then_sector() {
    let mut img = vec![0u8; 512 * 4];
    let s1: Vec<u32> = (0..128).map(|i| 0x1000_0000 + i as u32).collect();
    img[512..1024].copy_from_slice(&sector_bytes(&s1));

    let mut disk = disk_over(&Rc::new(RefCell::new(img)));
    assert_eq!(disk.offset(), 0);

    send_command(&mut disk, 81, 1); // read sector 1
    let resp: Vec<u32> = (0..130)
        .map(|_| {
            disk.write_data(0xFF);
            disk.read_data()
        })
        .collect();

    assert_eq!(resp[0], 0, "R1 response");
    assert_eq!(resp[1], 254, "data token");
    assert_eq!(&resp[2..130], &s1[..], "sector payload");
    // Further reads after the payload yield idle 0xFF (255).
    disk.write_data(0xFF);
    assert_eq!(disk.read_data(), 255);
}

#[test]
fn write_command_persists_sector() {
    let img = Rc::new(RefCell::new(vec![0u8; 512 * 4]));
    let s2: Vec<u32> = (0..128).map(|i| 0xABCD_0000 + i as u32).collect();

    {
        let mut disk = disk_over(&img);
        send_command(&mut disk, 88, 2); // write sector 2
        disk.write_data(0xFF); // clock out R1
        assert_eq!(disk.read_data(), 0);
        disk.write_data(254); // data token -> Writing
        for &w in &s2 {
            disk.write_data(w);
        }
        disk.write_data(0xFF); // two trailing CRC bytes -> finalize
        disk.write_data(0xFF);
        // One more clock cycle to shift out the data-accepted token (5).
        disk.write_data(0xFF);
        assert_eq!(disk.read_data(), 5);
    }

    let written = img.borrow();
    assert_eq!(&written[1024..1536], &sector_bytes(&s2)[..]);
}

#[test]
fn diskless_reads_idle() {
    let mut disk = Disk::new(None);
    disk.write_data(0xFF); // leading idle byte at rx_idx 0 is ignored
    assert_eq!(disk.read_data(), 255);
}

#[test]
fn unknown_command_returns_single_status_byte() {
    let mut disk = disk_over(&Rc::new(RefCell::new(vec![0u8; 512])));
    send_command(&mut disk, 0, 0); // CMD0 (GO_IDLE) is not modelled
    disk.write_data(0xFF);
    assert_eq!(disk.read_data(), 0);
}

#[test]
fn a_filesystem_only_image_is_addressed_by_rebased_sectors() {
    let mut img = vec![0u8; 512 * 3];
    img[0..4].copy_from_slice(&0x9B1E_A38Du32.to_le_bytes());
    img[1024..1028].copy_from_slice(&0x0102_0304u32.to_le_bytes());
    let mut disk = disk_over(&Rc::new(RefCell::new(img)));
    // Sector FS_OFFSET + 2 of the card is block 2 of the image.
    send_command(&mut disk, 81, FS_OFFSET + 2);
    let resp: Vec<u32> = (0..3)
        .map(|_| {
            disk.write_data(0xFF);
            disk.read_data()
        })
        .collect();
    assert_eq!(resp, [0, 254, 0x0102_0304]);
}

#[test]
fn a_short_image_reads_zeros_past_its_end() {
    let img = vec![0x11u8; 512];
    let mut disk = disk_over(&Rc::new(RefCell::new(img)));
    send_command(&mut disk, 81, 5);
    let resp: Vec<u32> = (0..130)
        .map(|_| {
            disk.write_data(0xFF);
            disk.read_data()
        })
        .collect();
    assert!(resp[2..].iter().all(|&w| w == 0));
}
