use std::cell::RefCell;
use std::collections::HashMap;
use std::rc::Rc;

use risc_core::io::Serial;
use risc_core::pclink::{Job, LinkHost, PcLink, ACK, REC, SND};

/// A directory held in memory: file name to contents.
type Dir = Rc<RefCell<HashMap<String, Vec<u8>>>>;

/// A host over an in-memory directory.
struct MemHost {
    dir: Dir,
    open: Option<(String, usize)>,
}

fn job_file(job: Job) -> &'static str {
    match job {
        Job::Rec => "PCLink.REC",
        Job::Snd => "PCLink.SND",
    }
}

impl LinkHost for MemHost {
    fn job_size(&mut self, job: Job) -> Option<u64> {
        self.dir.borrow().get(job_file(job)).map(|d| d.len() as u64)
    }
    fn job_text(&mut self, job: Job) -> Option<String> {
        let d = self.dir.borrow().get(job_file(job)).cloned()?;
        String::from_utf8(d).ok()
    }
    fn remove_job(&mut self, job: Job) {
        self.dir.borrow_mut().remove(job_file(job));
    }
    fn file_size(&mut self, name: &str) -> Option<u64> {
        self.dir.borrow().get(name).map(|d| d.len() as u64)
    }
    fn open(&mut self, name: &str) -> bool {
        if self.dir.borrow().contains_key(name) {
            self.open = Some((name.to_string(), 0));
            true
        } else {
            false
        }
    }
    fn create(&mut self, name: &str) -> bool {
        self.dir.borrow_mut().insert(name.to_string(), Vec::new());
        self.open = Some((name.to_string(), 0));
        true
    }
    fn read_byte(&mut self) -> u8 {
        let Some((name, pos)) = self.open.as_mut() else { return 0 };
        let b = self.dir.borrow().get(name.as_str()).and_then(|d| d.get(*pos).copied()).unwrap_or(0);
        *pos += 1;
        b
    }
    fn write(&mut self, bytes: &[u8]) {
        if let Some((name, _)) = &self.open {
            self.dir.borrow_mut().get_mut(name.as_str()).unwrap().extend_from_slice(bytes);
        }
    }
    fn close(&mut self) {
        self.open = None;
    }
    fn remove_file(&mut self, name: &str) {
        self.dir.borrow_mut().remove(name);
    }
}

fn link(dir: &Dir) -> PcLink {
    PcLink::new(Box::new(MemHost { dir: dir.clone(), open: None }))
}

fn dir_with(files: &[(&str, &[u8])]) -> Dir {
    Rc::new(RefCell::new(files.iter().map(|(n, d)| (n.to_string(), d.to_vec())).collect()))
}

#[test]
fn idle_status_is_xmit_ready() {
    let dir = dir_with(&[]);
    let mut pc = link(&dir);
    assert_eq!(pc.read_status(), 2); // tx ready, not active
}

#[test]
fn rec_sends_host_file_to_oberon() {
    let dir = dir_with(&[("payload.txt", b"Hello, Oberon!"), ("PCLink.REC", b"payload.txt")]);

    let mut pc = link(&dir);
    assert_eq!(pc.read_status(), 3); // REC active

    assert_eq!(pc.read_data(), REC); // mode byte
    pc.write_data(ACK); // handshake

    // Filename + NUL terminator.
    let mut name = b"payload.txt".to_vec();
    name.push(0);
    for &b in &name {
        assert_eq!(pc.read_data() as u8, b);
    }

    // Block: length (14), the 14 payload bytes, then a 0-length terminator.
    assert_eq!(pc.read_data(), 14);
    let mut got = Vec::new();
    for _ in 0..14 {
        got.push(pc.read_data() as u8);
    }
    assert_eq!(&got, b"Hello, Oberon!");
    assert_eq!(pc.read_data(), 0); // end of file
    assert_eq!(pc.read_status(), 2); // transfer done, idle again
    assert!(!dir.borrow().contains_key("PCLink.REC"));
}

#[test]
fn snd_receives_oberon_file_to_host() {
    let dir = dir_with(&[("PCLink.SND", b"out.txt")]);

    let mut pc = link(&dir);
    assert_eq!(pc.read_status(), 3); // SND active

    assert_eq!(pc.read_data(), SND); // mode byte
    pc.write_data(ACK); // handshake

    // Advance past the echoed filename + NUL ("out.txt" + NUL = 8).
    for _ in 0..8 {
        pc.read_data();
    }

    // Oberon sends one block of "Hi": length byte then the two bytes.
    pc.write_data(2);
    pc.write_data(b'H' as u32);
    pc.write_data(b'i' as u32);

    assert_eq!(pc.read_data(), ACK); // completion; mode clears (flen == 0)
    assert_eq!(pc.read_status(), 2);
    assert_eq!(dir.borrow().get("out.txt").unwrap(), b"Hi");
}

#[test]
fn a_long_file_goes_in_blocks_of_255() {
    let payload: Vec<u8> = (0..300u32).map(|i| (i % 256) as u8).collect();
    let dir = dir_with(&[("big.bin", &payload), ("PCLink.REC", b"  big.bin\n")]);
    let mut pc = link(&dir);
    assert_eq!(pc.read_status(), 3);
    assert_eq!(pc.read_data(), REC);
    pc.write_data(ACK);
    for &b in b"big.bin\0" {
        assert_eq!(pc.read_data() as u8, b);
    }
    assert_eq!(pc.read_data(), 255);
    let mut got: Vec<u8> = (0..255).map(|_| pc.read_data() as u8).collect();
    assert_eq!(pc.read_data(), 45);
    got.extend((0..45).map(|_| pc.read_data() as u8));
    assert_eq!(got, payload);
    assert_eq!(pc.read_data(), 0);
    assert_eq!(pc.read_status(), 2);
}

#[test]
fn a_refused_handshake_abandons_the_job() {
    let dir = dir_with(&[("PCLink.SND", b"out.txt")]);
    let mut pc = link(&dir);
    assert_eq!(pc.read_status(), 3);
    pc.write_data(0x55); // not ACK
    assert_eq!(pc.read_status(), 2);
    assert!(!dir.borrow().contains_key("out.txt"));
    assert!(!dir.borrow().contains_key("PCLink.SND"));
}

#[test]
fn unusable_jobs_are_deleted() {
    // An empty job, a job naming a missing file, and one too long to be a name.
    let dir = dir_with(&[("PCLink.REC", b"")]);
    assert_eq!(link(&dir).read_status(), 2);
    assert!(!dir.borrow().contains_key("PCLink.REC"));

    let dir = dir_with(&[("PCLink.REC", b"missing.txt")]);
    assert_eq!(link(&dir).read_status(), 2);
    assert!(!dir.borrow().contains_key("PCLink.REC"));

    let dir = dir_with(&[("PCLink.SND", &[b'a'; 40])]);
    assert_eq!(link(&dir).read_status(), 2);
    assert!(!dir.borrow().contains_key("PCLink.SND"));
}

#[test]
fn a_job_name_is_cut_to_31_chars() {
    let name = "abcdefghijklmnopqrstuvwxyz0123456"; // 33 chars, the most a job may hold
    let dir = dir_with(&[("PCLink.SND", name.as_bytes())]);
    let mut pc = link(&dir);
    assert_eq!(pc.read_status(), 3);
    assert_eq!(pc.read_data(), SND);
    let sent: Vec<u8> = (0..32).map(|_| pc.read_data() as u8).collect();
    assert_eq!(&sent[..31], &name.as_bytes()[..31]);
    assert_eq!(sent[31], 0);
    assert!(dir.borrow().contains_key(&name[..31]));
}
