use std::io::Read;

use uvr::installer::tar_compat::{LinkSizeFix, ReadStep};

const BLOCK: usize = 512;

/// A reader whose bytes go through a [`LinkSizeFix`].
struct Fixed<R: Read> {
    fix: LinkSizeFix,
    inner: R,
}

impl<R: Read> Fixed<R> {
    fn new(inner: R) -> Self {
        Fixed {
            fix: LinkSizeFix::new(),
            inner,
        }
    }
}

impl<R: Read> Read for Fixed<R> {
    fn read(&mut self, out: &mut [u8]) -> std::io::Result<usize> {
        loop {
            match self.fix.next_step(out.len()) {
                ReadStep::Done => return Ok(0),
                ReadStep::Serve(bytes) => {
                    out[..bytes.len()].copy_from_slice(&bytes);
                    return Ok(bytes.len());
                }
                ReadStep::PassThrough(want) => {
                    let n = self.inner.read(&mut out[..want])?;
                    self.fix.passed(n);
                    return Ok(n);
                }
                ReadStep::FillBlock => {
                    let mut block = [0u8; BLOCK];
                    while !self.fix.block_done() {
                        let want = self.fix.wanted();
                        let n = self.inner.read(&mut block[..want])?;
                        self.fix.absorb(&block[..n]);
                    }
                    self.fix.finish_block();
                }
            }
        }
    }
}


/// Build a raw tar header the way R's internal tar does for a symlink:
/// link target in `linkname`, but `size` set to the target's byte count.
fn r_style_symlink_header(path: &str, target: &str, bogus_size: u64) -> [u8; BLOCK] {
    let mut h = tar::Header::new_gnu();
    h.set_path(path).unwrap();
    h.set_entry_type(tar::EntryType::Symlink);
    h.set_link_name(target).unwrap();
    h.set_size(bogus_size);
    h.set_mode(0o777);
    h.set_cksum();
    let mut out = [0u8; BLOCK];
    out.copy_from_slice(h.as_bytes());
    out
}

fn regular_file(path: &str, content: &[u8]) -> Vec<u8> {
    let mut h = tar::Header::new_gnu();
    h.set_path(path).unwrap();
    h.set_size(content.len() as u64);
    h.set_mode(0o644);
    h.set_cksum();
    let mut out = Vec::new();
    out.extend_from_slice(h.as_bytes());
    out.extend_from_slice(content);
    let pad = (BLOCK - content.len() % BLOCK) % BLOCK;
    out.extend(std::iter::repeat_n(0u8, pad));
    out
}

/// Archive layout mirroring the RcppParallel P3M tarball (#203): a
/// symlink whose header claims a multi-MB size, immediately followed by
/// another entry. Without the fix, the tar crate skips "size" bytes and
/// dies with a cksum parse error; with it, everything parses.
fn bogus_archive() -> Vec<u8> {
    let mut ar = Vec::new();
    ar.extend_from_slice(&regular_file("pkg/DESCRIPTION", b"Package: pkg\n"));
    ar.extend_from_slice(&r_style_symlink_header(
        "pkg/lib/libtbb.so",
        "libtbb.so.2",
        5_078_648,
    ));
    ar.extend_from_slice(&regular_file("pkg/lib/after.txt", b"survived"));
    ar.extend(std::iter::repeat_n(0u8, BLOCK * 2)); // end-of-archive
    ar
}

#[test]
fn unfixed_stream_reproduces_the_bug() {
    // Guard test: prove the raw stream really does break the tar crate,
    // so the fix below is testing something real.
    let raw = bogus_archive();
    let mut archive = tar::Archive::new(&raw[..]);
    let result: std::result::Result<Vec<_>, _> = archive.entries().unwrap().collect();
    assert!(
        result.is_err(),
        "tar crate should choke on R-style symlink sizes"
    );
}

#[test]
fn fixed_stream_parses_all_entries_and_preserves_content() {
    let raw = bogus_archive();
    let mut archive = tar::Archive::new(Fixed::new(&raw[..]));
    let mut names = Vec::new();
    let mut after_content = String::new();
    let mut link_target = None;
    for entry in archive.entries().unwrap() {
        let mut e = entry.expect("entry parses after size fix");
        names.push(e.path().unwrap().display().to_string());
        if names.last().unwrap().ends_with("after.txt") {
            e.read_to_string(&mut after_content).unwrap();
        }
        if e.header().entry_type() == tar::EntryType::Symlink {
            link_target = e.link_name().unwrap().map(|p| p.display().to_string());
        }
    }
    assert_eq!(
        names,
        vec!["pkg/DESCRIPTION", "pkg/lib/libtbb.so", "pkg/lib/after.txt"]
    );
    assert_eq!(after_content, "survived");
    assert_eq!(link_target.as_deref(), Some("libtbb.so.2"));
}

#[test]
fn conforming_archives_pass_through_byte_identical() {
    // A well-formed archive (symlink size 0, long names, subdirs) must
    // come through completely unmodified.
    let mut buf = Vec::new();
    {
        let mut builder = tar::Builder::new(&mut buf);
        let mut h = tar::Header::new_gnu();
        h.set_path("pkg/DESCRIPTION").unwrap();
        h.set_size(4);
        h.set_mode(0o644);
        h.set_cksum();
        builder.append(&h, &b"abcd"[..]).unwrap();
        let mut s = tar::Header::new_gnu();
        s.set_path("pkg/link").unwrap();
        s.set_entry_type(tar::EntryType::Symlink);
        s.set_link_name("DESCRIPTION").unwrap();
        s.set_size(0);
        s.set_cksum();
        builder.append(&s, std::io::empty()).unwrap();
        // A name long enough to force a GNU 'L' long-name entry, whose
        // data blocks must NOT be treated as headers.
        let long = format!("pkg/{}/file.txt", "d".repeat(120));
        let mut l = tar::Header::new_gnu();
        l.set_size(2);
        l.set_mode(0o644);
        l.set_cksum();
        builder.append_data(&mut l, &long, &b"ok"[..]).unwrap();
        builder.finish().unwrap();
    }
    let mut fixed = Vec::new();
    Fixed::new(&buf[..]).read_to_end(&mut fixed).unwrap();
    assert_eq!(
        buf, fixed,
        "conforming archive must pass through unmodified"
    );
}

#[test]
fn hardlink_with_bogus_size_is_also_normalized() {
    let mut ar = Vec::new();
    ar.extend_from_slice(&regular_file("pkg/a.txt", b"aa"));
    let mut h = tar::Header::new_gnu();
    h.set_path("pkg/b.txt").unwrap();
    h.set_entry_type(tar::EntryType::Link);
    h.set_link_name("pkg/a.txt").unwrap();
    h.set_size(1234);
    h.set_cksum();
    ar.extend_from_slice(h.as_bytes());
    ar.extend_from_slice(&regular_file("pkg/c.txt", b"cc"));
    ar.extend(std::iter::repeat_n(0u8, BLOCK * 2));

    let mut archive = tar::Archive::new(Fixed::new(&ar[..]));
    let names: Vec<String> = archive
        .entries()
        .unwrap()
        .map(|e| e.unwrap().path().unwrap().display().to_string())
        .collect();
    assert_eq!(names, vec!["pkg/a.txt", "pkg/b.txt", "pkg/c.txt"]);
}

#[test]
fn fixing_keeps_the_length_and_is_done_once() {
    let raw = bogus_archive();
    let mut once = Vec::new();
    Fixed::new(&raw[..]).read_to_end(&mut once).unwrap();
    assert_eq!(once.len(), raw.len());
    assert_ne!(once, raw);
    let mut twice = Vec::new();
    Fixed::new(&once[..]).read_to_end(&mut twice).unwrap();
    assert_eq!(twice, once);
    // A stream that breaks off is handed out as far as it goes.
    let mut cut = Vec::new();
    Fixed::new(&raw[..700]).read_to_end(&mut cut).unwrap();
    assert_eq!(cut, &raw[..700]);
}

#[test]
fn only_the_size_and_the_checksum_of_a_link_change() {
    let raw = bogus_archive();
    let mut fixed = Vec::new();
    Fixed::new(&raw[..]).read_to_end(&mut fixed).unwrap();
    let changed: Vec<usize> = (0..raw.len()).filter(|i| raw[*i] != fixed[*i]).collect();
    assert!(!changed.is_empty());
    let header = changed[0] / BLOCK * BLOCK;
    assert_eq!(raw[header + 156], b'2');
    for i in changed {
        let at = i - header;
        assert!((124..136).contains(&at) || (148..156).contains(&at), "{at}");
    }
}
