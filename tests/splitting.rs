use zstd_lines::block::{is_tar_header, BLOCK_SIZE, MAGIC_OFFSET};
use zstd_lines::mode::{mode_for_stem, Mode};
use zstd_lines::split::LineSplitter;
use zstd_lines::text::decode_lines;

fn metadata_block() -> Vec<u8> {
    let mut b = vec![0u8; BLOCK_SIZE];
    b[MAGIC_OFFSET..MAGIC_OFFSET + 5].copy_from_slice(b"ustar");
    b
}

fn texts(lines: Vec<Vec<u8>>) -> Vec<Option<String>> {
    decode_lines(lines)
}

fn run_archive(blocks: &[Vec<u8>]) -> Vec<Vec<u8>> {
    let mut s = LineSplitter::new();
    let mut out = Vec::new();
    for b in blocks {
        out.extend(s.push_block(b));
    }
    out.extend(s.flush());
    out
}

fn run_plain(data: &[u8]) -> Vec<Vec<u8>> {
    let mut s = LineSplitter::new();
    let mut out = s.push_bytes(data);
    out.extend(s.flush());
    out
}

#[test]
fn plain_stream_two_lines() {
    let lines = run_plain(b"x\ny\n");
    assert_eq!(texts(lines), vec![Some("x".to_string()), Some("y".to_string())]);
}

#[test]
fn archive_metadata_then_payload() {
    let blocks = vec![metadata_block(), b"alpha\nbeta".to_vec()];
    let lines = run_archive(&blocks);
    assert_eq!(texts(lines), vec![Some("alpha".to_string()), Some("beta".to_string())]);
}

#[test]
fn plain_round_trip_restores_stream() {
    let data = b"one\n\ntwo\nthree";
    let lines = run_plain(data);
    let mut joined = Vec::new();
    for l in &lines {
        joined.extend_from_slice(l);
        joined.push(b'\n');
    }
    assert_eq!(joined, b"one\n\ntwo\nthree\n".to_vec());
    assert_eq!(lines.len(), 4);
}

#[test]
fn metadata_block_flushes_pending_line() {
    let blocks = vec![b"abc".to_vec(), metadata_block(), b"def\n".to_vec()];
    let lines = run_archive(&blocks);
    assert_eq!(lines, vec![b"abc".to_vec(), b"def".to_vec()]);
}

#[test]
fn metadata_block_content_yields_no_line() {
    let mut s = LineSplitter::new();
    let mut meta = metadata_block();
    meta[10] = b'\n';
    meta[20] = b'\n';
    assert!(s.push_block(&meta).is_empty());
    assert!(s.pending().is_empty());
}

#[test]
fn line_split_across_payload_blocks() {
    let mut first = vec![b'a'; BLOCK_SIZE - 3];
    first.extend_from_slice(b"hel");
    let blocks = vec![first.clone(), b"lo\nnext".to_vec()];
    let lines = run_archive(&blocks);
    let mut whole = vec![b'a'; BLOCK_SIZE - 3];
    whole.extend_from_slice(b"hello");
    assert_eq!(lines, vec![whole, b"next".to_vec()]);
}

#[test]
fn unterminated_tail_is_final_line() {
    let lines = run_plain(b"first\nlast");
    assert_eq!(lines, vec![b"first".to_vec(), b"last".to_vec()]);
    let lines = run_archive(&[b"first\nlast".to_vec()]);
    assert_eq!(lines, vec![b"first".to_vec(), b"last".to_vec()]);
}

#[test]
fn lone_metadata_block_yields_nothing() {
    let lines = run_archive(&[metadata_block()]);
    assert!(lines.is_empty());
}

#[test]
fn invalid_line_does_not_disturb_next() {
    let mut s = LineSplitter::new();
    let lines = s.push_bytes(b"ok\n\xff\xfe\nnext\n");
    assert!(s.pending().is_empty());
    let t = texts(lines);
    assert_eq!(t, vec![Some("ok".to_string()), None, Some("next".to_string())]);
}

#[test]
fn empty_lines_are_kept_and_empty_stream_yields_none() {
    assert_eq!(run_plain(b"\n\n"), vec![Vec::<u8>::new(), Vec::new()]);
    assert!(run_plain(b"").is_empty());
    assert!(run_archive(&[]).is_empty());
}

#[test]
fn decode_gives_text_not_bytes() {
    let t = decode_lines(vec![b"caf\xc3\xa9".to_vec(), Vec::new(), vec![0xc3]]);
    assert_eq!(t, vec![Some("café".to_string()), Some(String::new()), None]);
}

#[test]
fn header_needs_full_block_and_magic() {
    assert!(is_tar_header(&metadata_block()));
    let short = metadata_block()[..BLOCK_SIZE - 1].to_vec();
    assert!(!is_tar_header(&short));
    let mut wrong = metadata_block();
    wrong[MAGIC_OFFSET + 4] = b'x';
    assert!(!is_tar_header(&wrong));
    assert!(!is_tar_header(&vec![0u8; BLOCK_SIZE]));
}

#[test]
fn short_block_with_magic_is_payload() {
    let mut s = LineSplitter::new();
    let mut short = vec![b'z'; 300];
    short[MAGIC_OFFSET..MAGIC_OFFSET + 5].copy_from_slice(b"ustar");
    assert!(s.push_block(&short).is_empty());
    assert_eq!(s.pending().len(), 300);
}

#[test]
fn mode_from_stem() {
    assert_eq!(mode_for_stem("file.jsonl.tar"), Mode::Archive);
    assert_eq!(mode_for_stem(".tar"), Mode::Archive);
    assert_eq!(mode_for_stem("file.jsonl"), Mode::Plain);
    assert_eq!(mode_for_stem("tar"), Mode::Plain);
    assert_eq!(mode_for_stem("file.tar.gz"), Mode::Plain);
    assert_eq!(mode_for_stem(""), Mode::Plain);
}
