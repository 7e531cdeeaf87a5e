use danmaku::fingerprint::{
    fingerprint, get_localfile_name, name_or_default, FingerprintError, StreamHash, MAX_SIZE,
};
use md5::Digest;

fn content(len: usize) -> Vec<u8> {
    (0..len).map(|i| (i % 251) as u8).collect()
}

fn expected(window: &[u8]) -> String {
    let digest = md5::Md5::digest(window);
    digest.iter().map(|byte| format!("{:02x}", byte)).collect()
}

#[test]
fn window_is_sixteen_mebibytes() {
    assert_eq!(MAX_SIZE, 16777216);
}

#[test]
fn fingerprint_of_zeros() {
    let zeros = vec![0u8; MAX_SIZE];
    assert_eq!(fingerprint(&zeros).unwrap(), "2c7ab85a893283e98c931e9511add182");
}

#[test]
fn fingerprint_is_the_digest_of_the_window() {
    let data = content(MAX_SIZE + 1000);
    let print = fingerprint(&data).unwrap();
    assert_eq!(print, expected(&data[..MAX_SIZE]));
    assert_eq!(print.len(), 32);
    assert!(print.chars().all(|c| c.is_ascii_digit() || ('a'..='f').contains(&c)));
    assert_eq!(fingerprint(&data[..MAX_SIZE]).unwrap(), print);
}

#[test]
fn same_content_same_fingerprint() {
    let data = content(MAX_SIZE);
    assert_eq!(fingerprint(&data), fingerprint(&data));
    let mut other = data.clone();
    other[MAX_SIZE - 1] ^= 1;
    assert_ne!(fingerprint(&data), fingerprint(&other));
}

#[test]
fn short_content_has_no_fingerprint() {
    assert_eq!(fingerprint(&[]), Err(FingerprintError::InsufficientContent));
    assert_eq!(fingerprint(&content(1000)), Err(FingerprintError::InsufficientContent));
    assert_eq!(fingerprint(&content(MAX_SIZE - 1)), Err(FingerprintError::InsufficientContent));
}

#[test]
fn stream_in_pieces_gives_the_fingerprint_of_the_whole() {
    let data = content(MAX_SIZE + 5000);
    let whole = fingerprint(&data).unwrap();
    let mut hash = StreamHash::new();
    let mut filled = false;
    let mut fed = 0usize;
    for chunk in data.chunks(65537) {
        assert!(!filled);
        filled = hash.feed(chunk);
        fed += chunk.len();
        if filled {
            break;
        }
    }
    assert!(filled);
    assert!(fed >= MAX_SIZE && fed < MAX_SIZE + 65537);
    assert_eq!(hash.finish().unwrap(), whole);
}

#[test]
fn stream_that_ends_early_has_no_fingerprint() {
    let data = content(100_000);
    let mut hash = StreamHash::new();
    for chunk in data.chunks(4096) {
        assert!(!hash.feed(chunk));
    }
    assert_eq!(hash.finish(), Err(FingerprintError::InsufficientContent));
    assert_eq!(StreamHash::new().finish(), Err(FingerprintError::InsufficientContent));
}

#[test]
fn stream_filled_exactly() {
    let data = content(MAX_SIZE);
    let mut hash = StreamHash::new();
    assert!(!hash.feed(&data[..MAX_SIZE - 1]));
    assert!(!hash.feed(&[]));
    assert!(hash.feed(&data[MAX_SIZE - 1..]));
    assert!(hash.feed(&[1, 2, 3]));
    assert_eq!(hash.finish().unwrap(), expected(&data));
}

#[test]
fn name_of_a_local_file() {
    assert_eq!(get_localfile_name("/home/user/videos/show 01.mkv"), "show 01.mkv");
    assert_eq!(get_localfile_name("show.mp4"), "show.mp4");
    assert_eq!(get_localfile_name("dir/"), "dir");
    assert_eq!(get_localfile_name("/"), "unknown.mp4");
    assert_eq!(get_localfile_name(".."), "unknown.mp4");
    assert_eq!(get_localfile_name("a/.."), "unknown.mp4");
    assert_eq!(get_localfile_name(""), "unknown.mp4");
}

#[test]
fn name_or_the_default() {
    assert_eq!(name_or_default(Some("a.mkv".to_string())), "a.mkv");
    assert_eq!(name_or_default(Some(String::new())), "");
    assert_eq!(name_or_default(None), "unknown.mp4");
}
