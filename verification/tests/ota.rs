use touch_n_drink::digest::{flash_step, flashed_digest, ImageHash};
use touch_n_drink::ota::finish_download;
use touch_n_drink::ota::{update_decision, UpdateDecision};
use touch_n_drink::ota::{redirect_step, MAX_REDIRECTS};
use touch_n_drink::ota::{check_checksum, latest_release_url, release_download_url};
use touch_n_drink::ota::{
    checksum_from_line, new_version, release_checksum, release_tag, release_version, response_step,
    Error, Resources, Step, READ_BUFFER_SIZE, WRITE_BUFFER_SIZE,
};
use touch_n_drink::reader::{LineReader, SliceReader};

const DIGEST_HEX: &str = "0123456789abcdef0123456789abcdef0123456789abcdef0123456789abcdef";

fn digest() -> [u8; 32] {
    let mut d = [0u8; 32];
    for (i, b) in d.iter_mut().enumerate() {
        *b = [0x01, 0x23, 0x45, 0x67, 0x89, 0xab, 0xcd, 0xef][i % 8];
    }
    d
}

#[test]
fn checksum_lines() {
    let line = format!("{}  touch-n-drink.bin", DIGEST_HEX);
    assert_eq!(checksum_from_line(line.as_bytes(), b"touch-n-drink.bin"), Some(digest()));
    assert_eq!(checksum_from_line(line.as_bytes(), b"other.bin"), None);
    // One space only
    let line = format!("{} touch-n-drink.bin", DIGEST_HEX);
    assert_eq!(checksum_from_line(line.as_bytes(), b"touch-n-drink.bin"), None);
    // Digest too short
    assert_eq!(checksum_from_line(b"0123  touch-n-drink.bin", b"touch-n-drink.bin"), None);
    // Upper case digest
    let line = format!("{}  x", DIGEST_HEX.to_uppercase());
    assert_eq!(checksum_from_line(line.as_bytes(), b"x"), Some(digest()));
}

#[test]
fn checksum_file() {
    let file = format!(
        "{}  other.bin\n{}  touch-n-drink.bin\n",
        "ff".repeat(32),
        DIGEST_HEX
    );
    let mut source = SliceReader::new(file.into_bytes());
    let mut lines = LineReader::new(256);
    assert_eq!(release_checksum(&mut lines, &mut source, b"touch-n-drink.bin"), Ok(digest()));

    let mut source = SliceReader::new(b"no checksums here\n".to_vec());
    let mut lines = LineReader::new(256);
    assert_eq!(
        release_checksum(&mut lines, &mut source, b"touch-n-drink.bin"),
        Err(Error::UnableToFetchChecksum)
    );
}

#[test]
fn latest_release_tag() {
    assert_eq!(
        release_tag(302, Some("https://github.com/zargony/touch-n-drink/releases/tag/firmware-1.2.3")),
        Ok("firmware-1.2.3".to_string())
    );
    assert_eq!(release_tag(200, Some("x/releases/tag/v1")), Err(Error::UnableToQueryLatestRelease));
    assert_eq!(release_tag(302, None), Err(Error::MalformedRedirect));
    assert_eq!(
        release_tag(301, Some("https://example.com/releases/latest")),
        Err(Error::UnableToQueryLatestRelease)
    );
    assert_eq!(release_tag(307, Some("releases/tag/v2")), Ok("v2".to_string()));
}

#[test]
fn release_versions() {
    assert_eq!(release_version("firmware-1.2.3"), Ok("1.2.3".to_string()));
    assert_eq!(release_version("v1.2.3"), Err(Error::UnableToQueryLatestRelease));
    assert_eq!(new_version("1.2.3", "1.2.3".to_string()), None);
    assert_eq!(new_version("1.2.3", "1.2.2".to_string()), Some("1.2.2".to_string()));
}

#[test]
fn response_steps() {
    assert!(matches!(response_step(302, true, Some("https://a".to_string())), Ok(Step::Follow(l)) if l == "https://a"));
    assert_eq!(response_step(302, true, None).unwrap_err(), Error::MalformedRedirect);
    assert!(matches!(response_step(302, false, None), Ok(Step::Process)));
    assert!(matches!(response_step(200, true, None), Ok(Step::Process)));
    assert_eq!(response_step(404, true, None).unwrap_err(), Error::RequestFailed(404));
    assert_eq!(response_step(99, false, None).unwrap_err(), Error::RequestFailed(99));
}

#[test]
fn ota_resources() {
    let r = Resources::new();
    assert_eq!(r.read_buffer.len(), READ_BUFFER_SIZE);
    assert_eq!(r.write_buffer.len(), WRITE_BUFFER_SIZE);
    assert!(r.read_buffer.iter().all(|b| *b == 0));
}

#[test]
fn redirects_are_limited() {
    assert!(matches!(redirect_step(0, 302, true, Some("u".to_string())), Ok(Step::Follow(l)) if l == "u"));
    assert!(matches!(redirect_step(MAX_REDIRECTS - 2, 302, true, Some("u".to_string())), Ok(Step::Follow(_))));
    assert_eq!(
        redirect_step(MAX_REDIRECTS - 1, 302, true, Some("u".to_string())).unwrap_err(),
        Error::TooManyRedirects
    );
    assert!(matches!(redirect_step(MAX_REDIRECTS - 1, 200, true, None), Ok(Step::Process)));
    assert_eq!(redirect_step(0, 500, true, None).unwrap_err(), Error::RequestFailed(500));
}

#[test]
fn checksums_and_urls() {
    assert_eq!(check_checksum(&digest(), &digest()), Ok(()));
    let mut other = digest();
    other[31] ^= 1;
    assert_eq!(check_checksum(&digest(), &other), Err(Error::ChecksumMismatch));
    assert_eq!(
        release_download_url("https://github.com/zargony/touch-n-drink", "1.2.3", "SHA256SUMS"),
        "https://github.com/zargony/touch-n-drink/releases/download/firmware-1.2.3/SHA256SUMS"
    );
    assert_eq!(
        latest_release_url("https://github.com/zargony/touch-n-drink"),
        "https://github.com/zargony/touch-n-drink/releases/latest"
    );
}

fn checksum_in(file: &str, capacity: usize) -> Result<[u8; 32], Error> {
    let mut source = SliceReader::new(file.as_bytes().to_vec());
    let mut lines = LineReader::new(capacity);
    release_checksum(&mut lines, &mut source, b"touch-n-drink.bin")
}

#[test]
fn checksum_file_first_matching_line_wins() {
    let other = "ff".repeat(32);
    let file = format!("{DIGEST_HEX}  touch-n-drink.bin\n{other}  touch-n-drink.bin\n");
    assert_eq!(checksum_in(&file, 256), Ok(digest()));
    let file = format!("{other}  touch-n-drink.bin\n{DIGEST_HEX}  touch-n-drink.bin\n");
    assert_eq!(checksum_in(&file, 256), Ok([0xff; 32]));
}

#[test]
fn checksum_file_line_shapes() {
    // Windows line ends and a last line without a line break
    let file = format!("junk\r\n{DIGEST_HEX}  touch-n-drink.bin");
    assert_eq!(checksum_in(&file, 256), Ok(digest()));
    // A line that does not fit into the buffer ends the search
    let file = format!("{}\n{DIGEST_HEX}  touch-n-drink.bin\n", "x".repeat(300));
    assert_eq!(checksum_in(&file, 256), Err(Error::UnableToFetchChecksum));
    // Lines that fit are read across refills of a small buffer
    let file = format!("a\nbb\n{DIGEST_HEX}  touch-n-drink.bin\n");
    assert_eq!(checksum_in(&file, 90), Ok(digest()));
    assert_eq!(checksum_in("", 256), Err(Error::UnableToFetchChecksum));
}

#[test]
fn update_decisions() {
    assert_eq!(update_decision(&digest(), Ok(digest())), UpdateDecision::Commit);
    assert_eq!(
        update_decision(&digest(), Ok([0; 32])),
        UpdateDecision::Cancel(Error::ChecksumMismatch)
    );
    assert_eq!(
        update_decision(&digest(), Err(Error::RequestFailed(404))),
        UpdateDecision::Cancel(Error::RequestFailed(404))
    );
}

#[test]
fn image_digest_over_chunks() {
    let image = b"touch-n-drink firmware image".to_vec();
    let mut state = ImageHash::new();
    assert_eq!(state.position(), 0);
    assert_eq!(flash_step(&mut state, &image[..10]), 10);
    assert_eq!(state.position(), 10);
    assert_eq!(flash_step(&mut state, &[]), 10);
    assert_eq!(flash_step(&mut state, &image[10..]), image.len() as u32);
    let expected: [u8; 32] = <sha2::Sha256 as sha2::Digest>::digest(&image).into();
    assert_eq!(flashed_digest(state), expected);
}

#[test]
fn finished_download_decisions() {
    let image = b"image".to_vec();
    let expected: [u8; 32] = <sha2::Sha256 as sha2::Digest>::digest(&image).into();
    let mut state = ImageHash::new();
    flash_step(&mut state, &image);
    assert_eq!(finish_download(&expected, state, Ok(())), UpdateDecision::Commit);
    let mut state = ImageHash::new();
    flash_step(&mut state, b"imagX");
    assert_eq!(
        finish_download(&expected, state, Ok(())),
        UpdateDecision::Cancel(Error::ChecksumMismatch)
    );
    assert_eq!(
        finish_download(&expected, ImageHash::new(), Err(Error::FlashingFailed)),
        UpdateDecision::Cancel(Error::FlashingFailed)
    );
}
