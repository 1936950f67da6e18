use std::io::Write;

use zip_cracker::archive::{
    archive_listing, check_layout, open_archive, verdict_of, verify_candidate, AttemptFailure,
};
use zip_cracker::error::SetupError;
use zip_cracker::member::resolve_member;
use zip_cracker::search::{search, SearchOutcome, Verdict};

fn encrypted_archive(password: &str) -> Vec<u8> {
    let mut w = zip::ZipWriter::new(std::io::Cursor::new(Vec::new()));
    let plain = zip::write::SimpleFileOptions::default()
        .compression_method(zip::CompressionMethod::Stored);
    w.add_directory("docs/", plain).unwrap();
    let secret = plain.with_aes_encryption(zip::AesMode::Aes256, password);
    w.start_file("docs/secret.txt", secret).unwrap();
    w.write_all(b"attack at dawn").unwrap();
    w.finish().unwrap().into_inner()
}

#[test]
fn listing_reads_names_and_directories() {
    let a = open_archive(encrypted_archive("correct")).ok().unwrap();
    let listing = archive_listing(&a);
    assert_eq!(listing.len(), 2);
    assert_eq!(listing[0].name, "docs/");
    assert!(listing[0].is_dir);
    assert_eq!(listing[1].name, "docs/secret.txt");
    assert!(!listing[1].is_dir);
    assert_eq!(resolve_member(&listing, None), Ok(1));
    assert_eq!(resolve_member(&listing, Some("nope.txt")), Err(SetupError::MemberNotFound));
}

#[test]
fn open_rejects_garbage() {
    let r = open_archive(b"not a zip archive".to_vec());
    assert!(r.is_err());
    assert!(!r.err().unwrap().reason.is_empty());
}

#[test]
fn verify_candidate_tells_match_from_no_match() {
    let mut a = open_archive(encrypted_archive("correct")).ok().unwrap();
    assert!(matches!(verify_candidate(&mut a, 1, "correct"), Verdict::Match));
    assert!(matches!(verify_candidate(&mut a, 1, "wrong1"), Verdict::NoMatch));
}

#[test]
fn verify_candidate_reports_bad_index_as_error() {
    let mut a = open_archive(encrypted_archive("correct")).ok().unwrap();
    assert!(matches!(verify_candidate(&mut a, 7, "correct"), Verdict::Error(_)));
}

#[test]
fn search_over_real_archive() {
    let bytes = encrypted_archive("correct");
    let mut a = open_archive(bytes).ok().unwrap();
    let index = resolve_member(&archive_listing(&a), None).unwrap();
    let cands: Vec<String> = ["wrong1", "correct", "wrong2"].iter().map(|s| s.to_string()).collect();
    let cell = std::cell::RefCell::new(&mut a);
    let report = search(&cands, |c: &String| verify_candidate(&mut cell.borrow_mut(), index, c)).unwrap();
    match report.outcome {
        SearchOutcome::Found { password, attempts } => {
            assert_eq!(password, "correct");
            assert_eq!(attempts, 3);
        }
        SearchOutcome::Exhausted { .. } => panic!("password not found"),
    }
}

#[test]
fn verdict_classification() {
    assert!(matches!(verdict_of(Ok(1)), Verdict::Match));
    assert!(matches!(verdict_of(Ok(0)), Verdict::Error(_)));
    assert!(matches!(verdict_of(Err(AttemptFailure::WrongPassword)), Verdict::NoMatch));
    match verdict_of(Err(AttemptFailure::Other("crc".to_string()))) {
        Verdict::Error(m) => assert_eq!(m, "crc"),
        _ => panic!("expected an error verdict"),
    }
}

#[test]
fn layout_check_guards_short_aes_members() {
    assert!(check_layout(Some((5, None))));
    assert!(check_layout(Some((0, None))));
    assert!(check_layout(Some((28, Some(16)))));
    assert!(!check_layout(Some((27, Some(16)))));
    assert!(!check_layout(Some((3, Some(16)))));
    assert!(check_layout(Some((20, Some(8)))));
    assert!(!check_layout(None));
}

#[test]
fn verify_candidate_on_plain_member_matches_any_password() {
    let mut w = zip::ZipWriter::new(std::io::Cursor::new(Vec::new()));
    let plain = zip::write::SimpleFileOptions::default()
        .compression_method(zip::CompressionMethod::Stored);
    w.start_file("open.txt", plain).unwrap();
    w.write_all(b"x").unwrap();
    let mut a = open_archive(w.finish().unwrap().into_inner()).ok().unwrap();
    assert!(matches!(verify_candidate(&mut a, 0, "anything"), Verdict::Match));
}

#[test]
fn verify_candidate_empty_member_is_not_a_match() {
    let mut w = zip::ZipWriter::new(std::io::Cursor::new(Vec::new()));
    let opts = zip::write::SimpleFileOptions::default()
        .compression_method(zip::CompressionMethod::Stored)
        .with_aes_encryption(zip::AesMode::Aes256, "correct");
    w.start_file("empty.txt", opts).unwrap();
    let mut a = open_archive(w.finish().unwrap().into_inner()).ok().unwrap();
    assert!(matches!(verify_candidate(&mut a, 0, "correct"), Verdict::Error(_)));
}

#[test]
fn search_over_real_archive_without_password() {
    let mut a = open_archive(encrypted_archive("zzz")).ok().unwrap();
    let index = resolve_member(&archive_listing(&a), None).unwrap();
    let cands: Vec<String> = ["a", "b", "c"].iter().map(|s| s.to_string()).collect();
    let cell = std::cell::RefCell::new(&mut a);
    let report = search(&cands, |c: &String| verify_candidate(&mut cell.borrow_mut(), index, c)).unwrap();
    match report.outcome {
        SearchOutcome::Exhausted { attempts } => assert_eq!(attempts, 3),
        SearchOutcome::Found { .. } => panic!("no candidate should match"),
    }
    assert!(report.errors.is_empty());
}
