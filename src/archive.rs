use vstd::prelude::*;

use crate::member::{is_directory_name, is_directory_name_spec, MemberEntry};
use crate::search::Verdict;

verus! {

#[verifier::external_type_specification]
#[verifier::external_body]
#[verifier::reject_recursive_types(R)]
pub struct ExZipArchive<R>(zip::ZipArchive<R>);

#[verifier::external_type_specification]
#[verifier::external_body]
#[verifier::reject_recursive_types(T)]
pub struct ExCursor<T>(std::io::Cursor<T>);

#[verifier::external_type_specification]
#[verifier::external_body]
pub struct ExZipError(zip::result::ZipError);

/// An archive opened from an in-memory copy of its bytes.
pub type Archive = zip::ZipArchive<std::io::Cursor<Vec<u8>>>;

/// The names in the central directory of an opened archive, in order.
pub uninterp spec fn member_names(a: Archive) -> Seq<Seq<char>>;

/// Where member `index` can be reached: its compressed size, and the salt
/// length of its AES encryption when it has one; `None` when the member's
/// data cannot be located.
pub uninterp spec fn member_layout(a: Archive, index: usize) -> Option<(nat, Option<nat>)>;

/// What one attempt to decrypt member `index` with `password` and read one
/// byte of it gives.
pub uninterp spec fn attempt_of(a: Archive, index: usize, password: Seq<char>) -> AttemptView;

/// The mathematical value of a decryption attempt.
pub ghost enum AttemptView {
    /// Decryption succeeded and the first read returned this many bytes.
    Read(nat),
    /// The archive rejected the password as incorrect.
    WrongPassword,
    /// Any other failure, with its description.
    Other(Seq<char>),
}

/// Bytes that an AES-encrypted member holds besides its data: the password
/// verification value and the authentication code; the salt comes on top.
pub const AES_FIXED_OVERHEAD: u64 = 12;

/// Two archive values that hold the same members and give the same
/// results to every attempt.
pub open spec fn same_contents(a1: Archive, a2: Archive) -> bool {
    &&& member_names(a1) == member_names(a2)
    &&& forall|i: usize| #[trigger] member_layout(a1, i) == member_layout(a2, i)
    &&& forall|i: usize, p: Seq<char>| #[trigger] attempt_of(a1, i, p) == attempt_of(a2, i, p)
}

/// Member `index` can be given to the decryptor: its data can be located,
/// and when it is AES-encrypted it is long enough to hold the AES header
/// and authentication code.
pub open spec fn decryptable(a: Archive, index: usize) -> bool {
    match member_layout(a, index) {
        Some((size, Some(salt))) => size >= salt + AES_FIXED_OVERHEAD,
        Some((_, None)) => true,
        None => false,
    }
}

/// The view of a decryption attempt's result.
pub open spec fn attempt_view(r: Result<usize, AttemptFailure>) -> AttemptView {
    match r {
        Ok(n) => AttemptView::Read(n as nat),
        Err(AttemptFailure::WrongPassword) => AttemptView::WrongPassword,
        Err(AttemptFailure::Other(m)) => AttemptView::Other(m@),
    }
}

/// The verdict that an attempt owes: plaintext read (at least one byte) is
/// a match, a rejected password a non-match, and anything else an error.
pub open spec fn verdict_for(att: AttemptView, r: Verdict) -> bool {
    match att {
        AttemptView::Read(n) => if n >= 1 {
            r is Match
        } else {
            r is Error
        },
        AttemptView::WrongPassword => r is NoMatch,
        AttemptView::Other(m) => r matches Verdict::Error(s) && s@ == m,
    }
}

/// Why an archive could not be opened.
pub struct ArchiveError {
    pub reason: String,
}

/// Why one decryption attempt did not yield plaintext.
pub enum AttemptFailure {
    /// The archive reported the password as incorrect.
    WrongPassword,
    /// Any other failure, with its description.
    Other(String),
}

/// Relies on `zip::ZipArchive::new`: parses the central directory of the
/// archive held in `bytes`.
#[verifier::external_body]
fn parse_archive(bytes: Vec<u8>) -> (r: Result<Archive, zip::result::ZipError>) {
    zip::ZipArchive::new(std::io::Cursor::new(bytes))
}

/// Relies on the `Display` impl of `zip::result::ZipError` for a message.
#[verifier::external_body]
fn zip_error_text(e: &zip::result::ZipError) -> (r: String) {
    e.to_string()
}

/// Relies on `zip::ZipArchive::len`: the number of entries of the central
/// directory.
#[verifier::external_body]
fn member_count(a: &Archive) -> (r: usize)
    ensures
        r == member_names(*a).len(),
{
    a.len()
}

/// Relies on `zip::ZipArchive::name_for_index`: the name of entry `i`, and
/// `None` past the last entry.
#[verifier::external_body]
fn member_name(a: &Archive, i: usize) -> (r: Option<String>)
    ensures
        i < member_names(*a).len() ==> r is Some && r.unwrap()@ == member_names(*a)[i as int],
        i >= member_names(*a).len() ==> r is None,
{
    a.name_for_index(i).map(|n| n.to_string())
}

/// Relies on `zip::ZipArchive::by_index_raw` with `compressed_size` and
/// `HasZipMetadata::get_metadata().aes_mode` of the entry it returns, and
/// on `AesMode::salt_length`: the member's layout, with no decryption. It
/// only seeks the reader, so the archive's contents are unchanged.
#[verifier::external_body]
fn read_member_layout(a: &mut Archive, index: usize) -> (r: Option<(u64, Option<usize>)>)
    ensures
        same_contents(*final(a), *old(a)),
        match (r, member_layout(*old(a), index)) {
            (Some((size, salt)), Some((lsize, lsalt))) => size as nat == lsize && match (salt, lsalt) {
                (Some(x), Some(y)) => x as nat == y,
                (None, None) => true,
                _ => false,
            },
            (None, None) => true,
            _ => false,
        },
{
    match a.by_index_raw(index) {
        Ok(file) => Some((
            file.compressed_size(),
            zip::read::HasZipMetadata::get_metadata(&file).aes_mode.map(|(mode, _, _)| mode.salt_length()),
        )),
        Err(_) => None,
    }
}

/// Relies on `zip::ZipArchive::by_index_decrypt` and on reading one byte
/// from the entry it returns: a password that the archive rejects as
/// incorrect gives `WrongPassword`; any other failure of either call gives
/// `Other` with its message; a read gives the number of bytes read. The
/// decryptor subtracts the AES header and authentication code from the
/// compressed size without a check, hence the `requires`.
#[verifier::external_body]
fn decrypt_first_byte(a: &mut Archive, index: usize, password: &str) -> (r: Result<
    usize,
    AttemptFailure,
>)
    requires
        decryptable(*old(a), index),
    ensures
        same_contents(*final(a), *old(a)),
        attempt_view(r) == attempt_of(*old(a), index, password@),
{
    let mut file = match a.by_index_decrypt(index, password.as_bytes()) {
        Ok(file) => file,
        Err(zip::result::ZipError::InvalidPassword) => return Err(AttemptFailure::WrongPassword),
        Err(e) => return Err(AttemptFailure::Other(e.to_string())),
    };
    let mut buffer = [0u8; 1];
    match std::io::Read::read(&mut file, &mut buffer) {
        Ok(n) => Ok(n),
        Err(e) => Err(AttemptFailure::Other(e.to_string())),
    }
}

/// Opens the archive held in `bytes`.
pub fn open_archive(bytes: Vec<u8>) -> (r: Result<Archive, ArchiveError>) {
    match parse_archive(bytes) {
        Ok(a) => Ok(a),
        Err(e) => Err(ArchiveError { reason: zip_error_text(&e) }),
    }
}

/// The archive's directory listing, in order: each entry's name, and
/// whether that name denotes a directory.
pub fn archive_listing(a: &Archive) -> (r: Vec<MemberEntry>)
    ensures
        r@.len() == member_names(*a).len(),
        forall|i: int|
            0 <= i < r@.len() ==> {
                &&& (#[trigger] r@[i]).name@ == member_names(*a)[i]
                &&& r@[i].is_dir == is_directory_name_spec(member_names(*a)[i])
            },
{
    let n = member_count(a);
    let mut listing: Vec<MemberEntry> = Vec::new();
    let mut i: usize = 0;
    while i < n
        invariant
            n == member_names(*a).len(),
            i <= n,
            listing@.len() == i,
            forall|k: int|
                0 <= k < i ==> {
                    &&& (#[trigger] listing@[k]).name@ == member_names(*a)[k]
                    &&& listing@[k].is_dir == is_directory_name_spec(member_names(*a)[k])
                },
        decreases n - i,
    {
        let name = match member_name(a, i) {
            Some(name) => name,
            None => {
                return listing;
            },
        };
        let is_dir = is_directory_name(name.as_str());
        listing.push(MemberEntry { name, is_dir });
        i = i + 1;
    }
    listing
}

/// The verdict that one decryption attempt gives: at least one byte of
/// plaintext read is a match, a rejected password is a non-match, and
/// anything else, an empty read included, is an error.
pub fn verdict_of(attempt: Result<usize, AttemptFailure>) -> (r: Verdict)
    ensures
        verdict_for(attempt_view(attempt), r),
{
    match attempt {
        Ok(n) => if n >= 1 {
            Verdict::Match
        } else {
            Verdict::Error(String::from_str("no plaintext could be read"))
        },
        Err(AttemptFailure::WrongPassword) => Verdict::NoMatch,
        Err(AttemptFailure::Other(m)) => Verdict::Error(m),
    }
}

/// Checks the layout of member `index` against what the decryptor needs.
pub fn check_layout(layout: Option<(u64, Option<usize>)>) -> (r: bool)
    ensures
        r == match layout {
            Some((size, Some(salt))) => size as nat >= salt as nat + AES_FIXED_OVERHEAD,
            Some((_, None)) => true,
            None => false,
        },
{
    match layout {
        Some((size, Some(salt))) => {
            let salt = salt as u64;
            salt <= size && size - salt >= AES_FIXED_OVERHEAD
        },
        Some((_, None)) => true,
        None => false,
    }
}

/// Tries `password` on member `index` of the archive. A member that the
/// decryptor cannot take (its data cannot be located, or it is an
/// AES-encrypted member too short for its header) gives an error without
/// an attempt.
pub fn verify_candidate(a: &mut Archive, index: usize, password: &str) -> (r: Verdict)
    ensures
        same_contents(*final(a), *old(a)),
        decryptable(*old(a), index) ==> verdict_for(attempt_of(*old(a), index, password@), r),
        !decryptable(*old(a), index) ==> r is Error,
{
    let layout = read_member_layout(a, index);
    if !check_layout(layout) {
        return Verdict::Error(String::from_str("member data cannot be decrypted"));
    }
    verdict_of(decrypt_first_byte(a, index, password))
}

} // verus!
