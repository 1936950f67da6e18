use vstd::prelude::*;

use crate::error::SetupError;

verus! {

/// One entry of an archive's directory listing.
pub struct MemberEntry {
    pub name: String,
    pub is_dir: bool,
}

/// A member name denotes a directory when its last character is a slash or
/// a backslash.
pub open spec fn is_directory_name_spec(name: Seq<char>) -> bool {
    name.len() > 0 && (name.last() == '/' || name.last() == '\\')
}

/// Whether entry `e` may be attacked under the optional explicit name.
pub open spec fn eligible(e: MemberEntry, explicit: Option<Seq<char>>) -> bool {
    !e.is_dir && match explicit {
        Some(n) => e.name@ == n,
        None => true,
    }
}

/// `i` is the first eligible entry of `listing`.
pub open spec fn is_first_eligible(
    listing: Seq<MemberEntry>,
    explicit: Option<Seq<char>>,
    i: int,
) -> bool {
    &&& 0 <= i < listing.len()
    &&& eligible(listing[i], explicit)
    &&& forall|j: int| 0 <= j < i ==> !eligible(#[trigger] listing[j], explicit)
}

/// No entry of `listing` is eligible.
pub open spec fn none_eligible(listing: Seq<MemberEntry>, explicit: Option<Seq<char>>) -> bool {
    forall|j: int| 0 <= j < listing.len() ==> !eligible(#[trigger] listing[j], explicit)
}

pub open spec fn view_name(explicit: Option<&str>) -> Option<Seq<char>> {
    match explicit {
        Some(n) => Some(n@),
        None => None,
    }
}

/// What the resolver owes on `listing` and `explicit`: the first eligible
/// index, else `MemberNotFound` for an explicit name and `EmptyArchive`
/// without one.
pub open spec fn resolves_to(
    listing: Seq<MemberEntry>,
    explicit: Option<Seq<char>>,
    r: Result<usize, SetupError>,
) -> bool {
    match r {
        Ok(i) => is_first_eligible(listing, explicit, i as int),
        Err(e) => {
            &&& none_eligible(listing, explicit)
            &&& e == (if explicit is Some {
                SetupError::MemberNotFound
            } else {
                SetupError::EmptyArchive
            })
        },
    }
}

/// Whether `name` denotes a directory (it ends in `/` or `\`).
pub fn is_directory_name(name: &str) -> (r: bool)
    ensures
        r == is_directory_name_spec(name@),
{
    let n = name.unicode_len();
    if n == 0 {
        false
    } else {
        let c = name.get_char(n - 1);
        c == '/' || c == '\\'
    }
}

fn names_equal(a: &str, b: &str) -> (r: bool)
    ensures
        r == (a@ == b@),
{
    let n = a.unicode_len();
    if n != b.unicode_len() {
        proof {
            assert(a@.len() != b@.len());
        }
        return false;
    }
    let mut i: usize = 0;
    while i < n
        invariant
            n == a@.len(),
            n == b@.len(),
            i <= n,
            forall|k: int| 0 <= k < i ==> a@[k] == b@[k],
        decreases n - i,
    {
        if a.get_char(i) != b.get_char(i) {
            return false;
        }
        i = i + 1;
    }
    proof {
        assert(a@ =~= b@);
    }
    true
}

/// Picks the member to attack: the first non-directory entry, in listing
/// order, whose name equals `explicit` when one is given.
pub fn resolve_member(listing: &Vec<MemberEntry>, explicit: Option<&str>) -> (r: Result<
    usize,
    SetupError,
>)
    ensures
        resolves_to(listing@, view_name(explicit), r),
{
    let mut i: usize = 0;
    while i < listing.len()
        invariant
            i <= listing@.len(),
            forall|j: int| 0 <= j < i ==> !eligible(#[trigger] listing@[j], view_name(explicit)),
        decreases listing@.len() - i,
    {
        let e = &listing[i];
        if !e.is_dir {
            let hit = match explicit {
                Some(n) => names_equal(e.name.as_str(), n),
                None => true,
            };
            if hit {
                return Ok(i);
            }
        }
        i = i + 1;
    }
    match explicit {
        Some(_) => Err(SetupError::MemberNotFound),
        None => Err(SetupError::EmptyArchive),
    }
}

/// Resolution is deterministic: any two results that meet the resolver's
/// contract on the same listing and the same explicit name are equal, so
/// two calls with the same inputs pick the same index.
pub proof fn lemma_resolution_deterministic(
    listing: Seq<MemberEntry>,
    explicit: Option<Seq<char>>,
    r1: Result<usize, SetupError>,
    r2: Result<usize, SetupError>,
)
    requires
        resolves_to(listing, explicit, r1),
        resolves_to(listing, explicit, r2),
    ensures
        r1 == r2,
{
    if let (Ok(i1), Ok(i2)) = (r1, r2) {
        if i1 < i2 {
            assert(!eligible(listing[i1 as int], explicit));
        } else if i2 < i1 {
            assert(!eligible(listing[i2 as int], explicit));
        }
    } else if let Ok(i1) = r1 {
        assert(!eligible(listing[i1 as int], explicit));
    } else if let Ok(i2) = r2 {
        assert(!eligible(listing[i2 as int], explicit));
    }
}

/// The resolved member is never a directory entry.
pub proof fn lemma_resolved_is_file(
    listing: Seq<MemberEntry>,
    explicit: Option<Seq<char>>,
    i: usize,
)
    requires
        resolves_to(listing, explicit, Ok(i)),
    ensures
        !listing[i as int].is_dir,
{
}

} // verus!
