use vstd::prelude::*;

verus! {

/// What `str::trim` leaves of a line.
pub uninterp spec fn trim_of(s: Seq<char>) -> Seq<char>;

/// Relies on `str::trim`: the line without leading and trailing white
/// space; an empty line stays empty.
#[verifier::external_body]
fn trim_line(s: &str) -> (r: String)
    ensures
        r@ == trim_of(s@),
        s@.len() == 0 ==> r@.len() == 0,
{
    s.trim().to_string()
}

/// The non-empty lines of `lines`, in order.
pub open spec fn nonblank(lines: Seq<Seq<char>>) -> Seq<Seq<char>>
    decreases lines.len(),
{
    if lines.len() == 0 {
        Seq::empty()
    } else {
        let rest = nonblank(lines.drop_last());
        if lines.last().len() > 0 {
            rest.push(lines.last())
        } else {
            rest
        }
    }
}

pub open spec fn views(v: Seq<String>) -> Seq<Seq<char>> {
    v.map_values(|s: String| s@)
}

/// The candidates that a list of lines gives: each line trimmed, in order,
/// with the lines that trim to nothing left out.
pub open spec fn candidates_of(lines: Seq<Seq<char>>) -> Seq<Seq<char>> {
    nonblank(lines.map_values(|l: Seq<char>| trim_of(l)))
}

/// Keeps the non-empty lines of already trimmed `lines`, in order.
pub fn drop_blank(lines: Vec<String>) -> (r: Vec<String>)
    ensures
        views(r@) == nonblank(views(lines@)),
{
    let mut out: Vec<String> = Vec::new();
    let ghost all = lines@;
    let mut i: usize = 0;
    let n = lines.len();
    while i < n
        invariant
            n == all.len(),
            i <= n,
            lines@ == all,
            views(out@) == nonblank(views(all.take(i as int))),
        decreases n - i,
    {
        let t = lines[i].clone();
        proof {
            assert(views(all.take(i as int + 1)).drop_last() =~= views(all.take(i as int)));
            assert(views(all.take(i as int + 1)).last() == all[i as int]@);
        }
        if t.unicode_len() > 0 {
            let ghost before = out@;
            out.push(t);
            proof {
                assert(views(out@) =~= views(before).push(t@));
            }
        }
        i = i + 1;
    }
    proof {
        assert(all.take(n as int) =~= all);
    }
    out
}

/// Turns the lines of a wordlist into candidates: each line is trimmed and
/// blank lines are dropped.
pub fn clean_wordlist(lines: &Vec<String>) -> (r: Vec<String>)
    ensures
        views(r@) == candidates_of(views(lines@)),
{
    let mut trimmed: Vec<String> = Vec::new();
    let mut i: usize = 0;
    while i < lines.len()
        invariant
            i <= lines@.len(),
            trimmed@.len() == i,
            forall|k: int| 0 <= k < i ==> (#[trigger] trimmed@[k])@ == trim_of(lines@[k]@),
        decreases lines@.len() - i,
    {
        trimmed.push(trim_line(lines[i].as_str()));
        i = i + 1;
    }
    proof {
        assert(views(trimmed@) =~= views(lines@).map_values(|l: Seq<char>| trim_of(l)));
    }
    drop_blank(trimmed)
}

} // verus!
