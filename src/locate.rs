//! The conventional places of a CODEOWNERS file in a repository.
use crate::text::chars_of;
use vstd::prelude::*;

verus! {

/// `name` appended to the path `base` as `Path::join` does for a relative
/// name: a `/` goes between them unless `base` is empty or ends in one.
pub open spec fn join(base: Seq<char>, name: Seq<char>) -> Seq<char> {
    if base.len() == 0 || base.last() == '/' {
        base + name
    } else {
        base + seq!['/'] + name
    }
}

/// The places searched, in order: `<root>/CODEOWNERS`,
/// `<root>/.github/CODEOWNERS` and `<root>/docs/CODEOWNERS`.
pub open spec fn candidates(root: Seq<char>) -> Seq<Seq<char>> {
    seq![
        join(root, "CODEOWNERS"@),
        join(join(root, ".github"@), "CODEOWNERS"@),
        join(join(root, "docs"@), "CODEOWNERS"@),
    ]
}

/// The path `base` joined with the relative `name` (see `join`).
pub fn join_path(base: &str, name: &str) -> (r: String)
    ensures
        r@ == join(base@, name@),
{
    let chars = chars_of(base);
    let mut out = String::from_str(base);
    if chars.len() > 0 && chars[chars.len() - 1] != '/' {
        out.append("/");
        proof {
            reveal_strlit("/");
        }
    }
    out.append(name);
    out
}

/// The places where a CODEOWNERS file is looked for under `root`, in order.
pub fn candidate_locations(root: &str) -> (r: Vec<String>)
    ensures
        r@.len() == 3,
        forall|i: int| 0 <= i < 3 ==> #[trigger] r@[i]@ == candidates(root@)[i],
{
    let github = join_path(root, ".github");
    let docs = join_path(root, "docs");
    let mut r: Vec<String> = Vec::new();
    r.push(join_path(root, "CODEOWNERS"));
    r.push(join_path(github.as_str(), "CODEOWNERS"));
    r.push(join_path(docs.as_str(), "CODEOWNERS"));
    r
}

/// The first of `places` that is marked present, if any.
pub fn first_present(places: Vec<String>, present: &Vec<bool>) -> (r: Option<String>)
    requires
        places@.len() == present@.len(),
    ensures
        match r {
            Some(s) => exists|i: int|
                0 <= i < present@.len() && #[trigger] present@[i] && s == places@[i]
                    && forall|j: int| 0 <= j < i ==> !present@[j],
            None => forall|i: int| 0 <= i < present@.len() ==> !#[trigger] present@[i],
        },
{
    let ghost all = places@;
    let mut rest = places;
    let mut i: usize = 0;
    while i < present.len()
        invariant
            i <= present@.len(),
            rest@ == all,
            all == places@,
            all.len() == present@.len(),
            forall|j: int| 0 <= j < i ==> !present@[j],
        decreases present.len() - i,
    {
        if present[i] {
            let s = rest.swap_remove(i);
            assert(s == all[i as int] && present@[i as int]);

            return Some(s);
        }
        i = i + 1;
    }
    None
}

/// Relies on `std::path::Path::exists`: whether something is at `path` now.
/// The answer depends on the file system, so nothing is promised of it.
#[verifier::external_body]
fn path_exists(path: &str) -> (r: bool) {
    std::path::Path::new(path).exists()
}

/// Attempts to locate a CODEOWNERS file at its conventional places under
/// `ctx`: the first of `candidates(ctx)` where a file is found.
pub fn locate(ctx: &str) -> (r: Option<String>)
    ensures
        match r {
            Some(s) => exists|i: int| 0 <= i < 3 && s@ == #[trigger] candidates(ctx@)[i],
            None => true,
        },
{
    let places = candidate_locations(ctx);
    let mut present: Vec<bool> = Vec::new();
    let mut i: usize = 0;
    while i < places.len()
        invariant
            i <= places@.len(),
            present@.len() == i,
        decreases places.len() - i,
    {
        present.push(path_exists(places[i].as_str()));
        i = i + 1;
    }
    let ghost all = places@;
    let r = first_present(places, &present);
    proof {
        if r is Some {
            let s = r->0;
            let i = choose|i: int|
                0 <= i < present@.len() && #[trigger] present@[i] && s == all[i] && forall|j: int|
                    0 <= j < i ==> !present@[j];
            assert(s@ == candidates(ctx@)[i]);
        }
    }
    r
}

} // verus!
