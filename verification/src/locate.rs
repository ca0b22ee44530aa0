//! Repository discovery: the nearest directory, from a starting directory
//! upward, that holds the marker directory.

use crate::text::{contains_text, text_set};
use vstd::prelude::*;

verus! {

/// One directory on the way from the starting directory to the filesystem
/// root, with the names of its entries, or `None` where it could not be
/// listed.
pub struct DirListing {
    pub path: String,
    pub entries: Option<Vec<String>>,
}

/// The name of the marker directory.
pub open spec fn marker() -> Seq<char> {
    ".mygit"@
}

/// Whether a listing shows the marker directory.
pub open spec fn holds_marker(entries: Seq<String>) -> bool {
    text_set(entries).contains(marker())
}

/// The repository root that a chain of listings gives, nearest directory
/// first: the first directory that holds the marker, unless the chain ends
/// or a directory cannot be listed before one is found.
pub open spec fn locate(chain: Seq<DirListing>) -> Option<Seq<char>>
    decreases chain.len(),
{
    if chain.len() == 0 {
        None
    } else {
        match chain[0].entries {
            None => None,
            Some(entries) => if holds_marker(entries@) {
                Some(chain[0].path@)
            } else {
                locate(chain.skip(1))
            },
        }
    }
}

/// Whether the entries of a directory include the marker directory.
pub fn has_marker(entries: &Vec<String>) -> (found: bool)
    ensures
        found == holds_marker(entries@),
{
    contains_text(entries, ".mygit")
}

/// Whether the search stops at this directory: it holds the marker, or it
/// cannot be listed.
pub open spec fn ends_search(listing: DirListing) -> bool {
    listing.entries is None || holds_marker(listing.entries->Some_0@)
}

/// Whether the search stops at this directory, so that no directory above
/// it has to be listed.
pub fn search_ends(listing: &DirListing) -> (ends: bool)
    ensures
        ends == ends_search(*listing),
{
    match &listing.entries {
        None => true,
        Some(entries) => has_marker(entries),
    }
}

/// Finds the repository root among a directory and its ancestors, nearest
/// first.
pub fn get_repo_root(chain: &Vec<DirListing>) -> (root: Option<String>)
    ensures
        match root {
            Some(path) => locate(chain@) == Some(path@),
            None => locate(chain@) is None,
        },
{
    let mut i: usize = 0;
    assert(chain@.skip(0) =~= chain@);
    while i < chain.len()
        invariant
            i <= chain.len(),
            locate(chain@) == locate(chain@.skip(i as int)),
        decreases chain.len() - i,
    {
        proof {
            assert(chain@.skip(i as int)[0] == chain@[i as int]);
            assert(chain@.skip(i as int).skip(1) == chain@.skip(i + 1));
        }
        match &chain[i].entries {
            None => {
                return None;
            },
            Some(entries) => {
                if has_marker(entries) {
                    return Some(chain[i].path.clone());
                }
            },
        }
        i += 1;
    }
    None
}

/// Discovery: where the directory at position `k` of the chain holds the
/// marker and every directory before it can be listed and holds none, the
/// root that is found is that directory.
pub proof fn lemma_discovery(chain: Seq<DirListing>, k: int)
    requires
        0 <= k < chain.len(),
        forall|i: int|
            0 <= i < k ==> (#[trigger] chain[i]).entries is Some && !holds_marker(
                chain[i].entries->Some_0@,
            ),
        chain[k].entries is Some,
        holds_marker(chain[k].entries->Some_0@),
    ensures
        locate(chain) == Some(chain[k].path@),
    decreases k,
{
    if k > 0 {
        let rest = chain.skip(1);
        assert forall|i: int| 0 <= i < k - 1 implies (#[trigger] rest[i]).entries is Some
            && !holds_marker(rest[i].entries->Some_0@) by {
            assert(rest[i] == chain[i + 1]);
        }
        assert(rest[k - 1] == chain[k]);
        lemma_discovery(rest, k - 1);
    }
}

/// The directories above one at which the search stops do not matter: the
/// chain up to that directory gives the same root as the whole chain.
pub proof fn lemma_locate_prefix(chain: Seq<DirListing>, n: int)
    requires
        0 < n <= chain.len(),
        ends_search(chain[n - 1]),
    ensures
        locate(chain.take(n)) == locate(chain),
    decreases n,
{
    let front = chain.take(n);
    assert(front[0] == chain[0]);
    if n > 1 && !ends_search(chain[0]) {
        assert(front.skip(1) =~= chain.skip(1).take(n - 1));
        assert(chain.skip(1)[n - 2] == chain[n - 1]);
        lemma_locate_prefix(chain.skip(1), n - 1);
    }
}

} // verus!
