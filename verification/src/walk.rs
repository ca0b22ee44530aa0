//! The tree walk: every regular file under a path is hashed and stored,
//! directories are entered, ignored paths are passed over, and the first
//! failure ends the walk.
//!
//! The walk keeps an explicit stack of paths. The caller does the reading
//! and writing: it asks for the next path, reports what it found there, and
//! writes the object file that comes back, if any.

use crate::blob::serialize;
use crate::errors::ErrState;
use crate::hash::{digest_of, get_sha1};
use crate::store::{after_write, blob_path, is_new, ObjectFile, ObjectStore};
use crate::text::{str_eq, texts};
use vstd::prelude::*;

verus! {

/// Whether a path is left out of every walk.
pub open spec fn ignored(path: Seq<char>) -> bool {
    path == "./.mygit"@ || path == "./target"@ || path == "./.git"@
}

/// Whether `path` is left out of every walk: the marker directory, the build
/// output and the foreign repository, by exact match.
pub fn is_ignored(path: &str) -> (skip: bool)
    ensures
        skip == ignored(path@),
{
    str_eq(path, "./.mygit") || str_eq(path, "./target") || str_eq(path, "./.git")
}

/// What the caller found at a path.
pub enum Entry {
    /// A regular file, with its content.
    File(Vec<u8>),
    /// A directory, with the paths of its entries in the order in which the
    /// filesystem gave them.
    Dir(Vec<String>),
    /// Neither a regular file nor a directory.
    Other,
    /// The path could not be opened, read or listed.
    Unreadable,
}

/// What stands at a path, as a mathematical value.
pub enum Found {
    File(Seq<u8>),
    Dir(Seq<Seq<char>>),
    Other,
    Unreadable,
}

impl Entry {
    /// The entry as a mathematical value.
    pub open spec fn found(&self) -> Found {
        match self {
            Entry::File(content) => Found::File(content@),
            Entry::Dir(children) => Found::Dir(texts(children@)),
            Entry::Other => Found::Other,
            Entry::Unreadable => Found::Unreadable,
        }
    }
}

/// What the caller does next.
pub enum Step {
    /// Look at this path and report what is there.
    Visit(String),
    /// The walk is over, with this outcome.
    Done(Result<(), ErrState>),
}

/// A walk as a mathematical value: the names of the objects in the
/// container, the stack of paths still to visit (the next one is the last),
/// and whether something has failed.
pub struct WalkState {
    pub objects: Set<Seq<char>>,
    pub pending: Seq<Seq<char>>,
    pub failed: bool,
}

/// The stack without the ignored paths on top of it.
pub open spec fn strip_ignored(pending: Seq<Seq<char>>) -> Seq<Seq<char>>
    decreases pending.len(),
{
    if pending.len() > 0 && ignored(pending.last()) {
        strip_ignored(pending.drop_last())
    } else {
        pending
    }
}

/// The walk of one path into a container with these objects.
pub open spec fn start_state(objects: Set<Seq<char>>, path: Seq<char>) -> WalkState {
    WalkState { objects, pending: seq![path], failed: false }
}

/// The path to visit next: the topmost one that is not ignored, unless the
/// walk has failed.
pub open spec fn next_path(s: WalkState) -> Option<Seq<char>> {
    if s.failed || strip_ignored(s.pending).len() == 0 {
        None
    } else {
        Some(strip_ignored(s.pending).last())
    }
}

/// The walk once the next path was handed out.
pub open spec fn after_next(s: WalkState) -> WalkState {
    if s.failed {
        s
    } else if strip_ignored(s.pending).len() == 0 {
        WalkState { objects: s.objects, pending: Seq::empty(), failed: false }
    } else {
        WalkState {
            objects: s.objects,
            pending: strip_ignored(s.pending).drop_last(),
            failed: false,
        }
    }
}

/// How a walk ends that has nothing left to visit.
pub open spec fn outcome_of(s: WalkState) -> Result<(), ErrState> {
    if s.failed {
        Err(ErrState::AddFailed)
    } else {
        Ok(())
    }
}

/// The walk once it has failed.
pub open spec fn after_failure(s: WalkState) -> WalkState {
    WalkState { objects: s.objects, pending: s.pending, failed: true }
}

/// The walk once it has taken in what was found at the path handed out: a
/// file's digest is among the objects, a directory's entries are on the
/// stack with the first one on top, an unreadable path has failed the walk.
pub open spec fn after_observe(s: WalkState, found: Found) -> WalkState {
    match found {
        Found::File(content) => WalkState {
            objects: after_write(s.objects, digest_of(content)),
            pending: s.pending,
            failed: s.failed,
        },
        Found::Dir(children) => WalkState {
            objects: s.objects,
            pending: s.pending + children.reverse(),
            failed: s.failed,
        },
        Found::Other => s,
        Found::Unreadable => after_failure(s),
    }
}

/// A walk in progress.
pub struct Walker {
    /// The object container that the walk fills.
    pub store: ObjectStore,
    /// The paths still to visit; the next one is the last.
    pub pending: Vec<String>,
    /// Whether something has failed.
    pub failed: bool,
}

impl Walker {
    /// The walk as a mathematical value.
    pub open spec fn state(&self) -> WalkState {
        WalkState {
            objects: self.store.objects(),
            pending: texts(self.pending@),
            failed: self.failed,
        }
    }

    /// A walk of `path` into `store`.
    pub fn new(store: ObjectStore, path: String) -> (walker: Walker)
        ensures
            walker.store == store,
            walker.pending@ == seq![path],
            walker.state() == start_state(store.objects(), path@),
    {
        let mut pending: Vec<String> = Vec::new();
        pending.push(path);
        assert(texts(pending@) =~= seq![path@]);
        Walker { store, pending, failed: false }
    }

    /// The next thing to do. After a failure the walk is over with
    /// `AddFailed`, whatever is still pending. Otherwise ignored paths are
    /// dropped from the stack; the first other path is handed out for a
    /// visit, and where none is left the walk is over with success. The
    /// object container is not touched.
    pub fn next(&mut self) -> (step: Step)
        ensures
            final(self).store == old(self).store,
            final(self).state() == after_next(old(self).state()),
            match step {
                Step::Visit(path) => next_path(old(self).state()) == Some(path@),
                Step::Done(outcome) => next_path(old(self).state()) is None && outcome
                    == outcome_of(old(self).state()),
            },
    {
        if self.failed {
            return Step::Done(Err(ErrState::AddFailed));
        }
        loop
            invariant
                self.store == old(self).store,
                self.failed == old(self).failed,
                !self.failed,
                strip_ignored(texts(self.pending@)) == strip_ignored(texts(old(self).pending@)),
            decreases self.pending.len(),
        {
            let ghost before = texts(self.pending@);
            match self.pending.pop() {
                None => {
                    assert(texts(self.pending@) =~= Seq::<Seq<char>>::empty());
                    return Step::Done(Ok(()));
                },
                Some(path) => {
                    assert(before.last() == path@);
                    assert(texts(self.pending@) =~= before.drop_last());
                    if !is_ignored(path.as_str()) {
                        return Step::Visit(path);
                    }
                },
            }
        }
    }

    /// Takes in what the caller found at the path it was sent to.
    ///
    /// A file's content is hashed and stored under its digest: where the
    /// container lacks that digest, the object file to write comes back.
    /// A directory's entries go on the stack, the first one on top. An entry
    /// of another kind is passed over. An unreadable path fails the walk.
    pub fn observe(&mut self, entry: Entry) -> (file: Option<ObjectFile>)
        ensures
            final(self).store.root == old(self).store.root,
            final(self).state() == after_observe(old(self).state(), entry.found()),
            file is None ==> final(self).store == old(self).store,
            match entry {
                Entry::File(content) => {
                    let digest = digest_of(content@);
                    &&& final(self).pending == old(self).pending
                    &&& file is Some <==> is_new(old(self).store.objects(), digest)
                    &&& file matches Some(f) ==> f.path@ == blob_path(old(self).store.root@, digest)
                        && f.bytes@ == serialize(content@)
                },
                Entry::Dir(children) => file is None && final(self).pending@ == old(self).pending@
                    + children@.reverse(),
                Entry::Other => file is None && final(self).pending == old(self).pending,
                Entry::Unreadable => file is None && final(self).pending == old(self).pending,
            },
    {
        match entry {
            Entry::File(content) => {
                let hash = get_sha1(&content);
                self.store.write(hash.as_str(), &content)
            },
            Entry::Dir(children) => {
                let mut children = children;
                let ghost all = children@;
                while children.len() > 0
                    invariant
                        self.store == old(self).store,
                        self.failed == old(self).failed,
                        children@.len() <= all.len(),
                        children@ == all.take(children@.len() as int),
                        self.pending@ == old(self).pending@ + all.reverse().take(
                            all.len() - children@.len(),
                        ),
                    decreases children.len(),
                {
                    let ghost left = children@.len();
                    let child = children.pop().unwrap();
                    self.pending.push(child);
                    proof {
                        let done = all.len() - left;
                        assert(child == all[left - 1]);
                        assert(all.reverse()[done] == all[left - 1]);
                        assert(all.reverse().take(done + 1) =~= all.reverse().take(done).push(
                            child,
                        ));
                        assert(self.pending@ =~= old(self).pending@ + all.reverse().take(done + 1));
                        assert(children@ =~= all.take(left - 1));
                    }
                }
                proof {
                    assert(all.reverse().take(all.len() as int) =~= all.reverse());
                    assert(texts(self.pending@) =~= texts(old(self).pending@) + texts(
                        all,
                    ).reverse());
                }
                None
            },
            Entry::Other => None,
            Entry::Unreadable => {
                self.failed = true;
                None
            },
        }
    }

    /// Records that an object file could not be written: the walk fails.
    pub fn write_failed(&mut self)
        ensures
            final(self).store == old(self).store,
            final(self).pending == old(self).pending,
            final(self).state() == after_failure(old(self).state()),
    {
        self.failed = true;
    }
}

} // verus!
