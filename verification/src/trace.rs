//! The whole walk as a mathematical value: what a caller arrives at who
//! follows the walker's steps on a given disk, and what holds of it.

use crate::errors::ErrState;
use crate::hash::digest_of;
use crate::store::{after_all, after_write, lemma_one_object_per_content};
use crate::walk::{
    after_next, after_observe, ignored, next_path, outcome_of, start_state, strip_ignored, Found,
    WalkState,
};
use vstd::prelude::*;

verus! {

/// What the caller finds at `path`: what the disk holds there, and a path
/// that the disk does not hold is unreadable.
pub open spec fn look(disk: Map<Seq<char>, Found>, path: Seq<char>) -> Found {
    if disk.contains_key(path) {
        disk[path]
    } else {
        Found::Unreadable
    }
}

/// How a walk went: its outcome, the objects in the container at its end,
/// and the paths that were visited, in order.
pub struct WalkResult {
    pub outcome: Result<(), ErrState>,
    pub objects: Set<Seq<char>>,
    pub visited: Seq<Seq<char>>,
}

/// The walk from state `s` on `disk`, every object file being written, if it
/// ends within `fuel` visits.
pub open spec fn run(s: WalkState, disk: Map<Seq<char>, Found>, fuel: nat) -> Option<WalkResult>
    decreases fuel,
{
    match next_path(s) {
        None => Some(
            WalkResult { outcome: outcome_of(s), objects: s.objects, visited: Seq::empty() },
        ),
        Some(path) => if fuel == 0 {
            None
        } else {
            match run(after_observe(after_next(s), look(disk, path)), disk, (fuel - 1) as nat) {
                None => None,
                Some(rest) => Some(
                    WalkResult {
                        outcome: rest.outcome,
                        objects: rest.objects,
                        visited: seq![path] + rest.visited,
                    },
                ),
            }
        },
    }
}

/// The contents of the regular files among `visited`, in order.
pub open spec fn stored_contents(disk: Map<Seq<char>, Found>, visited: Seq<Seq<char>>) -> Seq<
    Seq<u8>,
>
    decreases visited.len(),
{
    if visited.len() == 0 {
        Seq::empty()
    } else {
        let rest = stored_contents(disk, visited.skip(1));
        match look(disk, visited[0]) {
            Found::File(content) => seq![content] + rest,
            _ => rest,
        }
    }
}

/// What is stripped from a stack is ignored, what is left is its lower part,
/// and the top of what is left is not ignored.
pub proof fn lemma_strip_ignored(pending: Seq<Seq<char>>)
    ensures
        strip_ignored(pending).len() <= pending.len(),
        strip_ignored(pending) == pending.take(strip_ignored(pending).len() as int),
        forall|k: int|
            strip_ignored(pending).len() <= k < pending.len() ==> ignored(#[trigger] pending[k]),
        strip_ignored(pending).len() > 0 ==> !ignored(strip_ignored(pending).last()),
    decreases pending.len(),
{
    if pending.len() > 0 && ignored(pending.last()) {
        let lower = pending.drop_last();
        lemma_strip_ignored(lower);
        let n = strip_ignored(lower).len() as int;
        assert(lower.take(n) =~= pending.take(n));
        assert forall|k: int| n <= k < pending.len() implies ignored(#[trigger] pending[k]) by {
            if k < lower.len() {
                assert(lower[k] == pending[k]);
            }
        }
    } else {
        assert(pending.take(pending.len() as int) =~= pending);
    }
}

/// A walk of an ignored path visits nothing, stores nothing and succeeds.
pub proof fn lemma_ignored_path(
    objects: Set<Seq<char>>,
    path: Seq<char>,
    disk: Map<Seq<char>, Found>,
    fuel: nat,
)
    requires
        ignored(path),
    ensures
        run(start_state(objects, path), disk, fuel) == Some(
            WalkResult { outcome: Ok(()), objects, visited: Seq::empty() },
        ),
{
    let start = seq![path];
    assert(start.last() == path);
    assert(start.drop_last().len() == 0);
    assert(strip_ignored(start) == strip_ignored(start.drop_last()));
}

/// A walk fails exactly when it starts as failed or visits a path that
/// cannot be read, and then it fails with `AddFailed`: no unreadable path
/// is passed over.
pub proof fn lemma_failure_ends_walk(s: WalkState, disk: Map<Seq<char>, Found>, fuel: nat)
    requires
        run(s, disk, fuel) is Some,
    ensures
        ({
            let r = run(s, disk, fuel)->Some_0;
            let broken = s.failed || exists|i: int|
                0 <= i < r.visited.len() && look(disk, #[trigger] r.visited[i]) is Unreadable;
            &&& broken ==> r.outcome == Err::<(), ErrState>(ErrState::AddFailed)
            &&& !broken ==> r.outcome == Ok::<(), ErrState>(())
        }),
    decreases fuel,
{
    let r = run(s, disk, fuel)->Some_0;
    match next_path(s) {
        None => {},
        Some(path) => {
            let s2 = after_observe(after_next(s), look(disk, path));
            let r2 = run(s2, disk, (fuel - 1) as nat)->Some_0;
            lemma_failure_ends_walk(s2, disk, (fuel - 1) as nat);
            assert(r.visited == seq![path] + r2.visited);
            assert(r.visited[0] == path);
            assert(s2.failed == (look(disk, path) is Unreadable));
            if exists|i: int|
                0 <= i < r2.visited.len() && look(disk, #[trigger] r2.visited[i]) is Unreadable {
                let i = choose|i: int|
                    0 <= i < r2.visited.len() && look(disk, #[trigger] r2.visited[i])
                        is Unreadable;
                assert(r.visited[i + 1] == r2.visited[i]);
            }
            if exists|i: int|
                0 <= i < r.visited.len() && look(disk, #[trigger] r.visited[i]) is Unreadable {
                let i = choose|i: int|
                    0 <= i < r.visited.len() && look(disk, #[trigger] r.visited[i]) is Unreadable;
                if i > 0 {
                    assert(r.visited[i] == r2.visited[i - 1]);
                }
            }
        },
    }
}

/// A walk that succeeds has visited every pending path that is not
/// ignored.
pub proof fn lemma_visits_pending(s: WalkState, disk: Map<Seq<char>, Found>, fuel: nat)
    requires
        run(s, disk, fuel) is Some,
        run(s, disk, fuel)->Some_0.outcome is Ok,
    ensures
        forall|k: int|
            0 <= k < s.pending.len() && !ignored(#[trigger] s.pending[k]) ==> run(
                s,
                disk,
                fuel,
            )->Some_0.visited.contains(s.pending[k]),
    decreases fuel,
{
    let r = run(s, disk, fuel)->Some_0;
    lemma_strip_ignored(s.pending);
    let rest = strip_ignored(s.pending);
    match next_path(s) {
        None => {},
        Some(path) => {
            let s1 = after_next(s);
            let s2 = after_observe(s1, look(disk, path));
            let r2 = run(s2, disk, (fuel - 1) as nat)->Some_0;
            lemma_visits_pending(s2, disk, (fuel - 1) as nat);
            assert(r.visited == seq![path] + r2.visited);
            assert forall|k: int|
                0 <= k < s.pending.len() && !ignored(#[trigger] s.pending[k]) implies r.visited.contains(
                s.pending[k],
            ) by {
                if k == rest.len() - 1 {
                    assert(rest[k] == s.pending[k]);
                    assert(r.visited[0] == s.pending[k]);
                } else {
                    assert(k < rest.len() - 1);
                    assert(rest[k] == s.pending[k]);
                    assert(s1.pending[k] == rest[k]);
                    assert(s2.pending[k] == s.pending[k]);
                    assert(r2.visited.contains(s2.pending[k]));
                    let i = choose|i: int| 0 <= i < r2.visited.len() && r2.visited[i] == s.pending[k];
                    assert(r.visited[i + 1] == s.pending[k]);
                }
            }
        },
    }
}

/// A walk that succeeds has visited every entry, but the ignored ones, of
/// every directory that it visited.
pub proof fn lemma_visits_children(
    s: WalkState,
    disk: Map<Seq<char>, Found>,
    fuel: nat,
    i: int,
    j: int,
)
    requires
        run(s, disk, fuel) is Some,
        run(s, disk, fuel)->Some_0.outcome is Ok,
        0 <= i < run(s, disk, fuel)->Some_0.visited.len(),
        look(disk, run(s, disk, fuel)->Some_0.visited[i]) is Dir,
        0 <= j < look(disk, run(s, disk, fuel)->Some_0.visited[i])->Dir_0.len(),
        !ignored(look(disk, run(s, disk, fuel)->Some_0.visited[i])->Dir_0[j]),
    ensures
        run(s, disk, fuel)->Some_0.visited.contains(
            look(disk, run(s, disk, fuel)->Some_0.visited[i])->Dir_0[j],
        ),
    decreases fuel,
{
    let r = run(s, disk, fuel)->Some_0;
    match next_path(s) {
        None => {},
        Some(path) => {
            let s1 = after_next(s);
            let s2 = after_observe(s1, look(disk, path));
            let r2 = run(s2, disk, (fuel - 1) as nat)->Some_0;
            assert(r.visited == seq![path] + r2.visited);
            let child = look(disk, r.visited[i])->Dir_0[j];
            if i == 0 {
                let children = look(disk, path)->Dir_0;
                lemma_visits_pending(s2, disk, (fuel - 1) as nat);
                let at = s1.pending.len() + (children.len() - 1 - j);
                assert(s2.pending[at] == children.reverse()[children.len() - 1 - j]);
                assert(s2.pending[at] == child);
                assert(r2.visited.contains(s2.pending[at]));
            } else {
                assert(r.visited[i] == r2.visited[i - 1]);
                lemma_visits_children(s2, disk, (fuel - 1) as nat, i - 1, j);
            }
            let at2 = choose|t: int| 0 <= t < r2.visited.len() && r2.visited[t] == child;
            assert(r.visited[at2 + 1] == child);
        },
    }
}

/// Storing a first content and then others is storing them all.
pub proof fn lemma_after_all_front(objects: Set<Seq<char>>, first: Seq<u8>, others: Seq<Seq<u8>>)
    ensures
        after_all(objects, seq![first] + others) == after_all(
            after_write(objects, digest_of(first)),
            others,
        ),
    decreases others.len(),
{
    let all = seq![first] + others;
    if others.len() == 0 {
        assert(all.drop_last() =~= Seq::<Seq<u8>>::empty());
        assert(all.last() == first);
        assert(after_all(objects, all.drop_last()) == objects);
    } else {
        assert(all.drop_last() =~= seq![first] + others.drop_last());
        assert(all.last() == others.last());
        lemma_after_all_front(objects, first, others.drop_last());
    }
}

/// The objects at the end of a walk are those at its start and the digests
/// of the files that it visited.
pub proof fn lemma_walk_stores_files(s: WalkState, disk: Map<Seq<char>, Found>, fuel: nat)
    requires
        run(s, disk, fuel) is Some,
    ensures
        ({
            let r = run(s, disk, fuel)->Some_0;
            r.objects == after_all(s.objects, stored_contents(disk, r.visited))
        }),
    decreases fuel,
{
    let r = run(s, disk, fuel)->Some_0;
    match next_path(s) {
        None => {},
        Some(path) => {
            let s2 = after_observe(after_next(s), look(disk, path));
            let r2 = run(s2, disk, (fuel - 1) as nat)->Some_0;
            lemma_walk_stores_files(s2, disk, (fuel - 1) as nat);
            assert(r.visited == seq![path] + r2.visited);
            assert(r.visited[0] == path);
            assert(r.visited.skip(1) =~= r2.visited);
            match look(disk, path) {
                Found::File(content) => {
                    lemma_after_all_front(s.objects, content, stored_contents(disk, r2.visited));
                },
                _ => {},
            }
        },
    }
}

/// One object per distinct content: a walk into an empty container, among
/// whose files no two different contents share a digest, leaves as many
/// objects as the files that it visited have different contents, however
/// many files hold the same content.
pub proof fn lemma_walk_dedups(path: Seq<char>, disk: Map<Seq<char>, Found>, fuel: nat)
    requires
        run(start_state(Set::empty(), path), disk, fuel) is Some,
        ({
            let r = run(start_state(Set::empty(), path), disk, fuel)->Some_0;
            let contents = stored_contents(disk, r.visited);
            forall|i: int, j: int|
                0 <= i < contents.len() && 0 <= j < contents.len() && contents[i] != contents[j]
                    ==> digest_of(#[trigger] contents[i]) != digest_of(#[trigger] contents[j])
        }),
    ensures
        ({
            let r = run(start_state(Set::empty(), path), disk, fuel)->Some_0;
            let contents = stored_contents(disk, r.visited);
            r.objects.finite() && r.objects.len() == contents.to_set().len()
        }),
{
    let s = start_state(Set::empty(), path);
    let r = run(s, disk, fuel)->Some_0;
    lemma_walk_stores_files(s, disk, fuel);
    lemma_one_object_per_content(stored_contents(disk, r.visited));
}

} // verus!
