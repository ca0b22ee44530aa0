//! The object container: one file per distinct content, named by the
//! content's digest and holding the content's stored form.

use crate::blob::{decode, encode_blob, lemma_round_trip, serialize};
use crate::hash::digest_of;
use crate::text::{contains_text, text_set};
use vstd::prelude::*;
use vstd::string::*;

verus! {

/// A file that has to be written: where, and what bytes.
pub struct ObjectFile {
    pub path: String,
    pub bytes: Vec<u8>,
}

/// What leads from a repository root to the name of an object.
pub open spec fn objects_dir() -> Seq<char> {
    "/.mygit/objects/"@
}

/// The path of the object `blob_name` in the repository at `repo_root`.
pub open spec fn blob_path(repo_root: Seq<char>, blob_name: Seq<char>) -> Seq<char> {
    repo_root + objects_dir() + blob_name
}

/// The path of the object `blob_name` in the repository at `repo_root`.
pub fn gen_blob_path(repo_root: &str, blob_name: &str) -> (path: String)
    ensures
        path@ == blob_path(repo_root@, blob_name@),
{
    let path = String::from_str(repo_root);
    let path = path.concat("/.mygit/objects/");
    path.concat(blob_name)
}

/// Whether the object container, given by the names of its files, holds an
/// object named `hash`.
pub fn blob_exist(hash: &str, objects: &Vec<String>) -> (found: bool)
    ensures
        found == text_set(objects@).contains(hash@),
{
    contains_text(objects, hash)
}

/// The object file for `content` at `blob_path`: its bytes are the stored
/// form of the content.
pub fn mkblob(content: &Vec<u8>, blob_path: &str) -> (file: ObjectFile)
    ensures
        file.path@ == blob_path@,
        file.bytes@ == serialize(content@),
{
    ObjectFile { path: String::from_str(blob_path), bytes: encode_blob(content) }
}

/// The same content always gives the same object: the same digest, hence
/// the same path, and the same bytes.
pub proof fn lemma_same_content_same_object(root: Seq<char>, a: Seq<u8>, b: Seq<u8>)
    requires
        a == b,
    ensures
        digest_of(a) == digest_of(b),
        blob_path(root, digest_of(a)) == blob_path(root, digest_of(b)),
        serialize(a) == serialize(b),
{
}

/// Whether a write of `digest` into a container with these objects creates
/// a file.
pub open spec fn is_new(objects: Set<Seq<char>>, digest: Seq<char>) -> bool {
    !objects.contains(digest)
}

/// The objects of a container after a write of `digest`.
pub open spec fn after_write(objects: Set<Seq<char>>, digest: Seq<char>) -> Set<Seq<char>> {
    objects.insert(digest)
}

/// The files of a container, each name with its bytes, after a write of
/// `content` under `digest`: a name that is there keeps its bytes.
pub open spec fn put(container: Map<Seq<char>, Seq<u8>>, digest: Seq<char>, content: Seq<u8>) -> Map<
    Seq<char>,
    Seq<u8>,
> {
    if is_new(container.dom(), digest) {
        container.insert(digest, serialize(content))
    } else {
        container
    }
}

/// The files of a container once the caller has written, under `digest`,
/// the file that a write handed back, if any.
pub open spec fn written(
    container: Map<Seq<char>, Seq<u8>>,
    digest: Seq<char>,
    file: Option<ObjectFile>,
) -> Map<Seq<char>, Seq<u8>> {
    match file {
        Some(f) => container.insert(digest, f.bytes@),
        None => container,
    }
}

/// A write leaves one file under the digest: an earlier one with its bytes
/// untouched, else one that decodes to the content. A second write of the
/// same digest creates nothing and changes nothing.
pub proof fn lemma_write_idempotent(
    container: Map<Seq<char>, Seq<u8>>,
    digest: Seq<char>,
    content: Seq<u8>,
)
    ensures
        put(container, digest, content).dom() == after_write(container.dom(), digest),
        container.contains_key(digest) ==> put(container, digest, content) == container,
        !container.contains_key(digest) ==> decode(put(container, digest, content)[digest])
            == Some(content),
        !is_new(put(container, digest, content).dom(), digest),
        put(put(container, digest, content), digest, content) == put(container, digest, content),
{
    lemma_round_trip(content);
    assert(put(container, digest, content).dom() =~= after_write(container.dom(), digest));
}

/// The objects of a container after each of `contents` was stored under its
/// digest, in order.
pub open spec fn after_all(objects: Set<Seq<char>>, contents: Seq<Seq<u8>>) -> Set<Seq<char>>
    decreases contents.len(),
{
    if contents.len() == 0 {
        objects
    } else {
        after_write(after_all(objects, contents.drop_last()), digest_of(contents.last()))
    }
}

/// Storing into an empty container leaves exactly the digests of what was
/// stored, and finitely many.
pub proof fn lemma_after_all_holds(contents: Seq<Seq<u8>>, digest: Seq<char>)
    ensures
        after_all(Set::empty(), contents).finite(),
        after_all(Set::empty(), contents).contains(digest) <==> exists|i: int|
            0 <= i < contents.len() && digest_of(#[trigger] contents[i]) == digest,
    decreases contents.len(),
{
    if contents.len() > 0 {
        let front = contents.drop_last();
        lemma_after_all_holds(front, digest);
        if after_all(Set::empty(), front).contains(digest) {
            let i = choose|i: int| 0 <= i < front.len() && digest_of(#[trigger] front[i]) == digest;
            assert(contents[i] == front[i]);
        }
        if exists|i: int| 0 <= i < contents.len() && digest_of(#[trigger] contents[i]) == digest {
            let i = choose|i: int|
                0 <= i < contents.len() && digest_of(#[trigger] contents[i]) == digest;
            if i < front.len() {
                assert(front[i] == contents[i]);
            }
        }
    }
}

/// One object per distinct content: where no two different contents among
/// `contents` share a digest, storing them all into an empty container
/// leaves as many objects as there are different contents, however often
/// each content occurs.
pub proof fn lemma_one_object_per_content(contents: Seq<Seq<u8>>)
    requires
        forall|i: int, j: int|
            0 <= i < contents.len() && 0 <= j < contents.len() && contents[i] != contents[j]
                ==> digest_of(#[trigger] contents[i]) != digest_of(#[trigger] contents[j]),
    ensures
        after_all(Set::empty(), contents).finite(),
        after_all(Set::empty(), contents).len() == contents.to_set().len(),
    decreases contents.len(),
{
    broadcast use vstd::seq_lib::group_seq_properties;

    if contents.len() == 0 {
        assert(contents.to_set() =~= Set::<Seq<u8>>::empty());
    } else {
        let front = contents.drop_last();
        let last = contents.last();
        let before = after_all(Set::empty(), front);
        assert forall|i: int, j: int|
            0 <= i < front.len() && 0 <= j < front.len() && front[i] != front[j] implies digest_of(
            #[trigger] front[i],
        ) != digest_of(#[trigger] front[j]) by {
            assert(front[i] == contents[i] && front[j] == contents[j]);
        }
        lemma_one_object_per_content(front);
        lemma_after_all_holds(front, digest_of(last));
        vstd::seq_lib::seq_to_set_is_finite(front);
        assert(contents.to_set() =~= front.to_set().insert(last)) by {
            assert forall|c: Seq<u8>| contents.to_set().contains(c) <==> front.to_set().insert(
                last,
            ).contains(c) by {
                if contents.contains(c) {
                    let i = choose|i: int| 0 <= i < contents.len() && contents[i] == c;
                    if i < front.len() {
                        assert(front[i] == c);
                    }
                }
                if front.contains(c) {
                    let i = choose|i: int| 0 <= i < front.len() && front[i] == c;
                    assert(contents[i] == c);
                }
                if c == last {
                    assert(contents[contents.len() - 1] == c);
                }
            }
        }
        if front.to_set().contains(last) {
            let i = choose|i: int| 0 <= i < front.len() && front[i] == last;
            assert(digest_of(front[i]) == digest_of(last));
        } else {
            if before.contains(digest_of(last)) {
                let i = choose|i: int|
                    0 <= i < front.len() && digest_of(#[trigger] front[i]) == digest_of(last);
                assert(front[i] == contents[i]);
                assert(contents[contents.len() - 1] == last);
                assert(front.contains(front[i]));
                assert(contents[i] != contents[contents.len() - 1]);
            }
        }
    }
}

/// The object container of one repository, known by the names of the
/// objects in it.
pub struct ObjectStore {
    pub root: String,
    pub names: Vec<String>,
}

impl ObjectStore {
    /// The names of the objects in the container.
    pub open spec fn objects(&self) -> Set<Seq<char>> {
        text_set(self.names@)
    }

    /// The container of the repository at `root` that holds the files
    /// `names`.
    pub fn open(root: String, names: Vec<String>) -> (store: ObjectStore)
        ensures
            store.root == root,
            store.names == names,
    {
        ObjectStore { root, names }
    }

    /// Whether an object named `digest` is in the container.
    pub fn holds(&self, digest: &str) -> (found: bool)
        ensures
            found == self.objects().contains(digest@),
    {
        blob_exist(digest, &self.names)
    }

    /// Stores `content` under `digest`. Where the container holds the digest
    /// already, nothing happens. Otherwise the object is entered and the
    /// file to be written is returned.
    pub fn write(&mut self, digest: &str, content: &Vec<u8>) -> (file: Option<ObjectFile>)
        ensures
            final(self).root == old(self).root,
            final(self).objects() == after_write(old(self).objects(), digest@),
            file is Some <==> is_new(old(self).objects(), digest@),
            file is None ==> final(self).names == old(self).names,
            file matches Some(f) ==> f.path@ == blob_path(old(self).root@, digest@) && f.bytes@
                == serialize(content@),
            forall|container: Map<Seq<char>, Seq<u8>>|
                container.dom() == old(self).objects() ==> written(container, digest@, file)
                    == #[trigger] put(container, digest@, content@),
    {
        if self.holds(digest) {
            assert(final(self).objects() =~= after_write(old(self).objects(), digest@));
            return None;
        }
        let path = gen_blob_path(self.root.as_str(), digest);
        let file = mkblob(content, path.as_str());
        let name = String::from_str(digest);
        self.names.push(name);
        proof {
            let before = old(self).names@;
            let after = final(self).names@;
            assert(after == before.push(name));
            assert forall|t: Seq<char>|
                text_set(after).contains(t) <==> after_write(text_set(before), digest@).contains(
                    t,
                ) by {
                if text_set(after).contains(t) {
                    let i = choose|i: int| 0 <= i < after.len() && #[trigger] after[i]@ == t;
                    if i < before.len() {
                        assert(before[i]@ == t);
                    }
                }
                if text_set(before).contains(t) {
                    let i = choose|i: int| 0 <= i < before.len() && #[trigger] before[i]@ == t;
                    assert(after[i]@ == t);
                }
                if t == digest@ {
                    assert(after[before.len() as int]@ == t);
                }
            }
            assert(final(self).objects() =~= after_write(old(self).objects(), digest@));
        }
        Some(file)
    }
}

} // verus!
