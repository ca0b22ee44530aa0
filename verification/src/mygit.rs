//! The tool itself: which command the arguments ask for, and what each
//! command needs done.

use crate::errors::ErrState;
use crate::locate::{get_repo_root, holds_marker, lemma_discovery, locate, DirListing};
use crate::store::{blob_path, ObjectFile, ObjectStore};
use crate::text::{str_eq, texts};
use crate::walk::Walker;
use vstd::prelude::*;
use vstd::string::*;

verus! {

/// A command that the arguments ask for and that can go ahead.
pub enum Command {
    /// Make the directory a repository.
    Init,
    /// Store every file under this path.
    Add(String),
}

/// The tool, with the repository root that was found, if any.
pub struct MyGit {
    pub repo_path: Option<String>,
}

/// The directories of a repository at `target_dir`: the marker directory,
/// then the object container in it.
pub open spec fn repo_dirs(target_dir: Seq<char>) -> Seq<Seq<char>> {
    seq![target_dir + "/.mygit"@, target_dir + "/.mygit/objects"@]
}

/// The directories that `init` has to create in `target_dir`, in order:
/// none where a repository was found already.
pub open spec fn init_dirs(located: bool, target_dir: Seq<char>) -> Seq<Seq<char>> {
    if located {
        Seq::empty()
    } else {
        repo_dirs(target_dir)
    }
}

/// Once the starting directory holds the marker directory, it is found as
/// the repository root, and `init` has nothing left to create.
pub proof fn lemma_init_idempotent(chain: Seq<DirListing>, target_dir: Seq<char>)
    requires
        chain.len() > 0,
        chain[0].entries is Some,
        holds_marker(chain[0].entries->Some_0@),
    ensures
        locate(chain) == Some(chain[0].path@),
        init_dirs(locate(chain) is Some, target_dir).len() == 0,
{
    lemma_discovery(chain, 0);
}

/// What `add` with these arguments comes to, with or without a repository.
pub open spec fn add_command(located: bool, args: Seq<String>) -> Result<Seq<char>, ErrState> {
    if !located {
        Err(ErrState::NotARepo)
    } else if args.len() > 2 {
        Ok(args[2]@)
    } else {
        Err(ErrState::LackOfArg)
    }
}

/// What the arguments come to: the command's name is the second argument.
pub open spec fn command_of(located: bool, args: Seq<String>) -> Result<
    Option<Seq<char>>,
    ErrState,
> {
    if args.len() <= 1 {
        Err(ErrState::BadUse)
    } else if args[1]@ == "init"@ {
        Ok(None)
    } else if args[1]@ == "add"@ {
        match add_command(located, args) {
            Ok(path) => Ok(Some(path)),
            Err(e) => Err(e),
        }
    } else {
        Err(ErrState::UnknownCmd)
    }
}

impl Command {
    /// The path of an `Add`, nothing for `Init`.
    pub open spec fn target(&self) -> Option<Seq<char>> {
        match self {
            Command::Init => None,
            Command::Add(path) => Some(path@),
        }
    }
}

impl MyGit {
    /// The tool for a starting directory and its ancestors, nearest first,
    /// each with its listing: the repository root is looked up among them.
    pub fn default(chain: &Vec<DirListing>) -> (tool: MyGit)
        ensures
            match tool.repo_path {
                Some(path) => locate(chain@) == Some(path@),
                None => locate(chain@) is None,
            },
    {
        MyGit { repo_path: get_repo_root(chain) }
    }

    /// The command that `args` ask for, or why there is none.
    pub fn parse_args(&self, args: &Vec<String>) -> (parsed: Result<Command, ErrState>)
        ensures
            match parsed {
                Ok(command) => command_of(self.repo_path is Some, args@) == Ok::<
                    Option<Seq<char>>,
                    ErrState,
                >(command.target()),
                Err(e) => command_of(self.repo_path is Some, args@) == Err::<
                    Option<Seq<char>>,
                    ErrState,
                >(e),
            },
    {
        if args.len() > 1 {
            let cmd = args[1].as_str();
            if str_eq(cmd, "init") {
                Ok(Command::Init)
            } else if str_eq(cmd, "add") {
                match self.exec_add(args) {
                    Ok(path) => Ok(Command::Add(path)),
                    Err(e) => Err(e),
                }
            } else {
                Err(ErrState::UnknownCmd)
            }
        } else {
            Err(ErrState::BadUse)
        }
    }

    /// The directories that `init` has to create in `target_dir`, in order:
    /// none where a repository was found, else the marker directory and the
    /// object container.
    pub fn init(&self, target_dir: &str) -> (dirs: Vec<String>)
        ensures
            texts(dirs@) == init_dirs(self.repo_path is Some, target_dir@),
    {
        let mut dirs: Vec<String> = Vec::new();
        if self.repo_path.is_none() {
            dirs.push(String::from_str(target_dir).concat("/.mygit"));
            dirs.push(String::from_str(target_dir).concat("/.mygit/objects"));
        }
        assert(texts(dirs@) =~= init_dirs(self.repo_path is Some, target_dir@));
        dirs
    }

    /// The outcome of `init`, given whether every directory that it asked
    /// for was created: it fails only where one was needed and not made.
    pub fn exec_init(&self, created: bool) -> (outcome: Result<(), ErrState>)
        ensures
            outcome == (if self.repo_path is Some || created {
                Ok::<(), ErrState>(())
            } else {
                Err::<(), ErrState>(ErrState::InitFailed)
            }),
    {
        if self.repo_path.is_some() || created {
            Ok(())
        } else {
            Err(ErrState::InitFailed)
        }
    }

    /// The path that `add` is asked to store: the third argument. Without a
    /// repository this is `NotARepo`, without the argument `LackOfArg`.
    pub fn exec_add(&self, args: &Vec<String>) -> (path: Result<String, ErrState>)
        ensures
            match path {
                Ok(p) => add_command(self.repo_path is Some, args@) == Ok::<
                    Seq<char>,
                    ErrState,
                >(p@),
                Err(e) => add_command(self.repo_path is Some, args@) == Err::<
                    Seq<char>,
                    ErrState,
                >(e),
            },
    {
        if self.repo_path.is_none() {
            Err(ErrState::NotARepo)
        } else if args.len() > 2 {
            Ok(args[2].clone())
        } else {
            Err(ErrState::LackOfArg)
        }
    }

    /// Starts the walk of `path` into the repository's object container,
    /// which holds the files `objects`.
    pub fn add(&self, path: String, objects: Vec<String>) -> (walker: Walker)
        requires
            self.repo_path is Some,
        ensures
            walker.store.root@ == self.repo_path->Some_0@,
            walker.store.names == objects,
            walker.pending@ == seq![path],
            walker.state() == crate::walk::start_state(
                crate::text::text_set(objects@),
                path@,
            ),
    {
        let root = match &self.repo_path {
            Some(root) => root.clone(),
            None => String::new(),
        };
        Walker::new(ObjectStore::open(root, objects), path)
    }

    /// The object file for `content` at `blob_path`.
    pub fn mkblob(&self, content: &Vec<u8>, blob_path: &str) -> (file: ObjectFile)
        ensures
            file.path@ == blob_path@,
            file.bytes@ == crate::blob::serialize(content@),
    {
        crate::store::mkblob(content, blob_path)
    }

    /// The repository root, if one was found.
    pub fn gen_repo_path(&self) -> (root: Option<&str>)
        ensures
            match root {
                Some(r) => self.repo_path is Some && r@ == self.repo_path->Some_0@,
                None => self.repo_path is None,
            },
    {
        match &self.repo_path {
            Some(repo_path) => Some(repo_path.as_str()),
            None => None,
        }
    }

    /// The path of the object `blob_name` in this repository.
    pub fn gen_blob_path(&self, blob_name: &str) -> (path: String)
        requires
            self.repo_path is Some,
        ensures
            path@ == blob_path(self.repo_path->Some_0@, blob_name@),
    {
        match self.gen_repo_path() {
            Some(root) => crate::store::gen_blob_path(root, blob_name),
            None => String::new(),
        }
    }
}

} // verus!
