//! The input cell store: file contents and directory listings keyed by
//! canonical path, each an input node of the query engine.

use vstd::prelude::*;
use dashmap::DashMap;
use crate::engine::{Engine, EngineError, Value, ValueView};

verus! {

#[verifier::external_type_specification]
#[verifier::external_body]
#[verifier::reject_recursive_types(K)]
#[verifier::reject_recursive_types(V)]
#[verifier::reject_recursive_types(S)]
pub struct ExDashMap<K, V, S>(DashMap<K, V, S>);

/// A cached path: a file or a directory, with its input node.
#[derive(Clone, Copy, Debug, PartialEq, Eq, Structural)]
pub enum FileItem {
    File(usize),
    Dir(usize),
}

impl FileItem {
    pub open spec fn node(self) -> usize {
        match self {
            FileItem::File(n) => n,
            FileItem::Dir(n) => n,
        }
    }
}

/// The map from canonical path to cell.
pub type PathIndex = DashMap<String, FileItem>;

/// What the path index holds: each canonical path and its cell.
pub uninterp spec fn path_index(m: PathIndex) -> Map<Seq<char>, FileItem>;

/// Relies on dashmap's `DashMap::new`: a map with no entries.
#[verifier::external_body]
fn index_new() -> (r: PathIndex)
    ensures
        path_index(r).dom() == Set::<Seq<char>>::empty(),
{
    DashMap::new()
}

/// Relies on dashmap's `DashMap::get`: the value stored under `path`, if any.
#[verifier::external_body]
fn index_get(m: &PathIndex, path: &String) -> (r: Option<FileItem>)
    ensures
        r == (if path_index(*m).contains_key(path@) {
            Some(path_index(*m)[path@])
        } else {
            None
        }),
{
    m.get(path).map(|entry| *entry)
}

/// Relies on dashmap's `DashMap::insert`: `path` maps to `item` afterwards,
/// and every other key keeps its value.
#[verifier::external_body]
fn index_insert(m: &mut PathIndex, path: String, item: FileItem)
    ensures
        path_index(*final(m)) == path_index(*old(m)).insert(path@, item),
{
    m.insert(path, item);
}

#[derive(Clone, Copy, Debug, PartialEq, Eq, Structural)]
pub enum StoreError {
    /// The path is cached as a directory.
    NotAFile,
    /// The path is cached as a file.
    NotADirectory,
    /// The engine refused to replace the content.
    Engine(EngineError),
}

/// The input cells and the derivations over them.
pub struct BlogDatabase {
    pub engine: Engine,
    pub files: PathIndex,
}

impl BlogDatabase {
    /// The cached paths and their cells.
    pub open spec fn files(&self) -> Map<Seq<char>, FileItem> {
        path_index(self.files)
    }

    pub open spec fn wf(&self) -> bool {
        &&& self.engine@.wf()
        &&& forall|p: Seq<char>|
            #[trigger] self.files().contains_key(p) ==> self.files()[p].node()
                < self.engine@.nodes.len() && self.engine@.nodes[self.files()[p].node() as int].is_input
    }

    /// A store with no cached path and an empty graph.
    pub fn new() -> (r: BlogDatabase)
        ensures
            r.wf(),
            r.files().dom() == Set::<Seq<char>>::empty(),
            r.engine@.nodes.len() == 0,
            r.engine@.revision == 0,
    {
        BlogDatabase { engine: Engine::new(), files: index_new() }
    }

    /// The cell cached for `path`, if any.
    pub fn item(&self, path: &String) -> (r: Option<FileItem>)
        ensures
            r == (if self.files().contains_key(path@) {
                Some(self.files()[path@])
            } else {
                None
            }),
    {
        index_get(&self.files, path)
    }

    /// The input node of the file cached at `path`: `None` when the path
    /// was never read, and an error when it is cached as a directory.
    pub fn lookup_file(&self, path: &String) -> (r: Result<Option<usize>, StoreError>)
        ensures
            r == (if !self.files().contains_key(path@) {
                Ok(None)
            } else {
                match self.files()[path@] {
                    FileItem::File(n) => Ok(Some(n)),
                    FileItem::Dir(_) => Err(StoreError::NotAFile),
                }
            }),
    {
        match index_get(&self.files, path) {
            None => Ok(None),
            Some(FileItem::File(n)) => Ok(Some(n)),
            Some(FileItem::Dir(_)) => Err(StoreError::NotAFile),
        }
    }

    /// The input node of the directory cached at `path`: `None` when the
    /// path was never listed, and an error when it is cached as a file.
    pub fn lookup_dir(&self, path: &String) -> (r: Result<Option<usize>, StoreError>)
        ensures
            r == (if !self.files().contains_key(path@) {
                Ok(None)
            } else {
                match self.files()[path@] {
                    FileItem::Dir(n) => Ok(Some(n)),
                    FileItem::File(_) => Err(StoreError::NotADirectory),
                }
            }),
    {
        match index_get(&self.files, path) {
            None => Ok(None),
            Some(FileItem::Dir(n)) => Ok(Some(n)),
            Some(FileItem::File(_)) => Err(StoreError::NotADirectory),
        }
    }

    /// Caches `path` with `value` as a new input cell, unless the path is
    /// cached already, in which case that cell is kept and its content is
    /// not replaced.
    fn register(&mut self, path: String, value: Value, as_dir: bool) -> (r: FileItem)
        requires
            old(self).wf(),
        ensures
            final(self).wf(),
            old(self).files().contains_key(path@) ==> r == old(self).files()[path@] && final(self).files()
                == old(self).files() && final(self).engine@ == old(self).engine@,
            !old(self).files().contains_key(path@) ==> {
                &&& r.node() == old(self).engine@.nodes.len()
                &&& r == (if as_dir {
                    FileItem::Dir(r.node())
                } else {
                    FileItem::File(r.node())
                })
                &&& final(self).files() == old(self).files().insert(path@, r)
                &&& final(self).engine@ == old(self).engine@.after_add_input(value@)
            },
    {
        match index_get(&self.files, &path) {
            Some(item) => item,
            None => {
                let id = self.engine.add_input(value);
                let item = if as_dir {
                    FileItem::Dir(id)
                } else {
                    FileItem::File(id)
                };
                index_insert(&mut self.files, path, item);
                proof {
                    let e = self.engine@;
                    let o = old(self).engine@;
                    assert forall|p: Seq<char>| #[trigger] self.files().contains_key(p) implies self.files()[p].node()
                        < e.nodes.len() && e.nodes[self.files()[p].node() as int].is_input by {
                        if old(self).files().contains_key(p) && p != path@ {
                            assert(e.nodes[old(self).files()[p].node() as int] == o.nodes[old(self).files()[p].node() as int]);
                        }
                    }
                }
                item
            },
        }
    }

    /// Caches the file at `path`, read as `content`, and gives its input
    /// node; a path cached already keeps its cell, and one cached as a
    /// directory is refused.
    pub fn register_file(&mut self, path: String, content: Vec<u8>) -> (r: Result<usize, StoreError>)
        requires
            old(self).wf(),
        ensures
            final(self).wf(),
            old(self).files().contains_key(path@) ==> final(self).files() == old(self).files()
                && final(self).engine@ == old(self).engine@ && r == (match old(self).files()[path@] {
                FileItem::File(n) => Ok::<usize, StoreError>(n),
                FileItem::Dir(_) => Err(StoreError::NotAFile),
            }),
            !old(self).files().contains_key(path@) ==> {
                &&& r == Ok::<usize, StoreError>(old(self).engine@.nodes.len() as usize)
                &&& final(self).files() == old(self).files().insert(
                    path@,
                    FileItem::File(old(self).engine@.nodes.len() as usize),
                )
                &&& final(self).engine@ == old(self).engine@.after_add_input(ValueView::Bytes(content@))
            },
    {
        let ghost c = content@;
        match self.register(path, Value::Bytes(content), false) {
            FileItem::File(n) => Ok(n),
            FileItem::Dir(_) => Err(StoreError::NotAFile),
        }
    }

    /// Caches the directory at `path`, listed as `children`, and gives its
    /// input node; a path cached already keeps its cell, and one cached as
    /// a file is refused.
    pub fn register_dir(&mut self, path: String, children: Vec<String>) -> (r: Result<usize, StoreError>)
        requires
            old(self).wf(),
        ensures
            final(self).wf(),
            old(self).files().contains_key(path@) ==> final(self).files() == old(self).files()
                && final(self).engine@ == old(self).engine@ && r == (match old(self).files()[path@] {
                FileItem::Dir(n) => Ok::<usize, StoreError>(n),
                FileItem::File(_) => Err(StoreError::NotADirectory),
            }),
            !old(self).files().contains_key(path@) ==> {
                &&& r == Ok::<usize, StoreError>(old(self).engine@.nodes.len() as usize)
                &&& final(self).files() == old(self).files().insert(
                    path@,
                    FileItem::Dir(old(self).engine@.nodes.len() as usize),
                )
                &&& final(self).engine@ == old(self).engine@.after_add_input(
                    ValueView::Texts(crate::article::texts_view(children@)),
                )
            },
    {
        match self.register(path, Value::Texts(children), true) {
            FileItem::Dir(n) => Ok(n),
            FileItem::File(_) => Err(StoreError::NotADirectory),
        }
    }

    /// Replaces the content of the cell cached at `path` after a change on
    /// disk: a file takes `content`, a directory the listing `children`.
    /// A path that no derivation ever read is not cached and changes nothing.
    pub fn reload(&mut self, path: &String, content: Vec<u8>, children: Vec<String>) -> (r: Result<bool, StoreError>)
        requires
            old(self).wf(),
        ensures
            final(self).wf(),
            final(self).files() == old(self).files(),
            !old(self).files().contains_key(path@) ==> r == Ok::<bool, StoreError>(false)
                && final(self).engine@ == old(self).engine@,
            old(self).files().contains_key(path@) && old(self).engine@.revision < u64::MAX ==> {
                &&& r == Ok::<bool, StoreError>(true)
                &&& final(self).engine@ == old(self).engine@.after_set_input(
                    old(self).files()[path@].node(),
                    match old(self).files()[path@] {
                        FileItem::File(_) => ValueView::Bytes(content@),
                        FileItem::Dir(_) => ValueView::Texts(crate::article::texts_view(children@)),
                    },
                )
            },
            old(self).files().contains_key(path@) && old(self).engine@.revision >= u64::MAX ==> r
                == Err::<bool, StoreError>(StoreError::Engine(EngineError::RevisionOverflow)),
            r is Err ==> final(self).engine@ == old(self).engine@,
    {
        let res = match index_get(&self.files, path) {
            None => return Ok(false),
            Some(FileItem::File(n)) => self.engine.set_input(n, Value::Bytes(content)),
            Some(FileItem::Dir(n)) => self.engine.set_input(n, Value::Texts(children)),
        };
        match res {
            Ok(()) => Ok(true),
            Err(e) => Err(StoreError::Engine(e)),
        }
    }
}

} // verus!
