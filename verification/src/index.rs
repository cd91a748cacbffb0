//! The index: a snapshot of entries with ascending ids.

use crate::entry::{entry_of, Entry, EntryModel};
use vstd::prelude::*;

verus! {

/// What is known of one file when it enters the index.
#[derive(Debug, Clone)]
pub struct FileRecord {
    pub name: String,
    pub path: String,
    pub size: u64,
    pub mtime: u64,
}

/// The mathematical value of a [`FileRecord`].
pub struct FileModel {
    pub name: Seq<char>,
    pub path: Seq<char>,
    pub size: u64,
    pub mtime: u64,
}

impl View for FileRecord {
    type V = FileModel;

    open spec fn view(&self) -> FileModel {
        FileModel { name: self.name@, path: self.path@, size: self.size, mtime: self.mtime }
    }
}

/// A snapshot of entries.
#[derive(Debug, Clone)]
pub struct Index {
    pub entries: Vec<Entry>,
    next_id: u64,
}

/// The mathematical value of an [`Index`].
pub struct IndexModel {
    pub entries: Seq<EntryModel>,
    pub next_id: u64,
}

/// The values of a list of entries.
pub open spec fn entries_model(v: Seq<Entry>) -> Seq<EntryModel> {
    Seq::new(v.len(), |i: int| v[i]@)
}

/// The values of a list of file records.
pub open spec fn files_model(v: Seq<FileRecord>) -> Seq<FileModel> {
    Seq::new(v.len(), |i: int| v[i]@)
}

impl View for Index {
    type V = IndexModel;

    closed spec fn view(&self) -> IndexModel {
        IndexModel { entries: entries_model(self.entries@), next_id: self.next_id }
    }
}

/// The index with one more file, under the next id. An index that has used
/// up its ids takes no more files.
pub open spec fn with_file(index: IndexModel, file: FileModel) -> IndexModel {
    if index.next_id < u64::MAX {
        IndexModel {
            entries: index.entries.push(
                entry_of(index.next_id, file.name, file.path, file.size, file.mtime),
            ),
            next_id: (index.next_id + 1) as u64,
        }
    } else {
        index
    }
}

/// The index with the files added one after the other.
pub open spec fn with_files(index: IndexModel, files: Seq<FileModel>) -> IndexModel
    decreases files.len(),
{
    if files.len() == 0 {
        index
    } else {
        with_file(with_files(index, files.drop_last()), files.last())
    }
}

/// The ids of the entries ascend, and all lie below the next id.
pub open spec fn ids_ascend(index: IndexModel) -> bool {
    &&& forall|i: int, j: int|
        0 <= i < j < index.entries.len() ==> (#[trigger] index.entries[i]).id < (
        #[trigger] index.entries[j]).id
    &&& forall|i: int|
        0 <= i < index.entries.len() ==> 1 <= (#[trigger] index.entries[i]).id < index.next_id
}

/// Adding files keeps the ids of the entries ascending, and so unique.
pub proof fn lemma_ids_stay_ascending(index: IndexModel, files: Seq<FileModel>)
    requires
        ids_ascend(index),
        index.next_id >= 1,
    ensures
        ids_ascend(with_files(index, files)),
        with_files(index, files).next_id >= index.next_id,
    decreases files.len(),
{
    if files.len() > 0 {
        lemma_ids_stay_ascending(index, files.drop_last());
        let before = with_files(index, files.drop_last());
        let after = with_file(before, files.last());
        if before.next_id < u64::MAX {
            assert forall|i: int, j: int| 0 <= i < j < after.entries.len() implies (
            #[trigger] after.entries[i]).id < (#[trigger] after.entries[j]).id by {
                if j < before.entries.len() {
                    assert(before.entries[i].id < before.entries[j].id);
                } else {
                    assert(1 <= before.entries[i].id < before.next_id);
                }
            }
            assert forall|i: int| 0 <= i < after.entries.len() implies 1 <= (
            #[trigger] after.entries[i]).id < after.next_id by {
                if i < before.entries.len() {
                    assert(1 <= before.entries[i].id < before.next_id);
                }
            }
        }
    }
}

impl Index {
    /// An empty index whose first id is 1.
    pub fn new() -> (r: Index)
        ensures
            r@ == (IndexModel { entries: Seq::empty(), next_id: 1 }),
    {
        let r = Index { entries: Vec::new(), next_id: 1 };
        assert(r@.entries =~= Seq::<EntryModel>::empty());
        r
    }

    /// The entries, in the order of their ids.
    pub fn entries(&self) -> (r: &Vec<Entry>)
        ensures
            entries_model(r@) == self@.entries,
    {
        &self.entries
    }

    /// The number of entries.
    pub fn len(&self) -> (n: usize)
        ensures
            n == self@.entries.len(),
    {
        self.entries.len()
    }

    fn add_file(&mut self, file: &FileRecord)
        ensures
            final(self)@ == with_file(old(self)@, file@),
    {
        if self.next_id < u64::MAX {
            let id = self.next_id;
            let e = Entry::new(id, file.name.clone(), file.path.clone(), file.size, file.mtime);
            self.next_id = id + 1;
            self.entries.push(e);
            assert(self@.entries =~= with_file(old(self)@, file@).entries);
        }
    }

    /// Adds the files to the index, in their order, each under the next id.
    pub fn build_from_paths(&mut self, files: Vec<FileRecord>)
        ensures
            final(self)@ == with_files(old(self)@, files_model(files@)),
    {
        let ghost models = files_model(files@);
        let mut i: usize = 0;
        assert(models.take(0) =~= Seq::<FileModel>::empty());
        while i < files.len()
            invariant
                i <= files.len(),
                models == files_model(files@),
                self@ == with_files(old(self)@, models.take(i as int)),
            decreases files.len() - i,
        {
            proof {
                assert(models.take(i + 1).drop_last() =~= models.take(i as int));
                assert(models.take(i + 1).last() == files[i as int]@);
            }
            self.add_file(&files[i]);
            i = i + 1;
        }
        assert(models.take(i as int) =~= models);
    }
}

/// An empty index.
pub fn index_new() -> (r: Box<Index>)
    ensures
        r@ == (IndexModel { entries: Seq::empty(), next_id: 1 }),
{
    Box::new(Index::new())
}

/// The index of the given files, with ids from 1 on in their order.
pub fn index_build_from_paths(files: Vec<FileRecord>) -> (r: Box<Index>)
    ensures
        r@ == with_files(
            IndexModel { entries: Seq::empty(), next_id: 1 },
            files_model(files@),
        ),
{
    let mut idx = Index::new();
    idx.build_from_paths(files);
    Box::new(idx)
}

} // verus!
