//! The storage abstraction the upload protocol depends on, and its verified
//! in-memory backend.
//!
//! A backend exposes create/append/length/staleness operations over named
//! logical files. The single invariant the protocol depends on is that a
//! unit's length equals the byte offset at which the next append starts.

use vstd::prelude::*;

use crate::rpc::{FileMetadata, StorageError};

verus! {

/// A storage handle whose current byte length can be asked for.
pub trait FileLen {
    /// The number of bytes currently stored behind the handle.
    spec fn byte_len(&self) -> nat;

    /// Where `len` owes success. The default owes it nowhere (a handle on a
    /// fallible medium); a handle the verifier reasons about overrides it.
    open spec fn len_succeeds(&self) -> bool {
        false
    }

    fn len(&self) -> (r: Result<u64, StorageError>)
        ensures
            r matches Ok(n) ==> n == self.byte_len(),
            self.len_succeeds() ==> r is Ok,
    ;
}

/// Durable byte-addressable storage for named logical files.
///
/// The abstract state is a pair of maps from logical name to the stored
/// bytes and to the recorded last-modified stamp. Concrete backends are
/// selected at construction time and used interchangeably by the upload
/// service.
pub trait StorageManager: Sized {
    /// The stored bytes of each logical file. The default model is empty:
    /// a backend the verifier reasons about overrides it.
    open spec fn contents(&self) -> Map<Seq<char>, Seq<u8>> {
        Map::empty()
    }

    /// The recorded last-modified stamp of each logical file. The default
    /// model is empty: a backend the verifier reasons about overrides it.
    open spec fn stamps(&self) -> Map<Seq<char>, u64> {
        Map::empty()
    }

    /// Backend-specific well-formedness.
    open spec fn wf(&self) -> bool {
        true
    }

    /// The inputs on which `create` owes success. The defaults of this and
    /// the three predicates below owe success nowhere (a fallible medium);
    /// each backend the verifier reasons about overrides them with the
    /// inputs on which its operation cannot fail.
    open spec fn create_succeeds(&self, metadata: FileMetadata) -> bool {
        false
    }

    /// The names on which `append` owes success.
    open spec fn append_succeeds(&self, file_name: Seq<char>) -> bool {
        false
    }

    /// Whether `storage_outdated` owes success.
    open spec fn outdated_succeeds(&self) -> bool {
        false
    }

    /// The names on which `get_head` owes success.
    open spec fn get_head_succeeds(&self, file_name: Seq<char>) -> bool {
        false
    }

    /// Allocates or resets a zero-length storage unit for
    /// `metadata.file_name` and records `metadata.last_modified`;
    /// re-initiating an upload always restarts the byte position at 0 for
    /// that name, even if a previous transfer was partial.
    fn create(&mut self, metadata: &FileMetadata) -> (r: Result<(), StorageError>)
        requires
            old(self).wf(),
        ensures
            final(self).wf(),
            match r {
                Ok(()) => {
                    &&& final(self).contents() == old(self).contents().insert(
                        metadata.file_name@,
                        Seq::<u8>::empty(),
                    )
                    &&& final(self).stamps() == old(self).stamps().insert(
                        metadata.file_name@,
                        metadata.last_modified,
                    )
                },
                Err(e) => {
                    &&& e == StorageError::NotWritable
                    &&& final(self).contents() == old(self).contents()
                    &&& final(self).stamps() == old(self).stamps()
                },
            },
            old(self).create_succeeds(*metadata) ==> r is Ok,
    ;

    /// Appends `data` to the end of the unit for `file_name`; fails with
    /// `InvalidTarget` exactly when no unit exists for that name.
    fn append(&mut self, file_name: &String, data: &Vec<u8>) -> (r: Result<(), StorageError>)
        requires
            old(self).wf(),
        ensures
            final(self).wf(),
            match r {
                Ok(()) => {
                    &&& old(self).contents().contains_key(file_name@)
                    &&& final(self).contents() == old(self).contents().insert(
                        file_name@,
                        old(self).contents()[file_name@] + data@,
                    )
                    &&& final(self).stamps() == old(self).stamps()
                },
                Err(e) => {
                    &&& (e == StorageError::InvalidTarget <==> !old(self).contents().contains_key(
                        file_name@,
                    ))
                    &&& final(self).contents() == old(self).contents()
                    &&& final(self).stamps() == old(self).stamps()
                },
            },
            old(self).append_succeeds(file_name@) ==> r is Ok,
    ;

    /// `false` exactly when a unit exists for `metadata.file_name` whose
    /// recorded stamp equals `metadata.last_modified`. Equality, not
    /// ordering, is the comparison: only an exact match proves
    /// byte-for-byte correspondence.
    fn storage_outdated(&self, metadata: &FileMetadata) -> (r: Result<bool, StorageError>)
        requires
            self.wf(),
        ensures
            match r {
                Ok(b) => b == !(self.stamps().contains_key(metadata.file_name@)
                    && self.stamps()[metadata.file_name@] == metadata.last_modified),
                Err(_) => !self.outdated_succeeds(),
            },
            self.outdated_succeeds() ==> r is Ok,
    ;

    /// The current length of the unit, i.e. the byte offset at which the
    /// next append must start; fails with `InvalidTarget` exactly when no
    /// unit exists for that name.
    fn get_head(&self, file_name: &String) -> (r: Result<u64, StorageError>)
        requires
            self.wf(),
        ensures
            match r {
                Ok(n) => self.contents().contains_key(file_name@) && n == self.contents()[
                    file_name@].len(),
                Err(e) => (e == StorageError::InvalidTarget <==> !self.contents().contains_key(
                    file_name@,
                )),
            },
            self.get_head_succeeds(file_name@) ==> r is Ok,
    ;
}

/// One in-memory storage unit: a named byte sequence together with its
/// recorded last-modified stamp.
#[derive(Debug)]
pub struct StoredFile {
    pub name: String,
    pub last_modified: u64,
    pub data: Vec<u8>,
}

impl FileLen for StoredFile {
    open spec fn byte_len(&self) -> nat {
        self.data@.len()
    }

    open spec fn len_succeeds(&self) -> bool {
        true
    }

    fn len(&self) -> (r: Result<u64, StorageError>) {
        Ok(self.data.len() as u64)
    }
}

/// Whether some unit in `files` bears `name`.
pub open spec fn has_unit(files: Seq<StoredFile>, name: Seq<char>) -> bool {
    exists|i: int| 0 <= i < files.len() && files[i].name@ == name
}

/// The index of the unit bearing `name` (meaningful only when names are
/// pairwise distinct and `has_unit` holds).
pub open spec fn unit_at(files: Seq<StoredFile>, name: Seq<char>) -> int {
    choose|i: int| 0 <= i < files.len() && files[i].name@ == name
}

/// No two units bear the same name.
pub open spec fn units_distinct(files: Seq<StoredFile>) -> bool {
    forall|i: int, j: int| 0 <= i < j < files.len() ==> files[i].name@ != files[j].name@
}

/// The stored bytes of each named unit.
pub open spec fn units_contents(files: Seq<StoredFile>) -> Map<Seq<char>, Seq<u8>> {
    Map::new(
        |name: Seq<char>| has_unit(files, name),
        |name: Seq<char>| files[unit_at(files, name)].data@,
    )
}

/// The recorded stamp of each named unit.
pub open spec fn units_stamps(files: Seq<StoredFile>) -> Map<Seq<char>, u64> {
    Map::new(
        |name: Seq<char>| has_unit(files, name),
        |name: Seq<char>| files[unit_at(files, name)].last_modified,
    )
}

/// With pairwise distinct names, the unit bearing a name is the only one.
proof fn lemma_unit_at_is(files: Seq<StoredFile>, i: int)
    requires
        units_distinct(files),
        0 <= i < files.len(),
    ensures
        has_unit(files, files[i].name@),
        unit_at(files, files[i].name@) == i,
{
    let name = files[i].name@;
    assert(has_unit(files, name));
    let j = unit_at(files, name);
    if i < j {
        assert(files[i].name@ != files[j].name@);
    } else if j < i {
        assert(files[j].name@ != files[i].name@);
    }
}

/// Replacing the unit at `i` by one with the same name updates the view of
/// that name alone.
proof fn lemma_update_unit(files: Seq<StoredFile>, i: int, f: StoredFile)
    requires
        units_distinct(files),
        0 <= i < files.len(),
        f.name@ == files[i].name@,
    ensures
        units_distinct(files.update(i, f)),
        units_contents(files.update(i, f)) == units_contents(files).insert(f.name@, f.data@),
        units_stamps(files.update(i, f)) == units_stamps(files).insert(f.name@, f.last_modified),
{
    let files2 = files.update(i, f);
    assert forall|k: int| 0 <= k < files2.len() implies files2[k].name@ == files[k].name@ by {}
    assert forall|n: Seq<char>| has_unit(files2, n) == has_unit(files, n) by {
        if has_unit(files2, n) {
            let k = choose|k: int| 0 <= k < files2.len() && files2[k].name@ == n;
            assert(files[k].name@ == n);
        }
        if has_unit(files, n) {
            let k = choose|k: int| 0 <= k < files.len() && files[k].name@ == n;
            assert(files2[k].name@ == n);
        }
    }
    assert forall|n: Seq<char>| has_unit(files2, n) implies #[trigger] units_contents(files2)[n]
        == units_contents(files).insert(f.name@, f.data@)[n] && units_stamps(files2)[n]
        == units_stamps(files).insert(f.name@, f.last_modified)[n] by {
        let k = unit_at(files2, n);
        assert(0 <= k < files2.len() && files2[k].name@ == n);
        lemma_unit_at_is(files2, k);
        lemma_unit_at_is(files, k);
        if n == f.name@ {
            lemma_unit_at_is(files2, i);
            assert(k == i);
        }
    }
    assert(units_contents(files2) =~= units_contents(files).insert(f.name@, f.data@));
    assert(units_stamps(files2) =~= units_stamps(files).insert(f.name@, f.last_modified));
}

/// Appending a unit with a fresh name adds that name to the view and leaves
/// every other name unchanged.
proof fn lemma_push_unit(files: Seq<StoredFile>, f: StoredFile)
    requires
        units_distinct(files),
        !has_unit(files, f.name@),
    ensures
        units_distinct(files.push(f)),
        units_contents(files.push(f)) == units_contents(files).insert(f.name@, f.data@),
        units_stamps(files.push(f)) == units_stamps(files).insert(f.name@, f.last_modified),
{
    let files2 = files.push(f);
    assert forall|a: int, b: int| 0 <= a < b < files2.len() implies files2[a].name@
        != files2[b].name@ by {
        if b < files.len() {
            assert(files[a].name@ != files[b].name@);
        } else {
            assert(files2[b] == f);
            assert(0 <= a < files.len() && files2[a].name@ == files[a].name@);
            if files[a].name@ == f.name@ {
                assert(has_unit(files, f.name@));
            }
        }
    }
    assert forall|n: Seq<char>| has_unit(files2, n) == (has_unit(files, n) || n == f.name@) by {
        if has_unit(files2, n) {
            let k = choose|k: int| 0 <= k < files2.len() && files2[k].name@ == n;
            if k < files.len() {
                assert(files[k].name@ == n);
            }
        }
        if has_unit(files, n) {
            let k = choose|k: int| 0 <= k < files.len() && files[k].name@ == n;
            assert(files2[k].name@ == n);
        }
        if n == f.name@ {
            assert(files2[files.len() as int].name@ == n);
        }
    }
    assert forall|n: Seq<char>| has_unit(files2, n) implies #[trigger] units_contents(files2)[n]
        == units_contents(files).insert(f.name@, f.data@)[n] && units_stamps(files2)[n]
        == units_stamps(files).insert(f.name@, f.last_modified)[n] by {
        let k = unit_at(files2, n);
        assert(0 <= k < files2.len() && files2[k].name@ == n);
        lemma_unit_at_is(files2, k);
        if n == f.name@ {
            lemma_unit_at_is(files2, files.len() as int);
            assert(k == files.len() as int);
        } else {
            assert(k < files.len());
            lemma_unit_at_is(files, k);
        }
    }
    assert(units_contents(files2) =~= units_contents(files).insert(f.name@, f.data@));
    assert(units_stamps(files2) =~= units_stamps(files).insert(f.name@, f.last_modified));
}

/// In-memory storage backend: every logical file lives in process memory.
/// Operations never touch a fallible medium, so they owe success wherever
/// the storage contract allows it.
#[derive(Debug)]
pub struct InMemoryStorage {
    files: Vec<StoredFile>,
}

impl InMemoryStorage {
    /// The stored units, in insertion order.
    pub closed spec fn units(&self) -> Seq<StoredFile> {
        self.files@
    }

    pub fn new() -> (r: InMemoryStorage)
        ensures
            r.wf(),
            r.contents() == Map::<Seq<char>, Seq<u8>>::empty(),
            r.stamps() == Map::<Seq<char>, u64>::empty(),
    {
        let r = InMemoryStorage { files: Vec::new() };
        proof {
            assert(r.contents() =~= Map::<Seq<char>, Seq<u8>>::empty());
            assert(r.stamps() =~= Map::<Seq<char>, u64>::empty());
        }
        r
    }

    /// The index of the unit bearing `name`, if one exists.
    fn find(&self, name: &String) -> (r: Option<usize>)
        ensures
            match r {
                Some(i) => i < self.units().len() && self.units()[i as int].name@ == name@,
                None => !has_unit(self.units(), name@),
            },
    {
        let mut i: usize = 0;
        while i < self.files.len()
            invariant
                i <= self.files@.len(),
                forall|j: int| 0 <= j < i ==> self.files@[j].name@ != name@,
            decreases self.files@.len() - i,
        {
            if self.files[i].name == *name {
                return Some(i);
            }
            i = i + 1;
        }
        None
    }

    /// The bytes currently stored for `path`, if a unit exists for it.
    pub fn open_storage(&self, path: &String) -> (r: Option<Vec<u8>>)
        requires
            self.wf(),
        ensures
            match r {
                Some(bytes) => self.contents().contains_key(path@) && bytes@ == self.contents()[
                    path@],
                None => !self.contents().contains_key(path@),
            },
    {
        match self.find(path) {
            None => None,
            Some(i) => {
                proof {
                    lemma_unit_at_is(self.units(), i as int);
                }
                let unit_len = self.files[i].data.len();
                let mut bytes: Vec<u8> = Vec::new();
                let mut k: usize = 0;
                while k < unit_len
                    invariant
                        k <= unit_len,
                        i < self.files@.len(),
                        unit_len == self.files@[i as int].data@.len(),
                        bytes@ == self.files@[i as int].data@.take(k as int),
                    decreases unit_len - k,
                {
                    bytes.push(self.files[i].data[k]);
                    proof {
                        assert(bytes@ =~= self.files@[i as int].data@.take(k + 1));
                    }
                    k = k + 1;
                }
                proof {
                    assert(bytes@ =~= self.files@[i as int].data@);
                }
                Some(bytes)
            },
        }
    }
}

impl StorageManager for InMemoryStorage {
    open spec fn contents(&self) -> Map<Seq<char>, Seq<u8>> {
        units_contents(self.units())
    }

    open spec fn stamps(&self) -> Map<Seq<char>, u64> {
        units_stamps(self.units())
    }

    open spec fn wf(&self) -> bool {
        units_distinct(self.units())
    }

    open spec fn create_succeeds(&self, metadata: FileMetadata) -> bool {
        true
    }

    open spec fn append_succeeds(&self, file_name: Seq<char>) -> bool {
        self.contents().contains_key(file_name)
    }

    open spec fn outdated_succeeds(&self) -> bool {
        true
    }

    open spec fn get_head_succeeds(&self, file_name: Seq<char>) -> bool {
        self.contents().contains_key(file_name)
    }

    fn create(&mut self, metadata: &FileMetadata) -> (r: Result<(), StorageError>) {
        let unit = StoredFile {
            name: metadata.file_name.clone(),
            last_modified: metadata.last_modified,
            data: Vec::new(),
        };
        match self.find(&metadata.file_name) {
            Some(i) => {
                proof {
                    lemma_update_unit(self.files@, i as int, unit);
                }
                let _replaced = self.files.remove(i);
                self.files.insert(i, unit);
                proof {
                    assert(self.files@ =~= old(self).files@.update(i as int, unit));
                }
            },
            None => {
                proof {
                    lemma_push_unit(self.files@, unit);
                }
                self.files.push(unit);
            },
        }
        Ok(())
    }

    fn append(&mut self, file_name: &String, data: &Vec<u8>) -> (r: Result<(), StorageError>) {
        match self.find(file_name) {
            None => Err(StorageError::InvalidTarget),
            Some(i) => {
                proof {
                    lemma_unit_at_is(self.units(), i as int);
                }
                let mut unit = self.files.remove(i);
                let ghost orig = old(self).files@[i as int];
                let ghost stored = unit.data@;
                let mut k: usize = 0;
                while k < data.len()
                    invariant
                        k <= data@.len(),
                        unit.name == orig.name,
                        unit.last_modified == orig.last_modified,
                        unit.data@ == stored + data@.take(k as int),
                    decreases data@.len() - k,
                {
                    unit.data.push(data[k]);
                    proof {
                        assert(unit.data@ =~= stored + data@.take(k + 1));
                    }
                    k = k + 1;
                }
                proof {
                    assert(unit.data@ =~= stored + data@);
                    lemma_update_unit(old(self).files@, i as int, unit);
                }
                self.files.insert(i, unit);
                proof {
                    assert(self.files@ =~= old(self).files@.update(i as int, unit));
                }
                Ok(())
            },
        }
    }

    fn storage_outdated(&self, metadata: &FileMetadata) -> (r: Result<bool, StorageError>) {
        match self.find(&metadata.file_name) {
            None => Ok(true),
            Some(i) => {
                proof {
                    lemma_unit_at_is(self.units(), i as int);
                }
                Ok(self.files[i].last_modified != metadata.last_modified)
            },
        }
    }

    fn get_head(&self, file_name: &String) -> (r: Result<u64, StorageError>) {
        match self.find(file_name) {
            None => Err(StorageError::InvalidTarget),
            Some(i) => {
                proof {
                    lemma_unit_at_is(self.units(), i as int);
                }
                Ok(self.files[i].data.len() as u64)
            },
        }
    }
}

/// Direct filesystem backend: resolves a logical file name against a base
/// directory. Its storage operations are process file I/O and live with the
/// embedding program; the verified library carries only the configuration.
#[derive(Debug, Clone)]
pub struct FileSystem {
    base_path: String,
}

impl FileSystem {
    /// The directory under which the backend stores its files.
    pub closed spec fn base(&self) -> Seq<char> {
        self.base_path@
    }

    pub fn new(base_path: String) -> (r: FileSystem)
        ensures
            r.base() == base_path@,
    {
        FileSystem { base_path }
    }

    /// The configured base directory.
    pub fn base_path(&self) -> (r: &String)
        ensures
            r@ == self.base(),
    {
        &self.base_path
    }
}

} // verus!
