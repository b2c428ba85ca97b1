//! Catalog-indexed storage backend: a logical file name is mapped to an
//! opaque local storage unit through a catalog row, so the physical storage
//! location is decoupled from the logical name and can be regenerated by
//! identity on each new upload.

use vstd::prelude::*;

use crate::rpc::{FileMetadata, StorageError};
use crate::storage::{InMemoryStorage, StorageManager};

verus! {

/// One catalog row: the logical file name (unique key), the identifier of
/// the storage unit backing it, and the recorded last-modified stamp.
#[derive(Debug, Clone)]
pub struct DbFile {
    pub id: String,
    pub filename: String,
    pub last_modified: i64,
}

/// Relies on `uuid::Uuid::new_v4` rendered through the `Simple` formatter:
/// a randomly drawn identifier written as 32 hexadecimal characters. The
/// value depends on the process's random source, so nothing is promised of
/// it beyond its length; the caller checks it against the identifiers
/// already in use.
#[verifier::external_body]
fn fresh_unit_id() -> (r: String)
    ensures
        r@.len() == 32,
{
    uuid::Uuid::new_v4().simple().to_string()
}

/// Whether some row of `catalog` bears the logical name `name`.
pub open spec fn has_row(catalog: Seq<DbFile>, name: Seq<char>) -> bool {
    exists|i: int| 0 <= i < catalog.len() && catalog[i].filename@ == name
}

/// The index of the row bearing `name` (meaningful only when rows are
/// pairwise distinct and `has_row` holds).
pub open spec fn row_at(catalog: Seq<DbFile>, name: Seq<char>) -> int {
    choose|i: int| 0 <= i < catalog.len() && catalog[i].filename@ == name
}

/// Whether some row of `catalog` points at the unit identifier `id`.
pub open spec fn has_row_id(catalog: Seq<DbFile>, id: Seq<char>) -> bool {
    exists|i: int| 0 <= i < catalog.len() && catalog[i].id@ == id
}

/// No two rows bear the same logical name, and no two rows point at the
/// same storage unit.
pub open spec fn rows_distinct(catalog: Seq<DbFile>) -> bool {
    forall|i: int, j: int|
        0 <= i < j < catalog.len() ==> catalog[i].filename@ != catalog[j].filename@
            && catalog[i].id@ != catalog[j].id@
}

/// The stored bytes of each logical name: the unit the catalog points at.
pub open spec fn indexed_contents(catalog: Seq<DbFile>, units: Map<Seq<char>, Seq<u8>>) -> Map<
    Seq<char>,
    Seq<u8>,
> {
    Map::new(
        |name: Seq<char>| has_row(catalog, name),
        |name: Seq<char>| units[catalog[row_at(catalog, name)].id@],
    )
}

/// The recorded stamp of each logical name, as the catalog rows hold it.
pub open spec fn catalog_stamps(catalog: Seq<DbFile>) -> Map<Seq<char>, u64> {
    Map::new(
        |name: Seq<char>| has_row(catalog, name),
        |name: Seq<char>| catalog[row_at(catalog, name)].last_modified as u64,
    )
}

/// With pairwise distinct rows, the row bearing a name is the only one.
proof fn lemma_row_at_is(catalog: Seq<DbFile>, i: int)
    requires
        rows_distinct(catalog),
        0 <= i < catalog.len(),
    ensures
        has_row(catalog, catalog[i].filename@),
        row_at(catalog, catalog[i].filename@) == i,
{
    let name = catalog[i].filename@;
    assert(has_row(catalog, name));
    let j = row_at(catalog, name);
    if i < j {
        assert(catalog[i].filename@ != catalog[j].filename@);
    } else if j < i {
        assert(catalog[j].filename@ != catalog[i].filename@);
    }
}

/// Replacing row `i` by one with the same name and unit, while resetting
/// that unit, updates the views of that name alone.
proof fn lemma_indexed_update(
    catalog: Seq<DbFile>,
    units: Map<Seq<char>, Seq<u8>>,
    i: int,
    row: DbFile,
    bytes: Seq<u8>,
)
    requires
        rows_distinct(catalog),
        0 <= i < catalog.len(),
        row.filename@ == catalog[i].filename@,
        row.id@ == catalog[i].id@,
    ensures
        rows_distinct(catalog.update(i, row)),
        indexed_contents(catalog.update(i, row), units.insert(row.id@, bytes)) == indexed_contents(
            catalog,
            units,
        ).insert(row.filename@, bytes),
        catalog_stamps(catalog.update(i, row)) == catalog_stamps(catalog).insert(
            row.filename@,
            row.last_modified as u64,
        ),
{
    let catalog2 = catalog.update(i, row);
    let units2 = units.insert(row.id@, bytes);
    assert forall|k: int| 0 <= k < catalog2.len() implies catalog2[k].filename@
        == catalog[k].filename@ && catalog2[k].id@ == catalog[k].id@ by {}
    assert forall|n: Seq<char>| has_row(catalog2, n) == has_row(catalog, n) by {
        if has_row(catalog2, n) {
            let k = choose|k: int| 0 <= k < catalog2.len() && catalog2[k].filename@ == n;
            assert(catalog[k].filename@ == n);
        }
        if has_row(catalog, n) {
            let k = choose|k: int| 0 <= k < catalog.len() && catalog[k].filename@ == n;
            assert(catalog2[k].filename@ == n);
        }
    }
    assert forall|n: Seq<char>| has_row(catalog2, n) implies #[trigger] indexed_contents(
        catalog2,
        units2,
    )[n] == indexed_contents(catalog, units).insert(row.filename@, bytes)[n] && catalog_stamps(
        catalog2,
    )[n] == catalog_stamps(catalog).insert(row.filename@, row.last_modified as u64)[n] by {
        let k = row_at(catalog2, n);
        assert(0 <= k < catalog2.len() && catalog2[k].filename@ == n);
        lemma_row_at_is(catalog2, k);
        lemma_row_at_is(catalog, k);
        if n == row.filename@ {
            lemma_row_at_is(catalog2, i);
            assert(k == i);
        } else {
            assert(k != i);
            if k < i {
                assert(catalog[k].id@ != catalog[i].id@);
            } else {
                assert(catalog[i].id@ != catalog[k].id@);
            }
        }
    }
    assert(indexed_contents(catalog2, units2) =~= indexed_contents(catalog, units).insert(
        row.filename@,
        bytes,
    ));
    assert(catalog_stamps(catalog2) =~= catalog_stamps(catalog).insert(
        row.filename@,
        row.last_modified as u64,
    ));
}

/// Appending a row with a fresh name and a fresh unit adds that name to
/// the views and leaves every other name unchanged.
proof fn lemma_indexed_push(
    catalog: Seq<DbFile>,
    units: Map<Seq<char>, Seq<u8>>,
    row: DbFile,
    bytes: Seq<u8>,
)
    requires
        rows_distinct(catalog),
        !has_row(catalog, row.filename@),
        !has_row_id(catalog, row.id@),
    ensures
        rows_distinct(catalog.push(row)),
        indexed_contents(catalog.push(row), units.insert(row.id@, bytes)) == indexed_contents(
            catalog,
            units,
        ).insert(row.filename@, bytes),
        catalog_stamps(catalog.push(row)) == catalog_stamps(catalog).insert(
            row.filename@,
            row.last_modified as u64,
        ),
{
    let catalog2 = catalog.push(row);
    let units2 = units.insert(row.id@, bytes);
    assert forall|a: int, b: int| 0 <= a < b < catalog2.len() implies catalog2[a].filename@
        != catalog2[b].filename@ && catalog2[a].id@ != catalog2[b].id@ by {
        if b < catalog.len() {
            assert(catalog[a].filename@ != catalog[b].filename@);
            assert(catalog[a].id@ != catalog[b].id@);
        } else {
            assert(catalog2[b] == row);
            assert(0 <= a < catalog.len());
            if catalog[a].filename@ == row.filename@ {
                assert(has_row(catalog, row.filename@));
            }
            if catalog[a].id@ == row.id@ {
                assert(has_row_id(catalog, row.id@));
            }
        }
    }
    assert forall|n: Seq<char>| has_row(catalog2, n) == (has_row(catalog, n) || n
        == row.filename@) by {
        if has_row(catalog2, n) {
            let k = choose|k: int| 0 <= k < catalog2.len() && catalog2[k].filename@ == n;
            if k < catalog.len() {
                assert(catalog[k].filename@ == n);
            }
        }
        if has_row(catalog, n) {
            let k = choose|k: int| 0 <= k < catalog.len() && catalog[k].filename@ == n;
            assert(catalog2[k].filename@ == n);
        }
        if n == row.filename@ {
            assert(catalog2[catalog.len() as int].filename@ == n);
        }
    }
    assert forall|n: Seq<char>| has_row(catalog2, n) implies #[trigger] indexed_contents(
        catalog2,
        units2,
    )[n] == indexed_contents(catalog, units).insert(row.filename@, bytes)[n] && catalog_stamps(
        catalog2,
    )[n] == catalog_stamps(catalog).insert(row.filename@, row.last_modified as u64)[n] by {
        let k = row_at(catalog2, n);
        assert(0 <= k < catalog2.len() && catalog2[k].filename@ == n);
        lemma_row_at_is(catalog2, k);
        if n == row.filename@ {
            lemma_row_at_is(catalog2, catalog.len() as int);
            assert(k == catalog.len() as int);
        } else {
            assert(k < catalog.len());
            lemma_row_at_is(catalog, k);
            if catalog[k].id@ == row.id@ {
                assert(has_row_id(catalog, row.id@));
            }
        }
    }
    assert(indexed_contents(catalog2, units2) =~= indexed_contents(catalog, units).insert(
        row.filename@,
        bytes,
    ));
    assert(catalog_stamps(catalog2) =~= catalog_stamps(catalog).insert(
        row.filename@,
        row.last_modified as u64,
    ));
}

/// Growing the unit row `i` points at rewrites the view of that row's name
/// alone: no other row points at the same unit.
proof fn lemma_indexed_append(
    catalog: Seq<DbFile>,
    units: Map<Seq<char>, Seq<u8>>,
    i: int,
    bytes: Seq<u8>,
)
    requires
        rows_distinct(catalog),
        0 <= i < catalog.len(),
    ensures
        indexed_contents(catalog, units.insert(catalog[i].id@, bytes)) == indexed_contents(
            catalog,
            units,
        ).insert(catalog[i].filename@, bytes),
{
    let units2 = units.insert(catalog[i].id@, bytes);
    assert forall|n: Seq<char>| has_row(catalog, n) implies #[trigger] indexed_contents(
        catalog,
        units2,
    )[n] == indexed_contents(catalog, units).insert(catalog[i].filename@, bytes)[n] by {
        let k = row_at(catalog, n);
        assert(0 <= k < catalog.len() && catalog[k].filename@ == n);
        lemma_row_at_is(catalog, k);
        if n == catalog[i].filename@ {
            lemma_row_at_is(catalog, i);
            assert(k == i);
        } else {
            assert(k != i);
            if k < i {
                assert(catalog[k].id@ != catalog[i].id@);
            } else {
                assert(catalog[i].id@ != catalog[k].id@);
            }
        }
    }
    assert(indexed_contents(catalog, units2) =~= indexed_contents(catalog, units).insert(
        catalog[i].filename@,
        bytes,
    ));
}

/// Catalog-indexed storage backend. The catalog rows live in the backend;
/// each row points at an in-memory storage unit whose name is the row's
/// unit identifier, never derived from the logical name, so logical files
/// can be recreated without colliding with stale physical data.
#[derive(Debug)]
pub struct IndexedStorage {
    catalog: Vec<DbFile>,
    units: InMemoryStorage,
}

impl IndexedStorage {
    /// The catalog rows, in insertion order.
    pub closed spec fn rows(&self) -> Seq<DbFile> {
        self.catalog@
    }

    /// The unit store the catalog points into.
    pub closed spec fn unit_store(&self) -> InMemoryStorage {
        self.units
    }

    pub fn new() -> (r: IndexedStorage)
        ensures
            r.wf(),
            r.contents() == Map::<Seq<char>, Seq<u8>>::empty(),
            r.stamps() == Map::<Seq<char>, u64>::empty(),
    {
        let r = IndexedStorage { catalog: Vec::new(), units: InMemoryStorage::new() };
        proof {
            assert(r.contents() =~= Map::<Seq<char>, Seq<u8>>::empty());
            assert(r.stamps() =~= Map::<Seq<char>, u64>::empty());
        }
        r
    }

    /// The index of the catalog row bearing `name`, if one exists.
    fn find_row(&self, name: &String) -> (r: Option<usize>)
        ensures
            match r {
                Some(i) => i < self.rows().len() && self.rows()[i as int].filename@ == name@,
                None => !has_row(self.rows(), name@),
            },
    {
        let mut i: usize = 0;
        while i < self.catalog.len()
            invariant
                i <= self.catalog@.len(),
                forall|j: int| 0 <= j < i ==> self.catalog@[j].filename@ != name@,
            decreases self.catalog@.len() - i,
        {
            if self.catalog[i].filename == *name {
                return Some(i);
            }
            i = i + 1;
        }
        None
    }

    /// Resets the existing row at `i`: rewrites its recorded stamp and
    /// truncates its unit to zero length, keeping the unit identifier. No
    /// identifier is drawn, so this cannot fail.
    fn reset_existing(&mut self, metadata: &FileMetadata, i: usize) -> (r: Result<
        (),
        StorageError,
    >)
        requires
            old(self).wf(),
            i < old(self).rows().len(),
            old(self).rows()[i as int].filename@ == metadata.file_name@,
        ensures
            final(self).wf(),
            r is Ok,
            final(self).contents() == old(self).contents().insert(
                metadata.file_name@,
                Seq::<u8>::empty(),
            ),
            final(self).stamps() == old(self).stamps().insert(
                metadata.file_name@,
                metadata.last_modified,
            ),
            final(self).rows().len() == old(self).rows().len(),
            final(self).rows()[i as int].id@ == old(self).rows()[i as int].id@,
            final(self).rows()[i as int].filename@ == metadata.file_name@,
    {
        let stamp = metadata.last_modified as i64;
        proof {
            let m: u64 = metadata.last_modified;
            assert(stamp as u64 == m) by (bit_vector)
                requires stamp == m as i64
            ;
        }
        let row = DbFile {
            id: self.catalog[i].id.clone(),
            filename: metadata.file_name.clone(),
            last_modified: stamp,
        };
        let unit_meta = FileMetadata { file_name: row.id.clone(), last_modified: 0, file_size: 0 };
        proof {
            lemma_indexed_update(
                self.catalog@,
                self.units.contents(),
                i as int,
                row,
                Seq::<u8>::empty(),
            );
        }
        let _replaced = self.catalog.remove(i);
        self.catalog.insert(i, row);
        proof {
            assert(self.catalog@ =~= old(self).catalog@.update(i as int, row));
        }
        let created = self.units.create(&unit_meta);
        proof {
            assert(created is Ok);
            assert forall|j: int| 0 <= j < self.rows().len() implies
                self.unit_store().contents().contains_key(#[trigger] self.rows()[j].id@) by {
                assert(old(self).unit_store().contents().contains_key(old(self).rows()[j].id@));
            }
        }
        Ok(())
    }

    /// Installs a new catalog row for `metadata.file_name` backed by the
    /// unit identifier `id` and a fresh zero-length unit. Fails, with
    /// `NotWritable` and nothing changed, exactly when a unit for `id`
    /// already exists — the check the caller of a randomly drawn identifier
    /// relies on.
    pub fn create_with_id(&mut self, metadata: &FileMetadata, id: String) -> (r: Result<
        (),
        StorageError,
    >)
        requires
            old(self).wf(),
            !has_row(old(self).rows(), metadata.file_name@),
        ensures
            final(self).wf(),
            (r is Err <==> old(self).unit_store().contents().contains_key(id@)),
            match r {
                Ok(()) => {
                    &&& final(self).contents() == old(self).contents().insert(
                        metadata.file_name@,
                        Seq::<u8>::empty(),
                    )
                    &&& final(self).stamps() == old(self).stamps().insert(
                        metadata.file_name@,
                        metadata.last_modified,
                    )
                },
                Err(e) => {
                    &&& e == StorageError::NotWritable
                    &&& final(self).contents() == old(self).contents()
                    &&& final(self).stamps() == old(self).stamps()
                },
            },
    {
        let stamp = metadata.last_modified as i64;
        proof {
            let m: u64 = metadata.last_modified;
            assert(stamp as u64 == m) by (bit_vector)
                requires stamp == m as i64
            ;
        }
        if self.units.get_head(&id).is_ok() {
            return Err(StorageError::NotWritable);
        }
        let row = DbFile { id, filename: metadata.file_name.clone(), last_modified: stamp };
        let unit_meta = FileMetadata { file_name: row.id.clone(), last_modified: 0, file_size: 0 };
        proof {
            if has_row_id(self.catalog@, row.id@) {
                let j = choose|j: int|
                    0 <= j < self.catalog@.len() && self.catalog@[j].id@ == row.id@;
                assert(self.unit_store().contents().contains_key(self.rows()[j].id@));
            }
            lemma_indexed_push(self.catalog@, self.units.contents(), row, Seq::<u8>::empty());
        }
        let created = self.units.create(&unit_meta);
        self.catalog.push(row);
        proof {
            assert(created is Ok);
            assert forall|j: int| 0 <= j < self.rows().len() implies
                self.unit_store().contents().contains_key(#[trigger] self.rows()[j].id@) by {
                if j < old(self).rows().len() {
                    assert(old(self).unit_store().contents().contains_key(
                        old(self).rows()[j].id@,
                    ));
                }
            }
        }
        Ok(())
    }
}

impl StorageManager for IndexedStorage {
    open spec fn contents(&self) -> Map<Seq<char>, Seq<u8>> {
        indexed_contents(self.rows(), self.unit_store().contents())
    }

    open spec fn stamps(&self) -> Map<Seq<char>, u64> {
        catalog_stamps(self.rows())
    }

    open spec fn wf(&self) -> bool {
        &&& rows_distinct(self.rows())
        &&& self.unit_store().wf()
        &&& forall|i: int|
            0 <= i < self.rows().len() ==> self.unit_store().contents().contains_key(
                #[trigger] self.rows()[i].id@,
            )
    }

    /// An existing name never draws an identifier, so resetting it cannot
    /// fail; only a new name depends on the random draw.
    open spec fn create_succeeds(&self, metadata: FileMetadata) -> bool {
        has_row(self.rows(), metadata.file_name@)
    }

    open spec fn append_succeeds(&self, file_name: Seq<char>) -> bool {
        self.contents().contains_key(file_name)
    }

    open spec fn outdated_succeeds(&self) -> bool {
        true
    }

    open spec fn get_head_succeeds(&self, file_name: Seq<char>) -> bool {
        self.contents().contains_key(file_name)
    }

    fn create(&mut self, metadata: &FileMetadata) -> (r: Result<(), StorageError>)
        ensures
            has_row(old(self).rows(), metadata.file_name@) ==> r is Ok && final(self).rows()[
                row_at(final(self).rows(), metadata.file_name@)].id@ == old(self).rows()[row_at(
                old(self).rows(),
                metadata.file_name@,
            )].id@,
    {
        match self.find_row(&metadata.file_name) {
            Some(i) => {
                let r = self.reset_existing(metadata, i);
                proof {
                    lemma_row_at_is(old(self).rows(), i as int);
                    lemma_row_at_is(self.rows(), i as int);
                }
                r
            },
            None => {
                let id = fresh_unit_id();
                self.create_with_id(metadata, id)
            },
        }
    }

    fn append(&mut self, file_name: &String, data: &Vec<u8>) -> (r: Result<(), StorageError>) {
        match self.find_row(file_name) {
            None => Err(StorageError::InvalidTarget),
            Some(i) => {
                let id = self.catalog[i].id.clone();
                proof {
                    lemma_row_at_is(self.catalog@, i as int);
                    assert(self.unit_store().contents().contains_key(self.rows()[i as int].id@));
                    lemma_indexed_append(
                        self.catalog@,
                        self.units.contents(),
                        i as int,
                        self.units.contents()[id@] + data@,
                    );
                }
                let appended = self.units.append(&id, data);
                proof {
                    assert(appended is Ok);
                    assert forall|j: int| 0 <= j < self.rows().len() implies
                        self.unit_store().contents().contains_key(
                        #[trigger] self.rows()[j].id@,
                    ) by {
                        assert(old(self).unit_store().contents().contains_key(
                            old(self).rows()[j].id@,
                        ));
                    }
                }
                Ok(())
            },
        }
    }

    fn storage_outdated(&self, metadata: &FileMetadata) -> (r: Result<bool, StorageError>) {
        match self.find_row(&metadata.file_name) {
            None => Ok(true),
            Some(i) => {
                proof {
                    lemma_row_at_is(self.catalog@, i as int);
                }
                let row_stamp = self.catalog[i].last_modified;
                let up_to_date = row_stamp == metadata.last_modified as i64;
                proof {
                    let m: u64 = metadata.last_modified;
                    assert((row_stamp == m as i64) == (row_stamp as u64 == m)) by (bit_vector);
                }
                Ok(!up_to_date)
            },
        }
    }

    fn get_head(&self, file_name: &String) -> (r: Result<u64, StorageError>) {
        match self.find_row(file_name) {
            None => Err(StorageError::InvalidTarget),
            Some(i) => {
                let id = self.catalog[i].id.clone();
                proof {
                    lemma_row_at_is(self.catalog@, i as int);
                    assert(self.unit_store().contents().contains_key(self.rows()[i as int].id@));
                }
                match self.units.get_head(&id) {
                    Ok(n) => Ok(n),
                    Err(e) => Err(e),
                }
            },
        }
    }
}

} // verus!
