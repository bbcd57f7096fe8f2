use crate::text::same_text;
use vstd::prelude::*;

verus! {

/// Why a store did not do what it was asked.
#[derive(Debug, Clone, Copy, PartialEq, Eq, Structural)]
pub enum StoreError {
    /// Nothing is kept under the name.
    NotFound,
    /// Something is kept under the name already.
    AlreadyExists,
    /// The store itself failed; what it holds is as it was.
    Failed,
}

/// Whether `listing` shows what `contents` holds: each entry is kept under its
/// name, each name that is kept has its entry, and no name comes twice.
pub open spec fn shows(listing: Seq<(String, Vec<u8>)>, contents: Map<Seq<char>, Seq<u8>>) -> bool {
    &&& forall|i: int|
        0 <= i < listing.len() ==> contents.contains_key((#[trigger] listing[i]).0@)
            && contents[listing[i].0@] == listing[i].1@
    &&& forall|name: Seq<char>| #[trigger]
        contents.contains_key(name) ==> exists|i: int|
            0 <= i < listing.len() && (#[trigger] listing[i]).0@ == name
    &&& forall|i: int, j: int|
        0 <= i < j < listing.len() ==> (#[trigger] listing[i]).0@ != (#[trigger] listing[j]).0@
}

/// A place that keeps the bytes of schemas by name.
///
/// `contents` is what the store holds as seen through this handle. Each
/// operation says what it has done where it succeeds, and leaves the
/// contents as they were where it fails; none promises to succeed.
///
/// A store offers no transaction. Where two writers fetch what is kept under
/// one name, change it and keep it again, each on its own, the one that keeps
/// last wins and the change of the other is lost.
pub trait StorageBackend {
    /// What is kept, by name.
    spec fn contents(&self) -> Map<Seq<char>, Seq<u8>>;

    /// The invariant of the store, which every operation keeps.
    spec fn wf(&self) -> bool;

    /// Keeps `data` under `name`, which must be new.
    fn new_schema(&mut self, name: String, data: Vec<u8>) -> (done: Result<(), StoreError>)
        requires
            old(self).wf(),
        ensures
            final(self).wf(),
            done is Ok ==> !old(self).contents().contains_key(name@) && final(self).contents()
                == old(self).contents().insert(name@, data@),
            done is Err ==> final(self).contents() == old(self).contents(),
            done == Err::<(), StoreError>(StoreError::AlreadyExists) ==> old(
                self,
            ).contents().contains_key(name@),
    ;

    /// Replaces what is kept under `name`; where nothing is kept under it,
    /// nothing changes.
    fn update_schema(&mut self, name: String, data: Vec<u8>) -> (done: Result<(), StoreError>)
        requires
            old(self).wf(),
        ensures
            final(self).wf(),
            done is Ok ==> final(self).contents() == (if old(self).contents().contains_key(name@) {
                old(self).contents().insert(name@, data@)
            } else {
                old(self).contents()
            }),
            done is Err ==> final(self).contents() == old(self).contents(),
    ;

    /// Drops what is kept under `name`.
    fn delete_schema(&mut self, name: String) -> (done: Result<(), StoreError>)
        requires
            old(self).wf(),
        ensures
            final(self).wf(),
            done is Ok ==> final(self).contents() == old(self).contents().remove(name@),
            done is Err ==> final(self).contents() == old(self).contents(),
    ;

    /// Everything that is kept, each entry with its name.
    fn fetch_all(&self) -> (listing: Result<Vec<(String, Vec<u8>)>, StoreError>)
        requires
            self.wf(),
        ensures
            listing matches Ok(entries) ==> shows(entries@, self.contents()),
    ;

    /// What is kept under `name`.
    fn fetch_schema(&self, name: String) -> (data: Result<Vec<u8>, StoreError>)
        requires
            self.wf(),
        ensures
            data matches Ok(bytes) ==> self.contents().contains_key(name@) && bytes@
                == self.contents()[name@],
            data == Err::<Vec<u8>, StoreError>(StoreError::NotFound) ==> !self.contents().contains_key(
                name@,
            ),
    ;
}

/// A store that keeps everything in memory, in the order in which it came.
pub struct MemoryStore {
    entries: Vec<(String, Vec<u8>)>,
}

impl MemoryStore {
    /// No name is kept twice.
    pub closed spec fn distinct(&self) -> bool {
        distinct_names(self.entries@)
    }

    /// The names that are kept, with what is kept under each.
    pub closed spec fn map(&self) -> Map<Seq<char>, Seq<u8>> {
        map_of(self.entries@)
    }

    /// A store that keeps nothing.
    pub fn new() -> (store: MemoryStore)
        ensures
            store.distinct(),
            store.map() == Map::<Seq<char>, Seq<u8>>::empty(),
    {
        let store = MemoryStore { entries: Vec::new() };
        assert(store.map() =~= Map::<Seq<char>, Seq<u8>>::empty());
        store
    }

    /// Where `name` is kept, if it is.
    fn position(&self, name: &str) -> (found: Option<usize>)
        requires
            self.distinct(),
        ensures
            found is Some <==> self.map().contains_key(name@),
            found matches Some(i) ==> i < self.entries@.len() && self.entries@[i as int].0@ == name@
                && self.map()[name@] == self.entries@[i as int].1@,
    {
        let mut i: usize = 0;
        while i < self.entries.len()
            invariant
                i <= self.entries.len(),
                self.distinct(),
                forall|j: int| 0 <= j < i ==> self.entries@[j].0@ != name@,
            decreases self.entries.len() - i,
        {
            if same_text(self.entries[i].0.as_str(), name) {
                proof {
                    lemma_map_of(self.entries@);
                }
                return Some(i);
            }
            i += 1;
        }
        None
    }
}

impl StorageBackend for MemoryStore {
    open spec fn contents(&self) -> Map<Seq<char>, Seq<u8>> {
        self.map()
    }

    open spec fn wf(&self) -> bool {
        self.distinct()
    }

    fn new_schema(&mut self, name: String, data: Vec<u8>) -> (done: Result<(), StoreError>)
        ensures
            done is Ok <==> !old(self).contents().contains_key(name@),
            done matches Err(error) ==> error == StoreError::AlreadyExists,
    {
        if self.position(name.as_str()).is_some() {
            return Err(StoreError::AlreadyExists);
        }
        let ghost before = self.entries@;
        self.entries.push((name, data));
        proof {
            let after = self.entries@;
            assert forall|i: int, j: int| 0 <= i < j < after.len() implies (#[trigger] after[i]).0@
                != (#[trigger] after[j]).0@ by {
                if j == before.len() {
                    assert(before[i].0@ != name@);
                } else {
                    assert(before[i].0@ != before[j].0@);
                }
            }
            lemma_map_after_push(before, name@, data@, after);
        }
        Ok(())
    }

    fn update_schema(&mut self, name: String, data: Vec<u8>) -> (done: Result<(), StoreError>)
        ensures
            done is Ok,
    {
        match self.position(name.as_str()) {
            Some(i) => {
                let ghost before = self.entries@;
                self.entries[i] = (name, data);
                proof {
                    let after = self.entries@;
                    assert forall|a: int, b: int| 0 <= a < b < after.len() implies (
                    #[trigger] after[a]).0@ != (#[trigger] after[b]).0@ by {
                        assert(after[a].0@ == before[a].0@);
                        assert(after[b].0@ == before[b].0@);
                        assert(before[a].0@ != before[b].0@);
                    }
                    lemma_map_after_update(before, i as int, data@, after);
                }
                Ok(())
            },
            None => Ok(()),
        }
    }

    fn delete_schema(&mut self, name: String) -> (done: Result<(), StoreError>)
        ensures
            done is Ok,
    {
        match self.position(name.as_str()) {
            Some(i) => {
                let ghost before = self.entries@;
                self.entries.remove(i);
                proof {
                    let after = self.entries@;
                    assert forall|a: int, b: int| 0 <= a < b < after.len() implies (
                    #[trigger] after[a]).0@ != (#[trigger] after[b]).0@ by {
                        let x = if a < i { a } else { a + 1 };
                        let y = if b < i { b } else { b + 1 };
                        assert(after[a] == before[x]);
                        assert(after[b] == before[y]);
                        assert(before[x].0@ != before[y].0@);
                    }
                    lemma_map_after_remove(before, i as int, after);
                }
                Ok(())
            },
            None => {
                assert(self.map().remove(name@) =~= self.map());
                Ok(())
            },
        }
    }

    fn fetch_all(&self) -> (listing: Result<Vec<(String, Vec<u8>)>, StoreError>)
        ensures
            listing is Ok,
    {
        let mut copies: Vec<(String, Vec<u8>)> = Vec::new();
        let mut i: usize = 0;
        while i < self.entries.len()
            invariant
                i <= self.entries.len(),
                copies@.len() == i,
                forall|j: int|
                    0 <= j < i ==> (#[trigger] copies@[j]).0@ == self.entries@[j].0@ && copies@[j].1@
                        == self.entries@[j].1@,
            decreases self.entries.len() - i,
        {
            copies.push((self.entries[i].0.clone(), self.entries[i].1.clone()));
            i += 1;
        }
        proof {
            lemma_map_of(self.entries@);
            let contents = self.map();
            assert forall|j: int| 0 <= j < copies@.len() implies contents.contains_key(
                (#[trigger] copies@[j]).0@,
            ) && contents[copies@[j].0@] == copies@[j].1@ by {
                assert(self.entries@[j].0@ == copies@[j].0@);
            }
            assert forall|name: Seq<char>| #[trigger] contents.contains_key(name) implies exists|
                j: int,
            |
                0 <= j < copies@.len() && (#[trigger] copies@[j]).0@ == name by {
                let k = choose|k: int|
                    0 <= k < self.entries@.len() && (#[trigger] self.entries@[k]).0@ == name;
                assert(copies@[k].0@ == name);
            }
            assert forall|a: int, b: int| 0 <= a < b < copies@.len() implies (
            #[trigger] copies@[a]).0@ != (#[trigger] copies@[b]).0@ by {
                assert(self.entries@[a].0@ != self.entries@[b].0@);
            }
        }
        Ok(copies)
    }

    fn fetch_schema(&self, name: String) -> (data: Result<Vec<u8>, StoreError>)
        ensures
            data is Ok <==> self.contents().contains_key(name@),
            data matches Err(error) ==> error == StoreError::NotFound,
    {
        match self.position(name.as_str()) {
            Some(i) => Ok(self.entries[i].1.clone()),
            None => Err(StoreError::NotFound),
        }
    }
}

/// The map that a run of entries with distinct names stands for.
pub open spec fn map_of(entries: Seq<(String, Vec<u8>)>) -> Map<Seq<char>, Seq<u8>> {
    Map::new(
        |name: Seq<char>| exists|i: int| 0 <= i < entries.len() && (#[trigger] entries[i]).0@ == name,
        |name: Seq<char>|
            entries[choose|i: int| 0 <= i < entries.len() && (#[trigger] entries[i]).0@ == name].1@,
    )
}

/// Whether no two entries of the run have the same name.
pub open spec fn distinct_names(entries: Seq<(String, Vec<u8>)>) -> bool {
    forall|i: int, j: int|
        0 <= i < j < entries.len() ==> (#[trigger] entries[i]).0@ != (#[trigger] entries[j]).0@
}

/// Each entry of a run with distinct names is what the map holds under its
/// name.
pub proof fn lemma_map_of(entries: Seq<(String, Vec<u8>)>)
    requires
        distinct_names(entries),
    ensures
        forall|i: int|
            0 <= i < entries.len() ==> map_of(entries).contains_key((#[trigger] entries[i]).0@)
                && map_of(entries)[entries[i].0@] == entries[i].1@,
{
    assert forall|i: int| 0 <= i < entries.len() implies map_of(entries).contains_key(
        (#[trigger] entries[i]).0@,
    ) && map_of(entries)[entries[i].0@] == entries[i].1@ by {
        let name = entries[i].0@;
        let chosen = choose|k: int| 0 <= k < entries.len() && (#[trigger] entries[k]).0@ == name;
        assert(entries[chosen].0@ == name);
        if chosen < i {
            assert(entries[chosen].0@ != entries[i].0@);
        } else if i < chosen {
            assert(entries[i].0@ != entries[chosen].0@);
        }
    }
}

/// A new name at the end of the run is a new key of the map.
pub proof fn lemma_map_after_push(
    before: Seq<(String, Vec<u8>)>,
    name: Seq<char>,
    data: Seq<u8>,
    after: Seq<(String, Vec<u8>)>,
)
    requires
        distinct_names(before),
        distinct_names(after),
        after.len() == before.len() + 1,
        forall|i: int| 0 <= i < before.len() ==> after[i] == before[i],
        after[before.len() as int].0@ == name,
        after[before.len() as int].1@ == data,
    ensures
        map_of(after) == map_of(before).insert(name, data),
{
    lemma_map_of(before);
    lemma_map_of(after);
    let left = map_of(after);
    let right = map_of(before).insert(name, data);
    assert forall|key: Seq<char>| left.contains_key(key) <==> right.contains_key(key) by {
        if left.contains_key(key) {
            let k = choose|k: int| 0 <= k < after.len() && (#[trigger] after[k]).0@ == key;
            if k < before.len() {
                assert(before[k].0@ == key);
            }
        }
        if right.contains_key(key) && key != name {
            let k = choose|k: int| 0 <= k < before.len() && (#[trigger] before[k]).0@ == key;
            assert(after[k].0@ == key);
        }
        if key == name {
            assert(after[before.len() as int].0@ == key);
        }
    }
    assert forall|key: Seq<char>| left.contains_key(key) implies left[key] == right[key] by {
        let k = choose|k: int| 0 <= k < after.len() && (#[trigger] after[k]).0@ == key;
        assert(left[after[k].0@] == after[k].1@);
        if k < before.len() {
            assert(before[k].0@ == key);
            assert(map_of(before)[before[k].0@] == before[k].1@);
            assert(after[k].0@ != after[before.len() as int].0@);
        }
    }
    assert(left =~= right);
}

/// New bytes in one place of the run are new bytes under its name.
pub proof fn lemma_map_after_update(
    before: Seq<(String, Vec<u8>)>,
    index: int,
    data: Seq<u8>,
    after: Seq<(String, Vec<u8>)>,
)
    requires
        distinct_names(before),
        distinct_names(after),
        0 <= index < before.len(),
        after.len() == before.len(),
        forall|i: int| 0 <= i < before.len() && i != index ==> after[i] == before[i],
        after[index].0@ == before[index].0@,
        after[index].1@ == data,
    ensures
        map_of(after) == map_of(before).insert(before[index].0@, data),
{
    lemma_map_of(before);
    lemma_map_of(after);
    let name = before[index].0@;
    let left = map_of(after);
    let right = map_of(before).insert(name, data);
    assert forall|key: Seq<char>| left.contains_key(key) <==> right.contains_key(key) by {
        if left.contains_key(key) {
            let k = choose|k: int| 0 <= k < after.len() && (#[trigger] after[k]).0@ == key;
            assert(before[k].0@ == key);
        }
        if right.contains_key(key) && key != name {
            let k = choose|k: int| 0 <= k < before.len() && (#[trigger] before[k]).0@ == key;
            assert(after[k].0@ == key);
        }
        if key == name {
            assert(after[index].0@ == key);
        }
    }
    assert forall|key: Seq<char>| left.contains_key(key) implies left[key] == right[key] by {
        let k = choose|k: int| 0 <= k < after.len() && (#[trigger] after[k]).0@ == key;
        assert(left[after[k].0@] == after[k].1@);
        if k != index {
            assert(before[k].0@ == key);
            assert(map_of(before)[before[k].0@] == before[k].1@);
            if k < index {
                assert(before[k].0@ != before[index].0@);
            } else {
                assert(before[index].0@ != before[k].0@);
            }
        }
    }
    assert(left =~= right);
}

/// One place less in the run is one key less in the map.
pub proof fn lemma_map_after_remove(
    before: Seq<(String, Vec<u8>)>,
    index: int,
    after: Seq<(String, Vec<u8>)>,
)
    requires
        distinct_names(before),
        distinct_names(after),
        0 <= index < before.len(),
        after == before.remove(index),
    ensures
        map_of(after) == map_of(before).remove(before[index].0@),
{
    lemma_map_of(before);
    lemma_map_of(after);
    let name = before[index].0@;
    let left = map_of(after);
    let right = map_of(before).remove(name);
    assert forall|key: Seq<char>| left.contains_key(key) <==> right.contains_key(key) by {
        if left.contains_key(key) {
            let k = choose|k: int| 0 <= k < after.len() && (#[trigger] after[k]).0@ == key;
            let x = if k < index { k } else { k + 1 };
            assert(before[x].0@ == key);
            if x < index {
                assert(before[x].0@ != before[index].0@);
            } else {
                assert(before[index].0@ != before[x].0@);
            }
        }
        if right.contains_key(key) {
            let k = choose|k: int| 0 <= k < before.len() && (#[trigger] before[k]).0@ == key;
            let x = if k < index { k } else { k - 1 };
            assert(after[x].0@ == key);
        }
    }
    assert forall|key: Seq<char>| left.contains_key(key) implies left[key] == right[key] by {
        let k = choose|k: int| 0 <= k < after.len() && (#[trigger] after[k]).0@ == key;
        assert(left[after[k].0@] == after[k].1@);
        let x = if k < index { k } else { k + 1 };
        assert(before[x] == after[k]);
        assert(map_of(before)[before[x].0@] == before[x].1@);
    }
    assert(left =~= right);
}

} // verus!
