//! Bookmarks and the store that keeps them.
//!
//! The store is an ordered collection of bookmarks, oldest first. Contracts
//! speak of it as a sequence of entries; `find`, `insert` and `delete` say what
//! the three operations of the store come to on such a sequence.

use crate::error::{BookmarkError, Failure};
use vstd::prelude::*;
use vstd::string::StringExecFns;

verus! {

/// Where the storage file lies, below the user's home directory.
pub const BOOKMARK_PATH: &'static str = ".cache/bm-bookmark";

/// What a bookmark is to a contract: its name and its path, as text.
pub struct Entry {
    pub name: Seq<char>,
    pub path: Seq<char>,
}

/// A named reference to a directory.
#[derive(Debug, Clone, PartialEq, Eq)]
pub struct Bookmark {
    pub name: String,
    pub path: String,
}

impl View for Bookmark {
    type V = Entry;

    open spec fn view(&self) -> Entry {
        Entry { name: self.name@, path: self.path@ }
    }
}

impl Bookmark {
    /// A bookmark that gives the directory `path` the name `name`.
    pub fn new(name: &str, path: &str) -> (bookmark: Self)
        ensures
            bookmark@ == (Entry { name: name@, path: path@ }),
    {
        Self { name: String::from_str(name), path: String::from_str(path) }
    }
}

/// The entries that a collection of bookmarks holds, in its order.
pub open spec fn entries(bookmarks: Seq<Bookmark>) -> Seq<Entry> {
    bookmarks.map_values(|bookmark: Bookmark| bookmark@)
}

/// Some entry of `store` is called `name`.
pub open spec fn has_name(store: Seq<Entry>, name: Seq<char>) -> bool {
    exists|i: int| 0 <= i < store.len() && (#[trigger] store[i]).name == name
}

/// Entry `i` of `store` is called `name`, and no entry before it is.
pub open spec fn is_first(store: Seq<Entry>, name: Seq<char>, i: int) -> bool {
    &&& 0 <= i < store.len()
    &&& store[i].name == name
    &&& forall|j: int| 0 <= j < i ==> (#[trigger] store[j]).name != name
}

/// The index of the first entry of `store` that is called `name`, where there is one.
pub open spec fn first_index(store: Seq<Entry>, name: Seq<char>) -> int {
    choose|i: int| is_first(store, name, i)
}

/// Looking `name` up: the path of the first entry with that name.
pub open spec fn find(store: Seq<Entry>, name: Seq<char>) -> Result<Seq<char>, Failure> {
    if has_name(store, name) {
        Ok(store[first_index(store, name)].path)
    } else {
        Err(Failure::NotFound { name })
    }
}

/// Registering `name` for `path`: the new entry goes to the end, unless the
/// name is taken, which fails with the path it stands for.
pub open spec fn insert(store: Seq<Entry>, name: Seq<char>, path: Seq<char>) -> Result<
    Seq<Entry>,
    Failure,
> {
    if has_name(store, name) {
        Err(Failure::DuplicateName { name, path: store[first_index(store, name)].path })
    } else {
        Ok(store.push(Entry { name, path }))
    }
}

/// Unregistering `name`: the first entry with that name leaves, the others
/// keep their order.
pub open spec fn delete(store: Seq<Entry>, name: Seq<char>) -> Result<Seq<Entry>, Failure> {
    if has_name(store, name) {
        Ok(store.remove(first_index(store, name)))
    } else {
        Err(Failure::NotFound { name })
    }
}

/// An index that `is_first` holds of is the one that `first_index` names.
pub proof fn lemma_first_index(store: Seq<Entry>, name: Seq<char>, i: int)
    requires
        is_first(store, name, i),
    ensures
        has_name(store, name),
        first_index(store, name) == i,
{
    let k = first_index(store, name);
    assert(is_first(store, name, k));
    if k < i {
        assert(store[k].name != name);
    } else if i < k {
        assert(store[i].name != name);
    }
}

/// What reading the storage file came to.
#[derive(Debug, Clone, PartialEq, Eq)]
pub enum Stored {
    /// There is no storage file.
    Missing,
    /// The file is there and could not be read; the text says why.
    Unreadable(String),
    /// The file does not hold a list of bookmarks; the text says why.
    Corrupt(String),
    /// The bookmarks that the file holds, in its order.
    Bookmarks(Vec<Bookmark>),
}

/// Loading: the collection that a read of the storage file stands for. A
/// file that is not there is an empty collection, and no failure.
pub open spec fn load(stored: Stored) -> Result<Seq<Entry>, Failure> {
    match stored {
        Stored::Missing => Ok(Seq::empty()),
        Stored::Unreadable(reason) => Err(Failure::Io { reason: reason@ }),
        Stored::Corrupt(reason) => Err(Failure::Decode { reason: reason@ }),
        Stored::Bookmarks(list) => Ok(entries(list@)),
    }
}

/// The store: it knows where the storage file lies, and what each operation
/// makes of the collection read from it.
#[derive(Debug, Clone, PartialEq, Eq)]
pub struct Manager {
    pub file_path: String,
}

fn position(bookmarks: &Vec<Bookmark>, name: &str) -> (found: Option<usize>)
    ensures
        match found {
            Some(i) => is_first(entries(bookmarks@), name@, i as int),
            None => !has_name(entries(bookmarks@), name@),
        },
{
    let key = String::from_str(name);
    let mut i: usize = 0;
    while i < bookmarks.len()
        invariant
            i <= bookmarks.len(),
            key@ == name@,
            forall|j: int| 0 <= j < i ==> (#[trigger] entries(bookmarks@)[j]).name != name@,
        decreases bookmarks.len() - i,
    {
        if bookmarks[i].name == key {
            return Some(i);
        }
        i += 1;
    }
    None
}

impl Manager {
    /// The store of the user whose home directory is `home`.
    pub fn new(home: &str) -> (manager: Self)
        ensures
            manager.file_path@ == home@ + "/"@ + BOOKMARK_PATH@,
    {
        let mut file_path = String::from_str(home);
        file_path.append("/");
        file_path.append(BOOKMARK_PATH);
        Self { file_path }
    }

    /// The collection that a read of the storage file stands for. A file
    /// that is not there yet is an empty collection.
    pub fn read_bookmarks(&self, stored: Stored) -> (loaded: Result<Vec<Bookmark>, BookmarkError>)
        ensures
            match loaded {
                Ok(list) => load(stored) == Ok::<Seq<Entry>, Failure>(entries(list@)),
                Err(e) => load(stored) == Err::<Seq<Entry>, Failure>(e@),
            },
            stored matches Stored::Bookmarks(list) ==> loaded == Ok::<Vec<Bookmark>, BookmarkError>(
                list,
            ),
    {
        match stored {
            Stored::Missing => {
                let list: Vec<Bookmark> = Vec::new();
                assert(entries(list@) =~= Seq::empty());
                Ok(list)
            },
            Stored::Unreadable(reason) => Err(BookmarkError::Io { reason }),
            Stored::Corrupt(reason) => Err(BookmarkError::Decode { reason }),
            Stored::Bookmarks(list) => Ok(list),
        }
    }

    /// The path that `name` stands for.
    pub fn get_bookmark(&self, bookmarks: &Vec<Bookmark>, name: &str) -> (found: Result<
        String,
        BookmarkError,
    >)
        ensures
            match found {
                Ok(path) => find(entries(bookmarks@), name@) == Ok::<Seq<char>, Failure>(path@),
                Err(e) => find(entries(bookmarks@), name@) == Err::<Seq<char>, Failure>(e@),
            },
    {
        match position(bookmarks, name) {
            Some(i) => {
                proof {
                    lemma_first_index(entries(bookmarks@), name@, i as int);
                }
                Ok(bookmarks[i].path.clone())
            },
            None => Err(BookmarkError::NotFound { name: String::from_str(name) }),
        }
    }

    /// Registers `name` for `path` at the end of the collection. Where the
    /// name is taken the collection stays as it was.
    pub fn add_bookmark(&self, bookmarks: &mut Vec<Bookmark>, name: &str, path: &str) -> (done:
        Result<(), BookmarkError>)
        ensures
            match done {
                Ok(_) => insert(entries(old(bookmarks)@), name@, path@) == Ok::<
                    Seq<Entry>,
                    Failure,
                >(entries(final(bookmarks)@)),
                Err(e) => insert(entries(old(bookmarks)@), name@, path@) == Err::<
                    Seq<Entry>,
                    Failure,
                >(e@) && *final(bookmarks) == *old(bookmarks),
            },
    {
        match position(bookmarks, name) {
            Some(i) => {
                proof {
                    lemma_first_index(entries(bookmarks@), name@, i as int);
                }
                Err(
                    BookmarkError::DuplicateName {
                        name: bookmarks[i].name.clone(),
                        path: bookmarks[i].path.clone(),
                    },
                )
            },
            None => {
                bookmarks.push(Bookmark::new(name, path));
                assert(entries(bookmarks@) =~= entries(old(bookmarks)@).push(
                    Entry { name: name@, path: path@ },
                ));
                Ok(())
            },
        }
    }

    /// Takes the bookmark called `name` out of the collection; the others
    /// keep their order. Where there is none the collection stays as it was.
    pub fn remove_bookmark(&self, bookmarks: &mut Vec<Bookmark>, name: &str) -> (done: Result<
        (),
        BookmarkError,
    >)
        ensures
            match done {
                Ok(_) => delete(entries(old(bookmarks)@), name@) == Ok::<Seq<Entry>, Failure>(
                    entries(final(bookmarks)@),
                ),
                Err(e) => delete(entries(old(bookmarks)@), name@) == Err::<Seq<Entry>, Failure>(
                    e@,
                ) && *final(bookmarks) == *old(bookmarks),
            },
    {
        match position(bookmarks, name) {
            Some(i) => {
                proof {
                    lemma_first_index(entries(bookmarks@), name@, i as int);
                }
                bookmarks.remove(i);
                assert(entries(bookmarks@) =~= entries(old(bookmarks)@).remove(i as int));
                Ok(())
            },
            None => Err(BookmarkError::NotFound { name: String::from_str(name) }),
        }
    }
}

/// Registering the entries of `items` one after another, first to last,
/// starting from `store`; the first failure ends it.
pub open spec fn insert_all(store: Seq<Entry>, items: Seq<Entry>) -> Result<Seq<Entry>, Failure>
    decreases items.len(),
{
    if items.len() == 0 {
        Ok(store)
    } else {
        match insert_all(store, items.drop_last()) {
            Ok(before) => insert(before, items.last().name, items.last().path),
            Err(e) => Err(e),
        }
    }
}

/// No two entries of `items` share a name.
pub open spec fn distinct_names(items: Seq<Entry>) -> bool {
    forall|i: int, j: int|
        0 <= i < j < items.len() ==> (#[trigger] items[i]).name != (#[trigger] items[j]).name
}

/// A name that was registered and is unregistered again leaves the
/// collection as it was before, in content and in order.
pub proof fn lemma_insert_then_delete(store: Seq<Entry>, name: Seq<char>, path: Seq<char>)
    ensures
        insert(store, name, path) matches Ok(after) ==> delete(after, name) == Ok::<
            Seq<Entry>,
            Failure,
        >(store),
{
    if !has_name(store, name) {
        let after = store.push(Entry { name, path });
        assert forall|j: int| 0 <= j < store.len() implies (#[trigger] after[j]).name != name by {
            assert(store[j].name != name);
        }
        assert(is_first(after, name, store.len() as int));
        lemma_first_index(after, name, store.len() as int);
        assert(after.remove(store.len() as int) =~= store);
    }
}

/// Entries whose names differ from one another and from every name in the
/// store are all registered, in their order, behind what the store held.
pub proof fn lemma_inserts_succeed(store: Seq<Entry>, items: Seq<Entry>)
    requires
        distinct_names(items),
        forall|k: int| 0 <= k < items.len() ==> !has_name(store, (#[trigger] items[k]).name),
    ensures
        insert_all(store, items) == Ok::<Seq<Entry>, Failure>(store + items),
    decreases items.len(),
{
    if items.len() == 0 {
        assert(store + items =~= store);
    } else {
        let front = items.drop_last();
        let last = items.last();
        assert forall|k: int| 0 <= k < front.len() implies !has_name(
            store,
            (#[trigger] front[k]).name,
        ) by {
            assert(front[k] == items[k]);
        }
        assert(distinct_names(front)) by {
            assert forall|i: int, j: int| 0 <= i < j < front.len() implies (#[trigger] front[
                i
            ]).name != (#[trigger] front[j]).name by {
                assert(front[i] == items[i] && front[j] == items[j]);
            }
        }
        lemma_inserts_succeed(store, front);
        let before = store + front;
        if has_name(before, last.name) {
            let k = choose|k: int|
                0 <= k < before.len() && (#[trigger] before[k]).name == last.name;
            if k < store.len() {
                assert(store[k].name == last.name);
                assert(!has_name(store, items[items.len() - 1].name));
            } else {
                assert(before[k] == items[k - store.len()]);
                assert(items[k - store.len()].name != items[items.len() - 1].name);
            }
        }
        assert(before.push(Entry { name: last.name, path: last.path }) =~= store + items);
    }
}

/// Where a run of registrations went through, it put its entries behind the
/// store in their order, and each name was new when its turn came.
proof fn lemma_inserts_went_through(store: Seq<Entry>, items: Seq<Entry>)
    requires
        insert_all(store, items) is Ok,
    ensures
        insert_all(store, items) == Ok::<Seq<Entry>, Failure>(store + items),
        forall|k: int|
            0 <= k < items.len() ==> !has_name(
                store + items.take(k),
                (#[trigger] items[k]).name,
            ),
    decreases items.len(),
{
    if items.len() == 0 {
        assert(store + items =~= store);
    } else {
        let front = items.drop_last();
        let last = items.last();
        lemma_inserts_went_through(store, front);
        let before = store + front;
        assert(before.push(Entry { name: last.name, path: last.path }) =~= store + items);
        assert forall|k: int| 0 <= k < items.len() implies !has_name(
            store + items.take(k),
            (#[trigger] items[k]).name,
        ) by {
            if k < front.len() {
                assert(items.take(k) =~= front.take(k));
                assert(items[k] == front[k]);
            } else {
                assert(items.take(k) =~= front);
            }
        }
    }
}

/// After a run of registrations that went through, looking up the name of
/// any of them gives exactly the path it was registered for.
pub proof fn lemma_find_after_inserts(store: Seq<Entry>, items: Seq<Entry>, i: int)
    requires
        0 <= i < items.len(),
    ensures
        insert_all(store, items) matches Ok(after) ==> find(after, items[i].name) == Ok::<
            Seq<char>,
            Failure,
        >(items[i].path),
{
    if insert_all(store, items) is Ok {
        lemma_inserts_went_through(store, items);
        let after = store + items;
        let name = items[i].name;
        let at = store.len() + i;
        assert(after[at] == items[i]);
        assert forall|j: int| 0 <= j < at implies (#[trigger] after[j]).name != name by {
            let seen = store + items.take(i);
            assert(!has_name(seen, items[i].name));
            assert(seen[j] == after[j]);
        }
        assert(is_first(after, name, at));
        lemma_first_index(after, name, at);
    }
}

} // verus!
