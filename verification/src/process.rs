//! The operations that a user asks for: they check directories and names,
//! and leave the keeping of the collection to the store.

use crate::bookmark::{delete, entries, insert, load, Bookmark, Entry, Manager, Stored};
use crate::error::{BookmarkError, Failure};
use vstd::prelude::*;
use vstd::string::{StrSliceExecFns, StringExecFns};
use vstd::utf8::encode_utf8;

verus! {

/// What the file system says of a path.
#[derive(Debug, Clone, PartialEq, Eq)]
pub struct PathStatus {
    /// Something is there.
    pub exists: bool,
    /// It is a directory.
    pub is_dir: bool,
    /// The canonical absolute form of the path, where it has one.
    pub canonical: Option<String>,
}

/// The operations, one function each.
pub struct Process {}

/// The length of `text` in bytes of UTF-8.
pub open spec fn byte_len(text: Seq<char>) -> nat {
    encode_utf8(text).len()
}

/// `width` is the length of the longest name of `store`, in bytes: no name
/// is longer and some name is that long. For an empty store it is zero.
pub open spec fn is_name_width(store: Seq<Entry>, width: nat) -> bool {
    &&& forall|i: int| 0 <= i < store.len() ==> byte_len((#[trigger] store[i]).name) <= width
    &&& if store.len() == 0 {
        width == 0
    } else {
        exists|i: int| 0 <= i < store.len() && byte_len((#[trigger] store[i]).name) == width
    }
}

/// The width of the name column in a list of `store`.
pub open spec fn name_width(store: Seq<Entry>) -> nat {
    choose|width: nat| is_name_width(store, width)
}

/// A width that `is_name_width` holds of is the one that `name_width` names.
pub proof fn lemma_name_width(store: Seq<Entry>, width: nat)
    requires
        is_name_width(store, width),
    ensures
        name_width(store) == width,
{
    let other = name_width(store);
    assert(is_name_width(store, other));
    if store.len() > 0 {
        let i = choose|i: int|
            0 <= i < store.len() && byte_len((#[trigger] store[i]).name) == width;
        let j = choose|j: int|
            0 <= j < store.len() && byte_len((#[trigger] store[j]).name) == other;
        assert(byte_len(store[i].name) <= other);
        assert(byte_len(store[j].name) <= width);
    }
}

/// The blanks that bring a text of `used` characters up to `width` columns.
pub open spec fn padding(width: nat, used: nat) -> Seq<char> {
    Seq::new(
        if width > used {
            (width - used) as nat
        } else {
            0
        },
        |i: int| ' ',
    )
}

/// The line that shows `entry` in a list whose name column is `width` wide.
pub open spec fn list_line(entry: Entry, width: nat) -> Seq<char> {
    entry.name + padding(width, entry.name.len()) + seq![' '] + entry.path
}

/// The lines that show `store`: one for each entry, in the store's order,
/// the name column as wide as the longest name.
pub open spec fn listing(store: Seq<Entry>) -> Seq<Seq<char>> {
    Seq::new(store.len(), |i: int| list_line(store[i], name_width(store)))
}

/// The texts of `lines`, in their order.
pub open spec fn texts(lines: Seq<String>) -> Seq<Seq<char>> {
    lines.map_values(|line: String| line@)
}

/// The directory that a name resolves to, if the recorded path still is one.
pub open spec fn resolve(name: Seq<char>, path: Seq<char>, status: PathStatus) -> Result<
    Seq<char>,
    Failure,
> {
    if status.exists && status.is_dir {
        Ok(path)
    } else {
        Err(Failure::InvalidPath { name, path })
    }
}

/// Adding a bookmark: the path has to be a directory with a canonical form,
/// then the storage file has to load, then the name has to be new.
pub open spec fn register(
    stored: Stored,
    name: Seq<char>,
    path: Seq<char>,
    status: PathStatus,
) -> Result<Seq<Entry>, Failure> {
    if status.exists && status.is_dir && status.canonical is Some {
        match load(stored) {
            Ok(store) => insert(store, name, status.canonical->Some_0@),
            Err(e) => Err(e),
        }
    } else {
        Err(Failure::InvalidPath { name, path })
    }
}

/// Removing a bookmark: the storage file has to load, then the name has to
/// be there.
pub open spec fn unregister(stored: Stored, name: Seq<char>) -> Result<Seq<Entry>, Failure> {
    match load(stored) {
        Ok(store) => delete(store, name),
        Err(e) => Err(e),
    }
}

fn widest_name(bookmarks: &Vec<Bookmark>) -> (width: usize)
    ensures
        width == name_width(entries(bookmarks@)),
{
    let mut width: usize = 0;
    let mut i: usize = 0;
    while i < bookmarks.len()
        invariant
            i <= bookmarks.len(),
            is_name_width(entries(bookmarks@).take(i as int), width as nat),
        decreases bookmarks.len() - i,
    {
        let len: usize = bookmarks[i].name.as_str().as_bytes().len();
        proof {
            let seen = entries(bookmarks@).take(i as int);
            let next = entries(bookmarks@).take(i + 1);
            let wider: nat = if len > width {
                len as nat
            } else {
                width as nat
            };
            assert(byte_len(next[i as int].name) == len);
            assert forall|j: int| 0 <= j < next.len() implies byte_len((#[trigger] next[j]).name)
                <= wider by {
                if j < i {
                    assert(next[j] == seen[j]);
                }
            }
            if len <= width && i > 0 {
                let k = choose|k: int|
                    0 <= k < seen.len() && byte_len((#[trigger] seen[k]).name) == width;
                assert(next[k] == seen[k]);
            }
            assert(is_name_width(next, wider));
        }
        if len > width {
            width = len;
        }
        i += 1;
    }
    proof {
        assert(entries(bookmarks@).take(bookmarks.len() as int) =~= entries(bookmarks@));
        lemma_name_width(entries(bookmarks@), width as nat);
    }
    width
}

fn line_of(bookmark: &Bookmark, width: usize) -> (line: String)
    ensures
        line@ == list_line(bookmark@, width as nat),
{
    let used: usize = bookmark.name.as_str().unicode_len();
    let mut line = bookmark.name.clone();
    let mut filled: usize = used;
    while filled < width
        invariant
            used <= filled,
            filled <= width || filled == used,
            line@ == bookmark.name@ + padding(filled as nat, used as nat),
        decreases width - filled,
    {
        proof {
            reveal_strlit(" ");
        }
        line.append(" ");
        filled += 1;
        assert(line@ =~= bookmark.name@ + padding(filled as nat, used as nat));
    }
    proof {
        reveal_strlit(" ");
        assert(padding(filled as nat, used as nat) =~= padding(width as nat, used as nat));
        assert(" "@ =~= seq![' ']);
    }
    line.append(" ");
    line.append(bookmark.path.as_str());
    line
}

impl Process {
    /// A path is valid where something is there and it is a directory.
    pub fn is_valid_path(status: &PathStatus) -> (valid: bool)
        ensures
            valid == (status.exists && status.is_dir),
    {
        status.exists && status.is_dir
    }

    /// The directory to change to for `name`, whose recorded path is `path`
    /// and of which the file system says `status`: the path itself, unless
    /// it is no directory any more.
    pub fn change_directory(name: &str, path: &str, status: &PathStatus) -> (target: Result<
        String,
        BookmarkError,
    >)
        ensures
            match target {
                Ok(directory) => resolve(name@, path@, *status) == Ok::<Seq<char>, Failure>(
                    directory@,
                ),
                Err(e) => resolve(name@, path@, *status) == Err::<Seq<char>, Failure>(e@),
            },
    {
        if Process::is_valid_path(status) {
            Ok(String::from_str(path))
        } else {
            Err(
                BookmarkError::InvalidPath {
                    name: String::from_str(name),
                    path: String::from_str(path),
                },
            )
        }
    }

    /// The lines that list the stored bookmarks, oldest first, names padded
    /// to one width.
    pub fn show_list(manager: &Manager, stored: Stored) -> (shown: Result<
        Vec<String>,
        BookmarkError,
    >)
        ensures
            match shown {
                Ok(lines) => load(stored) matches Ok(store) && texts(lines@) == listing(store),
                Err(e) => load(stored) == Err::<Seq<Entry>, Failure>(e@),
            },
    {
        let bookmarks = match manager.read_bookmarks(stored) {
            Ok(bookmarks) => bookmarks,
            Err(e) => {
                return Err(e);
            },
        };
        let width = widest_name(&bookmarks);
        let mut lines: Vec<String> = Vec::new();
        let mut i: usize = 0;
        while i < bookmarks.len()
            invariant
                i <= bookmarks.len(),
                width == name_width(entries(bookmarks@)),
                lines@.len() == i,
                forall|j: int|
                    0 <= j < i ==> (#[trigger] lines@[j])@ == list_line(
                        entries(bookmarks@)[j],
                        width as nat,
                    ),
            decreases bookmarks.len() - i,
        {
            lines.push(line_of(&bookmarks[i], width));
            i += 1;
        }
        assert(texts(lines@) =~= listing(entries(bookmarks@)));
        Ok(lines)
    }

    /// Registers `name` for the directory `path`, of which the file system
    /// says `status`, and gives the collection to store. The bookmark holds
    /// the canonical form of the path.
    pub fn add_bookmark(
        manager: &Manager,
        stored: Stored,
        name: &str,
        path: &str,
        status: &PathStatus,
    ) -> (saved: Result<Vec<Bookmark>, BookmarkError>)
        ensures
            match saved {
                Ok(list) => register(stored, name@, path@, *status) == Ok::<Seq<Entry>, Failure>(
                    entries(list@),
                ),
                Err(e) => register(stored, name@, path@, *status) == Err::<Seq<Entry>, Failure>(e@),
            },
    {
        let canonical = match &status.canonical {
            Some(canonical) if Process::is_valid_path(status) => canonical,
            _ => {
                return Err(
                    BookmarkError::InvalidPath {
                        name: String::from_str(name),
                        path: String::from_str(path),
                    },
                );
            },
        };
        let mut bookmarks = match manager.read_bookmarks(stored) {
            Ok(bookmarks) => bookmarks,
            Err(e) => {
                return Err(e);
            },
        };
        match manager.add_bookmark(&mut bookmarks, name, canonical.as_str()) {
            Ok(_) => Ok(bookmarks),
            Err(e) => Err(e),
        }
    }

    /// Unregisters `name` and gives the collection to store.
    pub fn remove_bookmark(manager: &Manager, stored: Stored, name: &str) -> (saved: Result<
        Vec<Bookmark>,
        BookmarkError,
    >)
        ensures
            match saved {
                Ok(list) => unregister(stored, name@) == Ok::<Seq<Entry>, Failure>(entries(list@)),
                Err(e) => unregister(stored, name@) == Err::<Seq<Entry>, Failure>(e@),
            },
    {
        let mut bookmarks = match manager.read_bookmarks(stored) {
            Ok(bookmarks) => bookmarks,
            Err(e) => {
                return Err(e);
            },
        };
        match manager.remove_bookmark(&mut bookmarks, name) {
            Ok(_) => Ok(bookmarks),
            Err(e) => Err(e),
        }
    }
}

} // verus!
