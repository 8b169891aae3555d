//! Filling a store from a zip archive held in memory.
//!
//! The archive is read by `zip`. An archive is expected to wrap its files in one top-level
//! directory, as exported archives do; that directory is not part of the entries' names.

use vstd::prelude::*;
use zip::result::ZipError;
use crate::error::Failure;
use crate::names::{chars_of, first_separator, is_valid_name, strip_top, valid_name};
use crate::entry::classify;
use crate::templater::{
    after_add, distinct, empty_store, holds, lemma_put, lookup, plain, put, Outcome, Store,
    Templater,
};
use vstd::string::StrSliceExecFns;

verus! {

/// A reader over bytes held in memory.
#[verifier::external_type_specification]
#[verifier::external_body]
#[verifier::reject_recursive_types(T)]
pub struct ExCursor<T>(std::io::Cursor<T>);

/// A zip archive opened for reading.
#[verifier::external_type_specification]
#[verifier::external_body]
#[verifier::reject_recursive_types(R)]
pub struct ExZipArchive<R>(zip::ZipArchive<R>);

/// What the zip reader reports when an archive or one of its entries cannot be read.
#[verifier::external_type_specification]
#[verifier::external_body]
pub struct ExZipError(zip::result::ZipError);

/// What an archive holds: of each entry, in the order of the central directory, its name and
/// its bytes once unpacked.
pub uninterp spec fn archive_files(a: zip::ZipArchive<std::io::Cursor<Vec<u8>>>) -> Seq<
    (Seq<char>, Seq<u8>),
>;

/// Which entries of an archive can be read: of each entry, in the order of the central
/// directory, whether the reader finds it, unpacks it and finds its checksum right.
pub uninterp spec fn archive_readable(a: zip::ZipArchive<std::io::Cursor<Vec<u8>>>) -> Seq<bool>;

/// An entry of an archive as a mathematical value.
pub struct ArchiveEntryView {
    pub name: Seq<char>,
    pub is_file: bool,
    pub enclosed: Option<Seq<char>>,
    pub data: Seq<u8>,
}

/// An entry as read from an archive.
#[derive(Debug)]
pub struct ArchiveEntry {
    /// The entry's name as the archive gives it.
    pub name: String,
    /// Whether the entry is a file and not a directory.
    pub is_file: bool,
    /// The name again, if the reader found that it stays inside the directory that the archive
    /// is unpacked into.
    pub enclosed: Option<String>,
    /// The entry's bytes, unpacked.
    pub data: Vec<u8>,
}

impl View for ArchiveEntry {
    type V = ArchiveEntryView;

    open spec fn view(&self) -> ArchiveEntryView {
        ArchiveEntryView {
            name: self.name@,
            is_file: self.is_file,
            enclosed: match self.enclosed {
                Some(p) => Some(p@),
                None => None,
            },
            data: self.data@,
        }
    }
}

/// Whether an archive takes `name` for that of a directory: it ends in a slash or a backslash.
pub open spec fn is_directory_name(name: Seq<char>) -> bool {
    name.len() > 0 && (name.last() == '/' || name.last() == '\\')
}

/// `zip::ZipArchive::len`: the number of entries.
#[verifier::external_body]
pub(crate) fn archive_len(a: &zip::ZipArchive<std::io::Cursor<Vec<u8>>>) -> (n: usize)
    ensures
        n == archive_files(*a).len(),
{
    a.len()
}

/// `zip::ZipArchive::by_index_decrypt` without a password, with `name`, `is_file` and
/// `enclosed_name` of the `zip::read::ZipFile` that it gives and `std::io::Read::read_to_end`
/// on it: reads entry `i`. An entry that asks for a password is reported as unsupported.
///
/// The archive holds afterwards what it held. The entry is read exactly where the archive has
/// an entry `i` and it is readable. An entry that was read has the name and bytes that the
/// archive holds at `i`; it is a file unless its name is that of a directory; its enclosed
/// name, where the reader gives one, is its name; and the reader gives one for every valid
/// entry name, which has no NUL, root, drive or `..`.
#[verifier::external_body]
pub(crate) fn archive_entry(a: &mut zip::ZipArchive<std::io::Cursor<Vec<u8>>>, i: usize) -> (r:
    Result<ArchiveEntry, zip::result::ZipError>)
    ensures
        archive_files(*final(a)) == archive_files(*old(a)),
        archive_readable(*final(a)) == archive_readable(*old(a)),
        r is Ok <==> i < archive_files(*old(a)).len() && archive_readable(*old(a))[i as int],
        r matches Ok(e) ==> e.name@ == archive_files(*old(a))[i as int].0 && e.data@
            == archive_files(*old(a))[i as int].1,
        r matches Ok(e) ==> e.is_file == !is_directory_name(e.name@),
        r matches Ok(e) ==> (e.enclosed matches Some(p) ==> p@ == e.name@),
        r matches Ok(e) ==> (valid_name(e.name@) ==> e.enclosed is Some),
{
    let mut file = match a.by_index_decrypt(i, &[])? {
        Ok(file) => file,
        Err(_) => return Err(ZipError::UnsupportedArchive(ZipError::PASSWORD_REQUIRED)),
    };
    let name = file.name().to_string();
    let is_file = file.is_file();
    let enclosed = match file.enclosed_name() {
        Some(p) => Some(p.to_string_lossy().into_owned()),
        None => None,
    };
    let mut data = Vec::new();
    std::io::Read::read_to_end(&mut file, &mut data)?;
    Ok(ArchiveEntry { name, is_file, enclosed, data })
}

/// `ToString::to_string` of `zip::result::ZipError`: the reader's message.
#[verifier::external_body]
pub(crate) fn archive_message(e: &zip::result::ZipError) -> String {
    e.to_string()
}

/// Taking one entry of an archive into `store`.
///
/// A directory is passed over. A file is refused unless its name is a valid entry name, the
/// reader found it enclosed, and it lies in a top-level directory; it is then added under the
/// rest of its name.
pub open spec fn after_entry(store: Store, e: ArchiveEntryView) -> Outcome {
    if !e.is_file {
        Outcome::Stored(store)
    } else if !valid_name(e.name) || e.enclosed != Some(e.name) || strip_top(e.name) is None {
        Outcome::Unsafe
    } else {
        after_add(store, strip_top(e.name)->0, e.data)
    }
}

/// The view of the entry that an archive holds under `name` with `data`, as its reader gives
/// it.
pub open spec fn entry_of(name: Seq<char>, data: Seq<u8>) -> ArchiveEntryView {
    ArchiveEntryView {
        name,
        is_file: !is_directory_name(name),
        enclosed: if valid_name(name) {
            Some(name)
        } else {
            None
        },
        data,
    }
}

/// What loading an archive leads to.
pub enum ArchiveLoad {
    /// Every entry was read and taken; the store is this.
    Stored(Store),
    /// An entry could not be read.
    Unreadable,
    /// A file has a name that is refused.
    Unsafe,
    /// A file is a text template that the engine does not accept.
    Refused,
}

/// The store that the entries of an archive make: each is read and taken in turn, directories
/// too, and the first failure ends the load.
pub open spec fn load_archive(files: Seq<(Seq<char>, Seq<u8>)>, readable: Seq<bool>) -> ArchiveLoad
    decreases files.len(),
{
    if files.len() == 0 {
        ArchiveLoad::Stored(empty_store())
    } else {
        match load_archive(files.drop_last(), readable) {
            ArchiveLoad::Stored(s) => if !readable[files.len() - 1] {
                ArchiveLoad::Unreadable
            } else {
                match after_entry(s, entry_of(files.last().0, files.last().1)) {
                    Outcome::Stored(next) => ArchiveLoad::Stored(next),
                    Outcome::Unsafe => ArchiveLoad::Unsafe,
                    Outcome::Refused => ArchiveLoad::Refused,
                }
            },
            other => other,
        }
    }
}

/// A load that has failed on the first `n` entries has failed on all of them, in the same way.
pub proof fn lemma_load_archive_stops(files: Seq<(Seq<char>, Seq<u8>)>, readable: Seq<bool>, n: int)
    requires
        0 <= n <= files.len(),
        !(load_archive(files.take(n), readable) is Stored),
    ensures
        load_archive(files, readable) == load_archive(files.take(n), readable),
    decreases files.len() - n,
{
    if n == files.len() {
        assert(files.take(n) =~= files);
    } else {
        assert(files.take(n + 1).drop_last() =~= files.take(n));
        lemma_load_archive_stops(files, readable, n + 1);
    }
}

/// The name under which a file of an archive is stored: its name without the top-level
/// directory, and without the suffix that classification takes off.
pub open spec fn stored_name(name: Seq<char>, data: Seq<u8>) -> Seq<char> {
    classify(strip_top(name)->0, data).name
}

/// Whether no file of an archive behind entry `i` is stored under the name of entry `i`.
pub open spec fn last_of_its_name(files: Seq<(Seq<char>, Seq<u8>)>, i: int) -> bool {
    forall|j: int|
        i < j && #[trigger] is_file_at(files, j) ==> stored_name(files[j].0, files[j].1)
            != stored_name(files[i].0, files[i].1)
}

/// Whether entry `i` of an archive is a file.
pub open spec fn is_file_at(files: Seq<(Seq<char>, Seq<u8>)>, i: int) -> bool {
    0 <= i < files.len() && !is_directory_name(files[i].0)
}

/// The names of a store that was loaded from an archive are those of the archive's files,
/// each without the top-level directory: every file is stored, nothing else is, and no name is
/// stored twice. Every entry of such an archive is readable, and every file has a valid name
/// inside a top-level directory and is stored under a valid name, so that none can leave the
/// directory that the entries are written to. Under the name of a file stands what the file
/// was classified as, unless a later file of the archive has taken the name.
pub proof fn lemma_archive_names(files: Seq<(Seq<char>, Seq<u8>)>, readable: Seq<bool>)
    requires
        load_archive(files, readable) is Stored,
    ensures
        distinct(load_archive(files, readable)->Stored_0.entries),
        forall|i: int| 0 <= i < files.len() ==> #[trigger] readable[i],
        forall|i: int| #[trigger]
            is_file_at(files, i) ==> valid_name(files[i].0) && strip_top(files[i].0) is Some
                && valid_name(stored_name(files[i].0, files[i].1)),
        forall|name: Seq<char>| #[trigger]
            holds(load_archive(files, readable)->Stored_0.entries, name) <==> exists|i: int| #[trigger]
                is_file_at(files, i) && stored_name(files[i].0, files[i].1) == name,
        forall|i: int| #[trigger]
            is_file_at(files, i) && last_of_its_name(files, i) ==> lookup(
                load_archive(files, readable)->Stored_0.entries,
                stored_name(files[i].0, files[i].1),
            ) == Some(classify(strip_top(files[i].0)->0, files[i].1).content),
    decreases files.len(),
{
    let store = load_archive(files, readable)->Stored_0;
    if files.len() == 0 {
        assert forall|name: Seq<char>| #[trigger]
            holds(store.entries, name) <==> exists|i: int| #[trigger]
                is_file_at(files, i) && stored_name(files[i].0, files[i].1) == name by {}
    } else {
        let front = files.drop_last();
        let last = files.last();
        let n = files.len() - 1;
        lemma_archive_names(front, readable);
        let before = load_archive(front, readable)->Stored_0;
        assert forall|i: int| 0 <= i < n implies is_file_at(files, i) == is_file_at(front, i)
            && files[i] == front[i] by {}
        if is_directory_name(last.0) {
            assert(store == before);
            assert forall|name: Seq<char>| #[trigger]
                holds(store.entries, name) <==> exists|i: int| #[trigger]
                    is_file_at(files, i) && stored_name(files[i].0, files[i].1) == name by {
                if holds(store.entries, name) {
                    let i = choose|i: int| #[trigger]
                        is_file_at(front, i) && stored_name(front[i].0, front[i].1) == name;
                    assert(is_file_at(files, i) && stored_name(files[i].0, files[i].1) == name);
                }
                if exists|i: int| #[trigger]
                    is_file_at(files, i) && stored_name(files[i].0, files[i].1) == name {
                    let i = choose|i: int| #[trigger]
                        is_file_at(files, i) && stored_name(files[i].0, files[i].1) == name;
                    assert(is_file_at(front, i) && stored_name(front[i].0, front[i].1) == name);
                }
            }
            assert forall|i: int| #[trigger]
                is_file_at(files, i) && last_of_its_name(files, i) implies lookup(
                store.entries,
                stored_name(files[i].0, files[i].1),
            ) == Some(classify(strip_top(files[i].0)->0, files[i].1).content) by {
                assert(is_file_at(front, i));
                assert forall|j: int| i < j && is_file_at(front, j) implies stored_name(
                    front[j].0,
                    front[j].1,
                ) != stored_name(front[i].0, front[i].1) by {
                    assert(is_file_at(files, j));
                }
            }
        } else {
            let e = classify(strip_top(last.0)->0, last.1);
            assert(is_file_at(files, n));
            assert(store.entries == put(before.entries, e));
            lemma_put(before.entries, e);
            assert forall|name: Seq<char>| #[trigger]
                holds(store.entries, name) <==> exists|i: int| #[trigger]
                    is_file_at(files, i) && stored_name(files[i].0, files[i].1) == name by {
                if holds(store.entries, name) {
                    if name == e.name {
                        assert(is_file_at(files, n) && stored_name(files[n].0, files[n].1) == name);
                    } else {
                        assert(holds(before.entries, name));
                        let i = choose|i: int| #[trigger]
                            is_file_at(front, i) && stored_name(front[i].0, front[i].1) == name;
                        assert(is_file_at(files, i) && stored_name(files[i].0, files[i].1)
                            == name);
                    }
                }
                if exists|i: int| #[trigger]
                    is_file_at(files, i) && stored_name(files[i].0, files[i].1) == name {
                    let i = choose|i: int| #[trigger]
                        is_file_at(files, i) && stored_name(files[i].0, files[i].1) == name;
                    if i < n {
                        assert(is_file_at(front, i) && stored_name(front[i].0, front[i].1)
                            == name);
                        assert(holds(before.entries, name));
                    }
                }
            }
            assert forall|i: int| #[trigger]
                is_file_at(files, i) && last_of_its_name(files, i) implies lookup(
                store.entries,
                stored_name(files[i].0, files[i].1),
            ) == Some(classify(strip_top(files[i].0)->0, files[i].1).content) by {
                if i < n {
                    assert(is_file_at(front, i));
                    assert(is_file_at(files, n));
                    assert(stored_name(files[n].0, files[n].1) != stored_name(
                        files[i].0,
                        files[i].1,
                    ));
                    assert forall|j: int| i < j && is_file_at(front, j) implies stored_name(
                        front[j].0,
                        front[j].1,
                    ) != stored_name(front[i].0, front[i].1) by {
                        assert(is_file_at(files, j));
                    }
                }
            }
        }
    }
}

impl Templater {
    /// Takes one entry of an archive into the store. A directory is passed over. A file is
    /// added under its name without the top-level directory, classified by name and bytes.
    ///
    /// Fails, and leaves the store as it was, where the name is not a valid entry name, was
    /// not found enclosed or has no top-level directory, where the entry's name in the store
    /// would not be valid, or where the engine refuses the text.
    pub fn add_archive_entry(&mut self, entry: &ArchiveEntry) -> (r: Result<(), Failure>)
        requires
            old(self).wf(),
        ensures
            final(self).wf(),
            match after_entry(old(self)@, entry@) {
                Outcome::Stored(s) => r is Ok && final(self)@ == s,
                Outcome::Unsafe => r matches Err(Failure::MalformedArchiveEntry) && final(self)@
                    == old(self)@,
                Outcome::Refused => r matches Err(Failure::InvalidTemplate(_)) && final(self)@
                    == old(self)@,
            },
            !(after_entry(old(self)@, entry@) is Unsafe) && plain(
                classify(strip_top(entry@.name)->0, entry@.data),
            ) ==> r is Ok,
    {
        if !entry.is_file {
            return Ok(());
        }
        let chars = chars_of(entry.name.as_str());
        if !is_valid_name(chars.as_slice()) {
            return Err(Failure::MalformedArchiveEntry);
        }
        let enclosed = match &entry.enclosed {
            Some(p) => crate::names::same_text(p.as_str(), entry.name.as_str()),
            None => false,
        };
        if !enclosed {
            return Err(Failure::MalformedArchiveEntry);
        }
        let k = first_separator(chars.as_slice());
        if k >= chars.len() {
            return Err(Failure::MalformedArchiveEntry);
        }
        let rest = entry.name.as_str().substring_char(k + 1, chars.len());
        self.add_raw_template(rest, entry.data.as_slice())
    }

    /// Builds a store from the files of a zip archive. Every file of the archive is taken, in
    /// the order of the archive, under its name without the top-level directory; none is left
    /// out, and none whose name would leave the directory that the archive is unpacked into is
    /// let in.
    ///
    /// Fails at the first entry that cannot be read, has a name that is refused, or holds a
    /// text that the engine refuses. The archive holds afterwards what it held.
    pub fn from_zip(zip: &mut zip::ZipArchive<std::io::Cursor<Vec<u8>>>) -> (r: Result<
        Templater,
        Failure,
    >)
        ensures
            archive_files(*final(zip)) == archive_files(*old(zip)),
            archive_readable(*final(zip)) == archive_readable(*old(zip)),
            match load_archive(archive_files(*old(zip)), archive_readable(*old(zip))) {
                ArchiveLoad::Stored(s) => r matches Ok(t) && t@ == s && t.wf(),
                ArchiveLoad::Unreadable => r matches Err(Failure::UnreadableArchive(_)),
                ArchiveLoad::Unsafe => r matches Err(Failure::MalformedArchiveEntry),
                ArchiveLoad::Refused => r matches Err(Failure::InvalidTemplate(_)),
            },
    {
        let mut store = Templater::default();
        let n = archive_len(zip);
        let ghost files = archive_files(*zip);
        let ghost readable = archive_readable(*zip);
        let mut i: usize = 0;
        assert(files.take(0) =~= Seq::empty());
        while i < n
            invariant
                i <= n,
                n == files.len(),
                files == archive_files(*old(zip)),
                readable == archive_readable(*old(zip)),
                archive_files(*zip) == files,
                archive_readable(*zip) == readable,
                store.wf(),
                load_archive(files.take(i as int), readable) == ArchiveLoad::Stored(store@),
            decreases n - i,
        {
            assert(files.take(i + 1 as int).drop_last() =~= files.take(i as int));
            match archive_entry(zip, i) {
                Err(e) => {
                    proof {
                        lemma_load_archive_stops(files, readable, i + 1 as int);
                    }
                    return Err(Failure::UnreadableArchive(archive_message(&e)));
                },
                Ok(entry) => {
                    assert(after_entry(store@, entry@) == after_entry(
                        store@,
                        entry_of(files[i as int].0, files[i as int].1),
                    ));
                    match store.add_archive_entry(&entry) {
                        Ok(()) => {},
                        Err(e) => {
                            proof {
                                lemma_load_archive_stops(files, readable, i + 1 as int);
                            }
                            return Err(e);
                        },
                    }
                },
            }
            i = i + 1;
        }
        assert(files.take(n as int) =~= files);
        Ok(store)
    }
}

} // verus!
