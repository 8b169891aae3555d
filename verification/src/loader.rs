//! Filling a store from the files of a template: a set of files compiled into the program, or
//! the blobs of a repository's tree.

use vstd::prelude::*;
use vstd::string::StringExecFns;
use vstd::utf8::{decode_utf8, valid_utf8};
use crate::entry::{classify, decode_text, Content, ContentView, Entry, EntryView};
use crate::error::Failure;
use crate::names::{chars_of, valid_name};
use crate::templater::{
    after_add, after_put, distinct, empty_store, holds, lemma_put, lookup, plain, put, Outcome,
    Store, Templater,
};

verus! {

/// A source file as a mathematical value.
pub struct FileView {
    pub name: Seq<char>,
    pub bytes: Seq<u8>,
}

/// A file of a template as its source holds it: a name and raw bytes.
#[derive(Debug)]
pub struct SourceFile {
    pub name: String,
    pub bytes: Vec<u8>,
}

impl View for SourceFile {
    type V = FileView;

    open spec fn view(&self) -> FileView {
        FileView { name: self.name@, bytes: self.bytes@ }
    }
}

/// The files of a slice as mathematical values.
pub open spec fn file_views(files: Seq<SourceFile>) -> Seq<FileView> {
    Seq::new(files.len(), |i: int| files[i]@)
}

/// Adding the source file `name` to what `o` left, if `o` left a store.
pub open spec fn then_add(o: Outcome, name: Seq<char>, bytes: Seq<u8>) -> Outcome {
    match o {
        Outcome::Stored(s) => after_add(s, name, bytes),
        other => other,
    }
}

/// Storing the entry `e` in what `o` left, if `o` left a store.
pub open spec fn then_put(o: Outcome, e: EntryView) -> Outcome {
    match o {
        Outcome::Stored(s) => after_put(s, e),
        other => other,
    }
}

/// The store that the files of a built-in template make: each file whose bytes are valid
/// UTF-8 is added in turn, the others are left out, and the first failure ends the load.
pub open spec fn load_default(files: Seq<FileView>) -> Outcome
    decreases files.len(),
{
    if files.len() == 0 {
        Outcome::Stored(empty_store())
    } else {
        let before = load_default(files.drop_last());
        let f = files.last();
        if valid_utf8(f.bytes) {
            then_add(before, f.name, f.bytes)
        } else {
            before
        }
    }
}

/// The store that the built-in files for continuous integration make: each file whose bytes
/// are valid UTF-8 is stored as text under its own name, whatever the name ends in; the others
/// are left out, and the first failure ends the load.
pub open spec fn load_integration(files: Seq<FileView>) -> Outcome
    decreases files.len(),
{
    if files.len() == 0 {
        Outcome::Stored(empty_store())
    } else {
        let before = load_integration(files.drop_last());
        let f = files.last();
        if valid_utf8(f.bytes) {
            then_put(
                before,
                EntryView { name: f.name, content: ContentView::Text(decode_utf8(f.bytes)) },
            )
        } else {
            before
        }
    }
}

/// Builds the store of a built-in template from its files. Files that are not valid UTF-8 are
/// not loaded.
pub fn default_template_tera(files: &[SourceFile]) -> (r: Result<Templater, Failure>)
    ensures
        match load_default(file_views(files@)) {
            Outcome::Stored(s) => r matches Ok(t) && t@ == s && t.wf(),
            Outcome::Unsafe => r matches Err(Failure::MalformedArchiveEntry),
            Outcome::Refused => r matches Err(Failure::InvalidTemplate(_)),
        },
        (forall|i: int|
            0 <= i < files@.len() && valid_utf8((#[trigger] files@[i]).bytes@) ==> plain(
                classify(files@[i].name@, files@[i].bytes@),
            )) ==> r is Ok,
{
    let mut store = Templater::default();
    let mut i: usize = 0;
    assert(file_views(files@).take(0) =~= Seq::empty());
    while i < files.len()
        invariant
            i <= files.len(),
            store.wf(),
            load_default(file_views(files@).take(i as int)) == Outcome::Stored(store@),
        decreases files.len() - i,
    {
        let ghost next = file_views(files@).take(i + 1 as int);
        assert(next.drop_last() =~= file_views(files@).take(i as int));
        assert(next.last() == files@[i as int]@);
        let file = &files[i];
        if decode_text(file.bytes.as_slice()).is_some() {
            match store.add_raw_template(file.name.as_str(), file.bytes.as_slice()) {
                Ok(()) => {},
                Err(e) => {
                    proof {
                        lemma_load_default_stops(file_views(files@), i + 1 as int);
                    }
                    return Err(e);
                },
            }
        }
        i = i + 1;
    }
    assert(file_views(files@).take(files.len() as int) =~= file_views(files@));
    Ok(store)
}

/// A load that has failed on the first `n` files has failed on all of them, in the same way.
pub proof fn lemma_load_default_stops(files: Seq<FileView>, n: int)
    requires
        0 <= n <= files.len(),
        !(load_default(files.take(n)) is Stored),
    ensures
        load_default(files) == load_default(files.take(n)),
    decreases files.len() - n,
{
    if n == files.len() {
        assert(files.take(n) =~= files);
    } else {
        assert(files.take(n + 1).drop_last() =~= files.take(n));
        lemma_load_default_stops(files, n + 1);
    }
}

/// Builds the store of the built-in files for continuous integration. Every file is a text
/// template under its own name; files that are not valid UTF-8 are not loaded.
pub fn continuous_integration_tera(files: &[SourceFile]) -> (r: Result<Templater, Failure>)
    ensures
        match load_integration(file_views(files@)) {
            Outcome::Stored(s) => r matches Ok(t) && t@ == s && t.wf(),
            Outcome::Unsafe => r matches Err(Failure::MalformedArchiveEntry),
            Outcome::Refused => r matches Err(Failure::InvalidTemplate(_)),
        },
        (forall|i: int|
            0 <= i < files@.len() && valid_utf8((#[trigger] files@[i]).bytes@) ==> plain(
                EntryView {
                    name: files@[i].name@,
                    content: ContentView::Text(decode_utf8(files@[i].bytes@)),
                },
            )) ==> r is Ok,
{
    let mut store = Templater::default();
    let mut i: usize = 0;
    assert(file_views(files@).take(0) =~= Seq::empty());
    while i < files.len()
        invariant
            i <= files.len(),
            store.wf(),
            load_integration(file_views(files@).take(i as int)) == Outcome::Stored(store@),
        decreases files.len() - i,
    {
        let ghost next = file_views(files@).take(i + 1 as int);
        assert(next.drop_last() =~= file_views(files@).take(i as int));
        assert(next.last() == files@[i as int]@);
        let file = &files[i];
        match decode_text(file.bytes.as_slice()) {
            Some(text) => {
                let entry = Entry { name: file.name.clone(), content: Content::Text(text) };
                match store.put(entry) {
                    Ok(()) => {},
                    Err(e) => {
                        proof {
                            lemma_load_integration_stops(file_views(files@), i + 1 as int);
                        }
                        return Err(e);
                    },
                }
            },
            None => {},
        }
        i = i + 1;
    }
    assert(file_views(files@).take(files.len() as int) =~= file_views(files@));
    Ok(store)
}

/// A load that has failed on the first `n` files has failed on all of them, in the same way.
pub proof fn lemma_load_integration_stops(files: Seq<FileView>, n: int)
    requires
        0 <= n <= files.len(),
        !(load_integration(files.take(n)) is Stored),
    ensures
        load_integration(files) == load_integration(files.take(n)),
    decreases files.len() - n,
{
    if n == files.len() {
        assert(files.take(n) =~= files);
    } else {
        assert(files.take(n + 1).drop_last() =~= files.take(n));
        lemma_load_integration_stops(files, n + 1);
    }
}

/// Whether file `i` of a built-in set is loaded: its bytes are valid UTF-8.
pub open spec fn is_text_at(files: Seq<FileView>, i: int) -> bool {
    0 <= i < files.len() && valid_utf8(files[i].bytes)
}

/// The entry that a file of a built-in template becomes: its name and bytes, classified.
pub open spec fn default_entry(f: FileView) -> EntryView {
    classify(f.name, f.bytes)
}

/// The name under which a file of a built-in template is stored.
pub open spec fn default_name(f: FileView) -> Seq<char> {
    default_entry(f).name
}

/// The entry that a built-in file for continuous integration becomes: text under its own name.
pub open spec fn integration_entry(f: FileView) -> EntryView {
    EntryView { name: f.name, content: ContentView::Text(decode_utf8(f.bytes)) }
}

/// The name under which a built-in file for continuous integration is stored: its own.
pub open spec fn integration_name(f: FileView) -> Seq<char> {
    f.name
}

/// The names of the store of a built-in template are those of its files that are text, each
/// without the suffix that classification takes off: every such file is stored, nothing else
/// is, and no name is stored twice. Every name is a valid entry name. Under the name of a file
/// stands what the file was classified as, unless a later file has taken the name.
pub proof fn lemma_default_names(items: Seq<FileView>)
    requires
        load_default(items) is Stored,
    ensures
        distinct(load_default(items)->Stored_0.entries),
        forall|i: int| #[trigger] is_text_at(items, i) ==> valid_name(default_name(items[i])),
        forall|name: Seq<char>| #[trigger]
            holds(load_default(items)->Stored_0.entries, name) <==> exists|i: int| #[trigger]
                is_text_at(items, i) && default_name(items[i]) == name,
        forall|i: int| #[trigger]
            is_text_at(items, i) && (forall|j: int|
                i < j && #[trigger] is_text_at(items, j) ==> default_name(items[j]) != default_name(items[i])) ==> lookup(
                load_default(items)->Stored_0.entries,
                default_name(items[i]),
            ) == Some(default_entry(items[i]).content),
    decreases items.len(),
{
    let store = load_default(items)->Stored_0;
    if items.len() == 0 {
        assert forall|name: Seq<char>| #[trigger]
            holds(store.entries, name) <==> exists|i: int| #[trigger]
                is_text_at(items, i) && default_name(items[i]) == name by {}
    } else {
        let front = items.drop_last();
        let last = items.last();
        let n = items.len() - 1;
        lemma_default_names(front);
        let before = load_default(front)->Stored_0;
        assert forall|i: int| 0 <= i < n implies is_text_at(items, i) == is_text_at(front, i) && items[i]
            == front[i] by {}
        if is_text_at(items, n) {
            let e = default_entry(last);
            assert(store.entries == put(before.entries, e));
            lemma_put(before.entries, e);
        } else {
            assert(store == before);
        }
        assert forall|name: Seq<char>| #[trigger]
            holds(store.entries, name) <==> exists|i: int| #[trigger]
                is_text_at(items, i) && default_name(items[i]) == name by {
            if holds(store.entries, name) {
                if is_text_at(items, n) && name == default_name(last) {
                    assert(is_text_at(items, n) && default_name(items[n]) == name);
                } else {
                    assert(holds(before.entries, name));
                    let i = choose|i: int| #[trigger] is_text_at(front, i) && default_name(front[i]) == name;
                    assert(is_text_at(items, i) && default_name(items[i]) == name);
                }
            }
            if exists|i: int| #[trigger] is_text_at(items, i) && default_name(items[i]) == name {
                let i = choose|i: int| #[trigger] is_text_at(items, i) && default_name(items[i]) == name;
                if i < n {
                    assert(is_text_at(front, i) && default_name(front[i]) == name);
                    assert(holds(before.entries, name));
                }
            }
        }
        assert forall|i: int| #[trigger]
            is_text_at(items, i) && (forall|j: int|
                i < j && #[trigger] is_text_at(items, j) ==> default_name(items[j]) != default_name(items[i])) implies lookup(
            store.entries,
            default_name(items[i]),
        ) == Some(default_entry(items[i]).content) by {
            if i < n {
                assert(is_text_at(front, i));
                if is_text_at(items, n) {
                    assert(default_name(items[n]) != default_name(items[i]));
                }
                assert forall|j: int| i < j && #[trigger] is_text_at(front, j) implies default_name(front[j])
                    != default_name(front[i]) by {
                    assert(is_text_at(items, j));
                }
            }
        }
    }
}

/// The names of the store of the built-in files for continuous integration are those of the
/// files that are text: every such file is stored under its own name, nothing else is, and no
/// name is stored twice. Every name is a valid entry name. Under the name of a file stands its
/// text, unless a later file has taken the name.
pub proof fn lemma_integration_names(items: Seq<FileView>)
    requires
        load_integration(items) is Stored,
    ensures
        distinct(load_integration(items)->Stored_0.entries),
        forall|i: int| #[trigger] is_text_at(items, i) ==> valid_name(integration_name(items[i])),
        forall|name: Seq<char>| #[trigger]
            holds(load_integration(items)->Stored_0.entries, name) <==> exists|i: int| #[trigger]
                is_text_at(items, i) && integration_name(items[i]) == name,
        forall|i: int| #[trigger]
            is_text_at(items, i) && (forall|j: int|
                i < j && #[trigger] is_text_at(items, j) ==> integration_name(items[j]) != integration_name(items[i])) ==> lookup(
                load_integration(items)->Stored_0.entries,
                integration_name(items[i]),
            ) == Some(integration_entry(items[i]).content),
    decreases items.len(),
{
    let store = load_integration(items)->Stored_0;
    if items.len() == 0 {
        assert forall|name: Seq<char>| #[trigger]
            holds(store.entries, name) <==> exists|i: int| #[trigger]
                is_text_at(items, i) && integration_name(items[i]) == name by {}
    } else {
        let front = items.drop_last();
        let last = items.last();
        let n = items.len() - 1;
        lemma_integration_names(front);
        let before = load_integration(front)->Stored_0;
        assert forall|i: int| 0 <= i < n implies is_text_at(items, i) == is_text_at(front, i) && items[i]
            == front[i] by {}
        if is_text_at(items, n) {
            let e = integration_entry(last);
            assert(store.entries == put(before.entries, e));
            lemma_put(before.entries, e);
        } else {
            assert(store == before);
        }
        assert forall|name: Seq<char>| #[trigger]
            holds(store.entries, name) <==> exists|i: int| #[trigger]
                is_text_at(items, i) && integration_name(items[i]) == name by {
            if holds(store.entries, name) {
                if is_text_at(items, n) && name == integration_name(last) {
                    assert(is_text_at(items, n) && integration_name(items[n]) == name);
                } else {
                    assert(holds(before.entries, name));
                    let i = choose|i: int| #[trigger] is_text_at(front, i) && integration_name(front[i]) == name;
                    assert(is_text_at(items, i) && integration_name(items[i]) == name);
                }
            }
            if exists|i: int| #[trigger] is_text_at(items, i) && integration_name(items[i]) == name {
                let i = choose|i: int| #[trigger] is_text_at(items, i) && integration_name(items[i]) == name;
                if i < n {
                    assert(is_text_at(front, i) && integration_name(front[i]) == name);
                    assert(holds(before.entries, name));
                }
            }
        }
        assert forall|i: int| #[trigger]
            is_text_at(items, i) && (forall|j: int|
                i < j && #[trigger] is_text_at(items, j) ==> integration_name(items[j]) != integration_name(items[i])) implies lookup(
            store.entries,
            integration_name(items[i]),
        ) == Some(integration_entry(items[i]).content) by {
            if i < n {
                assert(is_text_at(front, i));
                if is_text_at(items, n) {
                    assert(integration_name(items[n]) != integration_name(items[i]));
                }
                assert forall|j: int| i < j && #[trigger] is_text_at(front, j) implies integration_name(front[j])
                    != integration_name(front[i]) by {
                    assert(is_text_at(items, j));
                }
            }
        }
    }
}

/// An entry of a repository's tree as a mathematical value.
pub struct TreeEntryView {
    pub root: Seq<char>,
    pub name: Option<Seq<char>>,
    pub is_blob: bool,
    pub content: Seq<u8>,
}

/// An entry met while walking the tree of a repository's head commit.
#[derive(Debug)]
pub struct TreeEntry {
    /// The directory that holds the entry, relative to the top of the tree: empty at the top,
    /// else ending in a slash.
    pub root: String,
    /// The entry's own name, if it is text.
    pub name: Option<String>,
    /// Whether the entry is a blob: a file, and not a subtree or a link to another repository.
    pub is_blob: bool,
    /// The bytes of a blob.
    pub content: Vec<u8>,
}

impl View for TreeEntry {
    type V = TreeEntryView;

    open spec fn view(&self) -> TreeEntryView {
        TreeEntryView {
            root: self.root@,
            name: match self.name {
                Some(n) => Some(n@),
                None => None,
            },
            is_blob: self.is_blob,
            content: self.content@,
        }
    }
}

/// The entries of a slice as mathematical values.
pub open spec fn tree_views(entries: Seq<TreeEntry>) -> Seq<TreeEntryView> {
    Seq::new(entries.len(), |i: int| entries[i]@)
}

/// The path of the entry `name` in the directory `root`: the two joined, with a slash between
/// them unless `root` is empty or brings one.
pub open spec fn blob_path(root: Seq<char>, name: Seq<char>) -> Seq<char> {
    if root.len() == 0 || root.last() == '/' {
        root + name
    } else {
        root + seq!['/'] + name
    }
}

/// The store that a walk over a tree makes, or nothing where the walk has to be given up: each
/// blob is added under its path; other entries are passed over; a blob whose name is not text,
/// or that the store does not take, ends the walk.
pub open spec fn load_tree(entries: Seq<TreeEntryView>) -> Option<Store>
    decreases entries.len(),
{
    if entries.len() == 0 {
        Some(empty_store())
    } else {
        match load_tree(entries.drop_last()) {
            None => None,
            Some(s) => {
                let e = entries.last();
                if !e.is_blob {
                    Some(s)
                } else {
                    match e.name {
                        None => None,
                        Some(n) => match after_add(s, blob_path(e.root, n), e.content) {
                            Outcome::Stored(next) => Some(next),
                            _ => None,
                        },
                    }
                }
            },
        }
    }
}

/// A walk that was given up after the first `n` entries is given up for all of them.
pub proof fn lemma_load_tree_stops(entries: Seq<TreeEntryView>, n: int)
    requires
        0 <= n <= entries.len(),
        load_tree(entries.take(n)) is None,
    ensures
        load_tree(entries) is None,
    decreases entries.len() - n,
{
    if n == entries.len() {
        assert(entries.take(n) =~= entries);
    } else {
        assert(entries.take(n + 1).drop_last() =~= entries.take(n));
        lemma_load_tree_stops(entries, n + 1);
    }
}

/// Whether entry `i` of a walk is a blob.
pub open spec fn is_blob_at(entries: Seq<TreeEntryView>, i: int) -> bool {
    0 <= i < entries.len() && entries[i].is_blob
}

/// The entry that a blob becomes: its path and bytes, classified.
pub open spec fn blob_entry(e: TreeEntryView) -> EntryView {
    classify(blob_path(e.root, e.name->0), e.content)
}

/// The name under which a blob is stored: its path, without the suffix that classification
/// takes off.
pub open spec fn blob_name(e: TreeEntryView) -> Seq<char> {
    blob_entry(e).name
}

/// The names of a store that was loaded from a tree are the paths of the tree's blobs: every
/// blob is stored, nothing else is, and no name is stored twice. Every blob of such a tree has
/// a name that is text, and is stored under a valid entry name. Under the name of a blob stands
/// what the blob was classified as, unless a later blob has taken the name.
pub proof fn lemma_tree_names(items: Seq<TreeEntryView>)
    requires
        load_tree(items) is Some,
    ensures
        distinct(load_tree(items)->0.entries),
        forall|i: int| #[trigger] is_blob_at(items, i) ==> items[i].name is Some && valid_name(blob_name(items[i])),
        forall|name: Seq<char>| #[trigger]
            holds(load_tree(items)->0.entries, name) <==> exists|i: int| #[trigger]
                is_blob_at(items, i) && blob_name(items[i]) == name,
        forall|i: int| #[trigger]
            is_blob_at(items, i) && (forall|j: int|
                i < j && #[trigger] is_blob_at(items, j) ==> blob_name(items[j]) != blob_name(items[i])) ==> lookup(
                load_tree(items)->0.entries,
                blob_name(items[i]),
            ) == Some(blob_entry(items[i]).content),
    decreases items.len(),
{
    let store = load_tree(items)->0;
    if items.len() == 0 {
        assert forall|name: Seq<char>| #[trigger]
            holds(store.entries, name) <==> exists|i: int| #[trigger]
                is_blob_at(items, i) && blob_name(items[i]) == name by {}
    } else {
        let front = items.drop_last();
        let last = items.last();
        let n = items.len() - 1;
        lemma_tree_names(front);
        let before = load_tree(front)->0;
        assert forall|i: int| 0 <= i < n implies is_blob_at(items, i) == is_blob_at(front, i) && items[i]
            == front[i] by {}
        if is_blob_at(items, n) {
            let e = blob_entry(last);
            assert(store.entries == put(before.entries, e));
            lemma_put(before.entries, e);
        } else {
            assert(store == before);
        }
        assert forall|name: Seq<char>| #[trigger]
            holds(store.entries, name) <==> exists|i: int| #[trigger]
                is_blob_at(items, i) && blob_name(items[i]) == name by {
            if holds(store.entries, name) {
                if is_blob_at(items, n) && name == blob_name(last) {
                    assert(is_blob_at(items, n) && blob_name(items[n]) == name);
                } else {
                    assert(holds(before.entries, name));
                    let i = choose|i: int| #[trigger] is_blob_at(front, i) && blob_name(front[i]) == name;
                    assert(is_blob_at(items, i) && blob_name(items[i]) == name);
                }
            }
            if exists|i: int| #[trigger] is_blob_at(items, i) && blob_name(items[i]) == name {
                let i = choose|i: int| #[trigger] is_blob_at(items, i) && blob_name(items[i]) == name;
                if i < n {
                    assert(is_blob_at(front, i) && blob_name(front[i]) == name);
                    assert(holds(before.entries, name));
                }
            }
        }
        assert forall|i: int| #[trigger]
            is_blob_at(items, i) && (forall|j: int|
                i < j && #[trigger] is_blob_at(items, j) ==> blob_name(items[j]) != blob_name(items[i])) implies lookup(
            store.entries,
            blob_name(items[i]),
        ) == Some(blob_entry(items[i]).content) by {
            if i < n {
                assert(is_blob_at(front, i));
                if is_blob_at(items, n) {
                    assert(blob_name(items[n]) != blob_name(items[i]));
                }
                assert forall|j: int| i < j && #[trigger] is_blob_at(front, j) implies blob_name(front[j])
                    != blob_name(front[i]) by {
                    assert(is_blob_at(items, j));
                }
            }
        }
    }
}

/// Joins the name of a tree entry to the directory that holds it.
pub fn join_blob_path(root: &str, name: &str) -> (r: String)
    ensures
        r@ == blob_path(root@, name@),
{
    let chars = chars_of(root);
    let n = chars.len();
    if n == 0 || chars[n - 1] == '/' {
        root.to_owned().concat(name)
    } else {
        proof {
            reveal_strlit("/");
            assert("/"@ =~= seq!['/']);
        }
        root.to_owned().concat("/").concat(name)
    }
}

impl Templater {
    /// Builds a store from the entries of the tree of a repository's head commit, in the order
    /// in which a walk from the top meets them, each directory before what it holds.
    ///
    /// Every blob is added under its path and classified by name and bytes; nothing is left
    /// out. Where one entry cannot be taken the whole load fails: no partial store comes back.
    pub fn from_git(entries: &[TreeEntry]) -> (r: Result<Templater, Failure>)
        ensures
            match load_tree(tree_views(entries@)) {
                Some(s) => r matches Ok(t) && t@ == s && t.wf(),
                None => r matches Err(Failure::RepositoryFailure),
            },
            (forall|i: int|
                0 <= i < entries@.len() && (#[trigger] entries@[i]).is_blob ==> entries@[i].name is Some
                    && plain(
                    classify(
                        blob_path(entries@[i].root@, entries@[i].name->0@),
                        entries@[i].content@,
                    ),
                )) ==> r is Ok,
    {
        let mut store = Templater::default();
        let mut i: usize = 0;
        assert(tree_views(entries@).take(0) =~= Seq::empty());
        while i < entries.len()
            invariant
                i <= entries.len(),
                store.wf(),
                load_tree(tree_views(entries@).take(i as int)) == Some(store@),
            decreases entries.len() - i,
        {
            let ghost next = tree_views(entries@).take(i + 1 as int);
            assert(next.drop_last() =~= tree_views(entries@).take(i as int));
            assert(next.last() == entries@[i as int]@);
            let entry = &entries[i];
            if entry.is_blob {
                let added = match &entry.name {
                    Some(name) => {
                        let path = join_blob_path(entry.root.as_str(), name.as_str());
                        store.add_raw_template(path.as_str(), entry.content.as_slice()).is_ok()
                    },
                    None => false,
                };
                if !added {
                    proof {
                        lemma_load_tree_stops(tree_views(entries@), i + 1 as int);
                    }
                    return Err(Failure::RepositoryFailure);
                }
            }
            i = i + 1;
        }
        assert(tree_views(entries@).take(entries.len() as int) =~= tree_views(entries@));
        Ok(store)
    }
}

} // verus!
