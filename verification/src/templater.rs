//! The template entry store: named entries, text or binary, and the engine that holds the
//! text ones.

use vstd::prelude::*;
use crate::engine::{
    engine_accepts, engine_add, engine_clone, engine_has, engine_message, engine_new,
    engine_render, engine_sources, has_marker, holds_marker, no_sources, sound,
};
use crate::entry::{classify, classify_entry, Content, ContentView, Entry, EntryView};
use crate::error::Failure;
use crate::names::{chars_of, is_valid_name, same_chars, valid_name};

verus! {

/// A store as a mathematical value.
pub struct Store {
    /// The entries, in the order in which their names first came in.
    pub entries: Seq<EntryView>,
    /// What the engine holds: the source of every text entry by name, and of any text entry
    /// that binary content has since replaced.
    pub engine: Map<Seq<char>, Seq<char>>,
}

/// Whether an entry called `name` is among `entries`.
pub open spec fn holds(entries: Seq<EntryView>, name: Seq<char>) -> bool {
    exists|i: int| 0 <= i < entries.len() && (#[trigger] entries[i]).name == name
}

/// The place of the entry called `name` among `entries`, where there is one.
pub open spec fn position(entries: Seq<EntryView>, name: Seq<char>) -> int {
    choose|i: int| 0 <= i < entries.len() && (#[trigger] entries[i]).name == name
}

/// What is stored under `name`, if anything.
pub open spec fn lookup(entries: Seq<EntryView>, name: Seq<char>) -> Option<ContentView> {
    if holds(entries, name) {
        Some(entries[position(entries, name)].content)
    } else {
        None
    }
}

/// The entries as a mapping from each name to what is stored under it.
pub open spec fn as_map(entries: Seq<EntryView>) -> Map<Seq<char>, ContentView> {
    Map::new(
        |name: Seq<char>| holds(entries, name),
        |name: Seq<char>| entries[position(entries, name)].content,
    )
}

/// The entries after `e` was stored: in the place of the entry of the same name, or at the end
/// where there was none.
pub open spec fn put(entries: Seq<EntryView>, e: EntryView) -> Seq<EntryView> {
    if holds(entries, e.name) {
        entries.update(position(entries, e.name), e)
    } else {
        entries.push(e)
    }
}

/// The names of `entries`, in their order.
pub open spec fn names_of(entries: Seq<EntryView>) -> Seq<Seq<char>> {
    Seq::new(entries.len(), |i: int| entries[i].name)
}

/// Whether no two of `entries` share a name.
pub open spec fn distinct(entries: Seq<EntryView>) -> bool {
    forall|i: int, j: int|
        0 <= i < entries.len() && 0 <= j < entries.len() && i != j ==> (#[trigger] entries[i]).name
            != (#[trigger] entries[j]).name
}

/// How far the library got with rendering an entry.
#[derive(Clone, Copy, PartialEq, Eq, Structural, Debug)]
pub enum Rendering {
    /// The output is in the sink.
    Written,
    /// The entry is text with a substitution marker: the engine has to render it, and the
    /// library leaves that call to the program around it.
    EngineOwed,
}

/// How far the library gets with rendering `content`: binary content and text without a
/// substitution marker are written; other text is left to the engine.
pub open spec fn rendering_of(content: ContentView) -> Rendering {
    match content {
        ContentView::Binary(_) => Rendering::Written,
        ContentView::Text(source) => if has_marker(source) {
            Rendering::EngineOwed
        } else {
            Rendering::Written
        },
    }
}

/// What a sink that held `before` holds once the library has rendered `content` as far as it
/// does: the bytes of the content behind what it held, or what it held where the engine's call
/// is owed.
pub open spec fn rendered_onto(before: Seq<u8>, content: ContentView) -> Seq<u8> {
    match rendering_of(content) {
        Rendering::Written => before + content.bytes(),
        Rendering::EngineOwed => before,
    }
}

/// What adding a source file to a store leads to.
pub enum Outcome {
    /// The file was classified and stored; the store is now this.
    Stored(Store),
    /// The name that the entry would get is not a valid entry name.
    Unsafe,
    /// The file is a text template and the engine does not accept its source.
    Refused,
}

/// Whether storing `e` is not left to the engine: its name is a valid entry name, and it holds
/// binary content or text without a substitution marker. Such an entry is always stored.
pub open spec fn plain(e: EntryView) -> bool {
    valid_name(e.name) && (e.content matches ContentView::Text(source) ==> !has_marker(source))
}

/// Whether the engine that holds `engine` is given the text `source` under `name`: it accepts
/// the text, and where it holds a template of that name already, the text is one that an
/// engine without templates accepts too, so that it extends nothing.
pub open spec fn admitted(engine: Map<Seq<char>, Seq<char>>, name: Seq<char>, source: Seq<char>) -> bool {
    engine_accepts(engine, name, source) && (engine.dom().contains(name) ==> engine_accepts(
        no_sources(),
        name,
        source,
    ))
}

/// Storing the entry `e` in `store`.
///
/// An entry whose name is not valid is not stored. Binary content is stored as it is. Text is
/// stored where the engine is given it, and the engine then holds it too. A stored entry takes
/// the place of an entry of the same name.
pub open spec fn after_put(store: Store, e: EntryView) -> Outcome {
    if !valid_name(e.name) {
        Outcome::Unsafe
    } else {
        match e.content {
            ContentView::Binary(_) => Outcome::Stored(
                Store { entries: put(store.entries, e), engine: store.engine },
            ),
            ContentView::Text(source) => if admitted(store.engine, e.name, source) {
                Outcome::Stored(
                    Store {
                        entries: put(store.entries, e),
                        engine: store.engine.insert(e.name, source),
                    },
                )
            } else {
                Outcome::Refused
            },
        }
    }
}

/// Adding the source file `name` with `bytes` to `store`: the file is classified, and the entry
/// that it becomes is stored.
pub open spec fn after_add(store: Store, name: Seq<char>, bytes: Seq<u8>) -> Outcome {
    after_put(store, classify(name, bytes))
}

/// The store without entries.
pub open spec fn empty_store() -> Store {
    Store { entries: Seq::empty(), engine: no_sources() }
}

/// Storing an entry overwrites: afterwards the entry's name gives its content, every other
/// name gives what it gave, no name is there twice, and the names are those of before and the
/// entry's own.
pub proof fn lemma_put(entries: Seq<EntryView>, e: EntryView)
    requires
        distinct(entries),
    ensures
        distinct(put(entries, e)),
        lookup(put(entries, e), e.name) == Some(e.content),
        forall|name: Seq<char>|
            name != e.name ==> #[trigger] lookup(put(entries, e), name) == lookup(entries, name),
        forall|name: Seq<char>|
            #[trigger] holds(put(entries, e), name) <==> (name == e.name || holds(entries, name)),
        names_of(put(entries, e)).to_set() == names_of(entries).to_set().insert(e.name),
        as_map(put(entries, e)) == as_map(entries).insert(e.name, e.content),
{
    lemma_put_lookup(entries, e);
    assert(as_map(put(entries, e)) =~= as_map(entries).insert(e.name, e.content)) by {
        assert forall|name: Seq<char>| #[trigger]
            as_map(put(entries, e)).dom().contains(name) implies as_map(put(entries, e))[name]
            == as_map(entries).insert(e.name, e.content)[name] by {
            assert(lookup(put(entries, e), name) == if name == e.name {
                Some(e.content)
            } else {
                lookup(entries, name)
            });
        }
    }
}

/// Storing an entry overwrites, told by names: see `lemma_put`.
proof fn lemma_put_lookup(entries: Seq<EntryView>, e: EntryView)
    requires
        distinct(entries),
    ensures
        distinct(put(entries, e)),
        lookup(put(entries, e), e.name) == Some(e.content),
        forall|name: Seq<char>|
            name != e.name ==> #[trigger] lookup(put(entries, e), name) == lookup(entries, name),
        forall|name: Seq<char>|
            #[trigger] holds(put(entries, e), name) <==> (name == e.name || holds(entries, name)),
        names_of(put(entries, e)).to_set() == names_of(entries).to_set().insert(e.name),
{
    let after = put(entries, e);
    // The entries keep their places, and every place but one keeps its entry.
    if holds(entries, e.name) {
        assert forall|i: int| 0 <= i < after.len() implies (#[trigger] after[i]).name
            == entries[i].name by {}
        assert forall|i: int| 0 <= i < entries.len() implies (#[trigger] entries[i]).name
            == after[i].name by {}
    } else {
        assert(after[entries.len() as int] == e);
        assert forall|i: int| 0 <= i < entries.len() implies (#[trigger] after[i]) == entries[i] by {}
    }
    assert(holds(after, e.name));
    assert(distinct(after));
    assert forall|name: Seq<char>| #[trigger]
        holds(after, name) <==> (name == e.name || holds(entries, name)) by {
        if holds(after, name) {
            assert(after[position(after, name)].name == name);
        }
        if holds(entries, name) {
            assert(after[position(entries, name)].name == name);
        }
    }
    assert(lookup(after, e.name) == Some(e.content)) by {
        assert(after[position(after, e.name)].name == e.name);
    }
    assert forall|name: Seq<char>| name != e.name implies #[trigger] lookup(after, name) == lookup(
        entries,
        name,
    ) by {
        if holds(entries, name) {
            assert(entries[position(entries, name)].name == name);
            assert(after[position(after, name)].name == name);
        }
    }
    assert(names_of(after).to_set() =~= names_of(entries).to_set().insert(e.name)) by {
        assert forall|name: Seq<char>| names_of(after).to_set().contains(name) <==> names_of(
            entries,
        ).to_set().insert(e.name).contains(name) by {
            lemma_names_hold(after, name);
            lemma_names_hold(entries, name);
        }
    }
}

/// A name is among the names of `entries` exactly where an entry of that name is among them.
pub proof fn lemma_names_hold(entries: Seq<EntryView>, name: Seq<char>)
    ensures
        names_of(entries).to_set().contains(name) <==> holds(entries, name),
{
    if names_of(entries).contains(name) {
        let i = choose|i: int| 0 <= i < names_of(entries).len() && names_of(entries)[i] == name;
        assert(entries[i].name == name);
    }
    if holds(entries, name) {
        assert(names_of(entries)[position(entries, name)] == name);
    }
}

/// What is added can be found again, and holds the bytes that came in: the entry that a source
/// file becomes is stored under its name, and its bytes are the file's. Together with what
/// `render_to` says, binary entries and text without a substitution marker come out byte for
/// byte as they went in.
pub proof fn lemma_added_bytes_stay(store: Store, name: Seq<char>, bytes: Seq<u8>)
    requires
        distinct(store.entries),
        after_add(store, name, bytes) is Stored,
    ensures
        lookup(after_add(store, name, bytes)->Stored_0.entries, classify(name, bytes).name) == Some(
            classify(name, bytes).content,
        ),
        classify(name, bytes).content.bytes() == bytes,
{
    let e = classify(name, bytes);
    lemma_put(store.entries, e);
    if e.content is Text {
        vstd::utf8::decode_utf8_encode_utf8(bytes);
    }
}

/// Appends `bytes` to `sink`.
pub fn append_bytes(sink: &mut Vec<u8>, bytes: &[u8])
    ensures
        final(sink)@ == old(sink)@ + bytes@,
{
    let mut i: usize = 0;
    while i < bytes.len()
        invariant
            i <= bytes.len(),
            sink@ == old(sink)@ + bytes@.take(i as int),
        decreases bytes.len() - i,
    {
        sink.push(bytes[i]);
        i = i + 1;
    }
}

/// A template: its entries by name, each text or binary, and the engine that holds the text
/// ones and renders them.
pub struct Templater {
    engine: tera::Tera,
    entries: Vec<Entry>,
}

impl View for Templater {
    type V = Store;

    closed spec fn view(&self) -> Store {
        Store {
            entries: Seq::new(self.entries@.len(), |i: int| self.entries@[i]@),
            engine: engine_sources(self.engine),
        }
    }
}

impl Default for Templater {
    /// A template without entries.
    fn default() -> (t: Templater)
        ensures
            t.wf(),
            t@ == empty_store(),
    {
        let t = Templater { engine: engine_new(), entries: Vec::new() };
        assert(t@.entries =~= Seq::empty());
        t
    }
}

impl Templater {
    /// What every store holds true: no two entries share a name, every name is a valid entry
    /// name, the engine holds the source of every text entry under the entry's name, and it
    /// never took a template that it should have refused.
    pub open spec fn wf(&self) -> bool {
        &&& distinct(self@.entries)
        &&& forall|i: int| 0 <= i < self@.entries.len() ==> valid_name((#[trigger] self@.entries[i]).name)
        &&& forall|i: int|
            0 <= i < self@.entries.len() ==> ((#[trigger] self@.entries[i]).content matches ContentView::Text(
                source,
            ) ==> self@.engine.contains_pair(self@.entries[i].name, source))
        &&& sound(self@.engine)
    }

    /// The number of entries.
    pub fn len(&self) -> (n: usize)
        ensures
            n == self@.entries.len(),
    {
        self.entries.len()
    }

    /// The place of the entry called `name`, if there is one.
    fn find(&self, name: &str) -> (r: Option<usize>)
        ensures
            match r {
                Some(i) => i < self@.entries.len() && self@.entries[i as int].name == name@
                    && self.entries@[i as int]@ == self@.entries[i as int],
                None => !holds(self@.entries, name@),
            },
    {
        let wanted = chars_of(name);
        let mut i: usize = 0;
        while i < self.entries.len()
            invariant
                i <= self.entries.len(),
                wanted@ == name@,
                self@.entries.len() == self.entries.len(),
                forall|j: int| 0 <= j < i ==> (#[trigger] self@.entries[j]).name != name@,
            decreases self.entries.len() - i,
        {
            let have = chars_of(self.entries[i].name.as_str());
            if same_chars(have.as_slice(), wanted.as_slice()) {
                return Some(i);
            }
            i = i + 1;
        }
        None
    }

    /// Stores an entry, in place of an entry of the same name.
    ///
    /// Fails, and leaves the store as it was, where the entry's name is not a valid entry name
    /// or the engine refuses the text. Text that is to take the place of a template that the
    /// engine holds must stand alone: the engine refuses it where it extends another template.
    pub fn put(&mut self, entry: Entry) -> (r: Result<(), Failure>)
        requires
            old(self).wf(),
        ensures
            final(self).wf(),
            match after_put(old(self)@, entry@) {
                Outcome::Stored(s) => r is Ok && final(self)@ == s,
                Outcome::Unsafe => r matches Err(Failure::MalformedArchiveEntry) && final(self)@
                    == old(self)@,
                Outcome::Refused => r matches Err(Failure::InvalidTemplate(_)) && final(self)@
                    == old(self)@,
            },
            plain(entry@) ==> r is Ok,
    {
        let key = chars_of(entry.name.as_str());
        if !is_valid_name(key.as_slice()) {
            return Err(Failure::MalformedArchiveEntry);
        }
        if let Content::Text(source) = &entry.content {
            if engine_has(&self.engine, entry.name.as_str()) {
                let mut alone = engine_new();
                match engine_add(&mut alone, entry.name.as_str(), source.as_str()) {
                    Ok(()) => {},
                    Err(e) => {
                        return Err(Failure::InvalidTemplate(engine_message(&e)));
                    },
                }
            }
            let mut candidate = engine_clone(&self.engine);
            match engine_add(&mut candidate, entry.name.as_str(), source.as_str()) {
                Ok(()) => {
                    proof {
                        let before = old(self)@.engine;
                        let after = engine_sources(candidate);
                        assert(after[entry.name@] == source@);
                    }
                    self.engine = candidate;
                },
                Err(e) => {
                    return Err(Failure::InvalidTemplate(engine_message(&e)));
                },
            }
        }
        let ghost e = entry@;
        let ghost before = old(self)@.entries;
        match self.find(entry.name.as_str()) {
            Some(i) => {
                self.entries.set(i, entry);
                assert(self@.entries =~= before.update(i as int, e));
            },
            None => {
                self.entries.push(entry);
                assert(self@.entries =~= before.push(e));
            },
        }
        Ok(())
    }

    /// Adds a source file: classifies it by name and bytes and stores the entry, in place of an
    /// entry of the same name. A name that ends in `.tera` is that of a text template and loses
    /// the suffix; to store a file whose name is to end in `.tera`, double the suffix.
    ///
    /// Fails, and leaves the store as it was, where the entry's name is not a valid entry name
    /// or the engine refuses the text; see `put` for text that takes the place of a template.
    pub fn add_raw_template(&mut self, name: &str, content: &[u8]) -> (r: Result<(), Failure>)
        requires
            old(self).wf(),
        ensures
            final(self).wf(),
            match after_add(old(self)@, name@, content@) {
                Outcome::Stored(s) => r is Ok && final(self)@ == s,
                Outcome::Unsafe => r matches Err(Failure::MalformedArchiveEntry) && final(self)@
                    == old(self)@,
                Outcome::Refused => r matches Err(Failure::InvalidTemplate(_)) && final(self)@
                    == old(self)@,
            },
            plain(classify(name@, content@)) ==> r is Ok,
    {
        self.put(classify_entry(name, content))
    }

    /// The names of the entries, in the order in which they first came in.
    pub fn get_template_names(&self) -> (r: Vec<String>)
        ensures
            r.deep_view() == names_of(self@.entries),
    {
        let mut r: Vec<String> = Vec::new();
        let mut i: usize = 0;
        while i < self.entries.len()
            invariant
                i <= self.entries.len(),
                self@.entries.len() == self.entries.len(),
                r@.len() == i,
                forall|j: int| 0 <= j < i ==> (#[trigger] r@[j])@ == self@.entries[j].name,
            decreases self.entries.len() - i,
        {
            r.push(self.entries[i].name.clone());
            i = i + 1;
        }
        r
    }

    /// The entry called `name`, if there is one.
    pub fn get(&self, name: &str) -> (r: Option<&Entry>)
        requires
            self.wf(),
        ensures
            match r {
                Some(e) => e@.name == name@ && lookup(self@.entries, name@) == Some(e@.content),
                None => lookup(self@.entries, name@) is None,
            },
    {
        match self.find(name) {
            Some(i) => {
                Some(&self.entries[i])
            },
            None => None,
        }
    }

    /// Tells whether rendering the entry called `name` is the engine's: there is such an entry,
    /// and it is text with a substitution marker.
    pub fn owes_engine(&self, name: &str) -> (r: bool)
        requires
            self.wf(),
        ensures
            r == (lookup(self@.entries, name@) matches Some(content) && rendering_of(content)
                == Rendering::EngineOwed),
    {
        match self.get(name) {
            Some(entry) => match &entry.content {
                Content::Text(source) => {
                    let chars = chars_of(source.as_str());
                    holds_marker(chars.as_slice())
                },
                Content::Binary(_) => false,
            },
            None => false,
        }
    }

    /// The engine, which holds the text entries: for the program around the library, which makes
    /// the rendering calls that the library leaves to it.
    pub fn engine(&self) -> (e: &tera::Tera)
        ensures
            engine_sources(*e) == self@.engine,
    {
        &self.engine
    }

    /// Renders the entry called `name` as far as the library does, and appends the output to
    /// `sink`.
    ///
    /// Binary content is copied as it is, whatever the context holds. Text without a
    /// substitution marker goes through the engine and comes out as it went in. Text with a
    /// marker is not rendered here: the answer says that the engine's call is owed, and `sink`
    /// stays as it was. Fails where no entry has that name, which leaves `sink` as it was too.
    pub fn render_to(&self, name: &str, context: &tera::Context, sink: &mut Vec<u8>) -> (r: Result<
        Rendering,
        Failure,
    >)
        requires
            self.wf(),
        ensures
            match lookup(self@.entries, name@) {
                None => r matches Err(Failure::TemplateNotFound) && final(sink)@ == old(sink)@,
                Some(content) => r == Ok::<Rendering, Failure>(rendering_of(content)) && final(sink)@
                    == rendered_onto(old(sink)@, content),
            },
    {
        match self.find(name) {
            None => Err(Failure::TemplateNotFound),
            Some(i) => {
                match &self.entries[i].content {
                    Content::Binary(bytes) => {
                        append_bytes(sink, bytes.as_slice());
                        Ok(Rendering::Written)
                    },
                    Content::Text(source) => {
                        let chars = chars_of(source.as_str());
                        if holds_marker(chars.as_slice()) {
                            Ok(Rendering::EngineOwed)
                        } else {
                            let _ = engine_render(&self.engine, name, context, sink);
                            Ok(Rendering::Written)
                        }
                    },
                }
            },
        }
    }
}

} // verus!
