//! The substitution engine behind text entries.
//!
//! The engine is `tera`. Nothing of its template language is restated here: the library hands
//! sources and variables to it and takes back what it renders. This file holds everything that
//! is believed of it.
//!
//! The library itself asks the engine to render literal text only. Text that holds a
//! substitution marker is rendered by the program around the library, which hands the output
//! back: what such text does to the engine cannot be told from here.

use vstd::prelude::*;
use vstd::utf8::encode_utf8;

verus! {

/// The engine: it parses templates, keeps them by name and renders them.
#[verifier::external_type_specification]
#[verifier::external_body]
pub struct ExTera(tera::Tera);

/// The variables that a template is rendered with.
#[verifier::external_type_specification]
#[verifier::external_body]
pub struct ExContext(tera::Context);

/// What the engine reports when it refuses a source or fails to render.
#[verifier::external_type_specification]
#[verifier::external_body]
pub struct ExTeraError(tera::Error);

/// The templates that an engine holds: each name with the source that it was last added with.
pub uninterp spec fn engine_sources(t: tera::Tera) -> Map<Seq<char>, Seq<char>>;

/// Whether an engine that holds `sources` takes the template `source` under `name`: the source
/// parses, and afterwards every template that is extended or imported from is present and no
/// template extends itself.
pub uninterp spec fn engine_accepts(
    sources: Map<Seq<char>, Seq<char>>,
    name: Seq<char>,
    source: Seq<char>,
) -> bool;

/// The variables of a context whose value is a string, by name.
pub uninterp spec fn context_values(c: tera::Context) -> Map<Seq<char>, Seq<char>>;

/// The contents of an engine that holds no template.
pub open spec fn no_sources() -> Map<Seq<char>, Seq<char>> {
    Map::empty()
}

/// A context without variables.
pub open spec fn no_values() -> Map<Seq<char>, Seq<char>> {
    Map::empty()
}

/// Whether a substitution marker of the engine begins at position `i` of `source`: an opening
/// brace followed by a second brace, a percent sign or a hash sign.
pub open spec fn marker_at(source: Seq<char>, i: int) -> bool {
    0 <= i && i + 1 < source.len() && source[i] == '{' && (source[i + 1] == '{' || source[i + 1]
        == '%' || source[i + 1] == '#')
}

/// Whether `source` holds a substitution marker anywhere.
pub open spec fn has_marker(source: Seq<char>) -> bool {
    exists|i: int| #[trigger] marker_at(source, i)
}

/// Tells whether `source` holds a substitution marker.
pub fn holds_marker(source: &[char]) -> (r: bool)
    ensures
        r == has_marker(source@),
{
    if source.len() < 2 {
        return false;
    }
    let last = source.len() - 1;
    let mut i: usize = 0;
    while i < last
        invariant
            i <= last,
            last + 1 == source.len(),
            forall|j: int| 0 <= j < i ==> !#[trigger] marker_at(source@, j),
        decreases last - i,
    {
        if source[i] == '{' && (source[i + 1] == '{' || source[i + 1] == '%' || source[i + 1] == '#') {
            assert(marker_at(source@, i as int));
            return true;
        }
        i = i + 1;
    }
    false
}

/// Whether `sources` is what an engine holds whose templates fit together: nothing, or what an
/// accepted addition left. In a sound engine every template that is extended or imported from
/// is there, and no template extends itself, directly or through others.
pub open spec fn sound(sources: Map<Seq<char>, Seq<char>>) -> bool {
    sources == no_sources() || exists|before: Map<Seq<char>, Seq<char>>, name: Seq<char>|
        #![trigger before.insert(name, sources[name])]
        engine_accepts(before, name, sources[name]) && sources == before.insert(
            name,
            sources[name],
        )
}

/// `tera::Tera::default`: an engine with the built-in filters and functions and no template.
#[verifier::external_body]
pub(crate) fn engine_new() -> (t: tera::Tera)
    ensures
        engine_sources(t) == no_sources(),
{
    tera::Tera::default()
}

/// `Clone::clone` of `tera::Tera`: a second engine that holds the same templates.
#[verifier::external_body]
pub(crate) fn engine_clone(t: &tera::Tera) -> (r: tera::Tera)
    ensures
        engine_sources(r) == engine_sources(*t),
{
    t.clone()
}

/// `tera::Tera::get_template`, asked only whether it finds one: tells whether the engine holds
/// a template called `name`.
#[verifier::external_body]
pub(crate) fn engine_has(t: &tera::Tera, name: &str) -> (r: bool)
    ensures
        r == engine_sources(*t).dom().contains(name@),
{
    t.get_template(name).is_ok()
}

/// `tera::Tera::add_raw_template`: parses `source` and keeps it under `name`, in place of what
/// was there. It succeeds exactly where the engine accepts the addition, and then holds the new
/// source besides what it held. Text without a marker is always accepted: it parses as literal
/// text and extends or imports nothing. After a failure the engine may hold a template that it
/// cannot use; nothing is said of it then.
///
/// The engine follows `extends` from every template it holds up to the roots, and gives up on
/// a circle only where it comes back to the template that it started from. So the call is made
/// on a sound engine only, and a template takes the place of another only if an engine without
/// templates accepts it: such a template extends nothing, and no circle can pass through it.
#[verifier::external_body]
pub(crate) fn engine_add(t: &mut tera::Tera, name: &str, source: &str) -> (r: Result<
    (),
    tera::Error,
>)
    requires
        sound(engine_sources(*old(t))),
        engine_sources(*old(t)).dom().contains(name@) ==> engine_accepts(
            no_sources(),
            name@,
            source@,
        ),
    ensures
        r is Ok <==> engine_accepts(engine_sources(*old(t)), name@, source@),
        r is Ok ==> engine_sources(*final(t)) == engine_sources(*old(t)).insert(name@, source@),
        !has_marker(source@) ==> r is Ok,
{
    t.add_raw_template(name, source)
}

/// `tera::Tera::render_to`, writing into a byte vector, for a template of literal text: a
/// template whose source holds no marker is written to `sink` as it stands, behind what `sink`
/// held, whatever the context holds, and the call succeeds.
///
/// The call is made on a sound engine, for a template that it holds and whose source has no
/// marker: such a template extends, imports, includes and computes nothing.
#[verifier::external_body]
pub(crate) fn engine_render(
    t: &tera::Tera,
    name: &str,
    context: &tera::Context,
    sink: &mut Vec<u8>,
) -> (r: Result<(), tera::Error>)
    requires
        sound(engine_sources(*t)),
        engine_sources(*t).dom().contains(name@),
        !has_marker(engine_sources(*t)[name@]),
    ensures
        r is Ok,
        final(sink)@ == old(sink)@ + encode_utf8(engine_sources(*t)[name@]),
{
    t.render_to(name, context, sink)
}

/// `ToString::to_string` of `tera::Error`: the engine's message.
#[verifier::external_body]
pub(crate) fn engine_message(e: &tera::Error) -> String {
    e.to_string()
}

/// `tera::Context::new`: a context without variables.
#[verifier::external_body]
pub(crate) fn context_new() -> (c: tera::Context)
    ensures
        context_values(c) == no_values(),
{
    tera::Context::new()
}

/// `tera::Context::insert` with a string value: sets the variable `key` to `value`, in place of
/// what it was.
#[verifier::external_body]
pub(crate) fn context_insert(c: &mut tera::Context, key: &str, value: &str)
    ensures
        context_values(*final(c)) == context_values(*old(c)).insert(key@, value@),
{
    c.insert(key, value);
}

} // verus!
