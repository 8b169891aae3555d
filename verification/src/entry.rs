//! Template entries and the rule that tells text from binary content.

use vstd::prelude::*;
use vstd::slice::slice_to_vec;
use vstd::string::StrSliceExecFns;
use vstd::utf8::{decode_utf8, encode_utf8, valid_utf8};
use crate::names::{chars_of, drop_suffix, ends_with, has_suffix};

verus! {

/// What an entry holds, as a mathematical value.
pub enum ContentView {
    /// Source text, substituted when the entry is rendered.
    Text(Seq<char>),
    /// Bytes that are copied as they are.
    Binary(Seq<u8>),
}

impl ContentView {
    /// The bytes that the content was made from: text in UTF-8, binary content itself.
    pub open spec fn bytes(self) -> Seq<u8> {
        match self {
            ContentView::Text(source) => encode_utf8(source),
            ContentView::Binary(bytes) => bytes,
        }
    }
}

/// An entry as a mathematical value: a name and what is stored under it.
pub struct EntryView {
    pub name: Seq<char>,
    pub content: ContentView,
}

/// What an entry holds.
#[derive(Debug)]
pub enum Content {
    /// Source text, substituted when the entry is rendered.
    Text(String),
    /// Bytes that are copied as they are.
    Binary(Vec<u8>),
}

impl View for Content {
    type V = ContentView;

    open spec fn view(&self) -> ContentView {
        match self {
            Content::Text(source) => ContentView::Text(source@),
            Content::Binary(bytes) => ContentView::Binary(bytes@),
        }
    }
}

impl Content {
    /// Tells whether the content is text.
    pub fn is_text(&self) -> (r: bool)
        ensures
            r == (self@ is Text),
    {
        match self {
            Content::Text(_) => true,
            Content::Binary(_) => false,
        }
    }

    /// The bytes that the content was made from.
    pub fn to_bytes(&self) -> (r: Vec<u8>)
        ensures
            r@ == self@.bytes(),
    {
        match self {
            Content::Text(source) => source.as_str().as_bytes_vec(),
            Content::Binary(bytes) => slice_to_vec(bytes.as_slice()),
        }
    }
}

/// One named unit of content of a template.
#[derive(Debug)]
pub struct Entry {
    pub name: String,
    pub content: Content,
}

impl View for Entry {
    type V = EntryView;

    open spec fn view(&self) -> EntryView {
        EntryView { name: self.name@, content: self.content@ }
    }
}

/// The suffix that marks a name as that of a text template: `.tera`.
pub open spec fn template_suffix() -> Seq<char> {
    seq!['.', 't', 'e', 'r', 'a']
}

/// The doubled suffix, which stands for a literal `.tera` at the end of a name.
pub open spec fn escaped_suffix() -> Seq<char> {
    seq!['.', 't', 'e', 'r', 'a', '.', 't', 'e', 'r', 'a']
}

/// The entry that a source file becomes.
///
/// A name that ends in the doubled suffix is an escape: one suffix is taken off and the bytes
/// are binary content. A name that ends in the single suffix loses it, and the bytes are text
/// if they are valid UTF-8, binary content otherwise. Any other name is kept, with binary
/// content.
pub open spec fn classify(name: Seq<char>, bytes: Seq<u8>) -> EntryView {
    if has_suffix(name, escaped_suffix()) {
        EntryView { name: drop_suffix(name, 5), content: ContentView::Binary(bytes) }
    } else if has_suffix(name, template_suffix()) {
        if valid_utf8(bytes) {
            EntryView { name: drop_suffix(name, 5), content: ContentView::Text(decode_utf8(bytes)) }
        } else {
            EntryView { name: drop_suffix(name, 5), content: ContentView::Binary(bytes) }
        }
    } else {
        EntryView { name, content: ContentView::Binary(bytes) }
    }
}

/// `String::from_utf8`: the text that `bytes` encode, where they are valid UTF-8, and nothing
/// where they are not.
#[verifier::external_body]
pub(crate) fn decode_text(bytes: &[u8]) -> (r: Option<String>)
    ensures
        r is Some <==> valid_utf8(bytes@),
        r matches Some(text) ==> text@ == decode_utf8(bytes@),
{
    String::from_utf8(bytes.to_vec()).ok()
}

/// Classifies a source file by its name and bytes.
pub fn classify_entry(name: &str, bytes: &[u8]) -> (e: Entry)
    ensures
        e@ == classify(name@, bytes@),
{
    let chars = chars_of(name);
    let single = vec!['.', 't', 'e', 'r', 'a'];
    let double = vec!['.', 't', 'e', 'r', 'a', '.', 't', 'e', 'r', 'a'];
    if ends_with(chars.as_slice(), double.as_slice()) {
        let stem = name.substring_char(0, chars.len() - 5);
        Entry { name: stem.to_owned(), content: Content::Binary(slice_to_vec(bytes)) }
    } else if ends_with(chars.as_slice(), single.as_slice()) {
        let stem = name.substring_char(0, chars.len() - 5);
        match decode_text(bytes) {
            Some(text) => Entry { name: stem.to_owned(), content: Content::Text(text) },
            None => Entry { name: stem.to_owned(), content: Content::Binary(slice_to_vec(bytes)) },
        }
    } else {
        Entry { name: name.to_owned(), content: Content::Binary(slice_to_vec(bytes)) }
    }
}

} // verus!
