//! The events a scan works on: tags, their kinds and their attributes.

use vstd::prelude::*;

verus! {

/// What kind of event a tag is.
#[derive(Clone, Copy, Debug, PartialEq, Eq)]
pub enum TagKind {
    /// An opening element, such as `<td>`.
    Opening,
    /// A closing element, such as `</td>`.
    Closing,
    /// A run of text between elements.
    Text,
    /// An element that closes itself, such as `<br />`. No rule of the scan
    /// matches it.
    SelfClosing,
}

/// One attribute of an element.
#[derive(Clone, Debug, PartialEq, Eq)]
pub struct Attribute {
    pub name: String,
    pub value: String,
}

impl View for Attribute {
    type V = (Seq<char>, Seq<char>);

    open spec fn view(&self) -> (Seq<char>, Seq<char>) {
        (self.name@, self.value@)
    }
}

impl DeepView for Attribute {
    type V = (Seq<char>, Seq<char>);

    open spec fn deep_view(&self) -> (Seq<char>, Seq<char>) {
        self@
    }
}

/// A tag as the scan reads it.
#[derive(Clone, Debug, PartialEq, Eq)]
pub struct Tag {
    /// The element's name; empty for text.
    pub name: String,
    pub kind: TagKind,
    /// The element's attributes, in the order in which they were written.
    pub attributes: Vec<Attribute>,
    /// The tag as it stood in the page. For text, this is the text itself.
    pub text: String,
}

/// The mathematical value of a [`Tag`].
pub struct TagView {
    pub name: Seq<char>,
    pub kind: TagKind,
    pub attributes: Seq<(Seq<char>, Seq<char>)>,
    pub text: Seq<char>,
}

impl View for Tag {
    type V = TagView;

    open spec fn view(&self) -> TagView {
        TagView {
            name: self.name@,
            kind: self.kind,
            attributes: self.attributes.deep_view(),
            text: self.text@,
        }
    }
}

impl DeepView for Tag {
    type V = TagView;

    open spec fn deep_view(&self) -> TagView {
        self@
    }
}

/// A tag whose attributes are still one piece of text, as a tokenizer
/// hands it over.
#[derive(Clone, Debug, PartialEq, Eq)]
pub struct RawTag {
    /// The element's name; empty for text.
    pub name: String,
    pub kind: TagKind,
    /// What stands between the element's name and its end, unsplit.
    pub attributes: String,
    /// The tag as it stood in the page. For text, this is the text itself.
    pub text: String,
}

/// The mathematical value of a [`RawTag`].
pub struct RawTagView {
    pub name: Seq<char>,
    pub kind: TagKind,
    pub attributes: Seq<char>,
    pub text: Seq<char>,
}

impl View for RawTag {
    type V = RawTagView;

    open spec fn view(&self) -> RawTagView {
        RawTagView {
            name: self.name@,
            kind: self.kind,
            attributes: self.attributes@,
            text: self.text@,
        }
    }
}

impl DeepView for RawTag {
    type V = RawTagView;

    open spec fn deep_view(&self) -> RawTagView {
        self@
    }
}

} // verus!
