//! Where a scan stands in the page, and the rules by which it moves.

use crate::tag::{Attribute, Tag, TagKind, TagView};
use crate::text::text_equal;
use vstd::prelude::*;

verus! {

/// The position of a scan inside the skeleton of the page. A scan is in
/// exactly one of them at any time.
#[derive(Clone, Copy, Debug, PartialEq, Eq)]
pub enum Context {
    /// Outside the document: before `<html>` and after `</html>`.
    Initial,
    /// Inside `html`, outside `body`.
    InHtml,
    /// Inside `body`, outside the container.
    InBody,
    /// Inside the `div` that wraps the table.
    InContainer,
    /// Inside the table, between rows.
    InTable,
    /// Inside a row, between cells.
    InRow,
    /// Inside a cell.
    InCell,
}

/// `tag` opens an element called `name`.
pub open spec fn opens(tag: TagView, name: Seq<char>) -> bool {
    tag.kind is Opening && tag.name == name
}

/// `tag` closes an element called `name`.
pub open spec fn closes(tag: TagView, name: Seq<char>) -> bool {
    tag.kind is Closing && tag.name == name
}

/// Some attribute is called `class` and has the value `table-scrollable`.
pub open spec fn has_container_class(attributes: Seq<(Seq<char>, Seq<char>)>) -> bool {
    exists|i: int|
        0 <= i < attributes.len() && #[trigger] attributes[i] == ("class"@, "table-scrollable"@)
}

/// The rule that `tag` triggers in context `from`: the context it leads to,
/// or `None` where no rule matches.
///
/// Nesting is not counted. The first `</div>` inside the container ends it,
/// whichever `div` it closes; and no rule leads out of the table, so that
/// whatever follows a table is read as more of it.
pub open spec fn transition(from: Context, tag: TagView) -> Option<Context> {
    if from is Initial && opens(tag, "html"@) {
        Some(Context::InHtml)
    } else if from is InHtml && closes(tag, "html"@) {
        Some(Context::Initial)
    } else if from is InHtml && opens(tag, "body"@) {
        Some(Context::InBody)
    } else if from is InBody && closes(tag, "body"@) {
        Some(Context::InHtml)
    } else if from is InBody && opens(tag, "div"@) && has_container_class(tag.attributes) {
        Some(Context::InContainer)
    } else if from is InContainer && closes(tag, "div"@) {
        Some(Context::InBody)
    } else if from is InContainer && opens(tag, "table"@) {
        Some(Context::InTable)
    } else if from is InTable && opens(tag, "tr"@) {
        Some(Context::InRow)
    } else if from is InRow && closes(tag, "tr"@) {
        Some(Context::InTable)
    } else if from is InRow && opens(tag, "td"@) {
        Some(Context::InCell)
    } else if from is InCell && closes(tag, "td"@) {
        Some(Context::InRow)
    } else if from is InCell && tag.kind is Text {
        Some(Context::InCell)
    } else {
        None
    }
}

/// The context after `tag` was read in context `from`.
pub open spec fn next_context(from: Context, tag: TagView) -> Context {
    match transition(from, tag) {
        Some(to) => to,
        None => from,
    }
}

/// Whether one of `attributes` marks the container of the table.
pub fn marks_container(attributes: &Vec<Attribute>) -> (found: bool)
    ensures
        found == has_container_class(attributes.deep_view()),
{
    let mut i: usize = 0;
    while i < attributes.len()
        invariant
            i <= attributes.len(),
            forall|k: int| 0 <= k < i ==> attributes.deep_view()[k] != ("class"@, "table-scrollable"@),
        decreases attributes.len() - i,
    {
        let attribute = &attributes[i];
        if text_equal(attribute.name.as_str(), "class") && text_equal(
            attribute.value.as_str(),
            "table-scrollable",
        ) {
            assert(attributes.deep_view()[i as int] == ("class"@, "table-scrollable"@));
            return true;
        }
        i += 1;
    }
    false
}

/// The rule that a tag made of these parts triggers in context `from`. The
/// tag's text plays no part in it.
pub(crate) fn rule_for(
    from: Context,
    name: &str,
    kind: TagKind,
    attributes: &Vec<Attribute>,
    Ghost(text): Ghost<Seq<char>>,
) -> (to: Option<Context>)
    ensures
        to == transition(
            from,
            (TagView { name: name@, kind, attributes: attributes.deep_view(), text }),
        ),
{
    match (from, kind) {
        (Context::Initial, TagKind::Opening) => {
            if text_equal(name, "html") {
                Some(Context::InHtml)
            } else {
                None
            }
        },
        (Context::InHtml, TagKind::Closing) => {
            if text_equal(name, "html") {
                Some(Context::Initial)
            } else {
                None
            }
        },
        (Context::InHtml, TagKind::Opening) => {
            if text_equal(name, "body") {
                Some(Context::InBody)
            } else {
                None
            }
        },
        (Context::InBody, TagKind::Closing) => {
            if text_equal(name, "body") {
                Some(Context::InHtml)
            } else {
                None
            }
        },
        (Context::InBody, TagKind::Opening) => {
            if text_equal(name, "div") && marks_container(attributes) {
                Some(Context::InContainer)
            } else {
                None
            }
        },
        (Context::InContainer, TagKind::Closing) => {
            if text_equal(name, "div") {
                Some(Context::InBody)
            } else {
                None
            }
        },
        (Context::InContainer, TagKind::Opening) => {
            if text_equal(name, "table") {
                Some(Context::InTable)
            } else {
                None
            }
        },
        (Context::InTable, TagKind::Opening) => {
            if text_equal(name, "tr") {
                Some(Context::InRow)
            } else {
                None
            }
        },
        (Context::InRow, TagKind::Closing) => {
            if text_equal(name, "tr") {
                Some(Context::InTable)
            } else {
                None
            }
        },
        (Context::InRow, TagKind::Opening) => {
            if text_equal(name, "td") {
                Some(Context::InCell)
            } else {
                None
            }
        },
        (Context::InCell, TagKind::Closing) => {
            if text_equal(name, "td") {
                Some(Context::InRow)
            } else {
                None
            }
        },
        (Context::InCell, TagKind::Text) => Some(Context::InCell),
        _ => None,
    }
}

impl Context {
    /// Looks up the rule that `tag` triggers in this context.
    pub fn rule(self, tag: &Tag) -> (to: Option<Context>)
        ensures
            to == transition(self, tag@),
    {
        rule_for(self, tag.name.as_str(), tag.kind, &tag.attributes, Ghost(tag.text@))
    }
}

} // verus!
