//! Scanning a page as the `htmlstream` tokenizer cuts it into tags.
//!
//! The tokenizer is not verified. What this module takes on trust of it is
//! stated by [`read_tags`] and [`read_attributes`]; everything else is proved
//! on top of these two.
//!
//! The tokenizer panics on some attribute text (see [`crate::split`]). The
//! scan looks through the attributes of a `div` for the class of the
//! container one after the other, so it is stopped only where the tokenizer
//! stops before that class is found.

use crate::context::{has_container_class, marks_container, Context};
use crate::laws::lemma_rows_come_from_the_table;
use crate::scanner::{Scanner, ScannerView};
use crate::split::{attribute_text_readable, lemma_readable_part, readable_part, walk_attribute_text};
use crate::tag::{Attribute, RawTag, RawTagView, TagKind, TagView};
use crate::text::text_equal;
use vstd::prelude::*;

verus! {

/// Keeps the second component of a pair and drops the first. The tokenizer
/// hands out each item behind its position in the text; this takes the item.
pub fn drop_first<A, B>(pair: (A, B)) -> (second: B)
    ensures
        second == pair.1,
{
    pair.1
}

/// The tags that `htmlstream::tag_iter` cuts a page into, in order.
pub uninterp spec fn html_tags(html: Seq<char>) -> Seq<RawTagView>;

/// The attributes that `htmlstream::attr_iter` cuts the attribute text of an
/// element into, as pairs of name and value, in order.
pub uninterp spec fn html_attributes(text: Seq<char>) -> Seq<(Seq<char>, Seq<char>)>;

/// Runs `htmlstream::tag_iter` over the whole page and collects what it
/// yields, each tag copied field by field and its position dropped.
///
/// Taken on trust: the tags depend on the page alone, so they are the value
/// of [`html_tags`] at the page. The tokenizer works through any text to its
/// end; it cuts only at `<`, `>`, `/` and at bytes up to the blank, which
/// stand on character boundaries in every string.
#[verifier::external_body]
fn read_tags(html: &str) -> (tags: Vec<RawTag>)
    ensures
        tags.deep_view() == html_tags(html@),
{
    htmlstream::tag_iter(html).map(drop_first).map(
        |tag| RawTag {
            name: tag.name,
            kind: match tag.state {
                htmlstream::HTMLTagState::Opening => TagKind::Opening,
                htmlstream::HTMLTagState::Closing => TagKind::Closing,
                htmlstream::HTMLTagState::Text => TagKind::Text,
                htmlstream::HTMLTagState::SelfClosing => TagKind::SelfClosing,
            },
            attributes: tag.attributes,
            text: tag.html,
        },
    ).collect()
}

/// Runs `htmlstream::attr_iter` over the attribute text of an element and
/// collects what it yields, each attribute copied field by field and its
/// position dropped.
///
/// Taken on trust: the attributes depend on the text alone, so they are the
/// value of [`html_attributes`] at the text; and on text that is
/// [`attribute_text_readable`] the tokenizer reaches the end without a
/// panic. Its only cut that can fall inside a character is the start of a
/// quoted value, and that is the cut that the rule leaves out.
#[verifier::external_body]
fn read_attributes(text: &str) -> (attributes: Vec<Attribute>)
    requires
        attribute_text_readable(text@),
    ensures
        attributes.deep_view() == html_attributes(text@),
{
    htmlstream::attr_iter(text).map(drop_first).map(
        |attribute| Attribute { name: attribute.name, value: attribute.value },
    ).collect()
}

/// Splits the attribute text of an element into its attributes, where the
/// tokenizer gets through it; `None` where it does not.
pub fn split_attributes(text: &str) -> (attributes: Option<Vec<Attribute>>)
    ensures
        match attributes {
            Some(list) => attribute_text_readable(text@) && list.deep_view() == html_attributes(
                text@,
            ),
            None => !attribute_text_readable(text@),
        },
{
    let (readable, _) = walk_attribute_text(text);
    if readable {
        Some(read_attributes(text))
    } else {
        None
    }
}

/// The attributes that the tokenizer cuts out of the attribute text of an
/// element before it stops, and whether it gets through the text: all
/// attributes where it does, else those that end before the cut that it
/// cannot make.
///
/// Where the tokenizer stops, it is run over the part of the text that ends
/// with the last attribute before the stop. It reads from left to right and
/// looks only back, so what it cuts out of that part is what it cuts out of
/// the whole up to there.
pub fn leading_attributes(text: &str) -> (found: (Vec<Attribute>, bool))
    ensures
        found.0.deep_view() == html_attributes(readable_part(text@)),
        found.1 == attribute_text_readable(text@),
{
    let (readable, len) = walk_attribute_text(text);
    proof {
        lemma_readable_part(text@);
    }
    if readable {
        (read_attributes(text), true)
    } else {
        (read_attributes(text.substring_char(0, len)), false)
    }
}

impl RawTagView {
    /// The tag with its attribute text split as far as the tokenizer splits
    /// it.
    pub open spec fn parsed(self) -> TagView {
        TagView {
            name: self.name,
            kind: self.kind,
            attributes: html_attributes(readable_part(self.attributes)),
            text: self.text,
        }
    }

    /// Whether a scan in `context` looks at the attributes of this tag: it
    /// does so only for a `div` that opens inside the body.
    pub open spec fn attributes_matter(self, context: Context) -> bool {
        context is InBody && self.kind is Opening && self.name == "div"@
    }

    /// A scan in `context` cannot read this tag: it looks through the
    /// attributes for the class of the container, one after the other, and
    /// the tokenizer stops before one is found.
    pub open spec fn blocks(self, context: Context) -> bool {
        &&& self.attributes_matter(context)
        &&& !attribute_text_readable(self.attributes)
        &&& !has_container_class(html_attributes(readable_part(self.attributes)))
    }
}

/// Each of `tags` with its attribute text split.
pub open spec fn parsed_tags(tags: Seq<RawTagView>) -> Seq<TagView> {
    tags.map_values(|tag: RawTagView| tag.parsed())
}

/// A scan that starts in state `from` cannot read tag `i` of `tags`.
pub open spec fn blocked_at(from: ScannerView, tags: Seq<RawTagView>, i: int) -> bool {
    0 <= i < tags.len() && tags[i].blocks(from.run(parsed_tags(tags.take(i))).context)
}

/// A scan from the start of a page that cannot read a tag has handed out
/// no row before it, and holds no cell: it is still in the body.
pub proof fn lemma_nothing_read_before_a_stop(
    tags: Seq<RawTagView>,
    strip_currency: bool,
    at: int,
)
    requires
        blocked_at(ScannerView::start(strip_currency), tags, at),
    ensures
        ScannerView::start(strip_currency).rows(parsed_tags(tags.take(at))) == Seq::<
            Seq<Seq<char>>,
        >::empty(),
        ScannerView::start(strip_currency).run(parsed_tags(tags.take(at))).row.len() == 0,
{
    lemma_rows_come_from_the_table(
        ScannerView::start(strip_currency),
        parsed_tags(tags.take(at)),
    );
}

/// A tag whose attributes the scan had to look through and the tokenizer
/// does not get through.
#[derive(Clone, Copy, Debug, PartialEq, Eq)]
pub struct UnreadableAttributes;

/// A scan that stopped before the end of the page. It stops in the body,
/// before it has handed out a row; what the page holds behind that place is
/// not read.
#[derive(Clone, Copy, Debug, PartialEq, Eq)]
pub struct ScanStopped {
    /// The position, among the tags of the page, of the tag that could not
    /// be read.
    pub tag_index: usize,
}

impl Scanner {
    /// Reads one tag as the tokenizer hands it over. The attribute text is
    /// split only where the scan looks at it, and only as far as the
    /// tokenizer gets. Where the tokenizer stops before the class of the
    /// container is found, the scan stays as it was and the tag is refused.
    pub fn feed_raw(&mut self, tag: &RawTag) -> (row: Result<Option<Vec<String>>, UnreadableAttributes>)
        ensures
            old(self)@.wf() ==> final(self)@.wf(),
            match row {
                Ok(cells) => {
                    &&& !tag@.blocks(old(self)@.context)
                    &&& final(self)@ == old(self)@.step(tag@.parsed())
                    &&& match cells {
                        Some(cells) => old(self)@.emitted(tag@.parsed()) == Some(
                            cells.deep_view(),
                        ),
                        None => old(self)@.emitted(tag@.parsed()) is None,
                    }
                },
                Err(_) => tag@.blocks(old(self)@.context) && final(self)@ == old(self)@,
            },
    {
        let looks = match (self.context(), tag.kind) {
            (Context::InBody, TagKind::Opening) => text_equal(tag.name.as_str(), "div"),
            _ => false,
        };
        if looks {
            let (attributes, complete) = leading_attributes(tag.attributes.as_str());
            if complete || marks_container(&attributes) {
                Ok(self.advance(tag.name.as_str(), tag.kind, &attributes, tag.text.as_str()))
            } else {
                Err(UnreadableAttributes)
            }
        } else {
            let unread: Vec<Attribute> = Vec::new();
            Ok(self.advance(tag.name.as_str(), tag.kind, &unread, tag.text.as_str()))
        }
    }
}

/// What a scan of `tags` from the start of a page comes to: the rows of the
/// table where every tag can be read; else the position of the first tag
/// that cannot.
pub open spec fn scan_result(
    tags: Seq<RawTagView>,
    strip_currency: bool,
    result: Result<Seq<Seq<Seq<char>>>, int>,
) -> bool {
    let start = ScannerView::start(strip_currency);
    match result {
        Ok(rows) => {
            &&& forall|i: int| !blocked_at(start, tags, i)
            &&& rows == start.rows(parsed_tags(tags))
        },
        Err(at) => {
            &&& blocked_at(start, tags, at)
            &&& forall|i: int| 0 <= i < at ==> !blocked_at(start, tags, i)
        },
    }
}

/// A scan gets through every page in which the tokenizer gets through the
/// attributes of each tag: it stops at no tag and hands out the rows of the
/// page.
pub proof fn lemma_readable_page_is_scanned(tags: Seq<RawTagView>, strip_currency: bool)
    requires
        forall|i: int|
            0 <= i < tags.len() ==> attribute_text_readable((#[trigger] tags[i]).attributes),
    ensures
        scan_result(
            tags,
            strip_currency,
            Ok(ScannerView::start(strip_currency).rows(parsed_tags(tags))),
        ),
{
    assert forall|i: int| !blocked_at(ScannerView::start(strip_currency), tags, i) by {
        if 0 <= i < tags.len() {
            assert(attribute_text_readable(tags[i].attributes));
        }
    }
}

/// A scan has one result only: scanning the same tags again, with the same
/// setting, gives the same rows, or stops at the same tag.
pub proof fn lemma_scan_result_is_unique(
    tags: Seq<RawTagView>,
    strip_currency: bool,
    first: Result<Seq<Seq<Seq<char>>>, int>,
    second: Result<Seq<Seq<Seq<char>>>, int>,
)
    requires
        scan_result(tags, strip_currency, first),
        scan_result(tags, strip_currency, second),
    ensures
        first == second,
{
    let start = ScannerView::start(strip_currency);
    match (first, second) {
        (Err(a), Err(b)) => {
            if a < b {
                assert(!blocked_at(start, tags, a));
            } else if b < a {
                assert(!blocked_at(start, tags, b));
            }
        },
        (Err(a), Ok(_)) => {
            assert(!blocked_at(start, tags, a));
        },
        (Ok(_), Err(b)) => {
            assert(!blocked_at(start, tags, b));
        },
        (Ok(_), Ok(_)) => {},
    }
}

/// The mathematical value of what [`scan_raw`] and [`scan_html`] return.
pub open spec fn result_view(result: Result<Vec<Vec<String>>, ScanStopped>) -> Result<
    Seq<Seq<Seq<char>>>,
    int,
> {
    match result {
        Ok(rows) => Ok(rows.deep_view()),
        Err(stopped) => Err(stopped.tag_index as int),
    }
}

/// Scans tags as the tokenizer hands them over, from the start of a page,
/// and returns the rows of the table in the order in which they end. With
/// `strip_currency`, the fifth cell of each row loses what follows its
/// amount. The scan stops at the first tag whose attributes it has to look
/// through and the tokenizer does not get through.
pub fn scan_raw(tags: &Vec<RawTag>, strip_currency: bool) -> (result: Result<
    Vec<Vec<String>>,
    ScanStopped,
>)
    ensures
        scan_result(tags.deep_view(), strip_currency, result_view(result)),
{
    let ghost start = ScannerView::start(strip_currency);
    let ghost all = tags.deep_view();
    let mut scanner = Scanner::new(strip_currency);
    let mut rows: Vec<Vec<String>> = Vec::new();
    let mut i: usize = 0;
    assert(rows.deep_view() =~= Seq::empty());
    assert(parsed_tags(all.take(0)) =~= Seq::empty());
    while i < tags.len()
        invariant
            i <= tags.len(),
            all == tags.deep_view(),
            start == ScannerView::start(strip_currency),
            scanner@ == start.run(parsed_tags(all.take(i as int))),
            rows.deep_view() == start.rows(parsed_tags(all.take(i as int))),
            forall|k: int| 0 <= k < i ==> !blocked_at(start, all, k),
        decreases tags.len() - i,
    {
        let ghost before = rows.deep_view();
        match scanner.feed_raw(&tags[i]) {
            Err(_) => {
                return Err(ScanStopped { tag_index: i });
            },
            Ok(row) => {
                proof {
                    let next = parsed_tags(all.take(i + 1));
                    assert(next.drop_last() =~= parsed_tags(all.take(i as int)));
                    assert(next.last() == tags[i as int]@.parsed());
                }
                if let Some(cells) = row {
                    rows.push(cells);
                    assert(rows.deep_view() =~= before.push(cells.deep_view()));
                }
            },
        }
        i += 1;
    }
    assert(all.take(i as int) =~= all);
    Ok(rows)
}

/// Cuts a page into tags and scans them from its start: returns the rows of
/// the table in the order in which they end. With `strip_currency`, the
/// fifth cell of each row loses what follows its amount. The scan stops at
/// the first tag whose attributes it has to look through and the tokenizer
/// does not get through.
pub fn scan_html(html: &str, strip_currency: bool) -> (result: Result<
    Vec<Vec<String>>,
    ScanStopped,
>)
    ensures
        scan_result(html_tags(html@), strip_currency, result_view(result)),
{
    let tags = read_tags(html);
    scan_raw(&tags, strip_currency)
}

} // verus!
