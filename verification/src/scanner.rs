//! The scan itself: a fold over the tags of a page that follows the context
//! and collects the text of the cells of each row.

use crate::context::{closes, next_context, rule_for, Context};
use crate::tag::{Attribute, Tag, TagKind, TagView};
use crate::text::{strip_trailing_currency, without_currency};
use vstd::prelude::*;

verus! {

/// The mathematical value of a [`Scanner`].
pub struct ScannerView {
    pub context: Context,
    /// The cells of the row that is being read.
    pub row: Seq<Seq<char>>,
    pub strip_currency: bool,
}

/// The text that becomes the next cell of a row that has `cells` cells
/// already: with `strip_currency`, the fifth cell loses what follows its
/// amount; every other text is kept as it is.
pub open spec fn cell_text(strip_currency: bool, cells: nat, text: Seq<char>) -> Seq<char> {
    if strip_currency && cells == 4 {
        without_currency(text)
    } else {
        text
    }
}

impl ScannerView {
    /// A scan that has read nothing.
    pub open spec fn start(strip_currency: bool) -> ScannerView {
        ScannerView { context: Context::Initial, row: Seq::empty(), strip_currency }
    }

    /// Cells are held only while a row is open.
    pub open spec fn wf(self) -> bool {
        self.row.len() > 0 ==> self.context is InRow || self.context is InCell
    }

    /// `tag` ends the row that is being read.
    pub open spec fn closes_row(self, tag: TagView) -> bool {
        self.context is InRow && closes(tag, "tr"@)
    }

    /// `tag` is text inside a cell.
    pub open spec fn adds_cell(self, tag: TagView) -> bool {
        self.context is InCell && tag.kind is Text
    }

    /// The row that reading `tag` hands out: the cells collected so far, when
    /// `tag` ends a row that has any.
    pub open spec fn emitted(self, tag: TagView) -> Option<Seq<Seq<char>>> {
        if self.closes_row(tag) && self.row.len() > 0 {
            Some(self.row)
        } else {
            None
        }
    }

    /// The scan after `tag` was read.
    pub open spec fn step(self, tag: TagView) -> ScannerView {
        ScannerView {
            context: next_context(self.context, tag),
            row: if self.closes_row(tag) {
                Seq::empty()
            } else if self.adds_cell(tag) {
                self.row.push(cell_text(self.strip_currency, self.row.len(), tag.text))
            } else {
                self.row
            },
            strip_currency: self.strip_currency,
        }
    }

    /// The scan after all of `tags` were read, in order.
    pub open spec fn run(self, tags: Seq<TagView>) -> ScannerView
        decreases tags.len(),
    {
        if tags.len() == 0 {
            self
        } else {
            self.run(tags.drop_last()).step(tags.last())
        }
    }

    /// The rows handed out while `tags` were read, in order.
    pub open spec fn rows(self, tags: Seq<TagView>) -> Seq<Seq<Seq<char>>>
        decreases tags.len(),
    {
        if tags.len() == 0 {
            Seq::empty()
        } else {
            let before = self.rows(tags.drop_last());
            match self.run(tags.drop_last()).emitted(tags.last()) {
                Some(row) => before.push(row),
                None => before,
            }
        }
    }
}

/// The state of a scan: the context it is in and the cells of the row that
/// it is reading.
#[derive(Debug)]
pub struct Scanner {
    context: Context,
    row: Vec<String>,
    strip_currency: bool,
}

impl View for Scanner {
    type V = ScannerView;

    closed spec fn view(&self) -> ScannerView {
        ScannerView {
            context: self.context,
            row: self.row.deep_view(),
            strip_currency: self.strip_currency,
        }
    }
}

impl Scanner {
    /// A scan at the start of a page.
    pub fn new(strip_currency: bool) -> (scanner: Scanner)
        ensures
            scanner@ == ScannerView::start(strip_currency),
            scanner@.wf(),
    {
        let scanner = Scanner { context: Context::Initial, row: Vec::new(), strip_currency };
        assert(scanner.row.deep_view() =~= Seq::empty());
        scanner
    }

    /// The context the scan is in.
    pub fn context(&self) -> (context: Context)
        ensures
            context == self@.context,
    {
        self.context
    }

    /// The cells collected of the row that is being read.
    pub fn row(&self) -> (row: &Vec<String>)
        ensures
            row.deep_view() == self@.row,
    {
        &self.row
    }

    /// Whether the fifth cell of each row loses what follows its amount.
    pub fn strip_currency(&self) -> (strip_currency: bool)
        ensures
            strip_currency == self@.strip_currency,
    {
        self.strip_currency
    }

    /// Reads a tag given by its parts.
    pub(crate) fn advance(
        &mut self,
        name: &str,
        kind: TagKind,
        attributes: &Vec<Attribute>,
        text: &str,
    ) -> (row: Option<Vec<String>>)
        ensures
            ({
                let tag = TagView { name: name@, kind, attributes: attributes.deep_view(), text: text@ };
                &&& final(self)@ == old(self)@.step(tag)
                &&& match row {
                    Some(cells) => old(self)@.emitted(tag) == Some(cells.deep_view()),
                    None => old(self)@.emitted(tag) is None,
                }
            }),
    {
        let ghost before = self@;
        let to = rule_for(self.context, name, kind, attributes, Ghost(text@));
        match to {
            None => None,
            Some(next) => {
                let mut row: Option<Vec<String>> = None;
                match (self.context, next) {
                    // The row ends: its cells leave the scan.
                    (Context::InRow, Context::InTable) => {
                        let mut cells: Vec<String> = Vec::new();
                        core::mem::swap(&mut self.row, &mut cells);
                        assert(self.row.deep_view() =~= Seq::empty());
                        if cells.len() > 0 {
                            row = Some(cells);
                        }
                    },
                    // Text inside a cell: one more cell.
                    (Context::InCell, Context::InCell) => {
                        let cell = if self.strip_currency && self.row.len() == 4 {
                            strip_trailing_currency(text)
                        } else {
                            text.to_owned()
                        };
                        self.row.push(cell);
                        assert(self.row.deep_view() =~= before.row.push(
                            cell_text(before.strip_currency, before.row.len(), text@),
                        ));
                    },
                    _ => {},
                }
                self.context = next;
                row
            },
        }
    }

    /// Reads one tag: moves to the context that the tag leads to, collects the
    /// tag's text where it is text inside a cell, and hands out the cells of a
    /// row that the tag ends. No tag is an error: one that matches no rule
    /// leaves the scan as it was.
    pub fn feed(&mut self, tag: &Tag) -> (row: Option<Vec<String>>)
        ensures
            final(self)@ == old(self)@.step(tag@),
            old(self)@.wf() ==> final(self)@.wf(),
            match row {
                Some(cells) => old(self)@.emitted(tag@) == Some(cells.deep_view()),
                None => old(self)@.emitted(tag@) is None,
            },
    {
        self.advance(tag.name.as_str(), tag.kind, &tag.attributes, tag.text.as_str())
    }
}

/// Scans `tags` from the start of a page and returns the rows of the table,
/// in the order in which they end. With `strip_currency`, the fifth cell of
/// each row loses what follows its amount.
pub fn scan_tags(tags: &Vec<Tag>, strip_currency: bool) -> (rows: Vec<Vec<String>>)
    ensures
        rows.deep_view() == ScannerView::start(strip_currency).rows(tags.deep_view()),
{
    let ghost start = ScannerView::start(strip_currency);
    let ghost all = tags.deep_view();
    let mut scanner = Scanner::new(strip_currency);
    let mut rows: Vec<Vec<String>> = Vec::new();
    let mut i: usize = 0;
    assert(rows.deep_view() =~= Seq::empty());
    while i < tags.len()
        invariant
            i <= tags.len(),
            all == tags.deep_view(),
            start == ScannerView::start(strip_currency),
            scanner@ == start.run(all.take(i as int)),
            rows.deep_view() == start.rows(all.take(i as int)),
        decreases tags.len() - i,
    {
        let ghost before = rows.deep_view();
        let row = scanner.feed(&tags[i]);
        proof {
            assert(all.take(i + 1).drop_last() =~= all.take(i as int));
            assert(all.take(i + 1).last() == tags[i as int]@);
        }
        if let Some(cells) = row {
            rows.push(cells);
            assert(rows.deep_view() =~= before.push(cells.deep_view()));
        }
        i += 1;
    }
    assert(all.take(i as int) =~= all);
    rows
}

/// Reading one tag keeps cells confined to open rows.
pub proof fn lemma_step_wf(scan: ScannerView, tag: TagView)
    requires
        scan.wf(),
    ensures
        scan.step(tag).wf(),
{
}

/// Reading any tags keeps cells confined to open rows.
pub proof fn lemma_run_wf(scan: ScannerView, tags: Seq<TagView>)
    requires
        scan.wf(),
    ensures
        scan.run(tags).wf(),
    decreases tags.len(),
{
    if tags.len() > 0 {
        lemma_run_wf(scan, tags.drop_last());
        lemma_step_wf(scan.run(tags.drop_last()), tags.last());
    }
}

/// The scan is a fold from left to right: reading `first` and then `second`
/// ends in the state, and hands out the rows, that reading `second` gives
/// when it starts where `first` ended.
pub proof fn lemma_scan_concat(scan: ScannerView, first: Seq<TagView>, second: Seq<TagView>)
    ensures
        scan.run(first + second) == scan.run(first).run(second),
        scan.rows(first + second) == scan.rows(first) + scan.run(first).rows(second),
    decreases second.len(),
{
    if second.len() == 0 {
        assert(first + second =~= first);
        assert(scan.rows(first) + Seq::<Seq<Seq<char>>>::empty() =~= scan.rows(first));
    } else {
        let shorter = second.drop_last();
        lemma_scan_concat(scan, first, shorter);
        assert((first + second).drop_last() =~= first + shorter);
        assert((first + second).last() == second.last());
        let middle = scan.run(first);
        match middle.run(shorter).emitted(second.last()) {
            Some(row) => {
                assert(scan.rows(first + second) =~= scan.rows(first) + middle.rows(second));
            },
            None => {},
        }
    }
}

/// Reading a single tag is one step.
pub proof fn lemma_scan_one(scan: ScannerView, tag: TagView)
    ensures
        scan.run(seq![tag]) == scan.step(tag),
        scan.rows(seq![tag]) == match scan.emitted(tag) {
            Some(row) => seq![row],
            None => Seq::empty(),
        },
{
    let one = seq![tag];
    assert(one.drop_last() =~= Seq::empty());
    assert(one.last() == tag);
    assert(scan.run(one.drop_last()) == scan);
    assert(scan.rows(one.drop_last()) =~= Seq::empty());
    match scan.emitted(tag) {
        Some(row) => {
            assert(scan.rows(one) =~= seq![row]);
        },
        None => {},
    }
}

} // verus!
