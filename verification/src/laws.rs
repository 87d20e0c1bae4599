//! What holds of every scan, whatever the page.

use crate::context::{closes, has_container_class, next_context, opens, transition, Context};
use crate::scanner::{cell_text, lemma_scan_concat, lemma_scan_one, ScannerView};
use crate::tag::TagView;
use crate::text::{is_amount_char, lemma_without_currency, without_currency};
use vstd::prelude::*;

verus! {

/// A tag that matches no rule of the context in which it is read changes
/// nothing: the scan keeps its context and its cells, and hands out no row.
pub proof fn lemma_unmatched_tag(scan: ScannerView, tag: TagView)
    requires
        transition(scan.context, tag) is None,
    ensures
        scan.step(tag) == scan,
        scan.emitted(tag) is None,
{
}

/// Outside the document only `<html>` is looked at: any other tag leaves the
/// scan as it was.
pub proof fn lemma_before_document(scan: ScannerView, tag: TagView)
    requires
        scan.context is Initial,
        !opens(tag, "html"@),
    ensures
        scan.step(tag) == scan,
        scan.emitted(tag) is None,
{
}

/// Tags of which none matches a rule of the context in which the scan
/// stands are read without any effect.
pub proof fn lemma_unmatched_tags(scan: ScannerView, tags: Seq<TagView>)
    requires
        forall|i: int| 0 <= i < tags.len() ==> transition(scan.context, #[trigger] tags[i]) is None,
    ensures
        scan.run(tags) == scan,
        scan.rows(tags) == Seq::<Seq<Seq<char>>>::empty(),
    decreases tags.len(),
{
    if tags.len() > 0 {
        lemma_unmatched_tags(scan, tags.drop_last());
        assert(transition(scan.context, tags[tags.len() - 1]) is None);
    }
}

/// A tag that matches no rule where it stands may as well be left out of the
/// page: the scan ends in the same state and hands out the same rows.
pub proof fn lemma_unmatched_tag_is_skipped(
    scan: ScannerView,
    before: Seq<TagView>,
    tag: TagView,
    after: Seq<TagView>,
)
    requires
        transition(scan.run(before).context, tag) is None,
    ensures
        scan.run(before + seq![tag] + after) == scan.run(before + after),
        scan.rows(before + seq![tag] + after) == scan.rows(before + after),
{
    let here = scan.run(before);
    lemma_scan_one(here, tag);
    lemma_scan_concat(scan, before, seq![tag]);
    lemma_scan_concat(scan, before + seq![tag], after);
    lemma_scan_concat(scan, before, after);
    assert(scan.rows(before) + Seq::<Seq<Seq<char>>>::empty() =~= scan.rows(before));
}

/// The tags among `tags` that match a rule where `scan` reads them, in
/// order.
pub open spec fn matched_tags(scan: ScannerView, tags: Seq<TagView>) -> Seq<TagView>
    decreases tags.len(),
{
    if tags.len() == 0 {
        Seq::empty()
    } else {
        let earlier = matched_tags(scan, tags.drop_last());
        if transition(scan.run(tags.drop_last()).context, tags.last()) is Some {
            earlier.push(tags.last())
        } else {
            earlier
        }
    }
}

/// Only the tags that match a rule count: a page read without the others
/// leaves the scan in the same state and gives the same rows.
pub proof fn lemma_only_matched_tags_count(scan: ScannerView, tags: Seq<TagView>)
    ensures
        scan.run(matched_tags(scan, tags)) == scan.run(tags),
        scan.rows(matched_tags(scan, tags)) == scan.rows(tags),
    decreases tags.len(),
{
    if tags.len() > 0 {
        let earlier = tags.drop_last();
        lemma_only_matched_tags_count(scan, earlier);
        if transition(scan.run(earlier).context, tags.last()) is Some {
            let kept = matched_tags(scan, earlier).push(tags.last());
            assert(kept.drop_last() =~= matched_tags(scan, earlier));
            assert(kept.last() == tags.last());
        }
    }
}

/// The contexts that one tag can lead to: from each context the scan can
/// stay, go one level in or go one level out, and it cannot go out of the
/// table.
pub open spec fn may_follow(from: Context, to: Context) -> bool {
    match from {
        Context::Initial => to is Initial || to is InHtml,
        Context::InHtml => to is InHtml || to is Initial || to is InBody,
        Context::InBody => to is InBody || to is InHtml || to is InContainer,
        Context::InContainer => to is InContainer || to is InBody || to is InTable,
        Context::InTable => to is InTable || to is InRow,
        Context::InRow => to is InRow || to is InTable || to is InCell,
        Context::InCell => to is InCell || to is InRow,
    }
}

/// Whatever the tag, the scan moves by one level at most.
pub proof fn lemma_next_context_is_near(from: Context, tag: TagView)
    ensures
        may_follow(from, next_context(from, tag)),
{
}

/// The container is entered in one way only: from the body, by a `div` that
/// opens with the class `table-scrollable`. A `div` without that class, or
/// with another value for it, does not lead there.
pub proof fn lemma_container_entry(from: Context, tag: TagView)
    ensures
        !(from is InContainer) && next_context(from, tag) is InContainer ==> from is InBody
            && opens(tag, "div"@) && has_container_class(tag.attributes),
        !(from is InContainer) && !has_container_class(tag.attributes) ==> !(next_context(
            from,
            tag,
        ) is InContainer),
{
}

/// The contexts outside the container.
pub open spec fn outside_container(context: Context) -> bool {
    context is Initial || context is InHtml || context is InBody
}

/// What no `div` with the class `table-scrollable` wraps is never read as a
/// table: as long as no such `div` opens, a scan that is outside the
/// container stays outside, collects no cell and hands out no row.
pub proof fn lemma_no_container_no_rows(scan: ScannerView, tags: Seq<TagView>)
    requires
        outside_container(scan.context),
        forall|i: int|
            0 <= i < tags.len() ==> !(opens(#[trigger] tags[i], "div"@) && has_container_class(
                tags[i].attributes,
            )),
    ensures
        outside_container(scan.run(tags).context),
        scan.run(tags).row == scan.row,
        scan.rows(tags) == Seq::<Seq<Seq<char>>>::empty(),
    decreases tags.len(),
{
    if tags.len() > 0 {
        lemma_no_container_no_rows(scan, tags.drop_last());
        let last = tags[tags.len() - 1];
        assert(!(opens(last, "div"@) && has_container_class(last.attributes)));
    }
}

/// The contexts inside the table.
pub open spec fn inside_table(context: Context) -> bool {
    context is InTable || context is InRow || context is InCell
}

/// Once in the table, the scan stays there: no rule leads out of it.
pub proof fn lemma_table_is_never_left(scan: ScannerView, tags: Seq<TagView>)
    requires
        inside_table(scan.context),
    ensures
        inside_table(scan.run(tags).context),
    decreases tags.len(),
{
    if tags.len() > 0 {
        lemma_table_is_never_left(scan, tags.drop_last());
    }
}

/// No row is handed out before the table is reached: a scan that starts
/// outside the table and is outside it after `tags` has handed out nothing
/// and holds no cell.
pub proof fn lemma_rows_come_from_the_table(scan: ScannerView, tags: Seq<TagView>)
    requires
        !inside_table(scan.context),
        scan.row.len() == 0,
        !inside_table(scan.run(tags).context),
    ensures
        scan.rows(tags) == Seq::<Seq<Seq<char>>>::empty(),
        scan.run(tags).row.len() == 0,
    decreases tags.len(),
{
    if tags.len() > 0 {
        let earlier = tags.drop_last();
        if inside_table(scan.run(earlier).context) {
            lemma_table_is_never_left(scan.run(earlier), seq![tags.last()]);
            lemma_scan_one(scan.run(earlier), tags.last());
        }
        lemma_rows_come_from_the_table(scan, earlier);
    }
}

/// Cells come from text inside a cell, one for each text: the cells that a
/// scan holds change only when text is read inside a cell, which adds one,
/// or when the row ends, which leaves none.
pub proof fn lemma_cells_come_from_text(scan: ScannerView, tag: TagView)
    ensures
        scan.step(tag).row != scan.row ==> scan.adds_cell(tag) || scan.closes_row(tag),
        scan.adds_cell(tag) ==> scan.step(tag).row.len() == scan.row.len() + 1
            && scan.step(tag).row.drop_last() == scan.row,
        scan.closes_row(tag) ==> scan.step(tag).row.len() == 0,
{
    if scan.adds_cell(tag) {
        assert(scan.step(tag).row.drop_last() =~= scan.row);
    }
}

/// A row without cells is dropped: whatever tag is read, a scan that holds
/// no cell hands out no row.
pub proof fn lemma_empty_row_is_dropped(scan: ScannerView, tag: TagView)
    requires
        scan.row.len() == 0,
    ensures
        scan.emitted(tag) is None,
{
}

/// A `tr` without a `td` yields no record: `<tr>`, then tags of which none
/// opens a cell or closes the row, then `</tr>`, read between two rows, hand
/// out nothing and leave the scan as it was.
pub proof fn lemma_row_without_cells(
    scan: ScannerView,
    open: TagView,
    inner: Seq<TagView>,
    close: TagView,
)
    requires
        scan.context is InTable,
        scan.row.len() == 0,
        opens(open, "tr"@),
        closes(close, "tr"@),
        forall|i: int|
            0 <= i < inner.len() ==> !opens(#[trigger] inner[i], "td"@) && !closes(inner[i], "tr"@),
    ensures
        scan.run(seq![open] + inner + seq![close]) == scan,
        scan.rows(seq![open] + inner + seq![close]) == Seq::<Seq<Seq<char>>>::empty(),
{
    let empty = Seq::<Seq<Seq<char>>>::empty();
    let opened = scan.step(open);
    lemma_scan_one(scan, open);
    assert forall|i: int| 0 <= i < inner.len() implies transition(
        opened.context,
        #[trigger] inner[i],
    ) is None by {
        assert(!opens(inner[i], "td"@) && !closes(inner[i], "tr"@));
    }
    lemma_unmatched_tags(opened, inner);
    lemma_scan_one(opened, close);
    lemma_scan_concat(scan, seq![open], inner);
    lemma_scan_concat(scan, seq![open] + inner, seq![close]);
    assert(scan.step(open).step(close).row =~= scan.row);
    assert(empty + empty =~= empty);
}

/// Cutting off the currency touches the fifth cell alone, and there only a
/// run of characters at the end that are neither digits nor decimal points:
/// without `strip_currency`, and for every cell but the fifth, the text is
/// kept as it is; the fifth keeps the start of its text, loses no digit and
/// no decimal point, and ends with one of them unless nothing remains.
pub proof fn lemma_cell_text(strip_currency: bool, cells: nat, text: Seq<char>)
    ensures
        !strip_currency ==> cell_text(strip_currency, cells, text) == text,
        cells != 4 ==> cell_text(strip_currency, cells, text) == text,
        strip_currency && cells == 4 ==> cell_text(strip_currency, cells, text) == without_currency(
            text,
        ),
        ({
            let kept = cell_text(strip_currency, cells, text);
            &&& kept.len() <= text.len()
            &&& kept == text.take(kept.len() as int)
            &&& forall|i: int| kept.len() <= i < text.len() ==> !is_amount_char(#[trigger] text[i])
            &&& strip_currency && cells == 4 && kept.len() > 0 ==> is_amount_char(kept.last())
        }),
{
    lemma_without_currency(text);
    assert(text.take(text.len() as int) =~= text);
}

} // verus!
