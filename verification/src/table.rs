//! The page that the scan is made for, and what the scan reads out of it.

use crate::context::{closes, has_container_class, opens, transition, Context};
use crate::laws::{lemma_only_matched_tags_count, lemma_unmatched_tags, matched_tags};
use crate::scanner::{cell_text, lemma_scan_concat, ScannerView};
use crate::tag::TagView;
use vstd::prelude::*;

verus! {

/// `tags` are one row whose cells hold `texts`: `<tr>`, then for each cell
/// `<td>`, its text in one piece and `</td>`, then `</tr>`.
pub open spec fn is_row(tags: Seq<TagView>, texts: Seq<Seq<char>>) -> bool {
    &&& tags.len() == 3 * texts.len() + 2
    &&& opens(tags[0], "tr"@)
    &&& closes(tags[tags.len() - 1], "tr"@)
    &&& forall|j: int|
        0 <= j < texts.len() ==> {
            &&& opens(tags[3 * j + 1], "td"@)
            &&& tags[3 * j + 2].kind is Text
            &&& tags[3 * j + 2].text == #[trigger] texts[j]
            &&& closes(tags[3 * j + 3], "td"@)
        }
}

/// `tags` lead from the start of a page into the table: `<html>`, `<body>`,
/// a `<div>` with the class `table-scrollable`, `<table>`.
pub open spec fn is_table_start(tags: Seq<TagView>) -> bool {
    &&& tags.len() == 4
    &&& opens(tags[0], "html"@)
    &&& opens(tags[1], "body"@)
    &&& opens(tags[2], "div"@)
    &&& has_container_class(tags[2].attributes)
    &&& opens(tags[3], "table"@)
}

/// The parts of a page, one after the other.
pub open spec fn joined(parts: Seq<Seq<TagView>>) -> Seq<TagView>
    decreases parts.len(),
{
    if parts.len() == 0 {
        Seq::empty()
    } else {
        joined(parts.drop_last()) + parts.last()
    }
}

/// The record that a row with these cells is read as: the cells in order,
/// the fifth without what follows its amount where `strip_currency` is set.
pub open spec fn record(texts: Seq<Seq<char>>, strip_currency: bool) -> Seq<Seq<char>> {
    Seq::new(texts.len(), |j: int| cell_text(strip_currency, j as nat, texts[j]))
}

/// The records that a table with these rows is read as: one for each row
/// that has a cell, in order.
pub open spec fn records(table: Seq<Seq<Seq<char>>>, strip_currency: bool) -> Seq<Seq<Seq<char>>>
    decreases table.len(),
{
    if table.len() == 0 {
        Seq::empty()
    } else if table.last().len() == 0 {
        records(table.drop_last(), strip_currency)
    } else {
        records(table.drop_last(), strip_currency).push(record(table.last(), strip_currency))
    }
}

/// Reading one more tag of `tags` is one step.
proof fn lemma_scan_next(scan: ScannerView, tags: Seq<TagView>, k: int)
    requires
        0 <= k < tags.len(),
    ensures
        scan.run(tags.take(k + 1)) == scan.run(tags.take(k)).step(tags[k]),
        scan.rows(tags.take(k + 1)) == match scan.run(tags.take(k)).emitted(tags[k]) {
            Some(row) => scan.rows(tags.take(k)).push(row),
            None => scan.rows(tags.take(k)),
        },
{
    assert(tags.take(k + 1).drop_last() =~= tags.take(k));
    assert(tags.take(k + 1).last() == tags[k]);
}

/// Inside a row, after `<tr>` and the first `j` cells, the scan stands
/// between cells, holds those cells and has handed out nothing.
proof fn lemma_cells_read(scan: ScannerView, tags: Seq<TagView>, texts: Seq<Seq<char>>, j: int)
    requires
        scan.context is InTable,
        scan.row.len() == 0,
        is_row(tags, texts),
        0 <= j <= texts.len(),
    ensures
        scan.run(tags.take(3 * j + 1)) == (ScannerView {
            context: Context::InRow,
            row: record(texts.take(j), scan.strip_currency),
            strip_currency: scan.strip_currency,
        }),
        scan.rows(tags.take(3 * j + 1)) == Seq::<Seq<Seq<char>>>::empty(),
    decreases j,
{
    if j == 0 {
        lemma_scan_next(scan, tags, 0);
        assert(tags.take(0) =~= Seq::empty());
        assert(scan.row =~= record(texts.take(0), scan.strip_currency));
    } else {
        let i = j - 1;
        lemma_cells_read(scan, tags, texts, i);
        let text = texts[i];
        lemma_scan_next(scan, tags, 3 * i + 1);
        lemma_scan_next(scan, tags, 3 * i + 2);
        lemma_scan_next(scan, tags, 3 * i + 3);
        let held = record(texts.take(i), scan.strip_currency);
        assert(held.push(cell_text(scan.strip_currency, held.len(), text)) =~= record(
            texts.take(j),
            scan.strip_currency,
        ));
    }
}

/// A row read between two rows hands out its record, unless it has no cell,
/// and leaves the scan where it was.
pub proof fn lemma_row_scan(scan: ScannerView, tags: Seq<TagView>, texts: Seq<Seq<char>>)
    requires
        scan.context is InTable,
        scan.row.len() == 0,
        is_row(tags, texts),
    ensures
        scan.run(tags) == scan,
        scan.rows(tags) == if texts.len() == 0 {
            Seq::<Seq<Seq<char>>>::empty()
        } else {
            seq![record(texts, scan.strip_currency)]
        },
{
    let n = texts.len() as int;
    lemma_cells_read(scan, tags, texts, n);
    lemma_scan_next(scan, tags, 3 * n + 1);
    assert(tags.take(3 * n + 2) =~= tags);
    assert(texts.take(n) =~= texts);
    assert(scan.run(tags).row =~= scan.row);
    if n > 0 {
        assert(scan.rows(tags) =~= seq![record(texts, scan.strip_currency)]);
    }
}

/// Rows read one after the other between two rows hand out their records in
/// order, and leave the scan where it was.
pub proof fn lemma_rows_scan(
    scan: ScannerView,
    rows: Seq<Seq<TagView>>,
    table: Seq<Seq<Seq<char>>>,
)
    requires
        scan.context is InTable,
        scan.row.len() == 0,
        rows.len() == table.len(),
        forall|r: int| 0 <= r < rows.len() ==> is_row(#[trigger] rows[r], table[r]),
    ensures
        scan.run(joined(rows)) == scan,
        scan.rows(joined(rows)) == records(table, scan.strip_currency),
    decreases rows.len(),
{
    if rows.len() > 0 {
        let earlier = rows.drop_last();
        assert forall|r: int| 0 <= r < earlier.len() implies is_row(
            #[trigger] earlier[r],
            table.drop_last()[r],
        ) by {
            assert(is_row(rows[r], table[r]));
        }
        lemma_rows_scan(scan, earlier, table.drop_last());
        assert(is_row(rows[rows.len() - 1], table[rows.len() - 1]));
        lemma_row_scan(scan, rows.last(), table.last());
        lemma_scan_concat(scan, joined(earlier), rows.last());
        let before = records(table.drop_last(), scan.strip_currency);
        if table.last().len() == 0 {
            assert(before + Seq::<Seq<Seq<char>>>::empty() =~= before);
        } else {
            let last = record(table.last(), scan.strip_currency);
            assert(before + seq![last] =~= before.push(last));
        }
    }
}

/// The page that the scan is made for is read in full: `<html>`, `<body>`,
/// the `<div>` with the class `table-scrollable`, `<table>`, then the rows,
/// then tags of which none opens another row. The scan hands out one record
/// for each row that has a cell, in the order of the rows, with the text of
/// its cells in their order.
pub proof fn lemma_page_scan(
    start: Seq<TagView>,
    rows: Seq<Seq<TagView>>,
    end: Seq<TagView>,
    table: Seq<Seq<Seq<char>>>,
    strip_currency: bool,
)
    requires
        is_table_start(start),
        rows.len() == table.len(),
        forall|r: int| 0 <= r < rows.len() ==> is_row(#[trigger] rows[r], table[r]),
        forall|i: int| 0 <= i < end.len() ==> !opens(#[trigger] end[i], "tr"@),
    ensures
        ScannerView::start(strip_currency).rows(start + joined(rows) + end) == records(
            table,
            strip_currency,
        ),
{
    let scan = ScannerView::start(strip_currency);
    let none = Seq::<Seq<Seq<char>>>::empty();
    lemma_scan_next(scan, start, 0);
    lemma_scan_next(scan, start, 1);
    lemma_scan_next(scan, start, 2);
    lemma_scan_next(scan, start, 3);
    assert(start.take(0) =~= Seq::empty());
    assert(start.take(4) =~= start);
    let inside = scan.run(start);
    assert(inside.context is InTable);
    assert(inside.row =~= Seq::empty());
    assert(scan.rows(start) =~= none);
    lemma_rows_scan(inside, rows, table);
    assert forall|i: int| 0 <= i < end.len() implies transition(
        inside.context,
        #[trigger] end[i],
    ) is None by {
        assert(!opens(end[i], "tr"@));
    }
    lemma_unmatched_tags(inside, end);
    lemma_scan_concat(scan, start, joined(rows));
    lemma_scan_concat(scan, start + joined(rows), end);
    let found = records(table, strip_currency);
    assert(none + found =~= found);
    assert(found + none =~= found);
}

/// A page is read by the tags of it that match a rule. Where these are
/// `<html>`, `<body>`, the `<div>` with the class `table-scrollable`,
/// `<table>` and then rows, the scan hands out one record for each row that
/// has a cell, whatever else the page holds between them, before them and
/// behind them.
pub proof fn lemma_matched_page_scan(
    page: Seq<TagView>,
    start: Seq<TagView>,
    rows: Seq<Seq<TagView>>,
    table: Seq<Seq<Seq<char>>>,
    strip_currency: bool,
)
    requires
        matched_tags(ScannerView::start(strip_currency), page) == start + joined(rows),
        is_table_start(start),
        rows.len() == table.len(),
        forall|r: int| 0 <= r < rows.len() ==> is_row(#[trigger] rows[r], table[r]),
    ensures
        ScannerView::start(strip_currency).rows(page) == records(table, strip_currency),
{
    lemma_only_matched_tags_count(ScannerView::start(strip_currency), page);
    lemma_page_scan(start, rows, Seq::empty(), table, strip_currency);
    assert(start + joined(rows) + Seq::<TagView>::empty() =~= start + joined(rows));
}

/// The record of a row keeps every cell but the fifth as it is, and all of
/// them where `strip_currency` is not set.
pub proof fn lemma_record_cells(texts: Seq<Seq<char>>, strip_currency: bool)
    ensures
        record(texts, strip_currency).len() == texts.len(),
        forall|j: int|
            0 <= j < texts.len() && j != 4 ==> record(texts, strip_currency)[j] == #[trigger] texts[j],
        !strip_currency ==> record(texts, strip_currency) == texts,
{
    if !strip_currency {
        assert(record(texts, strip_currency) =~= texts);
    }
}

/// The records of a list of rows, each cut by itself.
pub open spec fn each_record(rows: Seq<Seq<Seq<char>>>, strip_currency: bool) -> Seq<
    Seq<Seq<char>>,
> {
    Seq::new(rows.len(), |r: int| record(rows[r], strip_currency))
}

/// Whatever the page, cutting off the currency changes nothing but the
/// fifth cell of each row: a scan with `strip_currency` moves as a scan
/// without it, holds the same cells and hands out the same rows, the fifth
/// cell of each without what follows its amount.
pub proof fn lemma_stripping_touches_the_fifth_cell_only(tags: Seq<TagView>)
    ensures
        ({
            let cut = ScannerView::start(true);
            let plain = ScannerView::start(false);
            &&& cut.run(tags).strip_currency
            &&& !plain.run(tags).strip_currency
            &&& cut.run(tags).context == plain.run(tags).context
            &&& cut.run(tags).row == record(plain.run(tags).row, true)
            &&& cut.rows(tags) == each_record(plain.rows(tags), true)
        }),
    decreases tags.len(),
{
    let cut = ScannerView::start(true);
    let plain = ScannerView::start(false);
    if tags.len() == 0 {
        assert(cut.run(tags).row =~= record(plain.run(tags).row, true));
        assert(cut.rows(tags) =~= each_record(plain.rows(tags), true));
    } else {
        let earlier = tags.drop_last();
        lemma_stripping_touches_the_fifth_cell_only(earlier);
        let c = cut.run(earlier);
        let p = plain.run(earlier);
        let tag = tags.last();
        assert(c.row.len() == p.row.len());
        if p.closes_row(tag) {
            assert(c.step(tag).row =~= record(p.step(tag).row, true));
        } else if p.adds_cell(tag) {
            let longer = p.row.push(tag.text);
            assert forall|j: int| 0 <= j < longer.len() implies c.step(tag).row[j] == record(
                longer,
                true,
            )[j] by {
                if j < p.row.len() {
                    assert(c.row[j] == record(p.row, true)[j]);
                }
            }
            assert(c.step(tag).row =~= record(p.step(tag).row, true));
        }
        assert(cut.rows(tags) =~= each_record(plain.rows(tags), true));
    }
}

/// A table whose rows all have a cell gives one record for each row.
proof fn lemma_records_of_full_rows(table: Seq<Seq<Seq<char>>>, strip_currency: bool)
    requires
        forall|r: int| 0 <= r < table.len() ==> (#[trigger] table[r]).len() > 0,
    ensures
        records(table, strip_currency).len() == table.len(),
        forall|r: int|
            0 <= r < table.len() ==> #[trigger] records(table, strip_currency)[r] == record(
                table[r],
                strip_currency,
            ),
    decreases table.len(),
{
    if table.len() > 0 {
        let earlier = table.drop_last();
        assert forall|r: int| 0 <= r < earlier.len() implies (#[trigger] earlier[r]).len() > 0 by {
            assert(table[r].len() > 0);
        }
        lemma_records_of_full_rows(earlier, strip_currency);
        assert(table[table.len() - 1].len() > 0);
    }
}

/// Of a page whose table has rows of one width, the scan hands out as many
/// records as the table has rows, each with as many fields as a row has
/// cells, in the order of the rows; and where `strip_currency` is not set,
/// the records are the rows, text for text. The page is taken by the tags
/// of it that match a rule, so it may hold anything else in between.
pub proof fn lemma_even_page_scan(
    page: Seq<TagView>,
    start: Seq<TagView>,
    rows: Seq<Seq<TagView>>,
    table: Seq<Seq<Seq<char>>>,
    width: nat,
    strip_currency: bool,
)
    requires
        matched_tags(ScannerView::start(strip_currency), page) == start + joined(rows),
        is_table_start(start),
        rows.len() == table.len(),
        forall|r: int| 0 <= r < rows.len() ==> is_row(#[trigger] rows[r], table[r]),
        width > 0,
        forall|r: int| 0 <= r < table.len() ==> (#[trigger] table[r]).len() == width,
    ensures
        ({
            let found = ScannerView::start(strip_currency).rows(page);
            &&& found.len() == table.len()
            &&& forall|r: int|
                0 <= r < table.len() ==> {
                    &&& (#[trigger] found[r]).len() == width
                    &&& found[r] == record(table[r], strip_currency)
                }
            &&& !strip_currency ==> found == table
        }),
{
    lemma_matched_page_scan(page, start, rows, table, strip_currency);
    assert forall|r: int| 0 <= r < table.len() implies (#[trigger] table[r]).len() > 0 by {
        assert(table[r].len() == width);
    }
    lemma_records_of_full_rows(table, strip_currency);
    let found = records(table, strip_currency);
    assert forall|r: int| 0 <= r < table.len() implies (#[trigger] found[r]).len() == width by {
        assert(table[r].len() == width);
    }
    if !strip_currency {
        assert forall|r: int| 0 <= r < table.len() implies #[trigger] found[r] == table[r] by {
            lemma_record_cells(table[r], strip_currency);
        }
        assert(found =~= table);
    }
}

} // verus!
