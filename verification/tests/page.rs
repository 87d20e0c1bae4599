use gbpos::scanner::scan_tags;
use gbpos::source::{leading_attributes, scan_html, scan_raw, split_attributes, ScanStopped};
use gbpos::tag::{Attribute, RawTag, Tag, TagKind};

const PAGE: &str = "<html><body><div class=\"table-scrollable\"><table><tr><td>Coffee</td><td>Price</td><td>x</td><td>y</td><td>$3.50 USD</td></tr></table></div></body></html>";

fn record(cells: &[&str]) -> Vec<String> {
    cells.iter().map(|cell| cell.to_string()).collect()
}

fn rows(html: &str, strip_currency: bool) -> Vec<Vec<String>> {
    match scan_html(html, strip_currency) {
        Ok(rows) => rows,
        Err(stopped) => panic!("scan stopped at tag {}", stopped.tag_index),
    }
}

fn in_table(rows: &str) -> String {
    format!(
        "<html><body><div class=\"table-scrollable\"><table>{}</table></div></body></html>",
        rows
    )
}

#[test]
fn page_with_currency_stripped() {
    assert_eq!(rows(PAGE, true), vec![record(&["Coffee", "Price", "x", "y", "$3.50"])]);
}

#[test]
fn page_with_currency_kept() {
    assert_eq!(rows(PAGE, false), vec![record(&["Coffee", "Price", "x", "y", "$3.50 USD"])]);
}

#[test]
fn amount_without_leading_sign_is_left_bare() {
    let page = in_table("<tr><td>Tea</td><td>b</td><td>c</td><td>d</td><td>3.50 USD</td></tr>");
    assert_eq!(rows(&page, true), vec![record(&["Tea", "b", "c", "d", "3.50"])]);
}

#[test]
fn unit_behind_amount_is_cut() {
    let page = in_table("<tr><td>a</td><td>b</td><td>c</td><td>d</td><td>12.50 kr</td></tr>");
    assert_eq!(rows(&page, true), vec![record(&["a", "b", "c", "d", "12.50"])]);
}

#[test]
fn empty_table_yields_no_records() {
    let page = in_table("");
    assert_eq!(rows(&page, true), Vec::<Vec<String>>::new());
    assert_eq!(rows(&page, false), Vec::<Vec<String>>::new());
}

#[test]
fn row_without_cells_is_dropped() {
    let page = in_table("<tr></tr><tr><td>a</td></tr><tr> </tr>");
    assert_eq!(rows(&page, false), vec![record(&["a"])]);
}

#[test]
fn cell_without_text_adds_no_field() {
    let page = in_table("<tr><td></td><td>b</td></tr>");
    assert_eq!(rows(&page, false), vec![record(&["b"])]);
}

#[test]
fn rows_come_in_document_order() {
    let page = in_table(
        "<tr><td>a1</td><td>a2</td></tr><tr><td>b1</td><td>b2</td></tr><tr><td>c1</td><td>c2</td></tr>",
    );
    assert_eq!(
        rows(&page, true),
        vec![record(&["a1", "a2"]), record(&["b1", "b2"]), record(&["c1", "c2"])]
    );
}

#[test]
fn only_the_fifth_cell_is_stripped() {
    let page = in_table(
        "<tr><td>1 kr</td><td>2 kr</td><td>3 kr</td><td>4 kr</td><td>5 kr</td><td>6 kr</td></tr>",
    );
    assert_eq!(
        rows(&page, true),
        vec![record(&["1 kr", "2 kr", "3 kr", "4 kr", "5", "6 kr"])]
    );
    assert_eq!(
        rows(&page, false),
        vec![record(&["1 kr", "2 kr", "3 kr", "4 kr", "5 kr", "6 kr"])]
    );
}

#[test]
fn fifth_cell_without_amount_becomes_empty() {
    let page = in_table("<tr><td>a</td><td>b</td><td>c</td><td>d</td><td>free</td></tr>");
    assert_eq!(rows(&page, true), vec![record(&["a", "b", "c", "d", ""])]);
}

#[test]
fn text_fragments_of_a_cell_are_separate_fields() {
    let page = in_table("<tr><td>a<b>b</b>c</td></tr>");
    assert_eq!(rows(&page, false), vec![record(&["a", "b", "c"])]);
}

#[test]
fn text_between_cells_is_ignored() {
    let page = in_table("\n <tr>\n  <td>a</td>\n  <td>b</td>\n </tr>\n");
    assert_eq!(rows(&page, false), vec![record(&["a", "b"])]);
}

#[test]
fn self_closing_tags_are_ignored() {
    let page = in_table("<tr><td>a<br />b</td><td /></tr>");
    assert_eq!(rows(&page, false), vec![record(&["a", "b"])]);
}

#[test]
fn tags_before_html_are_ignored() {
    let page = format!("<!DOCTYPE html><table><tr><td>no</td></tr></table>{}", PAGE);
    assert_eq!(rows(&page, false), rows(PAGE, false));
}

#[test]
fn scan_stays_in_the_table_once_it_is_there() {
    let page = format!("{}<table><tr><td>more</td></tr></table>{}", PAGE, PAGE);
    let once = rows(PAGE, false);
    assert_eq!(rows(&page, false), vec![once[0].clone(), record(&["more"]), once[0].clone()]);
}

#[test]
fn document_may_open_again_before_the_table() {
    let page = format!("<html><body><div>a</div></body></html>{}", PAGE);
    assert_eq!(rows(&page, false), rows(PAGE, false));
}

#[test]
fn div_without_class_is_not_scanned() {
    let page = "<html><body><div><table><tr><td>a</td></tr></table></div></body></html>";
    assert_eq!(rows(page, false), Vec::<Vec<String>>::new());
}

#[test]
fn div_with_other_class_is_not_scanned() {
    let page = "<html><body><div class=\"table\"><table><tr><td>a</td></tr></table></div></body></html>";
    assert_eq!(rows(page, false), Vec::<Vec<String>>::new());
    let page = "<html><body><div class=\"table-scrollable wide\"><table><tr><td>a</td></tr></table></div></body></html>";
    assert_eq!(rows(page, false), Vec::<Vec<String>>::new());
    let page = "<html><body><div id=\"table-scrollable\"><table><tr><td>a</td></tr></table></div></body></html>";
    assert_eq!(rows(page, false), Vec::<Vec<String>>::new());
}

#[test]
fn class_may_stand_among_other_attributes() {
    let page = "<html><body><div id=\"t\" class='table-scrollable' hidden><table><tr><td>a</td></tr></table></div></body></html>";
    assert_eq!(rows(page, false), vec![record(&["a"])]);
}

#[test]
fn table_outside_body_is_not_scanned() {
    let page = "<html><div class=\"table-scrollable\"><table><tr><td>a</td></tr></table></div></html>";
    assert_eq!(rows(page, false), Vec::<Vec<String>>::new());
}

#[test]
fn div_inside_the_container_closes_it() {
    let page = "<html><body><div class=\"table-scrollable\"><div>x</div><table><tr><td>a</td></tr></table></div></body></html>";
    assert_eq!(rows(page, false), Vec::<Vec<String>>::new());
}

#[test]
fn second_table_in_the_container_is_scanned_too() {
    let page = in_table("<tr><td>a</td></tr></table><table><tr><td>b</td></tr>");
    assert_eq!(rows(&page, false), vec![record(&["a"]), record(&["b"])]);
}

#[test]
fn rescan_gives_the_same_rows() {
    assert_eq!(scan_html(PAGE, true), scan_html(PAGE, true));
    assert_eq!(scan_html(PAGE, false), scan_html(PAGE, false));
}

#[test]
fn unreadable_attributes_stop_the_scan() {
    let page = format!("<html>\n<body><div id=a></div><div title=\u{e9}=\"x\">{}", PAGE);
    assert_eq!(scan_html(&page, false), Err(ScanStopped { tag_index: 5 }));
    assert_eq!(scan_html(&page, true), Err(ScanStopped { tag_index: 5 }));
}

#[test]
fn unreadable_attributes_in_the_table_do_no_harm() {
    let page = format!("{}<body><div title=\u{e9}=\"x\"><tr><td>b</td></tr>", PAGE);
    assert_eq!(
        scan_html(&page, false),
        Ok(vec![record(&["Coffee", "Price", "x", "y", "$3.50 USD"]), record(&["b"])])
    );
}

#[test]
fn unreadable_attributes_elsewhere_do_no_harm() {
    let page = in_table("<tr><td><a title=\u{e9}=\"x\">a</a></td></tr>");
    assert_eq!(rows(&page, false), vec![record(&["a"])]);
    let page = "<div title=\u{e9}=\"x\"><html><body></body></html>";
    assert_eq!(rows(page, false), Vec::<Vec<String>>::new());
}

#[test]
fn attributes_are_split_in_order() {
    let attributes = split_attributes("a=123\"bbb bbb=\"456\"ccc='789' ddd\nfff=ggg hhhh");
    let pair = |name: &str, value: &str| Attribute { name: name.to_string(), value: value.to_string() };
    assert_eq!(
        attributes,
        Some(vec![
            pair("a", "123\"bbb"),
            pair("bbb", "456"),
            pair("ccc", "789"),
            pair("ddd", ""),
            pair("fff", "ggg"),
            pair("hhhh", ""),
        ])
    );
    assert_eq!(split_attributes(""), Some(vec![]));
}

#[test]
fn attributes_with_other_scripts_are_split() {
    let pair = |name: &str, value: &str| Attribute { name: name.to_string(), value: value.to_string() };
    assert_eq!(
        split_attributes("title=\"\u{e9}t\u{e9}\" class=\"table-scrollable\""),
        Some(vec![pair("title", "\u{e9}t\u{e9}"), pair("class", "table-scrollable")])
    );
}

#[test]
fn attributes_with_a_cut_inside_a_character_are_refused() {
    assert_eq!(split_attributes("title=\u{e9}=\"x\""), None);
    assert_eq!(split_attributes("a=b c=\u{20ac}d='e' f"), None);
    assert_eq!(split_attributes("class=\"table-scrollable\" title=\u{e9}='x'"), None);
}

#[test]
fn attributes_with_wide_values_are_split() {
    let pair = |name: &str, value: &str| Attribute { name: name.to_string(), value: value.to_string() };
    assert_eq!(
        split_attributes("title=\u{e9} class=\"table-scrollable\""),
        Some(vec![pair("title", "\u{e9}"), pair("class", "table-scrollable")])
    );
    assert_eq!(split_attributes("a=\u{e9}"), Some(vec![pair("a=\u{e9}", "")]));
    assert_eq!(split_attributes("=\u{e9}"), Some(vec![pair("=\u{e9}", "")]));
    assert_eq!(split_attributes("a=\"b=\u{20ac}\""), Some(vec![pair("a", "b=\u{20ac}")]));
    assert_eq!(split_attributes("a=b=\u{e9}=\"x\""), Some(vec![pair("a", "=\u{e9}=\"x")]));
    assert_eq!(split_attributes("a=\u{e9}=\"x"), Some(vec![pair("a=\u{e9}=\"x", "")]));
    assert_eq!(split_attributes("a="), Some(vec![pair("a=", "")]));
}

#[test]
fn attributes_before_the_stop_are_split() {
    let pair = |name: &str, value: &str| Attribute { name: name.to_string(), value: value.to_string() };
    assert_eq!(
        leading_attributes("id=a class='b' title=\u{e9}=\"x\" lang=en"),
        (vec![pair("id", "a"), pair("class", "b")], false)
    );
    assert_eq!(leading_attributes("title=\u{e9}=\"x\""), (vec![], false));
    assert_eq!(leading_attributes("  title=\u{e9}=\"x\""), (vec![], false));
    assert_eq!(leading_attributes("id=a lang=en "), (vec![pair("id", "a"), pair("lang", "en")], true));
}

#[test]
fn wide_value_in_the_container_is_read() {
    let page = "<html><body><div title=\u{e9} class=\"table-scrollable\"><table><tr><td>a</td></tr></table></div></body></html>";
    assert_eq!(scan_html(page, true), Ok(vec![record(&["a"])]));
    let page = "<html><body><div title=\u{e9}><div data-x=\"k=\u{fc}\" class=\"table-scrollable\"><table><tr><td>a</td></tr>";
    assert_eq!(scan_html(page, false), Ok(vec![record(&["a"])]));
}

#[test]
fn class_before_the_stop_opens_the_container() {
    let page = "<html><body><div class=\"table-scrollable\" title=\u{e9}=\"x\"><table><tr><td>a</td></tr></table></div></body></html>";
    assert_eq!(scan_html(page, false), Ok(vec![record(&["a"])]));
}

#[test]
fn class_behind_the_stop_is_not_reached() {
    let page = "<html><body><div title=\u{e9}=\"x\" class=\"table-scrollable\"><table><tr><td>a</td></tr></table></div></body></html>";
    assert_eq!(scan_html(page, false), Err(ScanStopped { tag_index: 2 }));
    let page = "<html><body><div class=\"table\" title=\u{e9}=\"x\"><table><tr><td>a</td></tr></table></div></body></html>";
    assert_eq!(scan_html(page, false), Err(ScanStopped { tag_index: 2 }));
}

fn raw(name: &str, kind: TagKind, attributes: &str, text: &str) -> RawTag {
    RawTag {
        name: name.to_string(),
        kind,
        attributes: attributes.to_string(),
        text: text.to_string(),
    }
}

#[test]
fn raw_tags_are_scanned() {
    let tags = vec![
        raw("html", TagKind::Opening, "", "<html>"),
        raw("body", TagKind::Opening, "", "<body>"),
        raw("div", TagKind::Opening, "class=\"table-scrollable\"", "<div class=\"table-scrollable\">"),
        raw("table", TagKind::Opening, "", "<table>"),
        raw("tr", TagKind::Opening, "", "<tr>"),
        raw("td", TagKind::Opening, "", "<td>"),
        raw("", TagKind::Text, "", "a"),
        raw("td", TagKind::Closing, "", "</td>"),
        raw("tr", TagKind::Closing, "", "</tr>"),
    ];
    assert_eq!(scan_raw(&tags, false), Ok(vec![record(&["a"])]));
}

#[test]
fn raw_scan_stops_at_the_first_unreadable_div() {
    let tags = vec![
        raw("html", TagKind::Opening, "", "<html>"),
        raw("div", TagKind::Opening, "a=\u{e9}='x'", "<div a=\u{e9}='x'>"),
        raw("body", TagKind::Opening, "", "<body>"),
        raw("div", TagKind::Closing, "a=\u{e9}='x'", "</div a=\u{e9}='x'>"),
        raw("span", TagKind::Opening, "a=\u{e9}='x'", "<span a=\u{e9}='x'>"),
        raw("div", TagKind::Opening, "a=\u{e9}", "<div a=\u{e9}>"),
        raw("div", TagKind::Opening, "a=\u{e9}='x'", "<div a=\u{e9}='x'>"),
        raw("div", TagKind::Opening, "b=\u{e9}='x'", "<div b=\u{e9}='x'>"),
    ];
    assert_eq!(scan_raw(&tags, true), Err(ScanStopped { tag_index: 6 }));
}

fn tag(name: &str, kind: TagKind, text: &str) -> Tag {
    Tag { name: name.to_string(), kind, attributes: vec![], text: text.to_string() }
}

#[test]
fn tags_are_scanned() {
    let class = Attribute { name: "class".to_string(), value: "table-scrollable".to_string() };
    let tags = vec![
        tag("html", TagKind::Opening, "<html>"),
        tag("body", TagKind::Opening, "<body>"),
        Tag { attributes: vec![class], ..tag("div", TagKind::Opening, "<div>") },
        tag("table", TagKind::Opening, "<table>"),
        tag("tr", TagKind::Opening, "<tr>"),
        tag("td", TagKind::Opening, "<td>"),
        tag("", TagKind::Text, "a"),
        tag("td", TagKind::Closing, "</td>"),
        tag("td", TagKind::Opening, "<td>"),
        tag("", TagKind::Text, "b"),
        tag("td", TagKind::Closing, "</td>"),
        tag("tr", TagKind::Closing, "</tr>"),
        tag("tr", TagKind::Opening, "<tr>"),
        tag("tr", TagKind::Closing, "</tr>"),
        tag("table", TagKind::Closing, "</table>"),
        tag("div", TagKind::Closing, "</div>"),
        tag("body", TagKind::Closing, "</body>"),
        tag("html", TagKind::Closing, "</html>"),
    ];
    assert_eq!(scan_tags(&tags, true), vec![record(&["a", "b"])]);
    assert_eq!(scan_tags(&Vec::new(), true), Vec::<Vec<String>>::new());
}
