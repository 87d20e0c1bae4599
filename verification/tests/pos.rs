use gbpos::pos::{pos_entry, with_prefix, Column, ColumnLayout, MissingColumn, PosItem};

fn record(cells: &[&str]) -> Vec<String> {
    cells.iter().map(|cell| cell.to_string()).collect()
}

fn item(title: &str, price: &str) -> PosItem {
    PosItem { title: title.to_string(), price: price.to_string() }
}

#[test]
fn entry_without_prefix() {
    let layout = ColumnLayout { title_field: 0, price_field: 4, prefix_field: None };
    let entry = pos_entry(&record(&["Coffee", "b", "c", "d", "3.50"]), &layout);
    assert_eq!(entry, Ok(("coffee".to_string(), item("Coffee", "3.50"))));
}

#[test]
fn entry_with_prefix() {
    let layout = ColumnLayout { title_field: 1, price_field: 2, prefix_field: Some(0) };
    let entry = pos_entry(&record(&["Hot Drinks", "Flat White", "4"]), &layout);
    assert_eq!(
        entry,
        Ok(("hot drinks - flat white".to_string(), item("Hot Drinks - Flat White", "4")))
    );
}

#[test]
fn key_is_lower_case_in_every_script() {
    let layout = ColumnLayout { title_field: 0, price_field: 1, prefix_field: Some(0) };
    let entry = pos_entry(&record(&["\u{c4}PFEL", "1"]), &layout);
    assert_eq!(
        entry,
        Ok(("\u{e4}pfel - \u{e4}pfel".to_string(), item("\u{c4}PFEL - \u{c4}PFEL", "1")))
    );
}

#[test]
fn columns_may_coincide() {
    let layout = ColumnLayout { title_field: 0, price_field: 0, prefix_field: None };
    assert_eq!(pos_entry(&record(&["X"]), &layout), Ok(("x".to_string(), item("X", "X"))));
}

#[test]
fn missing_title() {
    let layout = ColumnLayout { title_field: 2, price_field: 3, prefix_field: Some(4) };
    assert_eq!(
        pos_entry(&record(&["a", "b"]), &layout),
        Err(MissingColumn { column: Column::Title, id: 2 })
    );
    assert_eq!(
        pos_entry(&record(&[]), &layout),
        Err(MissingColumn { column: Column::Title, id: 2 })
    );
}

#[test]
fn missing_price() {
    let layout = ColumnLayout { title_field: 0, price_field: 3, prefix_field: Some(4) };
    assert_eq!(
        pos_entry(&record(&["a", "b", "c"]), &layout),
        Err(MissingColumn { column: Column::Price, id: 3 })
    );
}

#[test]
fn missing_prefix() {
    let layout = ColumnLayout { title_field: 0, price_field: 1, prefix_field: Some(2) };
    assert_eq!(
        pos_entry(&record(&["a", "b"]), &layout),
        Err(MissingColumn { column: Column::TitlePrefix, id: 2 })
    );
    let layout = ColumnLayout { title_field: 0, price_field: 1, prefix_field: Some(usize::MAX) };
    assert_eq!(
        pos_entry(&record(&["a", "b"]), &layout),
        Err(MissingColumn { column: Column::TitlePrefix, id: usize::MAX })
    );
}

#[test]
fn columns_are_described() {
    assert_eq!(Column::Title.description(), "title");
    assert_eq!(Column::Price.description(), "price");
    assert_eq!(Column::TitlePrefix.description(), "title prefix");
}

#[test]
fn prefix_is_parted_by_a_dash() {
    assert_eq!(with_prefix(Some("a"), "b"), "a - b");
    assert_eq!(with_prefix(Some(""), ""), " - ");
    assert_eq!(with_prefix(None, "b"), "b");
}
