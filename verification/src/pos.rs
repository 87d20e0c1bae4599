//! Turning the records of a price list into the items of a shop: each record
//! gives one item, filed under a key made of its title in lower case.

use vstd::prelude::*;

verus! {

/// An item as the shop shows it.
#[derive(Clone, Debug, PartialEq, Eq)]
pub struct PosItem {
    pub title: String,
    pub price: String,
}

/// The mathematical value of a [`PosItem`].
pub struct PosItemView {
    pub title: Seq<char>,
    pub price: Seq<char>,
}

impl View for PosItem {
    type V = PosItemView;

    open spec fn view(&self) -> PosItemView {
        PosItemView { title: self.title@, price: self.price@ }
    }
}

/// The columns that an item is made of.
#[derive(Clone, Copy, Debug, PartialEq, Eq)]
pub enum Column {
    Title,
    Price,
    TitlePrefix,
}

impl Column {
    /// What the column holds, in words.
    pub open spec fn spec_description(self) -> Seq<char> {
        match self {
            Column::Title => "title"@,
            Column::Price => "price"@,
            Column::TitlePrefix => "title prefix"@,
        }
    }

    /// What the column holds, in words.
    pub fn description(self) -> (words: &'static str)
        ensures
            words@ == self.spec_description(),
    {
        match self {
            Column::Title => "title",
            Column::Price => "price",
            Column::TitlePrefix => "title prefix",
        }
    }
}

/// Where in a record the parts of an item stand, counted from zero.
#[derive(Clone, Copy, Debug, PartialEq, Eq)]
pub struct ColumnLayout {
    pub title_field: usize,
    pub price_field: usize,
    /// The column that is put in front of the title, if any.
    pub prefix_field: Option<usize>,
}

/// A record that is too short for a column of the layout.
#[derive(Clone, Copy, Debug, PartialEq, Eq)]
pub struct MissingColumn {
    pub column: Column,
    /// The position at which the column was looked for.
    pub id: usize,
}

/// `text` in lower case, as `str::to_lowercase` gives it.
pub uninterp spec fn lowercase(text: Seq<char>) -> Seq<char>;

/// Calls `str::to_lowercase`.
///
/// Taken on trust: the result depends on the text alone (the conversion
/// follows the tables of Unicode, not a locale), so it is the value of
/// [`lowercase`] at the text.
#[verifier::external_body]
fn to_lowercase(text: &str) -> (lower: String)
    ensures
        lower@ == lowercase(text@),
{
    text.to_lowercase()
}

/// A title with its prefix in front, the two parted by a dash; the bare
/// title where there is no prefix.
pub open spec fn prefixed(prefix: Option<Seq<char>>, title: Seq<char>) -> Seq<char> {
    match prefix {
        Some(prefix) => prefix + " - "@ + title,
        None => title,
    }
}

/// The first column of `layout`, in the order title, price, prefix, for
/// which a record of `len` fields is too short.
pub open spec fn first_missing(layout: ColumnLayout, len: nat) -> Option<MissingColumn> {
    if layout.title_field >= len {
        Some(MissingColumn { column: Column::Title, id: layout.title_field })
    } else if layout.price_field >= len {
        Some(MissingColumn { column: Column::Price, id: layout.price_field })
    } else {
        match layout.prefix_field {
            Some(id) if id >= len => Some(MissingColumn { column: Column::TitlePrefix, id }),
            _ => None,
        }
    }
}

/// The prefix that `layout` picks from `record`, if it picks one.
pub open spec fn prefix_of(layout: ColumnLayout, record: Seq<Seq<char>>) -> Option<Seq<char>> {
    match layout.prefix_field {
        Some(id) => Some(record[id as int]),
        None => None,
    }
}

/// The prefix in lower case, if there is one.
pub open spec fn lowercase_prefix(prefix: Option<Seq<char>>) -> Option<Seq<char>> {
    match prefix {
        Some(prefix) => Some(lowercase(prefix)),
        None => None,
    }
}

/// Puts `prefix` in front of `title`, the two parted by a dash; copies the
/// bare title where there is no prefix.
pub fn with_prefix(prefix: Option<&str>, title: &str) -> (full: String)
    ensures
        full@ == prefixed(
            match prefix {
                Some(prefix) => Some(prefix@),
                None => None,
            },
            title@,
        ),
{
    match prefix {
        Some(prefix) => {
            let mut full = prefix.to_owned();
            full.append(" - ");
            full.append(title);
            full
        },
        None => title.to_owned(),
    }
}

/// Makes the item that `record` describes and the key under which it is
/// filed. The item's title is the record's title, behind the prefix where
/// the layout names one; its price is the record's price. The key is made
/// like the title, of the same parts in lower case. A record that is too
/// short for a column is refused: the columns are looked for in the order
/// title, price, prefix, and the first that is missing is reported.
pub fn pos_entry(record: &Vec<String>, layout: &ColumnLayout) -> (entry: Result<
    (String, PosItem),
    MissingColumn,
>)
    ensures
        match entry {
            Ok((key, item)) => {
                let fields = record.deep_view();
                let title = fields[layout.title_field as int];
                let prefix = prefix_of(*layout, fields);
                &&& first_missing(*layout, record.len() as nat) is None
                &&& key@ == prefixed(lowercase_prefix(prefix), lowercase(title))
                &&& item@.title == prefixed(prefix, title)
                &&& item@.price == fields[layout.price_field as int]
            },
            Err(missing) => first_missing(*layout, record.len() as nat) == Some(missing),
        },
{
    if layout.title_field >= record.len() {
        return Err(MissingColumn { column: Column::Title, id: layout.title_field });
    }
    if layout.price_field >= record.len() {
        return Err(MissingColumn { column: Column::Price, id: layout.price_field });
    }
    let title = record[layout.title_field].as_str();
    let price = record[layout.price_field].as_str();
    match layout.prefix_field {
        Some(id) => {
            if id >= record.len() {
                return Err(MissingColumn { column: Column::TitlePrefix, id });
            }
            let prefix = record[id].as_str();
            let lower_prefix = to_lowercase(prefix);
            let lower_title = to_lowercase(title);
            let key = with_prefix(Some(lower_prefix.as_str()), lower_title.as_str());
            let item = PosItem { title: with_prefix(Some(prefix), title), price: price.to_owned() };
            Ok((key, item))
        },
        None => {
            let lower_title = to_lowercase(title);
            let key = with_prefix(None, lower_title.as_str());
            let item = PosItem { title: with_prefix(None, title), price: price.to_owned() };
            Ok((key, item))
        },
    }
}

} // verus!
