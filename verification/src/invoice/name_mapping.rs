//! The names under which invoices are shown, by invoice number.

use std::collections::HashMap;
use vstd::prelude::*;
use vstd::std_specs::hash::lemma_hashmap_deepview_dom;

verus! {

/// The names under which invoices are shown, by invoice number.
pub type InvoiceMappingTable = HashMap<String, String>;

/// The file that holds the names, beside the program.
pub const INVOICE_MAPPING_JSON_PATH: &'static str = "name_mapping.json";

/// The table that `serde_json::from_str` reads from `text` as a map from
/// strings to strings, or `None` where it reports an error.
pub uninterp spec fn json_string_map(text: Seq<char>) -> Option<Map<Seq<char>, Seq<char>>>;

/// The table to work with, given the contents of the file of names where
/// it could be read: what the contents hold as a flat JSON object of
/// strings, and an empty table where there are no contents or they are no
/// such object.
pub open spec fn name_mapping_of(contents: Option<Seq<char>>) -> Map<Seq<char>, Seq<char>> {
    match contents {
        Some(text) => match json_string_map(text) {
            Some(names) => names,
            None => Map::empty(),
        },
        None => Map::empty(),
    }
}

/// Reads a table with `serde_json::from_str`, as a `HashMap` from `String`
/// to `String`. The result is the one that `serde_json` gives for this
/// text.
#[verifier::external_body]
fn read_string_map(text: &str) -> (table: Option<InvoiceMappingTable>)
    ensures
        match table {
            Some(names) => json_string_map(text@) == Some(names.deep_view()),
            None => json_string_map(text@) is None,
        },
{
    serde_json::from_str(text).ok()
}

/// The table that was read, or an empty one where none was.
pub fn table_or_empty(read: Option<InvoiceMappingTable>) -> (table: InvoiceMappingTable)
    ensures
        table.deep_view() == match read {
            Some(names) => names.deep_view(),
            None => Map::empty(),
        },
{
    match read {
        Some(names) => names,
        None => {
            let table: InvoiceMappingTable = HashMap::new();
            proof {
                lemma_hashmap_deepview_dom(table);
                assert(table@.dom().map(|k: String| k.deep_view()) =~= Set::empty());
                assert(table.deep_view() =~= Map::empty());
            }
            table
        },
    }
}

/// Makes the table of names from the contents of its file, where the file
/// could be read. A missing file and contents that are no table both give
/// an empty table.
pub fn load_name_mapping(contents: Option<&str>) -> (table: InvoiceMappingTable)
    ensures
        table.deep_view() == name_mapping_of(
            match contents {
                Some(text) => Some(text@),
                None => None,
            },
        ),
{
    match contents {
        Some(text) => table_or_empty(read_string_map(text)),
        None => table_or_empty(None),
    }
}

} // verus!
