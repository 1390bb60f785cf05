//! Invoice records and the queries over them.

use vstd::prelude::*;
use crate::invoice::calendar_date::CalendarDate;

pub use crate::invoice::name_mapping::{InvoiceMappingTable, INVOICE_MAPPING_JSON_PATH};

pub mod calendar_date;
pub mod invoice_manager;
pub mod invoice_qr;
pub mod name_mapping;
pub mod payload;
pub mod price;
pub mod subset_problem;

verus! {

/// What an invoice says: the number that identifies it, its total in
/// hundredths of the currency unit, the day it was issued, the validation
/// code of its series, and the free text that came with it, if any.
pub struct InvoiceData {
    pub id: Seq<char>,
    pub price: int,
    pub emission_date: CalendarDate,
    pub atcud: Seq<char>,
    pub info: Option<Seq<char>>,
}

/// A fiscal document with a total. Two invoices with the same number are
/// the same invoice.
pub trait Invoice {
    /// What the invoice says.
    spec fn data(&self) -> InvoiceData;

    /// The invoice number.
    fn get_id(&self) -> (id: &str)
        ensures
            id@ == self.data().id,
    ;

    /// The total, in hundredths of the currency unit. It is never negative.
    fn get_price(&self) -> (price: i64)
        ensures
            price == self.data().price,
            price >= 0,
    ;

    /// The day the invoice was issued.
    fn get_emission_date(&self) -> (date: CalendarDate)
        ensures
            date == self.data().emission_date,
    ;

    /// The validation code of the series of the invoice.
    fn get_atcud(&self) -> (atcud: &str)
        ensures
            atcud@ == self.data().atcud,
    ;
}

} // verus!
