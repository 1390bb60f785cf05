//! Invoices as their QR codes carry them.

use vstd::prelude::*;
use vstd::string::StringExecFns;
use crate::invoice::calendar_date::{parse_date, parsed_date, CalendarDate};
use crate::invoice::payload::{
    field_of, fields_of, fields_view, find_value, has_key, lemma_lookup_finds, lookup,
    read_fields, tokens, Field,
};
use crate::invoice::price::{decimal_cents, lemma_decimal_cents_sign, parse_cents};
use crate::invoice::{Invoice, InvoiceData};
use crate::qr_code::QRCode;

verus! {

/// Why a payload gives no invoice.
#[derive(Debug, PartialEq, Eq)]
pub enum InvoiceParsingError {
    /// A token has no `:` to part its key from its value: the token.
    MalformedToken(String),
    /// A required key does not occur: the key.
    MissingField(String),
    /// A value is not of the type that its key asks for: the value, and the
    /// name of the type.
    TypeConversionFailure(String, String),
}

/// An `InvoiceParsingError` as characters.
pub enum ParsingFault {
    MalformedToken(Seq<char>),
    MissingField(Seq<char>),
    TypeConversionFailure(Seq<char>, Seq<char>),
}

impl View for InvoiceParsingError {
    type V = ParsingFault;

    open spec fn view(&self) -> ParsingFault {
        match self {
            InvoiceParsingError::MalformedToken(token) => ParsingFault::MalformedToken(token@),
            InvoiceParsingError::MissingField(key) => ParsingFault::MissingField(key@),
            InvoiceParsingError::TypeConversionFailure(value, kind_name) =>
                ParsingFault::TypeConversionFailure(value@, kind_name@),
        }
    }
}

impl ParsingFault {
    /// The error in words.
    pub open spec fn message(self) -> Seq<char> {
        match self {
            ParsingFault::MalformedToken(token) => "The QR code does not produce a key:value pair for the token "@
                + token,
            ParsingFault::MissingField(key) => "The QR code does not have the field "@ + key,
            ParsingFault::TypeConversionFailure(value, kind_name) => "Could not convert the value "@
                + value + " to type "@ + kind_name,
        }
    }
}

impl InvoiceParsingError {
    /// The error in words.
    pub fn message(&self) -> (text: String)
        ensures
            text@ == self@.message(),
    {
        match self {
            InvoiceParsingError::MalformedToken(token) => String::from_str(
                "The QR code does not produce a key:value pair for the token ",
            ).concat(token.as_str()),
            InvoiceParsingError::MissingField(key) => String::from_str(
                "The QR code does not have the field ",
            ).concat(key.as_str()),
            InvoiceParsingError::TypeConversionFailure(value, kind_name) => String::from_str(
                "Could not convert the value ",
            ).concat(value.as_str()).concat(" to type ").concat(kind_name.as_str()),
        }
    }
}

/// A type that the value of a field can be read as.
pub trait FieldValue: View + Sized {
    /// What `text` stands for, or `None` where it is not of this type.
    spec fn read(text: Seq<char>) -> Option<Self::V>;

    /// The name under which errors speak of this type.
    spec fn kind_name() -> Seq<char>;

    /// Reads `text` as a value of this type.
    fn parse(text: &str) -> (value: Option<Self>)
        ensures
            match value {
                Some(v) => Self::read(text@) == Some(v@),
                None => Self::read(text@) is None,
            },
    ;

    /// The name under which errors speak of this type.
    fn name() -> (name: String)
        ensures
            name@ == Self::kind_name(),
    ;
}

impl FieldValue for String {
    open spec fn read(text: Seq<char>) -> Option<Seq<char>> {
        Some(text)
    }

    open spec fn kind_name() -> Seq<char> {
        "string"@
    }

    fn parse(text: &str) -> (value: Option<String>) {
        Some(String::from_str(text))
    }

    fn name() -> (name: String) {
        String::from_str("string")
    }
}

/// An amount of money, in hundredths of the currency unit.
#[derive(Clone, Copy, Debug, PartialEq, Eq, Structural)]
pub struct Price {
    pub cents: i64,
}

impl View for Price {
    type V = int;

    open spec fn view(&self) -> int {
        self.cents as int
    }
}

impl FieldValue for Price {
    open spec fn read(text: Seq<char>) -> Option<int> {
        decimal_cents(text)
    }

    open spec fn kind_name() -> Seq<char> {
        "decimal"@
    }

    fn parse(text: &str) -> (value: Option<Price>) {
        match parse_cents(text) {
            Some(cents) => Some(Price { cents }),
            None => None,
        }
    }

    fn name() -> (name: String) {
        String::from_str("decimal")
    }
}

/// What `fields` give for `key`, read as a `T`: the key must occur, and its
/// value must be of that type.
pub open spec fn field_value<T: FieldValue>(fields: Seq<Field>, key: Seq<char>) -> Result<
    T::V,
    ParsingFault,
> {
    match lookup(fields, key) {
        None => Err(ParsingFault::MissingField(key)),
        Some(text) => match T::read(text) {
            Some(value) => Ok(value),
            None => Err(ParsingFault::TypeConversionFailure(text, T::kind_name())),
        },
    }
}

/// Reads the field `field` of `data` as a `T`.
pub fn get_field_error<T: FieldValue>(data: &Vec<(String, String)>, field: &str) -> (value: Result<
    T,
    InvoiceParsingError,
>)
    ensures
        match value {
            Ok(v) => field_value::<T>(fields_view(data@), field@) == Ok::<T::V, ParsingFault>(v@),
            Err(e) => field_value::<T>(fields_view(data@), field@) == Err::<T::V, ParsingFault>(
                e@,
            ),
        },
{
    match find_value(data, field) {
        None => Err(InvoiceParsingError::MissingField(String::from_str(field))),
        Some(text) => match T::parse(text.as_str()) {
            Some(value) => Ok(value),
            None => Err(InvoiceParsingError::TypeConversionFailure(text.clone(), T::name())),
        },
    }
}

/// The format in which a payload writes a date: year, month, day, as
/// digits without separators.
pub open spec fn date_format() -> Seq<char> {
    "%Y%m%d"@
}

/// The name under which errors speak of a date.
pub open spec fn date_kind() -> Seq<char> {
    "date"@
}

/// The invoice that `fields` give once the emission date has been read
/// from `date_text` with the outcome `date`: the date must have been read,
/// then the keys `H`, `G` and `O` must occur, in this order, and the value
/// of `O` must be an amount. The key `S` is taken along where it occurs.
pub open spec fn assembled(
    fields: Seq<Field>,
    date_text: Seq<char>,
    date: Option<CalendarDate>,
) -> Result<InvoiceData, ParsingFault> {
    match date {
        None => Err(ParsingFault::TypeConversionFailure(date_text, date_kind())),
        Some(emission_date) => match field_value::<String>(fields, "H"@) {
            Err(fault) => Err(fault),
            Ok(atcud) => match field_value::<String>(fields, "G"@) {
                Err(fault) => Err(fault),
                Ok(id) => match field_value::<Price>(fields, "O"@) {
                    Err(fault) => Err(fault),
                    Ok(price) => Ok(
                        InvoiceData { id, price, emission_date, atcud, info: lookup(fields, "S"@) },
                    ),
                },
            },
        },
    }
}

/// The invoice that `payload` carries: its tokens must all be fields, the
/// key `F` must occur and hold a date, and the rest is as `assembled` says.
pub open spec fn invoice_of(payload: Seq<char>) -> Result<InvoiceData, ParsingFault> {
    match fields_of(payload) {
        Err(token) => Err(ParsingFault::MalformedToken(token)),
        Ok(fields) => match field_value::<String>(fields, "F"@) {
            Err(fault) => Err(fault),
            Ok(date_text) => assembled(fields, date_text, parsed_date(date_text, date_format())),
        },
    }
}

/// A payload in which no token has the key `O` carries no invoice.
pub proof fn lemma_no_invoice_without_total(payload: Seq<char>)
    requires
        !has_key(payload, "O"@),
    ensures
        invoice_of(payload) is Err,
{
    if let Ok(fields) = fields_of(payload) {
        lemma_lookup_finds(fields, "O"@);
        if lookup(fields, "O"@) is Some {
            let i = choose|i: int| 0 <= i < fields.len() && (#[trigger] fields[i]).0 == "O"@;
            assert(fields[i] == field_of(tokens(payload)[i]));
        }
    }
}

/// A payload in which no token has the key `O`, and in which nothing that
/// is looked at before that key is at fault (every token is a field, `F`
/// holds a date, `H` and `G` occur), fails for the missing field `O`.
pub proof fn lemma_missing_total_is_named(payload: Seq<char>)
    requires
        !has_key(payload, "O"@),
        fields_of(payload) is Ok,
        lookup(fields_of(payload)->Ok_0, "F"@) is Some,
        parsed_date(lookup(fields_of(payload)->Ok_0, "F"@)->0, date_format()) is Some,
        lookup(fields_of(payload)->Ok_0, "H"@) is Some,
        lookup(fields_of(payload)->Ok_0, "G"@) is Some,
    ensures
        invoice_of(payload) == Err::<InvoiceData, ParsingFault>(ParsingFault::MissingField("O"@)),
{
    let fields = fields_of(payload)->Ok_0;
    lemma_lookup_finds(fields, "O"@);
    if lookup(fields, "O"@) is Some {
        let i = choose|i: int| 0 <= i < fields.len() && (#[trigger] fields[i]).0 == "O"@;
        assert(fields[i] == field_of(tokens(payload)[i]));
    }
}

/// An invoice is read from a payload as a whole or not at all: where the
/// payload is at fault in any way, no invoice comes of it, and where one
/// comes, every required key was there and of its type.
pub proof fn lemma_all_or_nothing(payload: Seq<char>)
    requires
        invoice_of(payload) is Ok,
    ensures
        fields_of(payload) is Ok,
        lookup(fields_of(payload)->Ok_0, "F"@) is Some,
        lookup(fields_of(payload)->Ok_0, "G"@) == Some(invoice_of(payload)->Ok_0.id),
        lookup(fields_of(payload)->Ok_0, "H"@) == Some(invoice_of(payload)->Ok_0.atcud),
        lookup(fields_of(payload)->Ok_0, "O"@) is Some,
        decimal_cents(lookup(fields_of(payload)->Ok_0, "O"@)->0) == Some(
            invoice_of(payload)->Ok_0.price,
        ),
        invoice_of(payload)->Ok_0.price >= 0,
{
    lemma_decimal_cents_sign(lookup(fields_of(payload)->Ok_0, "O"@)->0);
}

/// An invoice read from a QR code.
#[derive(Debug, PartialEq, Eq)]
pub struct InvoiceQR {
    atcud: String,
    invoice_number: String,
    emission_date: CalendarDate,
    total_price: i64,
    additional_info: Option<String>,
}

impl View for InvoiceQR {
    type V = InvoiceData;

    closed spec fn view(&self) -> InvoiceData {
        InvoiceData {
            id: self.invoice_number@,
            price: self.total_price as int,
            emission_date: self.emission_date,
            atcud: self.atcud@,
            info: match self.additional_info {
                Some(text) => Some(text@),
                None => None,
            },
        }
    }
}

impl InvoiceQR {
    #[verifier::type_invariant]
    spec fn price_is_not_negative(&self) -> bool {
        self.total_price >= 0
    }

    /// Reads the invoice that the text of `qr_code` carries.
    pub fn new(qr_code: Box<QRCode>) -> (invoice: Result<InvoiceQR, InvoiceParsingError>)
        ensures
            match invoice {
                Ok(i) => invoice_of(qr_code@.data) == Ok::<InvoiceData, ParsingFault>(i@)
                    && i@.price >= 0,
                Err(e) => invoice_of(qr_code@.data) == Err::<InvoiceData, ParsingFault>(e@),
            },
    {
        InvoiceQR::parse_from_qr(qr_code.get_data().as_str())
    }

    /// Reads the invoice that `payload` carries.
    pub fn parse_from_qr(payload: &str) -> (invoice: Result<InvoiceQR, InvoiceParsingError>)
        ensures
            match invoice {
                Ok(i) => invoice_of(payload@) == Ok::<InvoiceData, ParsingFault>(i@) && i@.price
                    >= 0,
                Err(e) => invoice_of(payload@) == Err::<InvoiceData, ParsingFault>(e@),
            },
    {
        let table = match read_fields(payload) {
            Ok(table) => table,
            Err(token) => {
                return Err(InvoiceParsingError::MalformedToken(token));
            },
        };
        let date_text: String = match get_field_error::<String>(&table, "F") {
            Ok(text) => text,
            Err(error) => {
                return Err(error);
            },
        };
        let date = parse_date(date_text.as_str(), "%Y%m%d");
        InvoiceQR::with_emission_date(&table, date_text, date)
    }

    /// Builds the invoice from the fields of a payload, once its emission
    /// date has been read from `date_text` with the outcome `date`.
    pub fn with_emission_date(
        table: &Vec<(String, String)>,
        date_text: String,
        date: Option<CalendarDate>,
    ) -> (invoice: Result<InvoiceQR, InvoiceParsingError>)
        ensures
            match invoice {
                Ok(i) => assembled(fields_view(table@), date_text@, date) == Ok::<
                    InvoiceData,
                    ParsingFault,
                >(i@) && i@.price >= 0,
                Err(e) => assembled(fields_view(table@), date_text@, date) == Err::<
                    InvoiceData,
                    ParsingFault,
                >(e@),
            },
    {
        let emission_date: CalendarDate = match date {
            Some(date) => date,
            None => {
                return Err(
                    InvoiceParsingError::TypeConversionFailure(date_text, String::from_str("date")),
                );
            },
        };
        let atcud: String = match get_field_error::<String>(table, "H") {
            Ok(text) => text,
            Err(error) => {
                return Err(error);
            },
        };
        let invoice_number: String = match get_field_error::<String>(table, "G") {
            Ok(text) => text,
            Err(error) => {
                return Err(error);
            },
        };
        let total_price: Price = match get_field_error::<Price>(table, "O") {
            Ok(price) => price,
            Err(error) => {
                return Err(error);
            },
        };
        let additional_info: Option<String> = match find_value(table, "S") {
            Some(text) => Some(text.clone()),
            None => None,
        };
        proof {
            lemma_decimal_cents_sign(lookup(fields_view(table@), "O"@)->0);
        }
        Ok(
            InvoiceQR {
                atcud,
                invoice_number,
                emission_date,
                total_price: total_price.cents,
                additional_info,
            },
        )
    }

    /// The free text that the payload carried under the key `S`, if any.
    pub fn get_additional_info(&self) -> (info: Option<&String>)
        ensures
            match info {
                Some(text) => self@.info == Some(text@),
                None => self@.info is None,
            },
    {
        match &self.additional_info {
            Some(text) => Some(text),
            None => None,
        }
    }
}

impl Clone for InvoiceQR {
    fn clone(&self) -> (copy: InvoiceQR)
        ensures
            copy@ == self@,
    {
        proof {
            use_type_invariant(self);
        }
        InvoiceQR {
            atcud: self.atcud.clone(),
            invoice_number: self.invoice_number.clone(),
            emission_date: self.emission_date,
            total_price: self.total_price,
            additional_info: match &self.additional_info {
                Some(text) => Some(text.clone()),
                None => None,
            },
        }
    }
}

impl Invoice for InvoiceQR {
    open spec fn data(&self) -> InvoiceData {
        self@
    }

    fn get_id(&self) -> (id: &str) {
        self.invoice_number.as_str()
    }

    fn get_price(&self) -> (price: i64) {
        proof {
            use_type_invariant(self);
        }
        self.total_price
    }

    fn get_emission_date(&self) -> (date: CalendarDate) {
        self.emission_date
    }

    fn get_atcud(&self) -> (atcud: &str) {
        self.atcud.as_str()
    }
}

} // verus!
