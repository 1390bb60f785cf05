use invoice_scanner::frame::{Bgr, Frame, Rect};
use invoice_scanner::invoice::calendar_date::CalendarDate;
use invoice_scanner::invoice::invoice_qr::{
    get_field_error, InvoiceParsingError, InvoiceQR, Price,
};
use invoice_scanner::invoice::payload::{find_value, read_fields};
use invoice_scanner::invoice::price::parse_cents;
use invoice_scanner::invoice::Invoice;
use invoice_scanner::qr_code::QRCode;

fn record(payload: &str) -> Box<QRCode> {
    let image = Frame::new(2, 2, Bgr { b: 0, g: 0, r: 0 });
    Box::new(QRCode::new(image, payload.to_string(), Rect { x: 0, y: 0, width: 1, height: 1 }))
}

fn table(entries: &[(&str, &str)]) -> Vec<(String, String)> {
    entries.iter().map(|(k, v)| (k.to_string(), v.to_string())).collect()
}

#[test]
fn complete_payload_gives_the_invoice() {
    let invoice =
        InvoiceQR::parse_from_qr("F:20230115*G:FT2023/1*H:ABCDEF123*O:19.99").unwrap();
    assert_eq!(invoice.get_emission_date(), CalendarDate { year: 2023, month: 1, day: 15 });
    assert_eq!(invoice.get_id(), "FT2023/1");
    assert_eq!(invoice.get_atcud(), "ABCDEF123");
    assert_eq!(invoice.get_price(), 1999);
    assert_eq!(invoice.get_additional_info(), None);
}

#[test]
fn record_is_read_by_its_text() {
    let invoice = InvoiceQR::new(record("F:20230115*G:FT2023/1*H:ABCDEF123*O:19.99")).unwrap();
    assert_eq!(invoice.get_id(), "FT2023/1");
    assert_eq!(invoice.get_price(), 1999);
}

#[test]
fn payload_without_total_names_the_key() {
    assert_eq!(
        InvoiceQR::parse_from_qr("F:20230115*G:FT1*H:X"),
        Err(InvoiceParsingError::MissingField("O".to_string()))
    );
}

#[test]
fn total_that_is_no_number_names_the_value() {
    assert_eq!(
        InvoiceQR::parse_from_qr("F:20230115*G:FT1*H:X*O:abc"),
        Err(InvoiceParsingError::TypeConversionFailure("abc".to_string(), "decimal".to_string()))
    );
}

#[test]
fn each_missing_key_is_named() {
    assert_eq!(
        InvoiceQR::parse_from_qr("G:FT1*H:X*O:1"),
        Err(InvoiceParsingError::MissingField("F".to_string()))
    );
    assert_eq!(
        InvoiceQR::parse_from_qr("F:20230115*G:FT1*O:1"),
        Err(InvoiceParsingError::MissingField("H".to_string()))
    );
    assert_eq!(
        InvoiceQR::parse_from_qr("F:20230115*H:X*O:1"),
        Err(InvoiceParsingError::MissingField("G".to_string()))
    );
}

#[test]
fn date_that_does_not_exist_is_a_conversion_failure() {
    assert_eq!(
        InvoiceQR::parse_from_qr("F:20230231*G:FT1*H:X*O:1"),
        Err(InvoiceParsingError::TypeConversionFailure("20230231".to_string(), "date".to_string()))
    );
    assert_eq!(
        InvoiceQR::parse_from_qr("F:yesterday*G:FT1*H:X*O:1"),
        Err(InvoiceParsingError::TypeConversionFailure(
            "yesterday".to_string(),
            "date".to_string()
        ))
    );
}

#[test]
fn token_without_separator_is_malformed() {
    assert_eq!(
        InvoiceQR::parse_from_qr("F:20230115*G*H:X*O:1"),
        Err(InvoiceParsingError::MalformedToken("G".to_string()))
    );
    assert_eq!(
        InvoiceQR::parse_from_qr(""),
        Err(InvoiceParsingError::MalformedToken("".to_string()))
    );
    assert_eq!(
        InvoiceQR::parse_from_qr("F:20230115*G:FT1*H:X*O:1*"),
        Err(InvoiceParsingError::MalformedToken("".to_string()))
    );
}

#[test]
fn malformed_token_is_reported_before_missing_keys() {
    assert_eq!(
        InvoiceQR::parse_from_qr("G:FT1*broken"),
        Err(InvoiceParsingError::MalformedToken("broken".to_string()))
    );
}

#[test]
fn value_may_hold_further_separators() {
    let invoice = InvoiceQR::parse_from_qr("F:20230115*G:FT:2023:1*H:X*O:5").unwrap();
    assert_eq!(invoice.get_id(), "FT:2023:1");
}

#[test]
fn unknown_keys_are_ignored_and_free_text_is_kept() {
    let invoice =
        InvoiceQR::parse_from_qr("A:123*F:20230115*G:FT1*H:X*O:5*S:thank you*Z:9").unwrap();
    assert_eq!(invoice.get_id(), "FT1");
    assert_eq!(invoice.get_additional_info(), Some(&"thank you".to_string()));
}

#[test]
fn later_token_overrides_earlier_one() {
    let invoice = InvoiceQR::parse_from_qr("F:20230115*G:FT1*H:X*O:5*G:FT2").unwrap();
    assert_eq!(invoice.get_id(), "FT2");
}

#[test]
fn payload_that_is_not_ascii_is_parted_by_characters() {
    let invoice = InvoiceQR::parse_from_qr("F:20230115*G:Fatura n\u{ba} 1*H:\u{e7}*O:5").unwrap();
    assert_eq!(invoice.get_id(), "Fatura n\u{ba} 1");
    assert_eq!(invoice.get_atcud(), "\u{e7}");
}

#[test]
fn amounts_are_read_in_hundredths() {
    assert_eq!(parse_cents("19.99"), Some(1999));
    assert_eq!(parse_cents("19.9"), Some(1990));
    assert_eq!(parse_cents("19"), Some(1900));
    assert_eq!(parse_cents("19."), Some(1900));
    assert_eq!(parse_cents(".5"), Some(50));
    assert_eq!(parse_cents("0.019"), Some(1));
    assert_eq!(parse_cents("007.10"), Some(710));
    assert_eq!(parse_cents("0"), Some(0));
}

#[test]
fn texts_that_write_no_amount_are_refused() {
    assert_eq!(parse_cents(""), None);
    assert_eq!(parse_cents("."), None);
    assert_eq!(parse_cents("abc"), None);
    assert_eq!(parse_cents("-1"), None);
    assert_eq!(parse_cents("1.2.3"), None);
    assert_eq!(parse_cents("1,5"), None);
    assert_eq!(parse_cents("1e3"), None);
    assert_eq!(parse_cents(" 1"), None);
}

#[test]
fn amounts_are_bounded_by_the_largest_integer() {
    assert_eq!(parse_cents("92233720368547758.07"), Some(i64::MAX));
    assert_eq!(parse_cents("92233720368547758.08"), None);
    assert_eq!(parse_cents("99999999999999999999999999999999"), None);
    assert_eq!(parse_cents("00000000000000000000000000000001"), Some(100));
}

#[test]
fn fields_are_read_in_order() {
    assert_eq!(
        read_fields("A:1*B:2:3*C:"),
        Ok(table(&[("A", "1"), ("B", "2:3"), ("C", "")]))
    );
    assert_eq!(read_fields(":x"), Ok(table(&[("", "x")])));
    assert_eq!(read_fields("A:1**B:2"), Err("".to_string()));
}

#[test]
fn lookup_finds_the_last_entry() {
    let t = table(&[("A", "1"), ("B", "2"), ("A", "3")]);
    assert_eq!(find_value(&t, "A"), Some(&"3".to_string()));
    assert_eq!(find_value(&t, "B"), Some(&"2".to_string()));
    assert_eq!(find_value(&t, "C"), None);
}

#[test]
fn field_is_read_as_the_type_asked_for() {
    let t = table(&[("O", "12.5"), ("G", "FT1"), ("X", "oops")]);
    assert_eq!(get_field_error::<Price>(&t, "O"), Ok(Price { cents: 1250 }));
    assert_eq!(get_field_error::<String>(&t, "G"), Ok("FT1".to_string()));
    assert_eq!(
        get_field_error::<Price>(&t, "X"),
        Err(InvoiceParsingError::TypeConversionFailure("oops".to_string(), "decimal".to_string()))
    );
    assert_eq!(
        get_field_error::<String>(&t, "H"),
        Err(InvoiceParsingError::MissingField("H".to_string()))
    );
}

#[test]
fn invoice_is_assembled_from_fields_and_date() {
    let t = table(&[("G", "FT1"), ("H", "X"), ("O", "3.20")]);
    let date = CalendarDate { year: 2024, month: 2, day: 29 };
    let invoice = InvoiceQR::with_emission_date(&t, "20240229".to_string(), Some(date)).unwrap();
    assert_eq!(invoice.get_emission_date(), date);
    assert_eq!(invoice.get_price(), 320);
    assert_eq!(
        InvoiceQR::with_emission_date(&t, "x".to_string(), None),
        Err(InvoiceParsingError::TypeConversionFailure("x".to_string(), "date".to_string()))
    );
}

#[test]
fn errors_are_put_in_words() {
    assert_eq!(
        InvoiceParsingError::MissingField("O".to_string()).message(),
        "The QR code does not have the field O"
    );
    assert_eq!(
        InvoiceParsingError::TypeConversionFailure("abc".to_string(), "decimal".to_string())
            .message(),
        "Could not convert the value abc to type decimal"
    );
    assert_eq!(
        InvoiceParsingError::MalformedToken("G".to_string()).message(),
        "The QR code does not produce a key:value pair for the token G"
    );
}
