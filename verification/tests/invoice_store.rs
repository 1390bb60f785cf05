use std::collections::HashMap;
use std::sync::mpsc;

use invoice_scanner::frame::{Bgr, Frame, Rect};
use invoice_scanner::invoice::invoice_manager::InvoiceManager;
use invoice_scanner::invoice::invoice_qr::{InvoiceParsingError, InvoiceQR};
use invoice_scanner::invoice::name_mapping::{load_name_mapping, table_or_empty};
use invoice_scanner::invoice::Invoice;
use invoice_scanner::qr_code::QRCode;

fn record(payload: &str) -> Box<QRCode> {
    let image = Frame::new(1, 1, Bgr { b: 0, g: 0, r: 0 });
    Box::new(QRCode::new(image, payload.to_string(), Rect { x: 0, y: 0, width: 1, height: 1 }))
}

fn payload(id: &str, price: &str) -> String {
    format!("F:20230115*G:{}*H:ATCUD-{}*O:{}", id, id, price)
}

fn invoice(id: &str, price: &str) -> InvoiceQR {
    InvoiceQR::parse_from_qr(&payload(id, price)).unwrap()
}

fn manager() -> (mpsc::Sender<Box<QRCode>>, InvoiceManager) {
    let (tx, rx) = mpsc::channel();
    (tx, InvoiceManager::new(rx, HashMap::new()))
}

fn ids(invoices: &[&InvoiceQR]) -> Vec<String> {
    invoices.iter().map(|i| i.get_id().to_string()).collect()
}

#[test]
fn new_store_is_empty() {
    let (_tx, store) = manager();
    assert!(store.get_invoices().is_empty());
    assert!(store.get_invoice("FT1").is_none());
    assert!(store.name_mapping_table().is_empty());
}

#[test]
fn names_are_kept_as_given() {
    let (_tx, rx) = mpsc::channel();
    let mut names = HashMap::new();
    names.insert("FT1".to_string(), "Groceries".to_string());
    let store = InvoiceManager::new(rx, names);
    assert_eq!(store.name_mapping_table().get("FT1"), Some(&"Groceries".to_string()));
}

#[test]
fn first_seen_invoice_stays() {
    let (_tx, mut store) = manager();
    let first = store.insert_if_absent(invoice("FT1", "10.00"));
    assert_eq!(first.get_price(), 1000);
    let again = store.insert_if_absent(invoice("FT1", "99.00"));
    assert_eq!(again, first);
    assert_eq!(again.get_price(), 1000);
    assert_eq!(again.get_atcud(), "ATCUD-FT1");
    assert_eq!(store.get_invoices().len(), 1);
    assert_eq!(store.get_invoice("FT1"), Some(&first));
}

#[test]
fn invoices_are_found_by_number() {
    let (_tx, mut store) = manager();
    store.insert_if_absent(invoice("FT1", "1"));
    store.insert_if_absent(invoice("FT2", "2"));
    store.insert_if_absent(invoice("FT3", "3"));
    assert_eq!(store.get_invoice("FT2").unwrap().get_price(), 200);
    assert!(store.get_invoice("FT4").is_none());
    let all: Vec<&InvoiceQR> = store.get_invoices().iter().collect();
    assert_eq!(ids(&all), vec!["FT1", "FT2", "FT3"]);
}

#[test]
fn one_record_is_taken_per_look() {
    let (tx, mut store) = manager();
    assert_eq!(store.check_qr_channel(), Ok(None));
    tx.send(record(&payload("FT1", "5"))).unwrap();
    tx.send(record(&payload("FT2", "6"))).unwrap();
    let first = store.check_qr_channel().unwrap().unwrap();
    assert_eq!(first.get_id(), "FT1");
    assert_eq!(store.get_invoices().len(), 1);
    let second = store.check_qr_channel().unwrap().unwrap();
    assert_eq!(second.get_id(), "FT2");
    assert_eq!(store.get_invoices().len(), 2);
    assert_eq!(store.check_qr_channel(), Ok(None));
}

#[test]
fn record_seen_again_gives_the_stored_invoice() {
    let (tx, mut store) = manager();
    tx.send(record(&payload("FT1", "5"))).unwrap();
    tx.send(record(&payload("FT1", "7"))).unwrap();
    let first = store.check_qr_channel().unwrap().unwrap();
    let second = store.check_qr_channel().unwrap().unwrap();
    assert_eq!(first, second);
    assert_eq!(second.get_price(), 500);
    assert_eq!(store.get_invoices().len(), 1);
}

#[test]
fn record_without_invoice_is_reported_and_the_rest_waits() {
    let (tx, mut store) = manager();
    tx.send(record("F:20230115*G:FT1*H:X")).unwrap();
    tx.send(record(&payload("FT2", "6"))).unwrap();
    assert_eq!(
        store.check_qr_channel(),
        Err(InvoiceParsingError::MissingField("O".to_string()))
    );
    assert!(store.get_invoices().is_empty());
    assert_eq!(store.check_qr_channel().unwrap().unwrap().get_id(), "FT2");
}

#[test]
fn closed_channel_is_an_empty_channel() {
    let (tx, mut store) = manager();
    drop(tx);
    assert_eq!(store.check_qr_channel(), Ok(None));
}

#[test]
fn intake_of_nothing_changes_nothing() {
    let (_tx, mut store) = manager();
    store.insert_if_absent(invoice("FT1", "1"));
    assert_eq!(store.intake(None), Ok(None));
    assert_eq!(store.get_invoices().len(), 1);
}

#[test]
fn best_match_is_the_exact_sum() {
    let (_tx, mut store) = manager();
    store.insert_if_absent(invoice("A", "0.05"));
    store.insert_if_absent(invoice("B", "0.10"));
    store.insert_if_absent(invoice("C", "0.12"));
    let matched = store.get_best_invoice_match(15);
    assert_eq!(ids(&matched), vec!["A", "B"]);
}

#[test]
fn best_match_in_whole_units() {
    let (_tx, mut store) = manager();
    store.insert_if_absent(invoice("C", "12"));
    store.insert_if_absent(invoice("A", "5"));
    store.insert_if_absent(invoice("B", "10"));
    let matched = store.get_best_invoice_match(1500);
    assert_eq!(ids(&matched), vec!["A", "B"]);
}

#[test]
fn best_match_of_empty_store_is_empty() {
    let (_tx, store) = manager();
    assert!(store.get_best_invoice_match(0).is_empty());
    assert!(store.get_best_invoice_match(1500).is_empty());
    assert!(store.get_best_invoice_match(-3).is_empty());
    assert!(store.get_best_invoice_match(i64::MAX).is_empty());
}

#[test]
fn best_match_is_the_same_when_asked_again() {
    let (_tx, mut store) = manager();
    for (id, price) in [("A", "3"), ("B", "3"), ("C", "7"), ("D", "3"), ("E", "1.50")] {
        store.insert_if_absent(invoice(id, price));
    }
    let first = ids(&store.get_best_invoice_match(900));
    let second = ids(&store.get_best_invoice_match(900));
    assert_eq!(first, second);
    assert_eq!(first, vec!["D", "B", "A"]);
}

#[test]
fn equal_totals_are_matched_by_distinct_invoices() {
    let (_tx, mut store) = manager();
    for id in ["A", "B", "C", "D"] {
        store.insert_if_absent(invoice(id, "5"));
    }
    let matched = ids(&store.get_best_invoice_match(1500));
    assert_eq!(matched, vec!["D", "C", "B"]);
}

#[test]
fn names_are_read_from_a_flat_object() {
    let table = load_name_mapping(Some("{\"FT1\": \"Groceries\", \"FT2\": \"Fuel\"}"));
    assert_eq!(table.len(), 2);
    assert_eq!(table.get("FT1"), Some(&"Groceries".to_string()));
    assert_eq!(table.get("FT2"), Some(&"Fuel".to_string()));
}

#[test]
fn missing_or_broken_names_give_an_empty_table() {
    assert!(load_name_mapping(None).is_empty());
    assert!(load_name_mapping(Some("not json")).is_empty());
    assert!(load_name_mapping(Some("{\"FT1\": 3}")).is_empty());
    assert!(load_name_mapping(Some("[\"FT1\"]")).is_empty());
    assert!(load_name_mapping(Some("{}")).is_empty());
    assert!(table_or_empty(None).is_empty());
    let mut names = HashMap::new();
    names.insert("a".to_string(), "b".to_string());
    assert_eq!(table_or_empty(Some(names.clone())), names);
}

#[test]
fn names_file_has_a_fixed_place() {
    assert_eq!(invoice_scanner::invoice::INVOICE_MAPPING_JSON_PATH, "name_mapping.json");
}
