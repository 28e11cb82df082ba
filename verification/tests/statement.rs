use advanzia2csv::amount::Amount;
use advanzia2csv::batch::{advanzia2csv, Batch, ConvertError};
use advanzia2csv::pattern::Patterns;
use advanzia2csv::statement::{get_transactions_from_page, get_transactions_from_pdf};
use advanzia2csv::transaction::Transaction;
use lopdf::content::{Content, Operation};
use lopdf::{Dictionary, Document, Object, ObjectId, Stream};

fn row(date: &str, description: &str, decimal: &str) -> Transaction {
    Transaction {
        date: date.to_string(),
        description: description.to_string(),
        amount: Amount { negative: false, decimal: decimal.to_string() },
    }
}

fn negative_row(date: &str, description: &str, decimal: &str) -> Transaction {
    Transaction {
        date: date.to_string(),
        description: description.to_string(),
        amount: Amount { negative: true, decimal: decimal.to_string() },
    }
}

fn add_page(doc: &mut Document, parent: ObjectId, lines: &[&str]) -> ObjectId {
    let mut operations = vec![
        Operation::new("BT", vec![]),
        Operation::new("Tf", vec!["F1".into(), 12.into()]),
    ];
    for line in lines {
        operations.push(Operation::new("Tj", vec![Object::string_literal(*line)]));
        operations.push(Operation::new("T*", vec![]));
    }
    operations.push(Operation::new("ET", vec![]));
    let content = Content { operations };
    let content_id = doc.add_object(Stream::new(Dictionary::new(), content.encode().unwrap()));
    let mut page = Dictionary::new();
    page.set("Type", "Page");
    page.set("Parent", parent);
    page.set("Contents", content_id);
    doc.add_object(page)
}

fn document(pages: &[&[&str]], broken_first_page: bool) -> Document {
    let mut doc = Document::with_version("1.5");
    let pages_id = doc.new_object_id();
    let mut font = Dictionary::new();
    font.set("Type", "Font");
    font.set("Subtype", "Type1");
    font.set("BaseFont", "Courier");
    let font_id = doc.add_object(font);
    let mut fonts = Dictionary::new();
    fonts.set("F1", font_id);
    let mut resources = Dictionary::new();
    resources.set("Font", fonts);
    let resources_id = doc.add_object(resources);
    let mut kids: Vec<Object> = Vec::new();
    if broken_first_page {
        let mut page = Dictionary::new();
        page.set("Type", "Page");
        page.set("Parent", (9999u32, 0u16));
        kids.push(doc.add_object(page).into());
    }
    for lines in pages {
        kids.push(add_page(&mut doc, pages_id, lines).into());
    }
    let mut tree = Dictionary::new();
    tree.set("Type", "Pages");
    tree.set("Count", kids.len() as i64);
    tree.set("Kids", kids);
    tree.set("Resources", resources_id);
    doc.objects.insert(pages_id, Object::Dictionary(tree));
    let mut catalog = Dictionary::new();
    catalog.set("Type", "Catalog");
    catalog.set("Pages", pages_id);
    let catalog_id = doc.add_object(catalog);
    doc.trailer.set("Root", catalog_id);
    doc
}

const FIRST_PAGE: &[&str] = &[
    "Statement 31.12.2020",
    "ALTER SALDO 100,00",
    "26.01.2021",
    "IKEA BORLANGE - SEK 111,00 (KURS 11,1111)",
    "BORLANGE",
    "18,30",
    "NEUER SALDO 118,30",
    "01.01.2021",
    "FOOTER",
    "9,99",
];

const SECOND_PAGE: &[&str] = &["27.02.2022", "FABRIQUE", "STOCKHOLM", "19,23"];

#[test]
fn built_document_gives_back_its_lines() {
    let doc = document(&[SECOND_PAGE], false);
    assert_eq!(doc.get_pages().len(), 1);
    assert_eq!(doc.extract_text(&[1]).unwrap(), "27.02.2022\nFABRIQUE\nSTOCKHOLM\n19,23\n");
}

#[test]
fn pages_are_read_in_order_within_their_windows() {
    let patterns = Patterns::new().unwrap();
    let doc = document(&[FIRST_PAGE, SECOND_PAGE], false);
    assert_eq!(
        get_transactions_from_pdf(&patterns, &doc),
        vec![
            row("26.01.2021", "IKEA BORLANGE - SEK 111,00 (KURS 11,1111), BORLANGE", "18.30"),
            row("27.02.2022", "FABRIQUE, STOCKHOLM", "19.23"),
        ]
    );
    let swapped = document(&[SECOND_PAGE, FIRST_PAGE], false);
    assert_eq!(
        get_transactions_from_pdf(&patterns, &swapped),
        vec![
            row("27.02.2022", "FABRIQUE, STOCKHOLM", "19.23"),
            row("26.01.2021", "IKEA BORLANGE - SEK 111,00 (KURS 11,1111), BORLANGE", "18.30"),
        ]
    );
}

#[test]
fn page_without_text_is_passed_over() {
    let patterns = Patterns::new().unwrap();
    let doc = document(&[SECOND_PAGE], true);
    assert_eq!(doc.get_pages().len(), 2);
    assert!(doc.extract_text(&[1]).is_err());
    assert_eq!(
        get_transactions_from_pdf(&patterns, &doc),
        vec![row("27.02.2022", "FABRIQUE, STOCKHOLM", "19.23")]
    );
}

#[test]
fn document_without_pages_gives_nothing() {
    let patterns = Patterns::new().unwrap();
    assert_eq!(get_transactions_from_pdf(&patterns, &document(&[], false)), vec![]);
    assert_eq!(get_transactions_from_pdf(&patterns, &Document::new()), vec![]);
}

#[test]
fn page_outcome_decides_what_a_page_gives() {
    let patterns = Patterns::new().unwrap();
    assert_eq!(get_transactions_from_page(&patterns, None), vec![]);
    let text = "01.01.2021\nBEFORE\n1,00\nALTER SALDO\n02.02.2022\nINSIDE\n2,00\nNEUER SALDO\n03.03.2023\nAFTER\n3,00";
    assert_eq!(
        get_transactions_from_page(&patterns, Some(text)),
        vec![row("02.02.2022", "INSIDE", "2.00")]
    );
}

#[test]
fn batch_without_transactions_is_an_error() {
    let patterns = Patterns::new().unwrap();
    assert_eq!(Batch::new().finish(false), Err(ConvertError::NoTransactionsFound));
    assert_eq!(Batch::new().finish(true), Err(ConvertError::NoTransactionsFound));
    let mut batch = Batch::new();
    batch.add_document(&patterns, None);
    batch.add_document(&patterns, Some(&document(&[&["nothing here"]], false)));
    batch.add_document(&patterns, Some(&Document::new()));
    assert_eq!(batch.finish(false), Err(ConvertError::NoTransactionsFound));
}

#[test]
fn batch_keeps_the_order_of_its_documents() {
    let patterns = Patterns::new().unwrap();
    let mut batch = Batch::new();
    batch.add_document(&patterns, Some(&document(&[SECOND_PAGE], false)));
    batch.add_document(&patterns, None);
    batch.add_document(&patterns, Some(&document(&[FIRST_PAGE], false)));
    assert_eq!(
        batch.finish(false),
        Ok(vec![
            row("27.02.2022", "FABRIQUE, STOCKHOLM", "19.23"),
            row("26.01.2021", "IKEA BORLANGE - SEK 111,00 (KURS 11,1111), BORLANGE", "18.30"),
        ])
    );
}

#[test]
fn swapped_sign_negates_every_amount() {
    let patterns = Patterns::new().unwrap();
    let doc = document(&[FIRST_PAGE, SECOND_PAGE], false);
    let mut plain = Batch::new();
    plain.add_document(&patterns, Some(&doc));
    let mut swapped = Batch::new();
    swapped.add_document(&patterns, Some(&doc));
    let plain = plain.finish(false).unwrap();
    let swapped = swapped.finish(true).unwrap();
    assert_eq!(
        swapped,
        vec![
            negative_row("26.01.2021", "IKEA BORLANGE - SEK 111,00 (KURS 11,1111), BORLANGE", "18.30"),
            negative_row("27.02.2022", "FABRIQUE, STOCKHOLM", "19.23"),
        ]
    );
    assert_eq!(plain.len(), swapped.len());
    for (a, b) in plain.iter().zip(swapped.iter()) {
        assert_eq!(a.date, b.date);
        assert_eq!(a.description, b.description);
        assert_eq!(
            a.amount.to_string().parse::<f64>().unwrap(),
            -b.amount.to_string().parse::<f64>().unwrap()
        );
    }
    assert_eq!(swapped[0].amount.to_string().parse::<f64>().unwrap(), -18.30);
}

#[test]
fn run_without_transactions_is_an_error() {
    let patterns = Patterns::new().unwrap();
    assert_eq!(advanzia2csv(&patterns, &vec![], false), Err(ConvertError::NoTransactionsFound));
    assert_eq!(advanzia2csv(&patterns, &vec![None, None], true), Err(ConvertError::NoTransactionsFound));
    let empty = vec![Some(Document::new()), None, Some(document(&[&["no marker 1,00"]], false))];
    assert_eq!(advanzia2csv(&patterns, &empty, false), Err(ConvertError::NoTransactionsFound));
}

#[test]
fn run_gathers_the_rows_of_its_documents() {
    let patterns = Patterns::new().unwrap();
    let inputs = vec![
        Some(document(&[SECOND_PAGE], false)),
        None,
        Some(document(&[FIRST_PAGE, SECOND_PAGE], true)),
    ];
    assert_eq!(
        advanzia2csv(&patterns, &inputs, false),
        Ok(vec![
            row("27.02.2022", "FABRIQUE, STOCKHOLM", "19.23"),
            row("26.01.2021", "IKEA BORLANGE - SEK 111,00 (KURS 11,1111), BORLANGE", "18.30"),
            row("27.02.2022", "FABRIQUE, STOCKHOLM", "19.23"),
        ])
    );
    assert_eq!(
        advanzia2csv(&patterns, &inputs, true),
        Ok(vec![
            negative_row("27.02.2022", "FABRIQUE, STOCKHOLM", "19.23"),
            negative_row("26.01.2021", "IKEA BORLANGE - SEK 111,00 (KURS 11,1111), BORLANGE", "18.30"),
            negative_row("27.02.2022", "FABRIQUE, STOCKHOLM", "19.23"),
        ])
    );
}
