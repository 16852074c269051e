use guide::form::{
    extract_form_fields, form_field_entry, form_fields_of_objects, parse_character_sheet_from_form, pdf_str_to_string,
    PdfObjectEntries,
};
use lopdf::{Dictionary, Document, Object};

fn pdf_with(objects: Vec<Object>) -> Vec<u8> {
    let mut doc = Document::with_version("1.5");
    let mut catalog = Dictionary::new();
    catalog.set("Type", "Catalog");
    let catalog_id = doc.add_object(catalog);
    doc.trailer.set("Root", catalog_id);
    for o in objects {
        doc.add_object(o);
    }
    let mut out = Vec::new();
    doc.save_to(&mut out).unwrap();
    out
}

fn field(name: &str, value: Object) -> Object {
    let mut d = Dictionary::new();
    d.set("T", Object::string_literal(name));
    d.set("V", value);
    Object::Dictionary(d)
}

fn text(s: &str) -> Object {
    Object::string_literal(s)
}

fn sorted(mut v: Vec<(String, String)>) -> Vec<(String, String)> {
    v.sort();
    v
}

#[test]
fn pdf_text_plain_utf8_is_trimmed() {
    assert_eq!(pdf_str_to_string(b"  Hello  "), Some("Hello".to_string()));
    assert_eq!(pdf_str_to_string("é".as_bytes()), Some("é".to_string()));
}

#[test]
fn pdf_text_empty_has_none() {
    assert_eq!(pdf_str_to_string(b""), None);
    assert_eq!(pdf_str_to_string(b"   "), Some(String::new()));
}

#[test]
fn pdf_text_utf16_big_endian() {
    assert_eq!(pdf_str_to_string(&[0xfe, 0xff, 0x00, 0x48, 0x00, 0x69]), Some("Hi".to_string()));
    // a trailing odd byte is dropped
    assert_eq!(pdf_str_to_string(&[0xfe, 0xff, 0x00, 0x41, 0x00]), Some("A".to_string()));
    // a surrogate pair
    assert_eq!(pdf_str_to_string(&[0xfe, 0xff, 0xd8, 0x3d, 0xde, 0x00]), Some("\u{1F600}".to_string()));
}

#[test]
fn pdf_text_utf16_little_endian() {
    assert_eq!(pdf_str_to_string(&[0xff, 0xfe, 0x48, 0x00, 0x69, 0x00, 0x20, 0x00]), Some("Hi".to_string()));
}

#[test]
fn pdf_text_unpaired_surrogate_has_none() {
    assert_eq!(pdf_str_to_string(&[0xfe, 0xff, 0xd8, 0x00]), None);
    assert_eq!(pdf_str_to_string(&[0xfe, 0xff, 0xdc, 0x00, 0x00, 0x41]), None);
}

#[test]
fn pdf_text_latin1_fallback() {
    assert_eq!(pdf_str_to_string(&[0x43, 0x61, 0x66, 0xe9]), Some("Café".to_string()));
}

#[test]
fn field_entry_text_value() {
    let o = PdfObjectEntries {
        title: Some(b"Name".to_vec()),
        value_text: Some(b" Aria ".to_vec()),
        value_name: None,
    };
    assert_eq!(form_field_entry(&o), Some(("Name".to_string(), "Aria".to_string())));
}

#[test]
fn field_entry_checkbox_values() {
    let on = PdfObjectEntries { title: Some(b"Check1".to_vec()), value_text: None, value_name: Some(b"Yes".to_vec()) };
    assert_eq!(form_field_entry(&on), Some(("Check1".to_string(), "Yes".to_string())));
    let off = PdfObjectEntries { title: Some(b"Check2".to_vec()), value_text: None, value_name: Some(b"Off".to_vec()) };
    assert_eq!(form_field_entry(&off), None);
    let no = PdfObjectEntries { title: Some(b"Check3".to_vec()), value_text: None, value_name: Some(b"No".to_vec()) };
    assert_eq!(form_field_entry(&no), None);
}

#[test]
fn field_entry_needs_name_and_value() {
    let unnamed = PdfObjectEntries { title: Some(b"  ".to_vec()), value_text: Some(b"x".to_vec()), value_name: None };
    assert_eq!(form_field_entry(&unnamed), None);
    let empty = PdfObjectEntries { title: Some(b"A".to_vec()), value_text: Some(b" ".to_vec()), value_name: None };
    assert_eq!(form_field_entry(&empty), None);
    let none = PdfObjectEntries { title: None, value_text: None, value_name: None };
    assert_eq!(form_field_entry(&none), None);
}

#[test]
fn extract_fields_from_a_pdf() {
    let bytes = pdf_with(vec![
        field("CharacterName", text("Aria")),
        field("Check1", Object::from("Yes")),
        field("Check2", Object::from("Off")),
        field("Empty", text("")),
        Object::Integer(7),
        field("RACE", text("Elf")),
        field("RACE", text("Half-Elf")),
    ]);
    let got = sorted(extract_form_fields(&bytes));
    assert_eq!(
        got,
        vec![
            ("CharacterName".to_string(), "Aria".to_string()),
            ("Check1".to_string(), "Yes".to_string()),
            ("RACE".to_string(), "Half-Elf".to_string()),
        ]
    );
}

#[test]
fn extract_fields_from_garbage_is_empty() {
    assert!(extract_form_fields(b"not a pdf at all").is_empty());
    assert!(extract_form_fields(b"").is_empty());
}

#[test]
fn sheet_from_form_needs_five_fields() {
    let few = pdf_with(vec![field("CharacterName", text("Aria")), field("RACE", text("Elf"))]);
    assert!(parse_character_sheet_from_form(&few).is_none());
}

#[test]
fn sheet_from_form_reads_fields() {
    let bytes = pdf_with(vec![
        field("CharacterName", text("Aria")),
        field("CLASS  LEVEL", text("Ranger 5")),
        field("RACE", text("Elf")),
        field("STR", text("12")),
        field("DEX", text("16")),
    ]);
    let sheet = parse_character_sheet_from_form(&bytes).unwrap();
    assert_eq!(sheet.name, "Aria");
    assert_eq!(sheet.class, Some("Ranger".to_string()));
    assert_eq!(sheet.level, 5);
    assert_eq!(sheet.race, Some("Elf".to_string()));
    assert_eq!(sheet.ability_scores.strength, 12);
    assert_eq!(sheet.ability_scores.dexterity, 16);
}

#[test]
fn sheet_from_form_keeps_long_wide_values() {
    let long = format!("{}é and more", "a".repeat(399));
    let bytes = pdf_with(vec![
        field("CharacterName", text("Aria")),
        field("RACE", text("Elf")),
        field("STR", text("12")),
        field("DEX", text("16")),
        field("Backstory", text(&long)),
    ]);
    let sheet = parse_character_sheet_from_form(&bytes).unwrap();
    assert_eq!(sheet.name, "Aria");
    assert!(sheet.raw_extracted_text.contains("Backstory: "));
    assert!(sheet.raw_extracted_text.contains('\u{2026}'));
}

#[test]
fn fields_from_given_objects() {
    let o = |t: &[u8], v: Option<&[u8]>, n: Option<&[u8]>| PdfObjectEntries {
        title: Some(t.to_vec()),
        value_text: v.map(|b| b.to_vec()),
        value_name: n.map(|b| b.to_vec()),
    };
    let objs = vec![
        o(b"A", Some(b"1"), None),
        o(b"B", None, Some(b"Yes")),
        o(b"C", None, Some(b"Off")),
        o(b"A", Some(b"2"), None),
        PdfObjectEntries { title: None, value_text: None, value_name: None },
    ];
    let got = sorted(form_fields_of_objects(&objs));
    assert_eq!(got, vec![("A".to_string(), "2".to_string()), ("B".to_string(), "Yes".to_string())]);
    assert!(form_fields_of_objects(&[]).is_empty());
}
