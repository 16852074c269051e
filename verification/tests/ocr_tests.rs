use guide::ocr::{
    merge_ocr_sheets, parse_ocr_sheet, read_sheet_page, strip_code_fence, val_i32, val_i32_opt, val_str,
    val_str_vec, JsonValue, OcrSheet,
};
use guide::sheet::{AbilityScores, SavingThrows, SkillScores, SpellSlot};

fn num(i: i64) -> JsonValue {
    JsonValue::Number { as_i64: Some(i), text: i.to_string() }
}

fn s(x: &str) -> JsonValue {
    JsonValue::Str(x.to_string())
}

fn blank() -> OcrSheet {
    OcrSheet {
        name: String::new(),
        class_name: String::new(),
        race: String::new(),
        background: String::new(),
        level: 0,
        experience_points: 0,
        ability_scores: AbilityScores { strength: 0, dexterity: 0, constitution: 0, intelligence: 0, wisdom: 0, charisma: 0 },
        saving_throws: SavingThrows { strength: None, dexterity: None, constitution: None, intelligence: None, wisdom: None, charisma: None },
        skills: SkillScores {
            acrobatics: None, animal_handling: None, arcana: None, athletics: None, deception: None,
            history: None, insight: None, intimidation: None, investigation: None, medicine: None,
            nature: None, perception: None, performance: None, persuasion: None, religion: None,
            sleight_of_hand: None, stealth: None, survival: None,
        },
        max_hp: 0,
        armor_class: 0,
        speed: 0,
        hit_dice: String::new(),
        proficiencies: vec![],
        languages: vec![],
        features_and_traits: vec![],
        equipment: vec![],
        personality_traits: String::new(),
        ideals: String::new(),
        bonds: String::new(),
        flaws: String::new(),
        spell_slots: vec![],
        backstory_text: String::new(),
    }
}

#[test]
fn json_coercions() {
    assert_eq!(val_str(&num(7)), "7");
    assert_eq!(val_str(&JsonValue::Bool(true)), "true");
    assert_eq!(val_str(&JsonValue::Null), "");
    assert_eq!(val_i32(&s(" 12 ")), 12);
    assert_eq!(val_i32(&s("twelve")), 0);
    assert_eq!(val_i32(&num(5_000_000_000)), 705032704);
    assert_eq!(val_i32_opt(&JsonValue::Null), None);
    assert_eq!(val_i32_opt(&s("x")), Some(0));
    let arr = JsonValue::Array(vec![s("a"), s(""), num(3), JsonValue::Null, s("b")]);
    assert_eq!(val_str_vec(&arr), vec!["a", "3", "b"]);
    assert!(val_str_vec(&s("a")).is_empty());
}

#[test]
fn page_json_read() {
    let v = JsonValue::Object(vec![
        ("name".to_string(), s("Tifa")),
        ("level".to_string(), s("4")),
        ("ability_scores".to_string(), JsonValue::Object(vec![("strength".to_string(), num(16))])),
        ("saving_throws".to_string(), JsonValue::Object(vec![("wisdom".to_string(), num(2))])),
        ("spell_slots".to_string(), JsonValue::Array(vec![
            JsonValue::Object(vec![("level".to_string(), num(1)), ("total".to_string(), num(3)), ("remaining".to_string(), num(2))]),
            s("junk"),
        ])),
        ("languages".to_string(), JsonValue::Array(vec![s("Common")])),
    ]);
    let p = parse_ocr_sheet(&v);
    assert_eq!(p.name, "Tifa");
    assert_eq!(p.level, 4);
    assert_eq!(p.ability_scores.strength, 16);
    assert_eq!(p.ability_scores.dexterity, 0);
    assert_eq!(p.saving_throws.wisdom, Some(2));
    assert_eq!(p.saving_throws.strength, None);
    assert_eq!(p.spell_slots.len(), 1);
    assert_eq!(p.spell_slots[0].total, 3);
    assert_eq!(p.languages, vec!["Common"]);
    assert_eq!(p.class_name, "");
}

#[test]
fn code_fence_removed() {
    assert_eq!(strip_code_fence("  ```json\n{\"a\":1}\n```  "), "{\"a\":1}");
    assert_eq!(strip_code_fence("{}"), "{}");
}

#[test]
fn pages_merged() {
    let mut a = blank();
    a.class_name = "Monk".to_string();
    a.languages = vec!["Common".to_string(), "Elvish".to_string()];
    a.armor_class = 0;
    let mut b = blank();
    b.name = "Tifa".to_string();
    b.class_name = "Fighter".to_string();
    b.level = 5;
    b.armor_class = 15;
    b.languages = vec!["Elvish".to_string(), "Dwarvish".to_string()];
    b.ability_scores.dexterity = 14;
    b.saving_throws.dexterity = Some(3);
    b.spell_slots = vec![SpellSlot { level: 1, total: 2, remaining: 1 }];
    let m = merge_ocr_sheets(&[a, b]).unwrap();
    assert_eq!(m.name, "Tifa");
    assert_eq!(m.class, Some("Monk".to_string()));
    assert_eq!(m.level, 5);
    assert_eq!(m.max_hp, 1);
    assert_eq!(m.armor_class, 15);
    assert_eq!(m.speed, 30);
    assert_eq!(m.languages, vec!["Common", "Elvish", "Dwarvish"]);
    assert_eq!(m.ability_scores.dexterity, 14);
    assert_eq!(m.saving_throws.unwrap().dexterity, Some(3));
    assert!(m.skills.is_none());
    assert_eq!(m.spell_slots.len(), 1);
    assert_eq!(m.experience_points, None);
    assert!(merge_ocr_sheets(&[]).is_err());
}

#[test]
fn sheet_reply_is_read_from_fenced_json() {
    let reply = "```json\n{\"name\": \"Aria\", \"class\": \"Wizard\", \"level\": 5, \"max_hp\": \"27\", \"parse_confidence\": 0.75}\n```";
    let (sheet, v) = read_sheet_page(reply).unwrap();
    assert_eq!(sheet.name, "Aria");
    assert_eq!(sheet.class_name, "Wizard");
    assert_eq!(sheet.level, 5);
    assert_eq!(sheet.max_hp, 27);
    match v {
        JsonValue::Object(members) => assert!(members.iter().any(|(k, _)| k == "parse_confidence")),
        _ => panic!("expected an object"),
    }
}

#[test]
fn sheet_reply_that_is_not_json_is_skipped() {
    assert!(read_sheet_page("I could not read this page.").is_none());
    assert!(read_sheet_page("```json\n{\"name\": \n```").is_none());
}
