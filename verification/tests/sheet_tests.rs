use guide::sheet::{
    format_form_fields, parse_character_sheet_from_fields, parse_class_level,
    parse_spell_level_from_header, split_proficiencies_languages,
};

fn f(k: &str, v: &str) -> (String, String) {
    (k.to_string(), v.to_string())
}

#[test]
fn class_level_with_and_without_number() {
    assert_eq!(parse_class_level("Ranger 5"), (Some("Ranger".to_string()), 5));
    assert_eq!(parse_class_level("Fighter"), (Some("Fighter".to_string()), 1));
    assert_eq!(parse_class_level("   "), (None, 1));
    assert_eq!(parse_class_level("Eldritch Knight 0"), (Some("Eldritch Knight".to_string()), 1));
    assert_eq!(parse_class_level("7"), (None, 7));
}

#[test]
fn proficiencies_and_languages_split_by_sections() {
    let text = "=== ARMOR ===\nLight Armor, Medium Armor, Shields\n\n=== WEAPONS ===\nMartial Weapons, Simple Weapons\n\n=== LANGUAGES ===\nCommon, Elvish\n";
    let (p, l) = split_proficiencies_languages(text);
    assert_eq!(p, vec!["Light Armor", "Medium Armor", "Shields", "Martial Weapons", "Simple Weapons"]);
    assert_eq!(l, vec!["Common", "Elvish"]);
}

#[test]
fn inline_languages_line() {
    let (p, l) = split_proficiencies_languages("Thieves' Tools\nLanguages: Common, Dwarvish , \n");
    assert_eq!(p, vec!["Thieves' Tools"]);
    assert_eq!(l, vec!["Common", "Dwarvish"]);
}

#[test]
fn spell_levels_from_headers() {
    assert_eq!(parse_spell_level_from_header("=== 1st LEVEL ==="), Some(1));
    assert_eq!(parse_spell_level_from_header("=== CANTRIPS ==="), Some(1));
    assert_eq!(parse_spell_level_from_header("=== 3rd LEVEL ==="), Some(3));
    assert_eq!(parse_spell_level_from_header("=== 9TH LEVEL ==="), Some(9));
    assert_eq!(parse_spell_level_from_header("Spells"), None);
}

#[test]
fn form_fields_sorted_and_cut() {
    let long = "x".repeat(450);
    let fields = vec![f("b", "2"), f("a", "1"), f("c", &long)];
    let text = format_form_fields(&fields);
    let expected = format!("a: 1\nb: 2\nc: {}\u{2026}", "x".repeat(400));
    assert_eq!(text, expected);
}

#[test]
fn form_values_are_cut_by_characters() {
    // 201 two-byte characters: 402 bytes, but only 201 characters, kept whole
    let wide = "é".repeat(201);
    assert_eq!(format_form_fields(&[f("k", &wide)]), format!("k: {wide}"));
    // 401 characters: cut to 400 and marked
    let long = "é".repeat(401);
    assert_eq!(format_form_fields(&[f("k", &long)]), format!("k: {}\u{2026}", "é".repeat(400)));
    let exact = "y".repeat(400);
    assert_eq!(format_form_fields(&[f("k", &exact)]), format!("k: {exact}"));
}

#[test]
fn too_few_fields_is_not_a_sheet() {
    let fields = vec![f("CharacterName", "Briv"), f("STR", "18")];
    assert!(parse_character_sheet_from_fields(&fields).is_none());
}

#[test]
fn reads_a_fillable_sheet() {
    let fields = vec![
        f("CharacterName", "Briv"),
        f("CLASS  LEVEL", "Fighter 3"),
        f("RACE", "Half-Orc"),
        f("STR", "18"),
        f("DEX", "12"),
        f("HPMax", "28"),
        f("AC", "16"),
        f("Speed", "35 ft. (Walking)"),
        f("Total", "3d10"),
        f("ST Strength", "+6"),
        f("Perception", "2"),
        f("FeaturesTraits1", "Second Wind"),
        f("ProficienciesLang", "=== LANGUAGES ===\nCommon, Orc"),
        f("spellHeader1", "=== 1st LEVEL ==="),
        f("spellSlotHeader1", "2 Slots OO"),
        f("spellHeader0", "=== CANTRIPS ==="),
        f("spellSlotHeader0", "(At Will)"),
    ];
    let s = parse_character_sheet_from_fields(&fields).unwrap();
    assert_eq!(s.name, "Briv");
    assert_eq!(s.class, Some("Fighter".to_string()));
    assert_eq!(s.level, 3);
    assert_eq!(s.race, Some("Half-Orc".to_string()));
    assert_eq!(s.ability_scores.strength, 18);
    assert_eq!(s.max_hp, 28);
    assert_eq!(s.armor_class, 16);
    assert_eq!(s.speed, 35);
    assert_eq!(s.hit_dice, Some("3d10".to_string()));
    assert_eq!(s.saving_throws.unwrap().strength, Some(6));
    assert_eq!(s.saving_throws.unwrap().dexterity, None);
    assert_eq!(s.skills.unwrap().perception, Some(2));
    assert_eq!(s.features_and_traits, vec!["Second Wind"]);
    assert_eq!(s.languages, vec!["Common", "Orc"]);
    assert_eq!(s.spell_slots.len(), 1);
    assert_eq!((s.spell_slots[0].level, s.spell_slots[0].total, s.spell_slots[0].remaining), (1, 2, 2));
    assert_eq!(s.key_fields, 7);
    assert!(s.raw_extracted_text.starts_with("AC: 16\nCLASS  LEVEL: Fighter 3"));
    assert!(s.equipment.is_empty());
}

#[test]
fn defaults_when_fields_missing() {
    let fields = vec![f("A", "1"), f("B", "2"), f("C", "3"), f("D", "4"), f("E", "5")];
    let s = parse_character_sheet_from_fields(&fields).unwrap();
    assert_eq!(s.name, "Unknown");
    assert_eq!(s.class, None);
    assert_eq!(s.level, 1);
    assert_eq!(s.max_hp, 1);
    assert_eq!(s.armor_class, 10);
    assert_eq!(s.speed, 30);
    assert!(s.saving_throws.is_none());
    assert!(s.skills.is_none());
    assert_eq!(s.key_fields, 0);
}
