use guide::sheet::AbilityScores;
use guide::store::{
    alive_flag, apply_character_update, backstory_with_text, parse_doc_kind_opt, update_assignments,
    CharacterRecord, ColumnValue, documents_to_replace, upsert_batches, is_campaign_kind, campaign_collection_name, char_type_to_str, column_name,
    doc_kind_to_str, game_system_to_str, global_collection_name, parse_char_type, parse_doc_kind,
    parse_event_type, parse_game_system, parse_ingestion_status, update_columns, Backstory,
    CharacterColumn, CharacterType, DocumentKind, EventType, GameSystem, IngestionStatus,
    UpdateCharacterRequest,
};

#[test]
fn collection_names() {
    assert_eq!(campaign_collection_name("42"), "campaign_42_lore");
    assert_eq!(global_collection_name(), "global_rules");
}

#[test]
fn codes_round_trip_and_defaults() {
    for k in [DocumentKind::DmGuide, DocumentKind::MonsterManual, DocumentKind::Srd, DocumentKind::Campaign, DocumentKind::Supplemental] {
        assert_eq!(parse_doc_kind(doc_kind_to_str(k)), k);
    }
    assert_eq!(parse_doc_kind("rulebook"), DocumentKind::DmGuide);
    assert_eq!(parse_doc_kind("???"), DocumentKind::Campaign);
    assert_eq!(parse_game_system(game_system_to_str(GameSystem::Pathfinder2e)), GameSystem::Pathfinder2e);
    assert_eq!(parse_game_system("gurps"), GameSystem::Dnd5e);
    assert_eq!(parse_char_type(char_type_to_str(CharacterType::Monster)), CharacterType::Monster);
    assert_eq!(parse_char_type("x"), CharacterType::Npc);
    assert_eq!(parse_event_type("level_up"), EventType::LevelUp);
    assert_eq!(parse_event_type("dance"), EventType::Custom);
    assert_eq!(parse_ingestion_status("failed"), IngestionStatus::Failed);
    assert_eq!(parse_ingestion_status(""), IngestionStatus::Pending);
}

fn empty_request() -> UpdateCharacterRequest {
    UpdateCharacterRequest {
        name: None,
        class: None,
        race: None,
        level: None,
        max_hp: None,
        current_hp: None,
        armor_class: None,
        speed: None,
        ability_scores: None,
        conditions: None,
        is_alive: None,
        backstory_text: None,
    }
}

#[test]
fn update_writes_given_columns_in_order() {
    assert!(update_columns(&empty_request()).is_empty());
    let mut req = empty_request();
    req.backstory_text = Some("b".to_string());
    req.name = Some("n".to_string());
    req.is_alive = Some(false);
    req.ability_scores = Some(AbilityScores { strength: 1, dexterity: 1, constitution: 1, intelligence: 1, wisdom: 1, charisma: 1 });
    let cols = update_columns(&req);
    assert_eq!(cols, vec![CharacterColumn::Name, CharacterColumn::AbilityScores, CharacterColumn::IsAlive, CharacterColumn::Backstory]);
    let names: Vec<&str> = cols.iter().map(|c| column_name(*c)).collect();
    assert_eq!(names, vec!["name", "ability_scores", "is_alive", "backstory"]);
    assert_eq!(alive_flag(false), 0);
    assert_eq!(alive_flag(true), 1);
}

#[test]
fn backstory_text_replaced() {
    let b = Backstory {
        raw_text: "old".to_string(),
        extracted_hooks: vec!["hook".to_string()],
        motivations: vec![],
        key_relationships: vec![],
        secrets: vec!["s".to_string()],
    };
    let n = backstory_with_text(Some(b), "new");
    assert_eq!(n.raw_text, "new");
    assert_eq!(n.extracted_hooks, vec!["hook"]);
    assert_eq!(n.secrets, vec!["s"]);
    let fresh = backstory_with_text(None, "t");
    assert_eq!(fresh.raw_text, "t");
    assert!(fresh.extracted_hooks.is_empty());
}

#[test]
fn campaign_kinds_get_story_extraction() {
    assert!(is_campaign_kind(DocumentKind::Campaign));
    assert!(is_campaign_kind(DocumentKind::Supplemental));
    assert!(!is_campaign_kind(DocumentKind::DmGuide));
    assert!(!is_campaign_kind(DocumentKind::MonsterManual));
    assert!(!is_campaign_kind(DocumentKind::Srd));
}

#[test]
fn replaced_documents_are_listed_once_in_order() {
    assert_eq!(documents_to_replace(&[7, 3, 7, 9, 3]), vec![7, 3, 9]);
    assert_eq!(documents_to_replace(&[]), Vec::<u128>::new());
    assert_eq!(documents_to_replace(&[5, 5, 5]), vec![5]);
}

#[test]
fn upserts_go_in_batches_of_one_hundred() {
    assert_eq!(upsert_batches(0), vec![]);
    assert_eq!(upsert_batches(100), vec![(0, 100)]);
    assert_eq!(upsert_batches(250), vec![(0, 100), (100, 200), (200, 250)]);
    assert_eq!(upsert_batches(1), vec![(0, 1)]);
}

fn scores(v: i32) -> AbilityScores {
    AbilityScores { strength: v, dexterity: v, constitution: v, intelligence: v, wisdom: v, charisma: v }
}

fn record() -> CharacterRecord {
    CharacterRecord {
        id: 1,
        campaign_id: 2,
        name: "Briv".to_string(),
        character_type: CharacterType::Pc,
        class: Some("Fighter".to_string()),
        race: None,
        level: 3,
        max_hp: 30,
        current_hp: 12,
        armor_class: 16,
        speed: 30,
        ability_scores: scores(10),
        conditions: vec!["prone".to_string()],
        backstory: Some(Backstory {
            raw_text: "old".to_string(),
            extracted_hooks: vec!["hook".to_string()],
            motivations: vec![],
            key_relationships: vec![],
            secrets: vec![],
        }),
        is_alive: true,
        portrait_url: Some("p.png".to_string()),
        spell_slots: vec![],
        created_at: "c".to_string(),
        updated_at: "u".to_string(),
    }
}

#[test]
fn update_assignments_carry_the_values() {
    let mut req = empty_request();
    req.name = Some("Briv II".to_string());
    req.current_hp = Some(20);
    req.is_alive = Some(false);
    req.backstory_text = Some("new story".to_string());
    let existing = Backstory {
        raw_text: "old".to_string(),
        extracted_hooks: vec!["hook".to_string()],
        motivations: vec![],
        key_relationships: vec![],
        secrets: vec![],
    };
    let a = update_assignments(req, Some(existing));
    assert_eq!(a.len(), 4);
    assert!(matches!(&a[0], (CharacterColumn::Name, ColumnValue::Text(t)) if t == "Briv II"));
    assert!(matches!(&a[1], (CharacterColumn::CurrentHp, ColumnValue::Int(20))));
    assert!(matches!(&a[2], (CharacterColumn::IsAlive, ColumnValue::Int(0))));
    match &a[3] {
        (CharacterColumn::Backstory, ColumnValue::Story(b)) => {
            assert_eq!(b.raw_text, "new story");
            assert_eq!(b.extracted_hooks, vec!["hook"]);
        }
        _ => panic!("expected the backstory"),
    }
    assert!(update_assignments(empty_request(), None).is_empty());
}

#[test]
fn update_replaces_given_fields_and_keeps_the_rest() {
    let mut req = empty_request();
    req.race = Some("Dwarf".to_string());
    req.level = Some(4);
    req.conditions = Some(vec![]);
    req.backstory_text = Some("new".to_string());
    let r = apply_character_update(record(), req, "now");
    assert_eq!(r.name, "Briv");
    assert_eq!(r.class, Some("Fighter".to_string()));
    assert_eq!(r.race, Some("Dwarf".to_string()));
    assert_eq!(r.level, 4);
    assert_eq!(r.current_hp, 12);
    assert!(r.conditions.is_empty());
    let b = r.backstory.unwrap();
    assert_eq!(b.raw_text, "new");
    assert_eq!(b.extracted_hooks, vec!["hook"]);
    assert_eq!(r.portrait_url, Some("p.png".to_string()));
    assert_eq!(r.updated_at, "now");
    let same = apply_character_update(record(), empty_request(), "now");
    assert_eq!(same.updated_at, "u");
    assert_eq!(same.level, 3);
}

#[test]
fn missing_document_kind_reads_as_dm_guide() {
    assert_eq!(parse_doc_kind_opt(None), DocumentKind::DmGuide);
    assert_eq!(parse_doc_kind_opt(Some("campaign")), DocumentKind::Campaign);
    assert_eq!(parse_doc_kind_opt(Some("rulebook")), DocumentKind::DmGuide);
}
