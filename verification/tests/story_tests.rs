use guide::story::{
    linked_id, merge_story_extractions, successful_windows, ArcPoint, CharacterArcInput, StoryArcInput, StoryEventInput,
    StoryExtractionResult, SubplotInput,
};

fn arc(t: &str, o: i32) -> StoryArcInput {
    StoryArcInput { title: t.to_string(), description: format!("{t} desc"), arc_order: o }
}

fn event(t: &str, o: i32) -> StoryEventInput {
    StoryEventInput {
        title: t.to_string(),
        description: String::new(),
        event_type: "combat".to_string(),
        significance: "minor".to_string(),
        location: None,
        involved_characters: vec![],
        event_order: o,
        arc_title: None,
        is_dm_only: false,
    }
}

fn char_arc(n: &str, d: &str, pts: &[&str]) -> CharacterArcInput {
    CharacterArcInput {
        character_name: n.to_string(),
        description: d.to_string(),
        arc_points: pts.iter().map(|p| ArcPoint { description: p.to_string(), order: 99 }).collect(),
    }
}

fn result(arcs: Vec<StoryArcInput>, events: Vec<StoryEventInput>, chars: Vec<CharacterArcInput>) -> StoryExtractionResult {
    StoryExtractionResult {
        arcs,
        events,
        subplots: vec![SubplotInput { title: "s".to_string(), description: String::new(), arc_title: None }],
        character_arcs: chars,
        encounters: vec![],
    }
}

#[test]
fn merges_chapters() {
    let r0 = result(vec![arc("The Curse", 5), arc("Escape", 1)], vec![event("a", 1), event("b", 2)], vec![char_arc("Ireena", "first", &["p1"])]);
    let r1 = result(vec![arc("  the curse ", 3), arc("Finale", 2)], vec![event("c", 1)], vec![char_arc("IRENA", "x", &[]), char_arc(" ireena", "second", &["p2", "p3"])]);
    let m = merge_story_extractions(vec![(0, r0), (1, r1)]);
    let arcs: Vec<(&str, i32)> = m.arcs.iter().map(|a| (a.title.as_str(), a.arc_order)).collect();
    assert_eq!(arcs, vec![("The Curse", 1), ("Escape", 2), ("Finale", 3)]);
    let orders: Vec<i32> = m.events.iter().map(|e| e.event_order).collect();
    assert_eq!(orders, vec![1, 2, 1001]);
    assert_eq!(m.subplots.len(), 2);
    assert_eq!(m.character_arcs.len(), 2);
    let ir = &m.character_arcs[0];
    assert_eq!(ir.character_name, "Ireena");
    assert_eq!(ir.description, "first");
    let pts: Vec<(&str, i32)> = ir.arc_points.iter().map(|p| (p.description.as_str(), p.order)).collect();
    assert_eq!(pts, vec![("p1", 1), ("p2", 2), ("p3", 3)]);
    assert_eq!(m.character_arcs[1].character_name, "IRENA");
}

#[test]
fn merging_nothing_gives_nothing() {
    let m = merge_story_extractions(vec![]);
    assert!(m.arcs.is_empty() && m.events.is_empty() && m.character_arcs.is_empty());
}

#[test]
fn references_link_by_lowercase_title_last_wins() {
    let arcs = vec![("The Heist".to_string(), 1u128), ("Dragon".to_string(), 2), ("the heist".to_string(), 3)];
    assert_eq!(linked_id(&arcs, Some("THE HEIST")), Some(3));
    assert_eq!(linked_id(&arcs, Some("dragon")), Some(2));
    assert_eq!(linked_id(&arcs, Some("Nothing")), None);
    assert_eq!(linked_id(&arcs, None), None);
    assert_eq!(linked_id(&[], Some("x")), None);
}

#[test]
fn failed_windows_are_skipped() {
    let outcomes = vec![
        (0usize, None),
        (1, Some(result(vec![arc("A", 1)], vec![], vec![]))),
        (2, None),
        (3, Some(result(vec![arc("B", 1)], vec![], vec![]))),
    ];
    let ok = successful_windows(outcomes).unwrap();
    assert_eq!(ok.iter().map(|(i, r)| (*i, r.arcs[0].title.clone())).collect::<Vec<_>>(), vec![(1, "A".to_string()), (3, "B".to_string())]);
}

#[test]
fn all_windows_failing_is_an_error() {
    match successful_windows(vec![(0, None), (1, None)]) {
        Err(guide::error::GuideError::Internal(m)) => assert_eq!(m, "All chapter extractions failed"),
        _ => panic!("expected an error"),
    }
    assert!(successful_windows(vec![]).is_err());
}
