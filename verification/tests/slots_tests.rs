use guide::error::GuideError;
use guide::sheet::SpellSlot;
use guide::slots::{restore_spell_slots, spend_spell_slot};

fn slot(level: i32, total: i32, remaining: i32) -> SpellSlot {
    SpellSlot { level, total, remaining }
}

fn view(v: &[SpellSlot]) -> Vec<(i32, i32, i32)> {
    v.iter().map(|s| (s.level, s.total, s.remaining)).collect()
}

#[test]
fn spending_takes_one_use_of_that_level() {
    let slots = vec![slot(1, 4, 4), slot(2, 3, 1), slot(3, 2, 2)];
    let after = spend_spell_slot(&slots, 2).unwrap();
    assert_eq!(view(&after), vec![(1, 4, 4), (2, 3, 0), (3, 2, 2)]);
    let again = spend_spell_slot(&after, 2).unwrap();
    assert_eq!(view(&again), vec![(1, 4, 4), (2, 3, 0), (3, 2, 2)]);
}

#[test]
fn spending_uses_the_first_slot_of_a_level() {
    let slots = vec![slot(1, 2, 2), slot(1, 5, 5)];
    let after = spend_spell_slot(&slots, 1).unwrap();
    assert_eq!(view(&after), vec![(1, 2, 1), (1, 5, 5)]);
}

#[test]
fn spending_a_missing_level_fails() {
    let slots = vec![slot(1, 4, 4)];
    match spend_spell_slot(&slots, 5) {
        Err(GuideError::InvalidInput(m)) => assert_eq!(m, "No spell slot at level 5"),
        _ => panic!("expected InvalidInput"),
    }
    match spend_spell_slot(&slots, -3) {
        Err(GuideError::InvalidInput(m)) => assert_eq!(m, "No spell slot at level -3"),
        _ => panic!("expected InvalidInput"),
    }
}

#[test]
fn full_rest_refills_all_slots() {
    let slots = vec![slot(1, 4, 0), slot(2, 3, 1), slot(3, 2, 2)];
    let after = restore_spell_slots(&slots, None).unwrap();
    assert_eq!(view(&after), vec![(1, 4, 4), (2, 3, 3), (3, 2, 2)]);
}

#[test]
fn resting_one_level_refills_only_it() {
    let slots = vec![slot(1, 4, 0), slot(2, 3, 1)];
    let after = restore_spell_slots(&slots, Some(2)).unwrap();
    assert_eq!(view(&after), vec![(1, 4, 0), (2, 3, 3)]);
    match restore_spell_slots(&slots, Some(9)) {
        Err(GuideError::InvalidInput(m)) => assert_eq!(m, "No spell slot at level 9"),
        _ => panic!("expected InvalidInput"),
    }
}

#[test]
fn rest_after_spend_matches_rest_alone() {
    let slots = vec![slot(1, 4, 2), slot(2, 3, 3)];
    let spent = spend_spell_slot(&slots, 1).unwrap();
    let a = restore_spell_slots(&spent, Some(1)).unwrap();
    let b = restore_spell_slots(&slots, Some(1)).unwrap();
    assert_eq!(view(&a), view(&b));
}
