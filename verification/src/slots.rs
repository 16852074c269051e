//! Spending and restoring a character's spell slots.
use vstd::prelude::*;
use crate::agent::{decimal, decimal_exec};
use crate::error::GuideError;
use crate::sheet::SpellSlot;
use crate::text::{append_all, chars_of, string_of};

verus! {

/// Position of the first slot of `level`, or -1 when there is none.
pub open spec fn slot_index(slots: Seq<SpellSlot>, level: i32) -> int
    decreases slots.len(),
{
    if slots.len() == 0 {
        -1
    } else if slots[0].level == level {
        0
    } else {
        let j = slot_index(slots.drop_first(), level);
        if j < 0 {
            -1
        } else {
            j + 1
        }
    }
}

/// A slot after one use: one fewer remaining, never below zero.
pub open spec fn spent(s: SpellSlot) -> SpellSlot {
    SpellSlot {
        level: s.level,
        total: s.total,
        remaining: if s.remaining - 1 > 0 {
            (s.remaining - 1) as i32
        } else {
            0
        },
    }
}

/// A slot refilled to its total.
pub open spec fn refilled(s: SpellSlot) -> SpellSlot {
    SpellSlot { level: s.level, total: s.total, remaining: s.total }
}

/// The slots after casting a spell of `level`: the first slot of that
/// level is spent; `None` when there is no slot of that level.
pub open spec fn spend_spec(slots: Seq<SpellSlot>, level: i32) -> Option<Seq<SpellSlot>> {
    let i = slot_index(slots, level);
    if i < 0 {
        None
    } else {
        Some(slots.update(i, spent(slots[i])))
    }
}

/// The slots after a rest: all refilled (`level` is `None`), or the first
/// slot of `level`; `None` when there is no slot of that level.
pub open spec fn restore_spec(slots: Seq<SpellSlot>, level: Option<i32>) -> Option<Seq<SpellSlot>> {
    match level {
        None => Some(slots.map_values(|s: SpellSlot| refilled(s))),
        Some(l) => {
            let i = slot_index(slots, l);
            if i < 0 {
                None
            } else {
                Some(slots.update(i, refilled(slots[i])))
            }
        },
    }
}

/// A signed integer in decimal.
pub open spec fn signed_decimal(n: i32) -> Seq<char> {
    if n < 0 {
        seq!['-'] + decimal((-n) as nat)
    } else {
        decimal(n as nat)
    }
}

/// The message of the error for a missing slot level.
pub open spec fn no_slot_message(level: i32) -> Seq<char> {
    "No spell slot at level "@ + signed_decimal(level)
}

proof fn lemma_slot_index(slots: Seq<SpellSlot>, level: i32)
    ensures
        -1 <= slot_index(slots, level) < slots.len(),
        slot_index(slots, level) >= 0 ==> slots[slot_index(slots, level)].level == level,
        forall|j: int| 0 <= j < slot_index(slots, level) ==> (#[trigger] slots[j]).level != level,
        slot_index(slots, level) < 0 ==> forall|j: int| 0 <= j < slots.len() ==> (#[trigger] slots[j]).level != level,
    decreases slots.len(),
{
    if slots.len() > 0 && slots[0].level != level {
        let t = slots.drop_first();
        lemma_slot_index(t, level);
        assert forall|j: int| 0 < j < slots.len() implies #[trigger] slots[j] == t[j - 1] by {}
    }
}

fn find_slot(slots: &[SpellSlot], level: i32) -> (r: Option<usize>)
    ensures
        match r {
            Some(i) => i < slots.len() && i as int == slot_index(slots@, level),
            None => slot_index(slots@, level) < 0,
        },
{
    proof {
        lemma_slot_index(slots@, level);
    }
    let mut i: usize = 0;
    while i < slots.len()
        invariant
            i <= slots.len(),
            forall|j: int| 0 <= j < i ==> (#[trigger] slots@[j]).level != level,
            -1 <= slot_index(slots@, level) < slots@.len(),
            slot_index(slots@, level) >= 0 ==> slots@[slot_index(slots@, level)].level == level,
            forall|j: int| 0 <= j < slot_index(slots@, level) ==> (#[trigger] slots@[j]).level != level,
            slot_index(slots@, level) < 0 ==> forall|j: int| 0 <= j < slots@.len() ==> (#[trigger] slots@[j]).level != level,
        decreases slots.len() - i,
    {
        if slots[i].level == level {
            assert(slots@[i as int].level == level);
            return Some(i);
        }
        i = i + 1;
    }
    None
}

fn signed_decimal_exec(n: i32) -> (r: Vec<char>)
    ensures
        r@ == signed_decimal(n),
{
    if n < 0 {
        let m: u32 = if n == i32::MIN {
            2147483648
        } else {
            (-n) as u32
        };
        let mut r = vec!['-'];
        append_all(&mut r, &decimal_exec(m));
        r
    } else {
        decimal_exec(n as u32)
    }
}

fn copy_slots(slots: &[SpellSlot]) -> (r: Vec<SpellSlot>)
    ensures
        r@ == slots@,
{
    let mut r: Vec<SpellSlot> = Vec::new();
    let mut i: usize = 0;
    while i < slots.len()
        invariant
            i <= slots.len(),
            r@ == slots@.take(i as int),
        decreases slots.len() - i,
    {
        r.push(slots[i]);
        assert(r@ =~= slots@.take(i + 1));
        i = i + 1;
    }
    assert(slots@.take(i as int) =~= slots@);
    r
}

fn no_slot_error(level: i32) -> (e: GuideError)
    ensures
        e matches GuideError::InvalidInput(m) && m@ == no_slot_message(level),
{
    let mut v = chars_of("No spell slot at level ");
    append_all(&mut v, &signed_decimal_exec(level));
    GuideError::InvalidInput(string_of(&v))
}

/// Casting a spell of `level`: the first slot of that level loses one use,
/// never going below zero. A missing level is an `InvalidInput` error.
pub fn spend_spell_slot(slots: &[SpellSlot], level: i32) -> (r: Result<Vec<SpellSlot>, GuideError>)
    requires
        slot_index(slots@, level) >= 0 ==> slots@[slot_index(slots@, level)].remaining > i32::MIN,
    ensures
        match r {
            Ok(v) => spend_spec(slots@, level) == Some(v@),
            Err(e) => {
                &&& spend_spec(slots@, level) is None
                &&& e matches GuideError::InvalidInput(m) && m@ == no_slot_message(level)
            },
        },
{
    let i = match find_slot(slots, level) {
        Some(i) => i,
        None => return Err(no_slot_error(level)),
    };
    let mut v: Vec<SpellSlot> = copy_slots(slots);
    let s = slots[i];
    let remaining: i32 = if s.remaining - 1 > 0 { s.remaining - 1 } else { 0 };
    v.set(i, SpellSlot { level: s.level, total: s.total, remaining });
    assert(v@ =~= slots@.update(i as int, spent(slots@[i as int])));
    Ok(v)
}

/// A rest: with no level every slot is refilled to its total; with a level
/// the first slot of that level is. A missing level is an `InvalidInput`
/// error.
pub fn restore_spell_slots(slots: &[SpellSlot], level: Option<i32>) -> (r: Result<Vec<SpellSlot>, GuideError>)
    ensures
        match r {
            Ok(v) => restore_spec(slots@, level) == Some(v@),
            Err(e) => {
                &&& restore_spec(slots@, level) is None
                &&& level is Some
                &&& e matches GuideError::InvalidInput(m) && m@ == no_slot_message(level->0)
            },
        },
{
    match level {
        None => {
            let mut v: Vec<SpellSlot> = Vec::new();
            let mut i: usize = 0;
            while i < slots.len()
                invariant
                    i <= slots.len(),
                    v@ == slots@.take(i as int).map_values(|s: SpellSlot| refilled(s)),
                decreases slots.len() - i,
            {
                let s = slots[i];
                v.push(SpellSlot { level: s.level, total: s.total, remaining: s.total });
                assert(v@ =~= slots@.take(i + 1).map_values(|s: SpellSlot| refilled(s)));
                i = i + 1;
            }
            assert(slots@.take(i as int) =~= slots@);
            Ok(v)
        },
        Some(l) => {
            let i = match find_slot(slots, l) {
                Some(i) => i,
                None => return Err(no_slot_error(l)),
            };
            let mut v: Vec<SpellSlot> = copy_slots(slots);
            let s = slots[i];
            v.set(i, SpellSlot { level: s.level, total: s.total, remaining: s.total });
            assert(v@ =~= slots@.update(i as int, refilled(slots@[i as int])));
            Ok(v)
        },
    }
}

// ───────────────────────────── laws ─────────────────────────────

/// Casting and then resting that level leaves the slots as resting alone
/// would: the spent slot is full again and nothing else changed.
pub proof fn rest_undoes_spend(slots: Seq<SpellSlot>, level: i32)
    requires
        spend_spec(slots, level) is Some,
    ensures
        restore_spec(spend_spec(slots, level)->0, Some(level)) == restore_spec(slots, Some(level)),
{
    let i = slot_index(slots, level);
    let t = spend_spec(slots, level)->0;
    lemma_slot_index(slots, level);
    lemma_slot_index(t, level);
    assert forall|j: int| 0 <= j < slots.len() implies (#[trigger] t[j]).level == slots[j].level by {}
    let k = slot_index(t, level);
    assert(k == i) by {
        if 0 <= k < i {
            assert(t[k].level == slots[k].level);
        } else if k < 0 || k > i {
            assert(t[i].level == level);
        }
    }
    assert(t.update(i, refilled(t[i])) =~= slots.update(i, refilled(slots[i])));
}

/// Casting takes one use from the first slot of the level, leaves a slot
/// with no uses at zero, and changes no other slot.
pub proof fn spend_takes_one_use(slots: Seq<SpellSlot>, level: i32)
    requires
        spend_spec(slots, level) is Some,
    ensures
        ({
            let t = spend_spec(slots, level)->0;
            let i = slot_index(slots, level);
            &&& t.len() == slots.len()
            &&& 0 <= i < slots.len()
            &&& t[i].level == level && t[i].total == slots[i].total
            &&& t[i].remaining >= 0
            &&& slots[i].remaining > 0 ==> t[i].remaining == slots[i].remaining - 1
            &&& slots[i].remaining <= 0 ==> t[i].remaining == 0
            &&& forall|j: int| 0 <= j < slots.len() && j != i ==> t[j] == slots[j]
        }),
{
    lemma_slot_index(slots, level);
}

/// After a full rest every slot has all its uses, with levels and totals
/// unchanged.
pub proof fn full_rest_refills_every_slot(slots: Seq<SpellSlot>)
    ensures
        ({
            let t = restore_spec(slots, None)->0;
            &&& restore_spec(slots, None) is Some
            &&& t.len() == slots.len()
            &&& forall|j: int| 0 <= j < t.len() ==> (#[trigger] t[j]).remaining == t[j].total
                && t[j].level == slots[j].level && t[j].total == slots[j].total
        }),
{
}

/// Casting or resting a level fails exactly when no slot has that level.
pub proof fn missing_level_fails(slots: Seq<SpellSlot>, level: i32)
    ensures
        spend_spec(slots, level) is None <==> forall|j: int| 0 <= j < slots.len() ==> (#[trigger] slots[j]).level != level,
        restore_spec(slots, Some(level)) is None <==> forall|j: int| 0 <= j < slots.len() ==> (#[trigger] slots[j]).level != level,
{
    lemma_slot_index(slots, level);
    if slot_index(slots, level) >= 0 {
        assert(slots[slot_index(slots, level)].level == level);
    }
}

} // verus!
