//! Merging the character-sheet readings of several OCR'd pages into one
//! sheet, and the coercion of loosely typed JSON values read from a model.
use vstd::prelude::*;
use crate::numparse::{parse_i32, parse_i32_spec};
use crate::sheet::{AbilityScores, ParsedSheetResult, SavingThrows, SkillScores, SpellSlot};
use crate::split::{chars_eq, vs};
use crate::text::{chars_of, opt_str, string_of, trim, trimmed};

verus! {

/// What the vision model read from one page of a character sheet.
pub struct OcrSheet {
    pub name: String,
    pub class_name: String,
    pub race: String,
    pub background: String,
    pub level: i32,
    pub experience_points: i32,
    pub ability_scores: AbilityScores,
    pub saving_throws: SavingThrows,
    pub skills: SkillScores,
    pub max_hp: i32,
    pub armor_class: i32,
    pub speed: i32,
    pub hit_dice: String,
    pub proficiencies: Vec<String>,
    pub languages: Vec<String>,
    pub features_and_traits: Vec<String>,
    pub equipment: Vec<String>,
    pub personality_traits: String,
    pub ideals: String,
    pub bonds: String,
    pub flaws: String,
    pub spell_slots: Vec<SpellSlot>,
    pub backstory_text: String,
}

/// The text fields of a page reading.
#[derive(Clone, Copy)]
pub enum TextField {
    Name,
    Class,
    Race,
    Background,
    HitDice,
    PersonalityTraits,
    Ideals,
    Bonds,
    Flaws,
    Backstory,
}

pub open spec fn text_of(p: OcrSheet, f: TextField) -> Seq<char> {
    match f {
        TextField::Name => p.name@,
        TextField::Class => p.class_name@,
        TextField::Race => p.race@,
        TextField::Background => p.background@,
        TextField::HitDice => p.hit_dice@,
        TextField::PersonalityTraits => p.personality_traits@,
        TextField::Ideals => p.ideals@,
        TextField::Bonds => p.bonds@,
        TextField::Flaws => p.flaws@,
        TextField::Backstory => p.backstory_text@,
    }
}

fn text_ref(p: &OcrSheet, f: TextField) -> (r: &String)
    ensures
        r@ == text_of(*p, f),
{
    match f {
        TextField::Name => &p.name,
        TextField::Class => &p.class_name,
        TextField::Race => &p.race,
        TextField::Background => &p.background,
        TextField::HitDice => &p.hit_dice,
        TextField::PersonalityTraits => &p.personality_traits,
        TextField::Ideals => &p.ideals,
        TextField::Bonds => &p.bonds,
        TextField::Flaws => &p.flaws,
        TextField::Backstory => &p.backstory_text,
    }
}

/// The first non-empty value of a text field over the pages.
pub open spec fn first_text(pages: Seq<OcrSheet>, f: TextField) -> Option<Seq<char>>
    decreases pages.len(),
{
    if pages.len() == 0 {
        None
    } else if text_of(pages[0], f).len() > 0 {
        Some(text_of(pages[0], f))
    } else {
        first_text(pages.drop_first(), f)
    }
}

fn first_text_exec(pages: &[OcrSheet], f: TextField) -> (r: Option<String>)
    ensures
        opt_str(r) == first_text(pages@, f),
{
    let mut i: usize = 0;
    assert(pages@.skip(0) =~= pages@);
    while i < pages.len()
        invariant
            i <= pages.len(),
            first_text(pages@, f) == first_text(pages@.skip(i as int), f),
        decreases pages.len() - i,
    {
        assert(pages@.skip(i as int)[0] == pages@[i as int]);
        let v = chars_of(text_ref(&pages[i], f).as_str());
        if v.len() > 0 {
            return Some(string_of(&v));
        }
        assert(pages@.skip(i as int).drop_first() =~= pages@.skip(i + 1));
        i = i + 1;
    }
    None
}

/// The integer fields of a page reading.
#[derive(Clone, Copy)]
pub enum IntField {
    Level,
    MaxHp,
    ArmorClass,
    Speed,
    ExperiencePoints,
}

pub open spec fn int_of(p: OcrSheet, f: IntField) -> i32 {
    match f {
        IntField::Level => p.level,
        IntField::MaxHp => p.max_hp,
        IntField::ArmorClass => p.armor_class,
        IntField::Speed => p.speed,
        IntField::ExperiencePoints => p.experience_points,
    }
}

fn int_exec(p: &OcrSheet, f: IntField) -> (r: i32)
    ensures
        r == int_of(*p, f),
{
    match f {
        IntField::Level => p.level,
        IntField::MaxHp => p.max_hp,
        IntField::ArmorClass => p.armor_class,
        IntField::Speed => p.speed,
        IntField::ExperiencePoints => p.experience_points,
    }
}

/// The first non-zero value of an integer field over the pages.
pub open spec fn first_int(pages: Seq<OcrSheet>, f: IntField) -> Option<i32>
    decreases pages.len(),
{
    if pages.len() == 0 {
        None
    } else if int_of(pages[0], f) != 0 {
        Some(int_of(pages[0], f))
    } else {
        first_int(pages.drop_first(), f)
    }
}

fn first_int_exec(pages: &[OcrSheet], f: IntField) -> (r: Option<i32>)
    ensures
        r == first_int(pages@, f),
{
    let mut i: usize = 0;
    assert(pages@.skip(0) =~= pages@);
    while i < pages.len()
        invariant
            i <= pages.len(),
            first_int(pages@, f) == first_int(pages@.skip(i as int), f),
        decreases pages.len() - i,
    {
        assert(pages@.skip(i as int)[0] == pages@[i as int]);
        let v = int_exec(&pages[i], f);
        if v != 0 {
            return Some(v);
        }
        assert(pages@.skip(i as int).drop_first() =~= pages@.skip(i + 1));
        i = i + 1;
    }
    None
}

/// The list fields of a page reading.
#[derive(Clone, Copy)]
pub enum ListField {
    Proficiencies,
    Languages,
    Features,
    Equipment,
}

pub open spec fn list_of(p: OcrSheet, f: ListField) -> Seq<Seq<char>> {
    match f {
        ListField::Proficiencies => p.proficiencies@.map_values(|s: String| s@),
        ListField::Languages => p.languages@.map_values(|s: String| s@),
        ListField::Features => p.features_and_traits@.map_values(|s: String| s@),
        ListField::Equipment => p.equipment@.map_values(|s: String| s@),
    }
}

fn list_ref(p: &OcrSheet, f: ListField) -> (r: &Vec<String>)
    ensures
        r@.map_values(|s: String| s@) == list_of(*p, f),
{
    match f {
        ListField::Proficiencies => &p.proficiencies,
        ListField::Languages => &p.languages,
        ListField::Features => &p.features_and_traits,
        ListField::Equipment => &p.equipment,
    }
}

/// The items of a list field over all pages, in order.
pub open spec fn all_items(pages: Seq<OcrSheet>, f: ListField) -> Seq<Seq<char>>
    decreases pages.len(),
{
    if pages.len() == 0 {
        Seq::empty()
    } else {
        all_items(pages.drop_last(), f) + list_of(pages.last(), f)
    }
}

/// `s` without repeats: the first occurrence of each item, in order.
pub open spec fn first_of_each(s: Seq<Seq<char>>) -> Seq<Seq<char>>
    decreases s.len(),
{
    if s.len() == 0 {
        Seq::empty()
    } else {
        let prev = first_of_each(s.drop_last());
        if prev.contains(s.last()) {
            prev
        } else {
            prev.push(s.last())
        }
    }
}

fn merge_list(pages: &[OcrSheet], f: ListField) -> (r: Vec<String>)
    ensures
        r@.map_values(|s: String| s@) == first_of_each(all_items(pages@, f)),
{
    let mut out: Vec<Vec<char>> = Vec::new();
    let ghost mut seen: Seq<Seq<char>> = Seq::empty();
    let mut i: usize = 0;
    assert(pages@.take(0) =~= Seq::<OcrSheet>::empty());
    while i < pages.len()
        invariant
            i <= pages.len(),
            seen == all_items(pages@.take(i as int), f),
            vs(out@) == first_of_each(seen),
        decreases pages.len() - i,
    {
        assert(pages@.take(i + 1).drop_last() =~= pages@.take(i as int));
        let items = list_ref(&pages[i], f);
        let ghost iv = items@.map_values(|s: String| s@);
        let mut j: usize = 0;
        let ghost base = seen;
        assert(base + iv.take(0) =~= base);
        while j < items.len()
            invariant
                j <= items.len(),
                iv == items@.map_values(|s: String| s@),
                seen == base + iv.take(j as int),
                vs(out@) == first_of_each(seen),
            decreases items.len() - j,
        {
            let x = chars_of(items[j].as_str());
            assert(iv[j as int] == x@);
            let mut found = false;
            let mut k: usize = 0;
            while k < out.len()
                invariant
                    k <= out.len(),
                    found == exists|m: int| 0 <= m < k && vs(out@)[m] == x@,
                decreases out.len() - k,
            {
                assert(vs(out@)[k as int] == out@[k as int]@);
                if chars_eq(&out[k], &x) {
                    found = true;
                }
                k = k + 1;
            }
            proof {
                if found {
                    let m = choose|m: int| 0 <= m < k && vs(out@)[m] == x@;
                    assert(vs(out@).contains(x@));
                } else {
                    assert(!vs(out@).contains(x@));
                }
                assert((base + iv.take(j + 1)).drop_last() =~= base + iv.take(j as int));
                assert((base + iv.take(j + 1)).last() == x@);
            }
            if !found {
                proof {
                    crate::split::lemma_vs_push(out@, x);
                }
                out.push(x);
            }
            proof {
                seen = base + iv.take(j + 1);
            }
            j = j + 1;
        }
        assert(iv.take(j as int) =~= iv);
        assert(iv == list_of(pages@[i as int], f));
        assert(pages@.take(i + 1).last() == pages@[i as int]);
        i = i + 1;
    }
    assert(pages@.take(i as int) =~= pages@);
    crate::sheet::strings_of(&out)
}


/// The first page with a non-zero strength or dexterity.
pub open spec fn first_abilities(pages: Seq<OcrSheet>) -> Option<AbilityScores>
    decreases pages.len(),
{
    if pages.len() == 0 {
        None
    } else if pages[0].ability_scores.strength != 0 || pages[0].ability_scores.dexterity != 0 {
        Some(pages[0].ability_scores)
    } else {
        first_abilities(pages.drop_first())
    }
}

/// The first page with a strength, dexterity or constitution save.
pub open spec fn first_saves(pages: Seq<OcrSheet>) -> Option<SavingThrows>
    decreases pages.len(),
{
    if pages.len() == 0 {
        None
    } else if pages[0].saving_throws.strength is Some || pages[0].saving_throws.dexterity is Some
        || pages[0].saving_throws.constitution is Some {
        Some(pages[0].saving_throws)
    } else {
        first_saves(pages.drop_first())
    }
}

/// The first page with an acrobatics or perception skill.
pub open spec fn first_skills(pages: Seq<OcrSheet>) -> Option<SkillScores>
    decreases pages.len(),
{
    if pages.len() == 0 {
        None
    } else if pages[0].skills.acrobatics is Some || pages[0].skills.perception is Some {
        Some(pages[0].skills)
    } else {
        first_skills(pages.drop_first())
    }
}

/// The spell slots of the first page that has any.
pub open spec fn first_slots(pages: Seq<OcrSheet>) -> Seq<SpellSlot>
    decreases pages.len(),
{
    if pages.len() == 0 {
        Seq::empty()
    } else if pages[0].spell_slots@.len() > 0 {
        pages[0].spell_slots@
    } else {
        first_slots(pages.drop_first())
    }
}

pub open spec fn or_zero(o: Option<i32>) -> i32 {
    match o {
        Some(x) => x,
        None => 0,
    }
}

/// The sheet merged from page readings: text fields from the first page
/// that has them ("Unknown" for a missing name), numbers from the first
/// page with a non-zero value (level and hit points at least 1, armour class
/// 10 and speed 30 when missing), ability scores, saves, skills and spell
/// slots from the first page that has them, and lists concatenated without
/// repeats.
pub open spec fn ocr_merged(p: ParsedSheetResult, pages: Seq<OcrSheet>) -> bool {
    let level = or_zero(first_int(pages, IntField::Level));
    let hp = or_zero(first_int(pages, IntField::MaxHp));
    let ac = or_zero(first_int(pages, IntField::ArmorClass));
    let sp = or_zero(first_int(pages, IntField::Speed));
    &&& p.name@ == match first_text(pages, TextField::Name) {
        Some(n) => n,
        None => "Unknown"@,
    }
    &&& opt_str(p.class) == first_text(pages, TextField::Class)
    &&& opt_str(p.race) == first_text(pages, TextField::Race)
    &&& opt_str(p.background) == first_text(pages, TextField::Background)
    &&& opt_str(p.hit_dice) == first_text(pages, TextField::HitDice)
    &&& opt_str(p.personality_traits) == first_text(pages, TextField::PersonalityTraits)
    &&& opt_str(p.ideals) == first_text(pages, TextField::Ideals)
    &&& opt_str(p.bonds) == first_text(pages, TextField::Bonds)
    &&& opt_str(p.flaws) == first_text(pages, TextField::Flaws)
    &&& opt_str(p.backstory_text) == first_text(pages, TextField::Backstory)
    &&& p.level == (if level < 1 { 1 } else { level })
    &&& p.max_hp == (if hp < 1 { 1 } else { hp })
    &&& p.armor_class == (if ac == 0 { 10 } else { ac })
    &&& p.speed == (if sp == 0 { 30 } else { sp })
    &&& p.experience_points == first_int(pages, IntField::ExperiencePoints)
    &&& p.ability_scores == match first_abilities(pages) {
        Some(a) => a,
        None => AbilityScores { strength: 0, dexterity: 0, constitution: 0, intelligence: 0, wisdom: 0, charisma: 0 },
    }
    &&& p.saving_throws == first_saves(pages)
    &&& p.skills == first_skills(pages)
    &&& p.spell_slots@ == first_slots(pages)
    &&& p.proficiencies@.map_values(|s: String| s@) == first_of_each(all_items(pages, ListField::Proficiencies))
    &&& p.languages@.map_values(|s: String| s@) == first_of_each(all_items(pages, ListField::Languages))
    &&& p.features_and_traits@.map_values(|s: String| s@) == first_of_each(all_items(pages, ListField::Features))
    &&& p.equipment@.map_values(|s: String| s@) == first_of_each(all_items(pages, ListField::Equipment))
    &&& p.raw_extracted_text@.len() == 0
    &&& p.key_fields == 0
}

fn first_abilities_exec(pages: &[OcrSheet]) -> (r: Option<AbilityScores>)
    ensures
        r == first_abilities(pages@),
{
    let mut i: usize = 0;
    assert(pages@.skip(0) =~= pages@);
    while i < pages.len()
        invariant
            i <= pages.len(),
            first_abilities(pages@) == first_abilities(pages@.skip(i as int)),
        decreases pages.len() - i,
    {
        assert(pages@.skip(i as int)[0] == pages@[i as int]);
        let a = pages[i].ability_scores;
        if a.strength != 0 || a.dexterity != 0 {
            return Some(a);
        }
        assert(pages@.skip(i as int).drop_first() =~= pages@.skip(i + 1));
        i = i + 1;
    }
    None
}

fn first_saves_exec(pages: &[OcrSheet]) -> (r: Option<SavingThrows>)
    ensures
        r == first_saves(pages@),
{
    let mut i: usize = 0;
    assert(pages@.skip(0) =~= pages@);
    while i < pages.len()
        invariant
            i <= pages.len(),
            first_saves(pages@) == first_saves(pages@.skip(i as int)),
        decreases pages.len() - i,
    {
        assert(pages@.skip(i as int)[0] == pages@[i as int]);
        let t = pages[i].saving_throws;
        if t.strength.is_some() || t.dexterity.is_some() || t.constitution.is_some() {
            return Some(t);
        }
        assert(pages@.skip(i as int).drop_first() =~= pages@.skip(i + 1));
        i = i + 1;
    }
    None
}

fn first_skills_exec(pages: &[OcrSheet]) -> (r: Option<SkillScores>)
    ensures
        r == first_skills(pages@),
{
    let mut i: usize = 0;
    assert(pages@.skip(0) =~= pages@);
    while i < pages.len()
        invariant
            i <= pages.len(),
            first_skills(pages@) == first_skills(pages@.skip(i as int)),
        decreases pages.len() - i,
    {
        assert(pages@.skip(i as int)[0] == pages@[i as int]);
        let t = pages[i].skills;
        if t.acrobatics.is_some() || t.perception.is_some() {
            return Some(t);
        }
        assert(pages@.skip(i as int).drop_first() =~= pages@.skip(i + 1));
        i = i + 1;
    }
    None
}

fn first_slots_exec(pages: &[OcrSheet]) -> (r: Vec<SpellSlot>)
    ensures
        r@ == first_slots(pages@),
{
    let mut i: usize = 0;
    assert(pages@.skip(0) =~= pages@);
    while i < pages.len()
        invariant
            i <= pages.len(),
            first_slots(pages@) == first_slots(pages@.skip(i as int)),
        decreases pages.len() - i,
    {
        assert(pages@.skip(i as int)[0] == pages@[i as int]);
        if pages[i].spell_slots.len() > 0 {
            let src = &pages[i].spell_slots;
            let mut out: Vec<SpellSlot> = Vec::new();
            let mut j: usize = 0;
            while j < src.len()
                invariant
                    j <= src.len(),
                    out@ == src@.take(j as int),
                decreases src.len() - j,
            {
                out.push(src[j]);
                assert(src@.take(j + 1) =~= src@.take(j as int).push(src@[j as int]));
                j = j + 1;
            }
            assert(src@.take(j as int) =~= src@);
            return out;
        }
        assert(pages@.skip(i as int).drop_first() =~= pages@.skip(i + 1));
        i = i + 1;
    }
    Vec::new()
}

proof fn lemma_first_int_nonzero(pages: Seq<OcrSheet>, f: IntField)
    ensures
        first_int(pages, f) matches Some(x) ==> x != 0,
    decreases pages.len(),
{
    if pages.len() > 0 && int_of(pages[0], f) == 0 {
        lemma_first_int_nonzero(pages.drop_first(), f);
    }
}

/// Merges the readings of the pages of a character sheet. An error when
/// no page could be read.
pub fn merge_ocr_sheets(pages: &[OcrSheet]) -> (r: Result<ParsedSheetResult, crate::error::GuideError>)
    ensures
        r is Err <==> pages@.len() == 0,
        r matches Err(e) ==> (e matches crate::error::GuideError::PdfProcessing(m) && m@
            == "OCR produced no parseable results from any page"@),
        r matches Ok(p) ==> ocr_merged(p, pages@),
{
    if pages.len() == 0 {
        return Err(
            crate::error::GuideError::PdfProcessing(
                string_of(&chars_of("OCR produced no parseable results from any page")),
            ),
        );
    }
    proof {
        lemma_first_int_nonzero(pages@, IntField::ArmorClass);
        lemma_first_int_nonzero(pages@, IntField::Speed);
    }
    let name = match first_text_exec(pages, TextField::Name) {
        Some(n) => n,
        None => string_of(&chars_of("Unknown")),
    };
    let level = match first_int_exec(pages, IntField::Level) {
        Some(x) => if x < 1 {
            1
        } else {
            x
        },
        None => 1,
    };
    let max_hp = match first_int_exec(pages, IntField::MaxHp) {
        Some(x) => if x < 1 {
            1
        } else {
            x
        },
        None => 1,
    };
    let armor_class = match first_int_exec(pages, IntField::ArmorClass) {
        Some(x) => x,
        None => 10,
    };
    let speed = match first_int_exec(pages, IntField::Speed) {
        Some(x) => x,
        None => 30,
    };
    let ability_scores = match first_abilities_exec(pages) {
        Some(a) => a,
        None => AbilityScores { strength: 0, dexterity: 0, constitution: 0, intelligence: 0, wisdom: 0, charisma: 0 },
    };
    Ok(ParsedSheetResult {
        name,
        class: first_text_exec(pages, TextField::Class),
        race: first_text_exec(pages, TextField::Race),
        level,
        max_hp,
        armor_class,
        speed,
        ability_scores,
        backstory_text: first_text_exec(pages, TextField::Backstory),
        raw_extracted_text: String::new(),
        key_fields: 0,
        background: first_text_exec(pages, TextField::Background),
        experience_points: first_int_exec(pages, IntField::ExperiencePoints),
        hit_dice: first_text_exec(pages, TextField::HitDice),
        saving_throws: first_saves_exec(pages),
        skills: first_skills_exec(pages),
        proficiencies: merge_list(pages, ListField::Proficiencies),
        languages: merge_list(pages, ListField::Languages),
        features_and_traits: merge_list(pages, ListField::Features),
        equipment: merge_list(pages, ListField::Equipment),
        personality_traits: first_text_exec(pages, TextField::PersonalityTraits),
        ideals: first_text_exec(pages, TextField::Ideals),
        bonds: first_text_exec(pages, TextField::Bonds),
        flaws: first_text_exec(pages, TextField::Flaws),
        spell_slots: first_slots_exec(pages),
    })
}


// ───────────────────────── loosely typed JSON ─────────────────────────

/// A JSON value as read from a model's reply. A number carries its value as
/// an `i64` when it is one, and its text.
pub enum JsonValue {
    Null,
    Bool(bool),
    Number { as_i64: Option<i64>, text: String },
    Str(String),
    Array(Vec<JsonValue>),
    Object(Vec<(String, JsonValue)>),
}

/// The value under `key` in an object (the first one), `Null` when missing
/// or when `v` is not an object.
pub open spec fn member(v: JsonValue, key: Seq<char>) -> JsonValue {
    match v {
        JsonValue::Object(m) => member_of(m@, key),
        _ => JsonValue::Null,
    }
}

pub open spec fn member_of(m: Seq<(String, JsonValue)>, key: Seq<char>) -> JsonValue
    decreases m.len(),
{
    if m.len() == 0 {
        JsonValue::Null
    } else if m[0].0@ == key {
        m[0].1
    } else {
        member_of(m.drop_first(), key)
    }
}

fn member_ref<'a>(v: &'a JsonValue, key: &str) -> (r: Option<&'a JsonValue>)
    ensures
        match r {
            Some(x) => *x == member(*v, key@),
            None => member(*v, key@) == JsonValue::Null,
        },
{
    match v {
        JsonValue::Object(m) => {
            let k = chars_of(key);
            let mut i: usize = 0;
            assert(m@.skip(0) =~= m@);
            while i < m.len()
                invariant
                    i <= m.len(),
                    k@ == key@,
                    *v == JsonValue::Object(*m),
                    member_of(m@, key@) == member_of(m@.skip(i as int), key@),
                decreases m.len() - i,
            {
                assert(m@.skip(i as int)[0] == m@[i as int]);
                let name = chars_of(m[i].0.as_str());
                if chars_eq(&name, &k) {
                    assert(m@[i as int].0@ == key@);
                    return Some(&m[i].1);
                }
                assert(m@.skip(i as int).drop_first() =~= m@.skip(i + 1));
                i = i + 1;
            }
            assert(m@.skip(i as int) =~= Seq::<(String, JsonValue)>::empty());
            None
        },
        _ => None,
    }
}

/// Any value as text: a string itself, a number's text, `true`/`false`;
/// otherwise empty.
pub open spec fn text_value(v: JsonValue) -> Seq<char> {
    match v {
        JsonValue::Str(s) => s@,
        JsonValue::Number { text, .. } => text@,
        JsonValue::Bool(b) => if b {
            "true"@
        } else {
            "false"@
        },
        _ => Seq::empty(),
    }
}

/// Any value as an `i32`: a number's `i64` value (truncated; 0 when not an
/// integer), a string's trimmed decimal value (0 when not one); otherwise 0.
pub open spec fn int_value(v: JsonValue) -> i32 {
    match v {
        JsonValue::Number { as_i64, .. } => match as_i64 {
            Some(x) => x as i32,
            None => 0,
        },
        JsonValue::Str(s) => match parse_i32_spec(trim(s@)) {
            Some(x) => x,
            None => 0,
        },
        _ => 0,
    }
}

/// `None` for null, else the value as an `i32`.
pub open spec fn opt_int_value(v: JsonValue) -> Option<i32> {
    match v {
        JsonValue::Null => None,
        _ => Some(int_value(v)),
    }
}

/// An array's non-empty strings and numbers (as text); empty for other values.
pub open spec fn text_items(v: JsonValue) -> Seq<Seq<char>> {
    match v {
        JsonValue::Array(items) => texts_of(items@),
        _ => Seq::empty(),
    }
}

pub open spec fn texts_of(items: Seq<JsonValue>) -> Seq<Seq<char>>
    decreases items.len(),
{
    if items.len() == 0 {
        Seq::empty()
    } else {
        let prev = texts_of(items.drop_last());
        match items.last() {
            JsonValue::Str(s) => if s@.len() > 0 {
                prev.push(s@)
            } else {
                prev
            },
            JsonValue::Number { text, .. } => prev.push(text@),
            _ => prev,
        }
    }
}

/// A value as text.
pub fn val_str(v: &JsonValue) -> (r: String)
    ensures
        r@ == text_value(*v),
{
    match v {
        JsonValue::Str(s) => string_of(&chars_of(s.as_str())),
        JsonValue::Number { text, .. } => string_of(&chars_of(text.as_str())),
        JsonValue::Bool(b) => if *b {
            string_of(&chars_of("true"))
        } else {
            string_of(&chars_of("false"))
        },
        _ => String::new(),
    }
}

/// A value as an `i32`.
pub fn val_i32(v: &JsonValue) -> (r: i32)
    ensures
        r == int_value(*v),
{
    match v {
        JsonValue::Number { as_i64, .. } => match as_i64 {
            Some(x) => *x as i32,
            None => 0,
        },
        JsonValue::Str(s) => match parse_i32(&trimmed(&chars_of(s.as_str()))) {
            Some(x) => x,
            None => 0,
        },
        _ => 0,
    }
}

/// A value as an optional `i32`: `None` only for null.
pub fn val_i32_opt(v: &JsonValue) -> (r: Option<i32>)
    ensures
        r == opt_int_value(*v),
{
    match v {
        JsonValue::Null => None,
        _ => Some(val_i32(v)),
    }
}

/// The texts of an array value.
pub fn val_str_vec(v: &JsonValue) -> (r: Vec<String>)
    ensures
        r@.map_values(|s: String| s@) == text_items(*v),
{
    match v {
        JsonValue::Array(items) => {
            let mut out: Vec<Vec<char>> = Vec::new();
            let mut i: usize = 0;
            assert(items@.take(0) =~= Seq::<JsonValue>::empty());
            while i < items.len()
                invariant
                    i <= items.len(),
                    vs(out@) == texts_of(items@.take(i as int)),
                decreases items.len() - i,
            {
                assert(items@.take(i + 1).drop_last() =~= items@.take(i as int));
                assert(items@.take(i + 1).last() == items@[i as int]);
                match &items[i] {
                    JsonValue::Str(s) => {
                        let c = chars_of(s.as_str());
                        if c.len() > 0 {
                            proof {
                                crate::split::lemma_vs_push(out@, c);
                            }
                            out.push(c);
                        }
                    },
                    JsonValue::Number { text, .. } => {
                        let c = chars_of(text.as_str());
                        proof {
                            crate::split::lemma_vs_push(out@, c);
                        }
                        out.push(c);
                    },
                    _ => {},
                }
                i = i + 1;
            }
            assert(items@.take(i as int) =~= items@);
            crate::sheet::strings_of(&out)
        },
        _ => Vec::new(),
    }
}

fn field<'a>(v: &'a JsonValue, key: &str, null: &'a JsonValue) -> (r: &'a JsonValue)
    requires
        *null == JsonValue::Null,
    ensures
        *r == member(*v, key@),
{
    match member_ref(v, key) {
        Some(x) => x,
        None => null,
    }
}


/// Ability scores read from an object value (0 where missing).
pub open spec fn abilities_value(v: JsonValue) -> AbilityScores {
    AbilityScores { strength: int_value(member(v, "strength"@)), dexterity: int_value(member(v, "dexterity"@)), constitution: int_value(member(v, "constitution"@)), intelligence: int_value(member(v, "intelligence"@)), wisdom: int_value(member(v, "wisdom"@)), charisma: int_value(member(v, "charisma"@)) }
}

/// Saving throws read from an object value (`None` where null or missing).
pub open spec fn saves_value(v: JsonValue) -> SavingThrows {
    SavingThrows { strength: opt_int_value(member(v, "strength"@)), dexterity: opt_int_value(member(v, "dexterity"@)), constitution: opt_int_value(member(v, "constitution"@)), intelligence: opt_int_value(member(v, "intelligence"@)), wisdom: opt_int_value(member(v, "wisdom"@)), charisma: opt_int_value(member(v, "charisma"@)) }
}

/// Skills read from an object value (`None` where null or missing).
pub open spec fn skills_value(v: JsonValue) -> SkillScores {
    SkillScores { acrobatics: opt_int_value(member(v, "acrobatics"@)), animal_handling: opt_int_value(member(v, "animal_handling"@)), arcana: opt_int_value(member(v, "arcana"@)), athletics: opt_int_value(member(v, "athletics"@)), deception: opt_int_value(member(v, "deception"@)), history: opt_int_value(member(v, "history"@)), insight: opt_int_value(member(v, "insight"@)), intimidation: opt_int_value(member(v, "intimidation"@)), investigation: opt_int_value(member(v, "investigation"@)), medicine: opt_int_value(member(v, "medicine"@)), nature: opt_int_value(member(v, "nature"@)), perception: opt_int_value(member(v, "perception"@)), performance: opt_int_value(member(v, "performance"@)), persuasion: opt_int_value(member(v, "persuasion"@)), religion: opt_int_value(member(v, "religion"@)), sleight_of_hand: opt_int_value(member(v, "sleight_of_hand"@)), stealth: opt_int_value(member(v, "stealth"@)), survival: opt_int_value(member(v, "survival"@)) }
}

/// Reads ability scores.
pub fn parse_ability_scores(v: &JsonValue) -> (r: AbilityScores)
    ensures
        r == abilities_value(*v),
{
    let null = JsonValue::Null;
    AbilityScores {
        strength: val_i32(field(v, "strength", &null)),
        dexterity: val_i32(field(v, "dexterity", &null)),
        constitution: val_i32(field(v, "constitution", &null)),
        intelligence: val_i32(field(v, "intelligence", &null)),
        wisdom: val_i32(field(v, "wisdom", &null)),
        charisma: val_i32(field(v, "charisma", &null)),
    }
}

/// Reads saving throws.
pub fn parse_saving_throws(v: &JsonValue) -> (r: SavingThrows)
    ensures
        r == saves_value(*v),
{
    let null = JsonValue::Null;
    SavingThrows {
        strength: val_i32_opt(field(v, "strength", &null)),
        dexterity: val_i32_opt(field(v, "dexterity", &null)),
        constitution: val_i32_opt(field(v, "constitution", &null)),
        intelligence: val_i32_opt(field(v, "intelligence", &null)),
        wisdom: val_i32_opt(field(v, "wisdom", &null)),
        charisma: val_i32_opt(field(v, "charisma", &null)),
    }
}

/// Reads skills.
pub fn parse_skill_scores(v: &JsonValue) -> (r: SkillScores)
    ensures
        r == skills_value(*v),
{
    let null = JsonValue::Null;
    SkillScores {
        acrobatics: val_i32_opt(field(v, "acrobatics", &null)),
        animal_handling: val_i32_opt(field(v, "animal_handling", &null)),
        arcana: val_i32_opt(field(v, "arcana", &null)),
        athletics: val_i32_opt(field(v, "athletics", &null)),
        deception: val_i32_opt(field(v, "deception", &null)),
        history: val_i32_opt(field(v, "history", &null)),
        insight: val_i32_opt(field(v, "insight", &null)),
        intimidation: val_i32_opt(field(v, "intimidation", &null)),
        investigation: val_i32_opt(field(v, "investigation", &null)),
        medicine: val_i32_opt(field(v, "medicine", &null)),
        nature: val_i32_opt(field(v, "nature", &null)),
        perception: val_i32_opt(field(v, "perception", &null)),
        performance: val_i32_opt(field(v, "performance", &null)),
        persuasion: val_i32_opt(field(v, "persuasion", &null)),
        religion: val_i32_opt(field(v, "religion", &null)),
        sleight_of_hand: val_i32_opt(field(v, "sleight_of_hand", &null)),
        stealth: val_i32_opt(field(v, "stealth", &null)),
        survival: val_i32_opt(field(v, "survival", &null)),
    }
}

/// The spell slots of an array value: one per object item.
pub open spec fn slots_value(v: JsonValue) -> Seq<SpellSlot> {
    match v {
        JsonValue::Array(items) => slots_of(items@),
        _ => Seq::empty(),
    }
}

pub open spec fn slots_of(items: Seq<JsonValue>) -> Seq<SpellSlot>
    decreases items.len(),
{
    if items.len() == 0 {
        Seq::empty()
    } else {
        let prev = slots_of(items.drop_last());
        let it = items.last();
        if it is Object {
            prev.push(
                SpellSlot {
                    level: int_value(member(it, "level"@)),
                    total: int_value(member(it, "total"@)),
                    remaining: int_value(member(it, "remaining"@)),
                },
            )
        } else {
            prev
        }
    }
}

/// Reads spell slots.
pub fn parse_spell_slots(v: &JsonValue) -> (r: Vec<SpellSlot>)
    ensures
        r@ == slots_value(*v),
{
    match v {
        JsonValue::Array(items) => {
            let null = JsonValue::Null;
            let mut out: Vec<SpellSlot> = Vec::new();
            let mut i: usize = 0;
            assert(items@.take(0) =~= Seq::<JsonValue>::empty());
            while i < items.len()
                invariant
                    i <= items.len(),
                    null == JsonValue::Null,
                    out@ == slots_of(items@.take(i as int)),
                decreases items.len() - i,
            {
                assert(items@.take(i + 1).drop_last() =~= items@.take(i as int));
                assert(items@.take(i + 1).last() == items@[i as int]);
                let it = &items[i];
                if let JsonValue::Object(_) = it {
                    out.push(
                        SpellSlot {
                            level: val_i32(field(it, "level", &null)),
                            total: val_i32(field(it, "total", &null)),
                            remaining: val_i32(field(it, "remaining", &null)),
                        },
                    );
                }
                i = i + 1;
            }
            assert(items@.take(i as int) =~= items@);
            out
        },
        _ => Vec::new(),
    }
}

/// A page reading parsed from a model's JSON reply (the confidence aside).
pub open spec fn sheet_value_matches(p: OcrSheet, v: JsonValue) -> bool {
    &&& p.name@ == text_value(member(v, "name"@))
    &&& p.class_name@ == text_value(member(v, "class"@))
    &&& p.race@ == text_value(member(v, "race"@))
    &&& p.background@ == text_value(member(v, "background"@))
    &&& p.level == int_value(member(v, "level"@))
    &&& p.experience_points == int_value(member(v, "experience_points"@))
    &&& p.ability_scores == abilities_value(member(v, "ability_scores"@))
    &&& p.saving_throws == saves_value(member(v, "saving_throws"@))
    &&& p.skills == skills_value(member(v, "skills"@))
    &&& p.max_hp == int_value(member(v, "max_hp"@))
    &&& p.armor_class == int_value(member(v, "armor_class"@))
    &&& p.speed == int_value(member(v, "speed"@))
    &&& p.hit_dice@ == text_value(member(v, "hit_dice"@))
    &&& p.proficiencies@.map_values(|s: String| s@) == text_items(member(v, "proficiencies"@))
    &&& p.languages@.map_values(|s: String| s@) == text_items(member(v, "languages"@))
    &&& p.features_and_traits@.map_values(|s: String| s@) == text_items(member(v, "features_and_traits"@))
    &&& p.equipment@.map_values(|s: String| s@) == text_items(member(v, "equipment"@))
    &&& p.personality_traits@ == text_value(member(v, "personality_traits"@))
    &&& p.ideals@ == text_value(member(v, "ideals"@))
    &&& p.bonds@ == text_value(member(v, "bonds"@))
    &&& p.flaws@ == text_value(member(v, "flaws"@))
    &&& p.spell_slots@ == slots_value(member(v, "spell_slots"@))
    &&& p.backstory_text@ == text_value(member(v, "backstory_text"@))
}

/// Reads one page's character-sheet JSON, tolerating mistyped values.
pub fn parse_ocr_sheet(v: &JsonValue) -> (r: OcrSheet)
    ensures
        sheet_value_matches(r, *v),
{
    let null = JsonValue::Null;
    OcrSheet {
        name: val_str(field(v, "name", &null)),
        class_name: val_str(field(v, "class", &null)),
        race: val_str(field(v, "race", &null)),
        background: val_str(field(v, "background", &null)),
        level: val_i32(field(v, "level", &null)),
        experience_points: val_i32(field(v, "experience_points", &null)),
        ability_scores: parse_ability_scores(field(v, "ability_scores", &null)),
        saving_throws: parse_saving_throws(field(v, "saving_throws", &null)),
        skills: parse_skill_scores(field(v, "skills", &null)),
        max_hp: val_i32(field(v, "max_hp", &null)),
        armor_class: val_i32(field(v, "armor_class", &null)),
        speed: val_i32(field(v, "speed", &null)),
        hit_dice: val_str(field(v, "hit_dice", &null)),
        proficiencies: val_str_vec(field(v, "proficiencies", &null)),
        languages: val_str_vec(field(v, "languages", &null)),
        features_and_traits: val_str_vec(field(v, "features_and_traits", &null)),
        equipment: val_str_vec(field(v, "equipment", &null)),
        personality_traits: val_str(field(v, "personality_traits", &null)),
        ideals: val_str(field(v, "ideals", &null)),
        bonds: val_str(field(v, "bonds", &null)),
        flaws: val_str(field(v, "flaws", &null)),
        spell_slots: parse_spell_slots(field(v, "spell_slots", &null)),
        backstory_text: val_str(field(v, "backstory_text", &null)),
    }
}


/// `str::trim_end_matches` with a non-empty string pattern.
pub open spec fn strip_all_suffix(s: Seq<char>, p: Seq<char>) -> Seq<char>
    decreases s.len(),
{
    if p.len() > 0 && crate::split::has_suffix(s, p) {
        strip_all_suffix(s.take(s.len() - p.len()), p)
    } else {
        s
    }
}

fn strip_all_suffix_exec(v: &[char], p: &[char]) -> (r: Vec<char>)
    ensures
        r@ == strip_all_suffix(v@, p@),
{
    let mut k: usize = v.len();
    assert(v@.take(k as int) =~= v@);
    while p.len() > 0 && crate::split::ends_with(&v[0..k], p)
        invariant
            k <= v.len(),
            strip_all_suffix(v@, p@) == strip_all_suffix(v@.take(k as int), p@),
        decreases k,
    {
        assert(v@.subrange(0, k as int) =~= v@.take(k as int));
        assert(v@.take(k as int).take(k - p.len()) =~= v@.take(k - p.len()));
        k = k - p.len();
    }
    assert(v@.subrange(0, k as int) =~= v@.take(k as int));
    crate::text::slice_of(v, 0, k)
}

/// A model's JSON reply without a Markdown code fence around it.
pub open spec fn unfenced(raw: Seq<char>) -> Seq<char> {
    trim(
        strip_all_suffix(
            crate::split::strip_all_prefix(crate::split::strip_all_prefix(trim(raw), "```json"@), "```"@),
            "```"@,
        ),
    )
}

/// Removes a Markdown code fence (```` ```json ... ``` ````) around a reply.
pub fn strip_code_fence(raw: &str) -> (r: String)
    ensures
        r@ == unfenced(raw@),
{
    let t = trimmed(&chars_of(raw));
    let a = crate::split::strip_all_prefix_exec(&t, &chars_of("```json"));
    let b = crate::split::strip_all_prefix_exec(&a, &chars_of("```"));
    let c = strip_all_suffix_exec(&b, &chars_of("```"));
    string_of(&trimmed(&c))
}

// ───────────────────────────── model replies ─────────────────────────────

#[verifier::external_type_specification]
#[verifier::external_body]
pub struct ExSerdeJsonValue(serde_json::Value);

/// The JSON value that `serde_json::from_str::<serde_json::Value>` reads from
/// a text, as a `JsonValue`; `None` when the text is not JSON.
pub uninterp spec fn json_of_text(text: Seq<char>) -> Option<JsonValue>;

/// A `serde_json::Value` as a `JsonValue`, variant for variant: numbers keep
/// their `i64` value (where they have one) and their text, objects their
/// members in the map's order.
#[verifier::external_body]
fn json_value_of(v: &serde_json::Value) -> JsonValue {
    match v {
        serde_json::Value::Null => JsonValue::Null,
        serde_json::Value::Bool(b) => JsonValue::Bool(*b),
        serde_json::Value::Number(n) => JsonValue::Number { as_i64: n.as_i64(), text: n.to_string() },
        serde_json::Value::String(t) => JsonValue::Str(t.clone()),
        serde_json::Value::Array(items) => JsonValue::Array(items.iter().map(json_value_of).collect()),
        serde_json::Value::Object(m) => JsonValue::Object(m.iter().map(|(k, x)| (k.clone(), json_value_of(x))).collect()),
    }
}

/// `serde_json::from_str::<serde_json::Value>`, converted to a `JsonValue`.
/// Its result is named `json_of_text`: the crate is built without
/// `preserve_order`, so an object's members come in key order and the value
/// depends on the text alone. What the parser accepts is not stated.
#[verifier::external_body]
fn parse_json(text: &str) -> (r: Option<JsonValue>)
    ensures
        r == json_of_text(text@),
{
    serde_json::from_str::<serde_json::Value>(text).ok().map(|v| json_value_of(&v))
}

/// One page of a character-sheet OCR reply: the reply without its code
/// fence, read as JSON, and the sheet read from it, with the whole JSON value
/// (for the confidence the model reported). `None` when the reply is not
/// JSON.
pub fn read_sheet_page(reply: &str) -> (r: Option<(OcrSheet, JsonValue)>)
    ensures
        match json_of_text(unfenced(reply@)) {
            Some(v) => r matches Some(p) && p.1 == v && sheet_value_matches(p.0, v),
            None => r is None,
        },
{
    let json = strip_code_fence(reply);
    match parse_json(json.as_str()) {
        Some(v) => {
            let sheet = parse_ocr_sheet(&v);
            Some((sheet, v))
        },
        None => None,
    }
}

proof fn lemma_first_text(pages: Seq<OcrSheet>, f: TextField)
    ensures
        forall|k: int|
            0 <= k < pages.len() && #[trigger] text_of(pages[k], f).len() > 0 && (forall|j: int|
                0 <= j < k ==> #[trigger] text_of(pages[j], f).len() == 0) ==> first_text(pages, f) == Some(text_of(pages[k], f)),
        (forall|j: int| 0 <= j < pages.len() ==> #[trigger] text_of(pages[j], f).len() == 0) ==> first_text(pages, f) is None,
    decreases pages.len(),
{
    if pages.len() > 0 {
        let t = pages.drop_first();
        lemma_first_text(t, f);
        assert forall|k: int|
            0 <= k < pages.len() && #[trigger] text_of(pages[k], f).len() > 0 && (forall|j: int|
                0 <= j < k ==> #[trigger] text_of(pages[j], f).len() == 0) implies first_text(pages, f) == Some(text_of(pages[k], f)) by {
            if k > 0 {
                assert(text_of(pages[0], f).len() == 0);
                assert(t[k - 1] == pages[k]);
                assert forall|j: int| 0 <= j < k - 1 implies #[trigger] text_of(t[j], f).len() == 0 by {
                    assert(t[j] == pages[j + 1]);
                }
            }
        }
        if forall|j: int| 0 <= j < pages.len() ==> #[trigger] text_of(pages[j], f).len() == 0 {
            assert(text_of(pages[0], f).len() == 0);
            assert forall|j: int| 0 <= j < t.len() implies #[trigger] text_of(t[j], f).len() == 0 by {
                assert(t[j] == pages[j + 1]);
            }
        }
    }
}

proof fn lemma_first_int(pages: Seq<OcrSheet>, f: IntField)
    ensures
        forall|k: int|
            0 <= k < pages.len() && int_of(#[trigger] pages[k], f) != 0 && (forall|j: int|
                0 <= j < k ==> int_of(#[trigger] pages[j], f) == 0) ==> first_int(pages, f) == Some(int_of(pages[k], f)),
        (forall|j: int| 0 <= j < pages.len() ==> int_of(#[trigger] pages[j], f) == 0) ==> first_int(pages, f) is None,
    decreases pages.len(),
{
    if pages.len() > 0 {
        let t = pages.drop_first();
        lemma_first_int(t, f);
        assert forall|k: int|
            0 <= k < pages.len() && int_of(#[trigger] pages[k], f) != 0 && (forall|j: int|
                0 <= j < k ==> int_of(#[trigger] pages[j], f) == 0) implies first_int(pages, f) == Some(int_of(pages[k], f)) by {
            if k > 0 {
                assert(int_of(pages[0], f) == 0);
                assert(t[k - 1] == pages[k]);
                assert forall|j: int| 0 <= j < k - 1 implies int_of(#[trigger] t[j], f) == 0 by {
                    assert(t[j] == pages[j + 1]);
                }
            }
        }
        if forall|j: int| 0 <= j < pages.len() ==> int_of(#[trigger] pages[j], f) == 0 {
            assert(int_of(pages[0], f) == 0);
            assert forall|j: int| 0 <= j < t.len() implies int_of(#[trigger] t[j], f) == 0 by {
                assert(t[j] == pages[j + 1]);
            }
        }
    }
}

/// Each text field of a merged sheet is that field of the first page that
/// read it non-empty, and is missing when no page did (the name is then
/// "Unknown").
pub proof fn ocr_text_fields_from_first_page(p: ParsedSheetResult, pages: Seq<OcrSheet>)
    requires
        ocr_merged(p, pages),
    ensures
        forall|k: int| 0 <= k < pages.len() && (#[trigger] pages[k].name@).len() > 0 && (forall|j: int|
                0 <= j < k ==> (#[trigger] pages[j].name@).len() == 0) ==>
            p.name@ == pages[k].name@,
        forall|k: int| 0 <= k < pages.len() && (#[trigger] pages[k].class_name@).len() > 0 && (forall|j: int|
                0 <= j < k ==> (#[trigger] pages[j].class_name@).len() == 0) ==>
            opt_str(p.class) == Some(pages[k].class_name@),
        forall|k: int| 0 <= k < pages.len() && (#[trigger] pages[k].race@).len() > 0 && (forall|j: int|
                0 <= j < k ==> (#[trigger] pages[j].race@).len() == 0) ==>
            opt_str(p.race) == Some(pages[k].race@),
        forall|k: int| 0 <= k < pages.len() && (#[trigger] pages[k].background@).len() > 0 && (forall|j: int|
                0 <= j < k ==> (#[trigger] pages[j].background@).len() == 0) ==>
            opt_str(p.background) == Some(pages[k].background@),
        forall|k: int| 0 <= k < pages.len() && (#[trigger] pages[k].hit_dice@).len() > 0 && (forall|j: int|
                0 <= j < k ==> (#[trigger] pages[j].hit_dice@).len() == 0) ==>
            opt_str(p.hit_dice) == Some(pages[k].hit_dice@),
        forall|k: int| 0 <= k < pages.len() && (#[trigger] pages[k].personality_traits@).len() > 0 && (forall|j: int|
                0 <= j < k ==> (#[trigger] pages[j].personality_traits@).len() == 0) ==>
            opt_str(p.personality_traits) == Some(pages[k].personality_traits@),
        forall|k: int| 0 <= k < pages.len() && (#[trigger] pages[k].ideals@).len() > 0 && (forall|j: int|
                0 <= j < k ==> (#[trigger] pages[j].ideals@).len() == 0) ==>
            opt_str(p.ideals) == Some(pages[k].ideals@),
        forall|k: int| 0 <= k < pages.len() && (#[trigger] pages[k].bonds@).len() > 0 && (forall|j: int|
                0 <= j < k ==> (#[trigger] pages[j].bonds@).len() == 0) ==>
            opt_str(p.bonds) == Some(pages[k].bonds@),
        forall|k: int| 0 <= k < pages.len() && (#[trigger] pages[k].flaws@).len() > 0 && (forall|j: int|
                0 <= j < k ==> (#[trigger] pages[j].flaws@).len() == 0) ==>
            opt_str(p.flaws) == Some(pages[k].flaws@),
        forall|k: int| 0 <= k < pages.len() && (#[trigger] pages[k].backstory_text@).len() > 0 && (forall|j: int|
                0 <= j < k ==> (#[trigger] pages[j].backstory_text@).len() == 0) ==>
            opt_str(p.backstory_text) == Some(pages[k].backstory_text@),
        (forall|j: int| 0 <= j < pages.len() ==> (#[trigger] pages[j].name@).len() == 0) ==>
            p.name@ == "Unknown"@,
        (forall|j: int| 0 <= j < pages.len() ==> (#[trigger] pages[j].class_name@).len() == 0) ==>
            p.class is None,
        (forall|j: int| 0 <= j < pages.len() ==> (#[trigger] pages[j].race@).len() == 0) ==> p.race is None,
        (forall|j: int| 0 <= j < pages.len() ==> (#[trigger] pages[j].background@).len() == 0) ==>
            p.background is None,
        (forall|j: int| 0 <= j < pages.len() ==> (#[trigger] pages[j].hit_dice@).len() == 0) ==>
            p.hit_dice is None,
        (forall|j: int| 0 <= j < pages.len() ==> (#[trigger] pages[j].personality_traits@).len() == 0) ==>
            p.personality_traits is None,
        (forall|j: int| 0 <= j < pages.len() ==> (#[trigger] pages[j].ideals@).len() == 0) ==>
            p.ideals is None,
        (forall|j: int| 0 <= j < pages.len() ==> (#[trigger] pages[j].bonds@).len() == 0) ==> p.bonds is None,
        (forall|j: int| 0 <= j < pages.len() ==> (#[trigger] pages[j].flaws@).len() == 0) ==> p.flaws is None,
        (forall|j: int| 0 <= j < pages.len() ==> (#[trigger] pages[j].backstory_text@).len() == 0) ==>
            p.backstory_text is None,
{
    assert forall|k: int| 0 <= k < pages.len() && (#[trigger] pages[k].name@).len() > 0 && (forall|j: int|
            0 <= j < k ==> (#[trigger] pages[j].name@).len() == 0) implies
        p.name@ == pages[k].name@ by {
        lemma_first_text(pages, TextField::Name);
        assert(text_of(pages[k], TextField::Name) == pages[k].name@);
        assert forall|j: int| 0 <= j < k implies (#[trigger] text_of(pages[j], TextField::Name)).len() == 0 by {
            assert(text_of(pages[j], TextField::Name) == pages[j].name@);
        }
    }
    assert((forall|j: int| 0 <= j < pages.len() ==> (#[trigger] pages[j].name@).len() == 0) ==>
        p.name@ == "Unknown"@) by {
        lemma_first_text(pages, TextField::Name);
        if forall|j: int| 0 <= j < pages.len() ==> (#[trigger] pages[j].name@).len() == 0 {
            assert forall|j: int| 0 <= j < pages.len() implies (#[trigger] text_of(pages[j], TextField::Name)).len() == 0 by {
                assert(text_of(pages[j], TextField::Name) == pages[j].name@);
            }
        }
    }
    assert forall|k: int| 0 <= k < pages.len() && (#[trigger] pages[k].class_name@).len() > 0 && (forall|j: int|
            0 <= j < k ==> (#[trigger] pages[j].class_name@).len() == 0) implies
        opt_str(p.class) == Some(pages[k].class_name@) by {
        lemma_first_text(pages, TextField::Class);
        assert(text_of(pages[k], TextField::Class) == pages[k].class_name@);
        assert forall|j: int| 0 <= j < k implies (#[trigger] text_of(pages[j], TextField::Class)).len() == 0 by {
            assert(text_of(pages[j], TextField::Class) == pages[j].class_name@);
        }
    }
    assert((forall|j: int| 0 <= j < pages.len() ==> (#[trigger] pages[j].class_name@).len() == 0) ==>
        p.class is None) by {
        lemma_first_text(pages, TextField::Class);
        if forall|j: int| 0 <= j < pages.len() ==> (#[trigger] pages[j].class_name@).len() == 0 {
            assert forall|j: int| 0 <= j < pages.len() implies (#[trigger] text_of(pages[j], TextField::Class)).len() == 0 by {
                assert(text_of(pages[j], TextField::Class) == pages[j].class_name@);
            }
        }
    }
    assert forall|k: int| 0 <= k < pages.len() && (#[trigger] pages[k].race@).len() > 0 && (forall|j: int|
            0 <= j < k ==> (#[trigger] pages[j].race@).len() == 0) implies
        opt_str(p.race) == Some(pages[k].race@) by {
        lemma_first_text(pages, TextField::Race);
        assert(text_of(pages[k], TextField::Race) == pages[k].race@);
        assert forall|j: int| 0 <= j < k implies (#[trigger] text_of(pages[j], TextField::Race)).len() == 0 by {
            assert(text_of(pages[j], TextField::Race) == pages[j].race@);
        }
    }
    assert((forall|j: int| 0 <= j < pages.len() ==> (#[trigger] pages[j].race@).len() == 0) ==>
        p.race is None) by {
        lemma_first_text(pages, TextField::Race);
        if forall|j: int| 0 <= j < pages.len() ==> (#[trigger] pages[j].race@).len() == 0 {
            assert forall|j: int| 0 <= j < pages.len() implies (#[trigger] text_of(pages[j], TextField::Race)).len() == 0 by {
                assert(text_of(pages[j], TextField::Race) == pages[j].race@);
            }
        }
    }
    assert forall|k: int| 0 <= k < pages.len() && (#[trigger] pages[k].background@).len() > 0 && (forall|j: int|
            0 <= j < k ==> (#[trigger] pages[j].background@).len() == 0) implies
        opt_str(p.background) == Some(pages[k].background@) by {
        lemma_first_text(pages, TextField::Background);
        assert(text_of(pages[k], TextField::Background) == pages[k].background@);
        assert forall|j: int| 0 <= j < k implies (#[trigger] text_of(pages[j], TextField::Background)).len() == 0 by {
            assert(text_of(pages[j], TextField::Background) == pages[j].background@);
        }
    }
    assert((forall|j: int| 0 <= j < pages.len() ==> (#[trigger] pages[j].background@).len() == 0) ==>
        p.background is None) by {
        lemma_first_text(pages, TextField::Background);
        if forall|j: int| 0 <= j < pages.len() ==> (#[trigger] pages[j].background@).len() == 0 {
            assert forall|j: int| 0 <= j < pages.len() implies (#[trigger] text_of(pages[j], TextField::Background)).len() == 0 by {
                assert(text_of(pages[j], TextField::Background) == pages[j].background@);
            }
        }
    }
    assert forall|k: int| 0 <= k < pages.len() && (#[trigger] pages[k].hit_dice@).len() > 0 && (forall|j: int|
            0 <= j < k ==> (#[trigger] pages[j].hit_dice@).len() == 0) implies
        opt_str(p.hit_dice) == Some(pages[k].hit_dice@) by {
        lemma_first_text(pages, TextField::HitDice);
        assert(text_of(pages[k], TextField::HitDice) == pages[k].hit_dice@);
        assert forall|j: int| 0 <= j < k implies (#[trigger] text_of(pages[j], TextField::HitDice)).len() == 0 by {
            assert(text_of(pages[j], TextField::HitDice) == pages[j].hit_dice@);
        }
    }
    assert((forall|j: int| 0 <= j < pages.len() ==> (#[trigger] pages[j].hit_dice@).len() == 0) ==>
        p.hit_dice is None) by {
        lemma_first_text(pages, TextField::HitDice);
        if forall|j: int| 0 <= j < pages.len() ==> (#[trigger] pages[j].hit_dice@).len() == 0 {
            assert forall|j: int| 0 <= j < pages.len() implies (#[trigger] text_of(pages[j], TextField::HitDice)).len() == 0 by {
                assert(text_of(pages[j], TextField::HitDice) == pages[j].hit_dice@);
            }
        }
    }
    assert forall|k: int| 0 <= k < pages.len() && (#[trigger] pages[k].personality_traits@).len() > 0 && (forall|j: int|
            0 <= j < k ==> (#[trigger] pages[j].personality_traits@).len() == 0) implies
        opt_str(p.personality_traits) == Some(pages[k].personality_traits@) by {
        lemma_first_text(pages, TextField::PersonalityTraits);
        assert(text_of(pages[k], TextField::PersonalityTraits) == pages[k].personality_traits@);
        assert forall|j: int| 0 <= j < k implies (#[trigger] text_of(pages[j], TextField::PersonalityTraits)).len() == 0 by {
            assert(text_of(pages[j], TextField::PersonalityTraits) == pages[j].personality_traits@);
        }
    }
    assert((forall|j: int| 0 <= j < pages.len() ==> (#[trigger] pages[j].personality_traits@).len() == 0) ==>
        p.personality_traits is None) by {
        lemma_first_text(pages, TextField::PersonalityTraits);
        if forall|j: int| 0 <= j < pages.len() ==> (#[trigger] pages[j].personality_traits@).len() == 0 {
            assert forall|j: int| 0 <= j < pages.len() implies (#[trigger] text_of(pages[j], TextField::PersonalityTraits)).len() == 0 by {
                assert(text_of(pages[j], TextField::PersonalityTraits) == pages[j].personality_traits@);
            }
        }
    }
    assert forall|k: int| 0 <= k < pages.len() && (#[trigger] pages[k].ideals@).len() > 0 && (forall|j: int|
            0 <= j < k ==> (#[trigger] pages[j].ideals@).len() == 0) implies
        opt_str(p.ideals) == Some(pages[k].ideals@) by {
        lemma_first_text(pages, TextField::Ideals);
        assert(text_of(pages[k], TextField::Ideals) == pages[k].ideals@);
        assert forall|j: int| 0 <= j < k implies (#[trigger] text_of(pages[j], TextField::Ideals)).len() == 0 by {
            assert(text_of(pages[j], TextField::Ideals) == pages[j].ideals@);
        }
    }
    assert((forall|j: int| 0 <= j < pages.len() ==> (#[trigger] pages[j].ideals@).len() == 0) ==>
        p.ideals is None) by {
        lemma_first_text(pages, TextField::Ideals);
        if forall|j: int| 0 <= j < pages.len() ==> (#[trigger] pages[j].ideals@).len() == 0 {
            assert forall|j: int| 0 <= j < pages.len() implies (#[trigger] text_of(pages[j], TextField::Ideals)).len() == 0 by {
                assert(text_of(pages[j], TextField::Ideals) == pages[j].ideals@);
            }
        }
    }
    assert forall|k: int| 0 <= k < pages.len() && (#[trigger] pages[k].bonds@).len() > 0 && (forall|j: int|
            0 <= j < k ==> (#[trigger] pages[j].bonds@).len() == 0) implies
        opt_str(p.bonds) == Some(pages[k].bonds@) by {
        lemma_first_text(pages, TextField::Bonds);
        assert(text_of(pages[k], TextField::Bonds) == pages[k].bonds@);
        assert forall|j: int| 0 <= j < k implies (#[trigger] text_of(pages[j], TextField::Bonds)).len() == 0 by {
            assert(text_of(pages[j], TextField::Bonds) == pages[j].bonds@);
        }
    }
    assert((forall|j: int| 0 <= j < pages.len() ==> (#[trigger] pages[j].bonds@).len() == 0) ==>
        p.bonds is None) by {
        lemma_first_text(pages, TextField::Bonds);
        if forall|j: int| 0 <= j < pages.len() ==> (#[trigger] pages[j].bonds@).len() == 0 {
            assert forall|j: int| 0 <= j < pages.len() implies (#[trigger] text_of(pages[j], TextField::Bonds)).len() == 0 by {
                assert(text_of(pages[j], TextField::Bonds) == pages[j].bonds@);
            }
        }
    }
    assert forall|k: int| 0 <= k < pages.len() && (#[trigger] pages[k].flaws@).len() > 0 && (forall|j: int|
            0 <= j < k ==> (#[trigger] pages[j].flaws@).len() == 0) implies
        opt_str(p.flaws) == Some(pages[k].flaws@) by {
        lemma_first_text(pages, TextField::Flaws);
        assert(text_of(pages[k], TextField::Flaws) == pages[k].flaws@);
        assert forall|j: int| 0 <= j < k implies (#[trigger] text_of(pages[j], TextField::Flaws)).len() == 0 by {
            assert(text_of(pages[j], TextField::Flaws) == pages[j].flaws@);
        }
    }
    assert((forall|j: int| 0 <= j < pages.len() ==> (#[trigger] pages[j].flaws@).len() == 0) ==>
        p.flaws is None) by {
        lemma_first_text(pages, TextField::Flaws);
        if forall|j: int| 0 <= j < pages.len() ==> (#[trigger] pages[j].flaws@).len() == 0 {
            assert forall|j: int| 0 <= j < pages.len() implies (#[trigger] text_of(pages[j], TextField::Flaws)).len() == 0 by {
                assert(text_of(pages[j], TextField::Flaws) == pages[j].flaws@);
            }
        }
    }
    assert forall|k: int| 0 <= k < pages.len() && (#[trigger] pages[k].backstory_text@).len() > 0 && (forall|j: int|
            0 <= j < k ==> (#[trigger] pages[j].backstory_text@).len() == 0) implies
        opt_str(p.backstory_text) == Some(pages[k].backstory_text@) by {
        lemma_first_text(pages, TextField::Backstory);
        assert(text_of(pages[k], TextField::Backstory) == pages[k].backstory_text@);
        assert forall|j: int| 0 <= j < k implies (#[trigger] text_of(pages[j], TextField::Backstory)).len() == 0 by {
            assert(text_of(pages[j], TextField::Backstory) == pages[j].backstory_text@);
        }
    }
    assert((forall|j: int| 0 <= j < pages.len() ==> (#[trigger] pages[j].backstory_text@).len() == 0) ==>
        p.backstory_text is None) by {
        lemma_first_text(pages, TextField::Backstory);
        if forall|j: int| 0 <= j < pages.len() ==> (#[trigger] pages[j].backstory_text@).len() == 0 {
            assert forall|j: int| 0 <= j < pages.len() implies (#[trigger] text_of(pages[j], TextField::Backstory)).len() == 0 by {
                assert(text_of(pages[j], TextField::Backstory) == pages[j].backstory_text@);
            }
        }
    }
}

/// Each number of a merged sheet is that number of the first page that read
/// it non-zero: the level and hit points raised to at least 1, the
/// experience points missing when no page read them, and an armour class of
/// 10 and a speed of 30 when no page read one.
pub proof fn ocr_numbers_from_first_page(p: ParsedSheetResult, pages: Seq<OcrSheet>)
    requires
        ocr_merged(p, pages),
    ensures
        forall|k: int| 0 <= k < pages.len() && (#[trigger] pages[k]).level != 0 && (forall|j: int|
                0 <= j < k ==> (#[trigger] pages[j]).level == 0) ==>
            p.level == if pages[k].level < 1 { 1 } else { pages[k].level },
        forall|k: int| 0 <= k < pages.len() && (#[trigger] pages[k]).max_hp != 0 && (forall|j: int|
                0 <= j < k ==> (#[trigger] pages[j]).max_hp == 0) ==>
            p.max_hp == if pages[k].max_hp < 1 { 1 } else { pages[k].max_hp },
        forall|k: int| 0 <= k < pages.len() && (#[trigger] pages[k]).armor_class != 0 && (forall|j: int|
                0 <= j < k ==> (#[trigger] pages[j]).armor_class == 0) ==>
            p.armor_class == pages[k].armor_class,
        forall|k: int| 0 <= k < pages.len() && (#[trigger] pages[k]).speed != 0 && (forall|j: int|
                0 <= j < k ==> (#[trigger] pages[j]).speed == 0) ==>
            p.speed == pages[k].speed,
        forall|k: int| 0 <= k < pages.len() && (#[trigger] pages[k]).experience_points != 0 && (forall|j: int|
                0 <= j < k ==> (#[trigger] pages[j]).experience_points == 0) ==>
            p.experience_points == Some(pages[k].experience_points),
        (forall|j: int| 0 <= j < pages.len() ==> (#[trigger] pages[j]).level == 0) ==> p.level == 1,
        (forall|j: int| 0 <= j < pages.len() ==> (#[trigger] pages[j]).max_hp == 0) ==> p.max_hp == 1,
        (forall|j: int| 0 <= j < pages.len() ==> (#[trigger] pages[j]).armor_class == 0) ==> p.armor_class == 10,
        (forall|j: int| 0 <= j < pages.len() ==> (#[trigger] pages[j]).speed == 0) ==> p.speed == 30,
        (forall|j: int| 0 <= j < pages.len() ==> (#[trigger] pages[j]).experience_points == 0) ==> p.experience_points is None,
{
    lemma_first_int(pages, IntField::Level);
    lemma_first_int(pages, IntField::MaxHp);
    lemma_first_int(pages, IntField::ArmorClass);
    lemma_first_int(pages, IntField::Speed);
    lemma_first_int(pages, IntField::ExperiencePoints);
}

proof fn lemma_first_of_each(s: Seq<Seq<char>>)
    ensures
        forall|k: int| 0 <= k < s.len() ==> first_of_each(s).contains(#[trigger] s[k]),
        forall|i: int| 0 <= i < first_of_each(s).len() ==> s.contains(#[trigger] first_of_each(s)[i]),
        forall|i: int, j: int|
            0 <= i < j < first_of_each(s).len() ==> #[trigger] first_of_each(s)[i] != #[trigger] first_of_each(s)[j],
    decreases s.len(),
{
    if s.len() > 0 {
        let t = s.drop_last();
        lemma_first_of_each(t);
        let prev = first_of_each(t);
        let r = first_of_each(s);
        assert forall|k: int| 0 <= k < s.len() implies r.contains(#[trigger] s[k]) by {
            if k < t.len() {
                assert(t[k] == s[k]);
                let i = choose|i: int| 0 <= i < prev.len() && prev[i] == t[k];
                assert(r[i] == prev[i]);
            } else if !prev.contains(s.last()) {
                assert(r[prev.len() as int] == s.last());
            } else {
                let i = choose|i: int| 0 <= i < prev.len() && prev[i] == s.last();
                assert(r[i] == prev[i]);
            }
        }
        assert forall|i: int| 0 <= i < r.len() implies s.contains(#[trigger] r[i]) by {
            if i < prev.len() {
                assert(r[i] == prev[i]);
                let k = choose|k: int| 0 <= k < t.len() && t[k] == prev[i];
                assert(s[k] == t[k]);
            } else {
                assert(s[s.len() - 1] == r[i]);
            }
        }
    }
}

proof fn lemma_all_items_has(pages: Seq<OcrSheet>, f: ListField, k: int, m: int)
    requires
        0 <= k < pages.len(),
        0 <= m < list_of(pages[k], f).len(),
    ensures
        all_items(pages, f).contains(list_of(pages[k], f)[m]),
    decreases pages.len(),
{
    let prev = all_items(pages.drop_last(), f);
    let last = list_of(pages.last(), f);
    if k == pages.len() - 1 {
        assert((prev + last)[prev.len() + m] == last[m]);
    } else {
        assert(pages.drop_last()[k] == pages[k]);
        lemma_all_items_has(pages.drop_last(), f, k, m);
        let q = choose|q: int| 0 <= q < prev.len() && prev[q] == list_of(pages[k], f)[m];
        assert((prev + last)[q] == prev[q]);
    }
}

proof fn lemma_all_items_from(pages: Seq<OcrSheet>, f: ListField, q: int)
    requires
        0 <= q < all_items(pages, f).len(),
    ensures
        exists|k: int, m: int|
            0 <= k < pages.len() && 0 <= m < list_of(pages[k], f).len() && all_items(pages, f)[q] == list_of(pages[k], f)[m],
    decreases pages.len(),
{
    let prev = all_items(pages.drop_last(), f);
    let last = list_of(pages.last(), f);
    if q >= prev.len() {
        assert(all_items(pages, f)[q] == list_of(pages[pages.len() - 1], f)[q - prev.len()]);
    } else {
        lemma_all_items_from(pages.drop_last(), f, q);
        let (k, m) = choose|k: int, m: int|
            0 <= k < pages.drop_last().len() && 0 <= m < list_of(pages.drop_last()[k], f).len()
                && prev[q] == list_of(pages.drop_last()[k], f)[m];
        assert(pages.drop_last()[k] == pages[k]);
        assert(all_items(pages, f)[q] == list_of(pages[k], f)[m]);
    }
}

/// A merged list of the per-page lists `lists`: each item that any page
/// read is in it, each of its items was read on some page, and none occurs
/// twice.
pub open spec fn merged_list_law(merged: Seq<Seq<char>>, lists: Seq<Seq<Seq<char>>>) -> bool {
    &&& forall|k: int, m: int|
        0 <= k < lists.len() && 0 <= m < lists[k].len() ==> merged.contains(#[trigger] lists[k][m])
    &&& forall|i: int| 0 <= i < merged.len() ==> exists|k: int, m: int|
        0 <= k < lists.len() && 0 <= m < lists[k].len() && #[trigger] merged[i] == lists[k][m]
    &&& forall|i: int, j: int| 0 <= i < j < merged.len() ==> #[trigger] merged[i] != #[trigger] merged[j]
}

proof fn lemma_merged_list(pages: Seq<OcrSheet>, f: ListField, lists: Seq<Seq<Seq<char>>>)
    requires
        lists.len() == pages.len(),
        forall|k: int| 0 <= k < pages.len() ==> #[trigger] lists[k] == list_of(pages[k], f),
    ensures
        merged_list_law(first_of_each(all_items(pages, f)), lists),
{
    let s = all_items(pages, f);
    let r = first_of_each(s);
    lemma_first_of_each(s);
    assert forall|k: int, m: int| 0 <= k < lists.len() && 0 <= m < lists[k].len() implies r.contains(
        #[trigger] lists[k][m],
    ) by {
        lemma_all_items_has(pages, f, k, m);
        let q = choose|q: int| 0 <= q < s.len() && s[q] == list_of(pages[k], f)[m];
        assert(r.contains(s[q]));
    }
    assert forall|i: int| 0 <= i < r.len() implies exists|k: int, m: int|
        0 <= k < lists.len() && 0 <= m < lists[k].len() && #[trigger] r[i] == lists[k][m] by {
        assert(s.contains(r[i]));
        let q = choose|q: int| 0 <= q < s.len() && s[q] == r[i];
        lemma_all_items_from(pages, f, q);
        let (k, m) = choose|k: int, m: int|
            0 <= k < pages.len() && 0 <= m < list_of(pages[k], f).len() && s[q] == list_of(pages[k], f)[m];
        assert(lists[k] == list_of(pages[k], f));
    }
}

/// What each page read into a list field, as text.
pub open spec fn page_lists(pages: Seq<OcrSheet>, field: spec_fn(OcrSheet) -> Seq<String>) -> Seq<Seq<Seq<char>>> {
    pages.map_values(|q: OcrSheet| field(q).map_values(|s: String| s@))
}

/// The proficiencies, languages, features and equipment of a merged sheet
/// are those the pages read into the field of the same name, each kept
/// once: every item any page read is there, every item there was read on a
/// page, and no item occurs twice.
pub proof fn ocr_lists_gather_all_pages(p: ParsedSheetResult, pages: Seq<OcrSheet>)
    requires
        ocr_merged(p, pages),
    ensures
        merged_list_law(
            p.proficiencies@.map_values(|s: String| s@),
            page_lists(pages, |q: OcrSheet| q.proficiencies@),
        ),
        merged_list_law(p.languages@.map_values(|s: String| s@), page_lists(pages, |q: OcrSheet| q.languages@)),
        merged_list_law(
            p.features_and_traits@.map_values(|s: String| s@),
            page_lists(pages, |q: OcrSheet| q.features_and_traits@),
        ),
        merged_list_law(p.equipment@.map_values(|s: String| s@), page_lists(pages, |q: OcrSheet| q.equipment@)),
{
    let l1 = page_lists(pages, |q: OcrSheet| q.proficiencies@);
    let l2 = page_lists(pages, |q: OcrSheet| q.languages@);
    let l3 = page_lists(pages, |q: OcrSheet| q.features_and_traits@);
    let l4 = page_lists(pages, |q: OcrSheet| q.equipment@);
    assert forall|k: int| 0 <= k < pages.len() implies #[trigger] l1[k] == list_of(pages[k], ListField::Proficiencies) by {
        assert(l1[k] =~= list_of(pages[k], ListField::Proficiencies));
    }
    assert forall|k: int| 0 <= k < pages.len() implies #[trigger] l2[k] == list_of(pages[k], ListField::Languages) by {
        assert(l2[k] =~= list_of(pages[k], ListField::Languages));
    }
    assert forall|k: int| 0 <= k < pages.len() implies #[trigger] l3[k] == list_of(pages[k], ListField::Features) by {
        assert(l3[k] =~= list_of(pages[k], ListField::Features));
    }
    assert forall|k: int| 0 <= k < pages.len() implies #[trigger] l4[k] == list_of(pages[k], ListField::Equipment) by {
        assert(l4[k] =~= list_of(pages[k], ListField::Equipment));
    }
    lemma_merged_list(pages, ListField::Proficiencies, l1);
    lemma_merged_list(pages, ListField::Languages, l2);
    lemma_merged_list(pages, ListField::Features, l3);
    lemma_merged_list(pages, ListField::Equipment, l4);
}

} // verus!
