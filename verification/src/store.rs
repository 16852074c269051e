//! Stored records: collection names, page rows, and the text codes under
//! which enumerations are stored.
use vstd::prelude::*;
use crate::text::{chars_of, string_of};

verus! {

/// The vector collection of a campaign's lore: `campaign_<id>_lore`.
pub fn campaign_collection_name(campaign_id: &str) -> (r: String)
    ensures
        r@ == "campaign_"@ + campaign_id@ + "_lore"@,
{
    let mut r = String::from_str("campaign_");
    r.append(campaign_id);
    r.append("_lore");
    r
}

/// The name of the global rules collection.
pub const GLOBAL_COLLECTION: &'static str = "global_rules";

/// The vector collection shared by all campaigns.
pub fn global_collection_name() -> (r: &'static str)
    ensures
        r@ == GLOBAL_COLLECTION@,
{
    GLOBAL_COLLECTION
}

/// The stored text of one page of a document.
pub struct PageOcrRow {
    pub page_num: i64,
    pub raw_text: String,
}

proof fn differ_at(a: Seq<char>, b: Seq<char>, i: int)
    requires
        0 <= i < a.len(),
        i < b.len(),
        a[i] != b[i],
    ensures
        a != b,
{
}

/// Whether two strings are equal.
pub fn str_eq(a: &str, b: &str) -> (r: bool)
    ensures
        r == (a@ == b@),
{
    crate::split::chars_eq(&chars_of(a), &chars_of(b))
}

/// The rules system a campaign is played with.
#[derive(Debug, Clone, Copy, PartialEq, Eq, Structural)]
pub enum GameSystem {
    Dnd5e,
    Pathfinder2e,
}

/// The stored code of a `GameSystem`.
pub open spec fn game_system_code(x: GameSystem) -> Seq<char> {
    match x {
        GameSystem::Dnd5e => "dnd5e"@,
        GameSystem::Pathfinder2e => "pathfinder2e"@,
    }
}

/// The `GameSystem` stored under a code; unknown codes read as `Dnd5e`.
pub open spec fn game_system_of_code(s: Seq<char>) -> GameSystem {
    if s == "pathfinder2e"@ {
        GameSystem::Pathfinder2e
    } else {
        GameSystem::Dnd5e
    }
}

/// The stored code of a `GameSystem`.
pub fn game_system_to_str(x: GameSystem) -> (r: &'static str)
    ensures
        r@ == game_system_code(x),
{
    match x {
        GameSystem::Dnd5e => "dnd5e",
        GameSystem::Pathfinder2e => "pathfinder2e",
    }
}

/// Reads a stored `GameSystem` code.
pub fn parse_game_system(s: &str) -> (r: GameSystem)
    ensures
        r == game_system_of_code(s@),
{
    if str_eq(s, "pathfinder2e") {
        GameSystem::Pathfinder2e
    } else {
        GameSystem::Dnd5e
    }
}

/// Reading back the stored code of a `GameSystem` gives the same value.
pub proof fn game_system_code_round_trip(x: GameSystem)
    ensures
        game_system_of_code(game_system_code(x)) == x,
{
    reveal_strlit("pathfinder2e");
    reveal_strlit("dnd5e");
    match x {
        GameSystem::Dnd5e => {
            assert("dnd5e"@.len() != "pathfinder2e"@.len());
        },
        GameSystem::Pathfinder2e => {
            assert("pathfinder2e"@.len() != "dnd5e"@.len());
        },
    }
}

/// The kind of a character.
#[derive(Debug, Clone, Copy, PartialEq, Eq, Structural)]
pub enum CharacterType {
    Pc,
    Npc,
    Monster,
}

/// The stored code of a `CharacterType`.
pub open spec fn char_type_code(x: CharacterType) -> Seq<char> {
    match x {
        CharacterType::Pc => "pc"@,
        CharacterType::Npc => "npc"@,
        CharacterType::Monster => "monster"@,
    }
}

/// The `CharacterType` stored under a code; unknown codes read as `Npc`.
pub open spec fn char_type_of_code(s: Seq<char>) -> CharacterType {
    if s == "pc"@ {
        CharacterType::Pc
    } else if s == "monster"@ {
        CharacterType::Monster
    } else {
        CharacterType::Npc
    }
}

/// The stored code of a `CharacterType`.
pub fn char_type_to_str(x: CharacterType) -> (r: &'static str)
    ensures
        r@ == char_type_code(x),
{
    match x {
        CharacterType::Pc => "pc",
        CharacterType::Npc => "npc",
        CharacterType::Monster => "monster",
    }
}

/// Reads a stored `CharacterType` code.
pub fn parse_char_type(s: &str) -> (r: CharacterType)
    ensures
        r == char_type_of_code(s@),
{
    if str_eq(s, "pc") {
        CharacterType::Pc
    } else if str_eq(s, "monster") {
        CharacterType::Monster
    } else {
        CharacterType::Npc
    }
}

/// Reading back the stored code of a `CharacterType` gives the same value.
pub proof fn char_type_code_round_trip(x: CharacterType)
    ensures
        char_type_of_code(char_type_code(x)) == x,
{
    reveal_strlit("pc");
    reveal_strlit("monster");
    reveal_strlit("npc");
    match x {
        CharacterType::Pc => {
            assert("pc"@.len() != "monster"@.len());
            assert("pc"@.len() != "npc"@.len());
        },
        CharacterType::Npc => {
            assert("npc"@.len() != "pc"@.len());
            assert("npc"@.len() != "monster"@.len());
        },
        CharacterType::Monster => {
            assert("monster"@.len() != "pc"@.len());
            assert("monster"@.len() != "npc"@.len());
        },
    }
}

/// The kind of an ingested document.
#[derive(Debug, Clone, Copy, PartialEq, Eq, Structural)]
pub enum DocumentKind {
    DmGuide,
    MonsterManual,
    Srd,
    Campaign,
    Supplemental,
}

/// The stored code of a `DocumentKind`.
pub open spec fn doc_kind_code(x: DocumentKind) -> Seq<char> {
    match x {
        DocumentKind::DmGuide => "dm_guide"@,
        DocumentKind::MonsterManual => "monster_manual"@,
        DocumentKind::Srd => "srd"@,
        DocumentKind::Campaign => "campaign"@,
        DocumentKind::Supplemental => "supplemental"@,
    }
}

/// The `DocumentKind` stored under a code; unknown codes read as `Campaign`.
pub open spec fn doc_kind_of_code(s: Seq<char>) -> DocumentKind {
    if s == "dm_guide"@ {
        DocumentKind::DmGuide
    } else if s == "monster_manual"@ {
        DocumentKind::MonsterManual
    } else if s == "srd"@ {
        DocumentKind::Srd
    } else if s == "supplemental"@ {
        DocumentKind::Supplemental
    } else if s == "rulebook"@ {
        DocumentKind::DmGuide
    } else {
        DocumentKind::Campaign
    }
}

/// The stored code of a `DocumentKind`.
pub fn doc_kind_to_str(x: DocumentKind) -> (r: &'static str)
    ensures
        r@ == doc_kind_code(x),
{
    match x {
        DocumentKind::DmGuide => "dm_guide",
        DocumentKind::MonsterManual => "monster_manual",
        DocumentKind::Srd => "srd",
        DocumentKind::Campaign => "campaign",
        DocumentKind::Supplemental => "supplemental",
    }
}

/// Reads a stored `DocumentKind` code.
pub fn parse_doc_kind(s: &str) -> (r: DocumentKind)
    ensures
        r == doc_kind_of_code(s@),
{
    if str_eq(s, "dm_guide") {
        DocumentKind::DmGuide
    } else if str_eq(s, "monster_manual") {
        DocumentKind::MonsterManual
    } else if str_eq(s, "srd") {
        DocumentKind::Srd
    } else if str_eq(s, "supplemental") {
        DocumentKind::Supplemental
    } else if str_eq(s, "rulebook") {
        DocumentKind::DmGuide
    } else {
        DocumentKind::Campaign
    }
}

/// Reading back the stored code of a `DocumentKind` gives the same value.
pub proof fn doc_kind_code_round_trip(x: DocumentKind)
    ensures
        doc_kind_of_code(doc_kind_code(x)) == x,
{
    reveal_strlit("dm_guide");
    reveal_strlit("monster_manual");
    reveal_strlit("srd");
    reveal_strlit("supplemental");
    reveal_strlit("rulebook");
    reveal_strlit("campaign");
    match x {
        DocumentKind::DmGuide => {
            assert("dm_guide"@.len() != "monster_manual"@.len());
            assert("dm_guide"@.len() != "srd"@.len());
            assert("dm_guide"@.len() != "supplemental"@.len());
            differ_at("dm_guide"@, "rulebook"@, 0);
            differ_at("dm_guide"@, "campaign"@, 0);
        },
        DocumentKind::MonsterManual => {
            assert("monster_manual"@.len() != "dm_guide"@.len());
            assert("monster_manual"@.len() != "srd"@.len());
            assert("monster_manual"@.len() != "supplemental"@.len());
            assert("monster_manual"@.len() != "rulebook"@.len());
            assert("monster_manual"@.len() != "campaign"@.len());
        },
        DocumentKind::Srd => {
            assert("srd"@.len() != "dm_guide"@.len());
            assert("srd"@.len() != "monster_manual"@.len());
            assert("srd"@.len() != "supplemental"@.len());
            assert("srd"@.len() != "rulebook"@.len());
            assert("srd"@.len() != "campaign"@.len());
        },
        DocumentKind::Campaign => {
            differ_at("campaign"@, "dm_guide"@, 0);
            assert("campaign"@.len() != "monster_manual"@.len());
            assert("campaign"@.len() != "srd"@.len());
            assert("campaign"@.len() != "supplemental"@.len());
            differ_at("campaign"@, "rulebook"@, 0);
        },
        DocumentKind::Supplemental => {
            assert("supplemental"@.len() != "dm_guide"@.len());
            assert("supplemental"@.len() != "monster_manual"@.len());
            assert("supplemental"@.len() != "srd"@.len());
            assert("supplemental"@.len() != "rulebook"@.len());
            assert("supplemental"@.len() != "campaign"@.len());
        },
    }
}

/// Progress of a document's ingestion.
#[derive(Debug, Clone, Copy, PartialEq, Eq, Structural)]
pub enum IngestionStatus {
    Pending,
    Processing,
    Completed,
    Failed,
}

/// The stored code of a `IngestionStatus`.
pub open spec fn ingestion_status_code(x: IngestionStatus) -> Seq<char> {
    match x {
        IngestionStatus::Pending => "pending"@,
        IngestionStatus::Processing => "processing"@,
        IngestionStatus::Completed => "completed"@,
        IngestionStatus::Failed => "failed"@,
    }
}

/// The `IngestionStatus` stored under a code; unknown codes read as `Pending`.
pub open spec fn ingestion_status_of_code(s: Seq<char>) -> IngestionStatus {
    if s == "processing"@ {
        IngestionStatus::Processing
    } else if s == "completed"@ {
        IngestionStatus::Completed
    } else if s == "failed"@ {
        IngestionStatus::Failed
    } else {
        IngestionStatus::Pending
    }
}

/// The stored code of a `IngestionStatus`.
pub fn ingestion_status_to_str(x: IngestionStatus) -> (r: &'static str)
    ensures
        r@ == ingestion_status_code(x),
{
    match x {
        IngestionStatus::Pending => "pending",
        IngestionStatus::Processing => "processing",
        IngestionStatus::Completed => "completed",
        IngestionStatus::Failed => "failed",
    }
}

/// Reads a stored `IngestionStatus` code.
pub fn parse_ingestion_status(s: &str) -> (r: IngestionStatus)
    ensures
        r == ingestion_status_of_code(s@),
{
    if str_eq(s, "processing") {
        IngestionStatus::Processing
    } else if str_eq(s, "completed") {
        IngestionStatus::Completed
    } else if str_eq(s, "failed") {
        IngestionStatus::Failed
    } else {
        IngestionStatus::Pending
    }
}

/// Reading back the stored code of a `IngestionStatus` gives the same value.
pub proof fn ingestion_status_code_round_trip(x: IngestionStatus)
    ensures
        ingestion_status_of_code(ingestion_status_code(x)) == x,
{
    reveal_strlit("processing");
    reveal_strlit("completed");
    reveal_strlit("failed");
    reveal_strlit("pending");
    match x {
        IngestionStatus::Pending => {
            assert("pending"@.len() != "processing"@.len());
            assert("pending"@.len() != "completed"@.len());
            assert("pending"@.len() != "failed"@.len());
        },
        IngestionStatus::Processing => {
            assert("processing"@.len() != "completed"@.len());
            assert("processing"@.len() != "failed"@.len());
            assert("processing"@.len() != "pending"@.len());
        },
        IngestionStatus::Completed => {
            assert("completed"@.len() != "processing"@.len());
            assert("completed"@.len() != "failed"@.len());
            assert("completed"@.len() != "pending"@.len());
        },
        IngestionStatus::Failed => {
            assert("failed"@.len() != "processing"@.len());
            assert("failed"@.len() != "completed"@.len());
            assert("failed"@.len() != "pending"@.len());
        },
    }
}

/// State of an encounter.
#[derive(Debug, Clone, Copy, PartialEq, Eq, Structural)]
pub enum EncounterStatus {
    Pending,
    Active,
    Completed,
    Fled,
}

/// The stored code of a `EncounterStatus`.
pub open spec fn encounter_status_code(x: EncounterStatus) -> Seq<char> {
    match x {
        EncounterStatus::Pending => "pending"@,
        EncounterStatus::Active => "active"@,
        EncounterStatus::Completed => "completed"@,
        EncounterStatus::Fled => "fled"@,
    }
}

/// The `EncounterStatus` stored under a code; unknown codes read as `Pending`.
pub open spec fn encounter_status_of_code(s: Seq<char>) -> EncounterStatus {
    if s == "active"@ {
        EncounterStatus::Active
    } else if s == "completed"@ {
        EncounterStatus::Completed
    } else if s == "fled"@ {
        EncounterStatus::Fled
    } else {
        EncounterStatus::Pending
    }
}

/// The stored code of a `EncounterStatus`.
pub fn encounter_status_to_str(x: EncounterStatus) -> (r: &'static str)
    ensures
        r@ == encounter_status_code(x),
{
    match x {
        EncounterStatus::Pending => "pending",
        EncounterStatus::Active => "active",
        EncounterStatus::Completed => "completed",
        EncounterStatus::Fled => "fled",
    }
}

/// Reads a stored `EncounterStatus` code.
pub fn parse_encounter_status(s: &str) -> (r: EncounterStatus)
    ensures
        r == encounter_status_of_code(s@),
{
    if str_eq(s, "active") {
        EncounterStatus::Active
    } else if str_eq(s, "completed") {
        EncounterStatus::Completed
    } else if str_eq(s, "fled") {
        EncounterStatus::Fled
    } else {
        EncounterStatus::Pending
    }
}

/// Reading back the stored code of a `EncounterStatus` gives the same value.
pub proof fn encounter_status_code_round_trip(x: EncounterStatus)
    ensures
        encounter_status_of_code(encounter_status_code(x)) == x,
{
    reveal_strlit("active");
    reveal_strlit("completed");
    reveal_strlit("fled");
    reveal_strlit("pending");
    match x {
        EncounterStatus::Pending => {
            assert("pending"@.len() != "active"@.len());
            assert("pending"@.len() != "completed"@.len());
            assert("pending"@.len() != "fled"@.len());
        },
        EncounterStatus::Active => {
            assert("active"@.len() != "completed"@.len());
            assert("active"@.len() != "fled"@.len());
            assert("active"@.len() != "pending"@.len());
        },
        EncounterStatus::Completed => {
            assert("completed"@.len() != "active"@.len());
            assert("completed"@.len() != "fled"@.len());
            assert("completed"@.len() != "pending"@.len());
        },
        EncounterStatus::Fled => {
            assert("fled"@.len() != "active"@.len());
            assert("fled"@.len() != "completed"@.len());
            assert("fled"@.len() != "pending"@.len());
        },
    }
}

/// State of a tracked plot hook.
#[derive(Debug, Clone, Copy, PartialEq, Eq, Structural)]
pub enum PlotHookStatus {
    Open,
    Active,
    Resolved,
}

/// The stored code of a `PlotHookStatus`.
pub open spec fn plot_hook_status_code(x: PlotHookStatus) -> Seq<char> {
    match x {
        PlotHookStatus::Open => "open"@,
        PlotHookStatus::Active => "active"@,
        PlotHookStatus::Resolved => "resolved"@,
    }
}

/// The `PlotHookStatus` stored under a code; unknown codes read as `Open`.
pub open spec fn plot_hook_status_of_code(s: Seq<char>) -> PlotHookStatus {
    if s == "active"@ {
        PlotHookStatus::Active
    } else if s == "resolved"@ {
        PlotHookStatus::Resolved
    } else {
        PlotHookStatus::Open
    }
}

/// The stored code of a `PlotHookStatus`.
pub fn plot_hook_status_to_str(x: PlotHookStatus) -> (r: &'static str)
    ensures
        r@ == plot_hook_status_code(x),
{
    match x {
        PlotHookStatus::Open => "open",
        PlotHookStatus::Active => "active",
        PlotHookStatus::Resolved => "resolved",
    }
}

/// Reads a stored `PlotHookStatus` code.
pub fn parse_plot_hook_status(s: &str) -> (r: PlotHookStatus)
    ensures
        r == plot_hook_status_of_code(s@),
{
    if str_eq(s, "active") {
        PlotHookStatus::Active
    } else if str_eq(s, "resolved") {
        PlotHookStatus::Resolved
    } else {
        PlotHookStatus::Open
    }
}

/// Reading back the stored code of a `PlotHookStatus` gives the same value.
pub proof fn plot_hook_status_code_round_trip(x: PlotHookStatus)
    ensures
        plot_hook_status_of_code(plot_hook_status_code(x)) == x,
{
    reveal_strlit("active");
    reveal_strlit("resolved");
    reveal_strlit("open");
    match x {
        PlotHookStatus::Open => {
            assert("open"@.len() != "active"@.len());
            assert("open"@.len() != "resolved"@.len());
        },
        PlotHookStatus::Active => {
            assert("active"@.len() != "resolved"@.len());
            assert("active"@.len() != "open"@.len());
        },
        PlotHookStatus::Resolved => {
            assert("resolved"@.len() != "active"@.len());
            assert("resolved"@.len() != "open"@.len());
        },
    }
}

/// The kind of a session event.
#[derive(Debug, Clone, Copy, PartialEq, Eq, Structural)]
pub enum EventType {
    Combat,
    Exploration,
    Social,
    Rest,
    LevelUp,
    ItemFound,
    NpcMet,
    PlotRevealed,
    Custom,
}

/// The stored code of a `EventType`.
pub open spec fn event_type_code(x: EventType) -> Seq<char> {
    match x {
        EventType::Combat => "combat"@,
        EventType::Exploration => "exploration"@,
        EventType::Social => "social"@,
        EventType::Rest => "rest"@,
        EventType::LevelUp => "level_up"@,
        EventType::ItemFound => "item_found"@,
        EventType::NpcMet => "npc_met"@,
        EventType::PlotRevealed => "plot_revealed"@,
        EventType::Custom => "custom"@,
    }
}

/// The `EventType` stored under a code; unknown codes read as `Custom`.
pub open spec fn event_type_of_code(s: Seq<char>) -> EventType {
    if s == "combat"@ {
        EventType::Combat
    } else if s == "exploration"@ {
        EventType::Exploration
    } else if s == "social"@ {
        EventType::Social
    } else if s == "rest"@ {
        EventType::Rest
    } else if s == "level_up"@ {
        EventType::LevelUp
    } else if s == "item_found"@ {
        EventType::ItemFound
    } else if s == "npc_met"@ {
        EventType::NpcMet
    } else if s == "plot_revealed"@ {
        EventType::PlotRevealed
    } else {
        EventType::Custom
    }
}

/// The stored code of a `EventType`.
pub fn event_type_to_str(x: EventType) -> (r: &'static str)
    ensures
        r@ == event_type_code(x),
{
    match x {
        EventType::Combat => "combat",
        EventType::Exploration => "exploration",
        EventType::Social => "social",
        EventType::Rest => "rest",
        EventType::LevelUp => "level_up",
        EventType::ItemFound => "item_found",
        EventType::NpcMet => "npc_met",
        EventType::PlotRevealed => "plot_revealed",
        EventType::Custom => "custom",
    }
}

/// Reads a stored `EventType` code.
pub fn parse_event_type(s: &str) -> (r: EventType)
    ensures
        r == event_type_of_code(s@),
{
    if str_eq(s, "combat") {
        EventType::Combat
    } else if str_eq(s, "exploration") {
        EventType::Exploration
    } else if str_eq(s, "social") {
        EventType::Social
    } else if str_eq(s, "rest") {
        EventType::Rest
    } else if str_eq(s, "level_up") {
        EventType::LevelUp
    } else if str_eq(s, "item_found") {
        EventType::ItemFound
    } else if str_eq(s, "npc_met") {
        EventType::NpcMet
    } else if str_eq(s, "plot_revealed") {
        EventType::PlotRevealed
    } else {
        EventType::Custom
    }
}

/// Reading back the stored code of a `EventType` gives the same value.
pub proof fn event_type_code_round_trip(x: EventType)
    ensures
        event_type_of_code(event_type_code(x)) == x,
{
    reveal_strlit("combat");
    reveal_strlit("exploration");
    reveal_strlit("social");
    reveal_strlit("rest");
    reveal_strlit("level_up");
    reveal_strlit("item_found");
    reveal_strlit("npc_met");
    reveal_strlit("plot_revealed");
    reveal_strlit("custom");
    match x {
        EventType::Combat => {
            assert("combat"@.len() != "exploration"@.len());
            differ_at("combat"@, "social"@, 0);
            assert("combat"@.len() != "rest"@.len());
            assert("combat"@.len() != "level_up"@.len());
            assert("combat"@.len() != "item_found"@.len());
            assert("combat"@.len() != "npc_met"@.len());
            assert("combat"@.len() != "plot_revealed"@.len());
            differ_at("combat"@, "custom"@, 1);
        },
        EventType::Exploration => {
            assert("exploration"@.len() != "combat"@.len());
            assert("exploration"@.len() != "social"@.len());
            assert("exploration"@.len() != "rest"@.len());
            assert("exploration"@.len() != "level_up"@.len());
            assert("exploration"@.len() != "item_found"@.len());
            assert("exploration"@.len() != "npc_met"@.len());
            assert("exploration"@.len() != "plot_revealed"@.len());
            assert("exploration"@.len() != "custom"@.len());
        },
        EventType::Social => {
            differ_at("social"@, "combat"@, 0);
            assert("social"@.len() != "exploration"@.len());
            assert("social"@.len() != "rest"@.len());
            assert("social"@.len() != "level_up"@.len());
            assert("social"@.len() != "item_found"@.len());
            assert("social"@.len() != "npc_met"@.len());
            assert("social"@.len() != "plot_revealed"@.len());
            differ_at("social"@, "custom"@, 0);
        },
        EventType::Rest => {
            assert("rest"@.len() != "combat"@.len());
            assert("rest"@.len() != "exploration"@.len());
            assert("rest"@.len() != "social"@.len());
            assert("rest"@.len() != "level_up"@.len());
            assert("rest"@.len() != "item_found"@.len());
            assert("rest"@.len() != "npc_met"@.len());
            assert("rest"@.len() != "plot_revealed"@.len());
            assert("rest"@.len() != "custom"@.len());
        },
        EventType::LevelUp => {
            assert("level_up"@.len() != "combat"@.len());
            assert("level_up"@.len() != "exploration"@.len());
            assert("level_up"@.len() != "social"@.len());
            assert("level_up"@.len() != "rest"@.len());
            assert("level_up"@.len() != "item_found"@.len());
            assert("level_up"@.len() != "npc_met"@.len());
            assert("level_up"@.len() != "plot_revealed"@.len());
            assert("level_up"@.len() != "custom"@.len());
        },
        EventType::ItemFound => {
            assert("item_found"@.len() != "combat"@.len());
            assert("item_found"@.len() != "exploration"@.len());
            assert("item_found"@.len() != "social"@.len());
            assert("item_found"@.len() != "rest"@.len());
            assert("item_found"@.len() != "level_up"@.len());
            assert("item_found"@.len() != "npc_met"@.len());
            assert("item_found"@.len() != "plot_revealed"@.len());
            assert("item_found"@.len() != "custom"@.len());
        },
        EventType::NpcMet => {
            assert("npc_met"@.len() != "combat"@.len());
            assert("npc_met"@.len() != "exploration"@.len());
            assert("npc_met"@.len() != "social"@.len());
            assert("npc_met"@.len() != "rest"@.len());
            assert("npc_met"@.len() != "level_up"@.len());
            assert("npc_met"@.len() != "item_found"@.len());
            assert("npc_met"@.len() != "plot_revealed"@.len());
            assert("npc_met"@.len() != "custom"@.len());
        },
        EventType::PlotRevealed => {
            assert("plot_revealed"@.len() != "combat"@.len());
            assert("plot_revealed"@.len() != "exploration"@.len());
            assert("plot_revealed"@.len() != "social"@.len());
            assert("plot_revealed"@.len() != "rest"@.len());
            assert("plot_revealed"@.len() != "level_up"@.len());
            assert("plot_revealed"@.len() != "item_found"@.len());
            assert("plot_revealed"@.len() != "npc_met"@.len());
            assert("plot_revealed"@.len() != "custom"@.len());
        },
        EventType::Custom => {
            differ_at("custom"@, "combat"@, 1);
            assert("custom"@.len() != "exploration"@.len());
            differ_at("custom"@, "social"@, 0);
            assert("custom"@.len() != "rest"@.len());
            assert("custom"@.len() != "level_up"@.len());
            assert("custom"@.len() != "item_found"@.len());
            assert("custom"@.len() != "npc_met"@.len());
            assert("custom"@.len() != "plot_revealed"@.len());
        },
    }
}

/// How much a session event matters.
#[derive(Debug, Clone, Copy, PartialEq, Eq, Structural)]
pub enum EventSignificance {
    Minor,
    Major,
    Milestone,
}

/// The stored code of a `EventSignificance`.
pub open spec fn significance_code(x: EventSignificance) -> Seq<char> {
    match x {
        EventSignificance::Minor => "minor"@,
        EventSignificance::Major => "major"@,
        EventSignificance::Milestone => "milestone"@,
    }
}

/// The `EventSignificance` stored under a code; unknown codes read as `Minor`.
pub open spec fn significance_of_code(s: Seq<char>) -> EventSignificance {
    if s == "major"@ {
        EventSignificance::Major
    } else if s == "milestone"@ {
        EventSignificance::Milestone
    } else {
        EventSignificance::Minor
    }
}

/// The stored code of a `EventSignificance`.
pub fn significance_to_str(x: EventSignificance) -> (r: &'static str)
    ensures
        r@ == significance_code(x),
{
    match x {
        EventSignificance::Minor => "minor",
        EventSignificance::Major => "major",
        EventSignificance::Milestone => "milestone",
    }
}

/// Reads a stored `EventSignificance` code.
pub fn parse_significance(s: &str) -> (r: EventSignificance)
    ensures
        r == significance_of_code(s@),
{
    if str_eq(s, "major") {
        EventSignificance::Major
    } else if str_eq(s, "milestone") {
        EventSignificance::Milestone
    } else {
        EventSignificance::Minor
    }
}

/// Reading back the stored code of a `EventSignificance` gives the same value.
pub proof fn significance_code_round_trip(x: EventSignificance)
    ensures
        significance_of_code(significance_code(x)) == x,
{
    reveal_strlit("major");
    reveal_strlit("milestone");
    reveal_strlit("minor");
    match x {
        EventSignificance::Minor => {
            differ_at("minor"@, "major"@, 1);
            assert("minor"@.len() != "milestone"@.len());
        },
        EventSignificance::Major => {
            assert("major"@.len() != "milestone"@.len());
            differ_at("major"@, "minor"@, 1);
        },
        EventSignificance::Milestone => {
            assert("milestone"@.len() != "major"@.len());
            assert("milestone"@.len() != "minor"@.len());
        },
    }
}


// ───────────────────────── character updates ─────────────────────────

/// A partial update of a character: the fields given are changed.
pub struct UpdateCharacterRequest {
    pub name: Option<String>,
    pub class: Option<String>,
    pub race: Option<String>,
    pub level: Option<i32>,
    pub max_hp: Option<i32>,
    pub current_hp: Option<i32>,
    pub armor_class: Option<i32>,
    pub speed: Option<i32>,
    pub ability_scores: Option<crate::sheet::AbilityScores>,
    pub conditions: Option<Vec<String>>,
    pub is_alive: Option<bool>,
    pub backstory_text: Option<String>,
}

/// A stored column of a character.
#[derive(Debug, Clone, Copy, PartialEq, Eq, Structural)]
pub enum CharacterColumn {
    Name,
    Class,
    Race,
    Level,
    MaxHp,
    CurrentHp,
    ArmorClass,
    Speed,
    AbilityScores,
    Conditions,
    IsAlive,
    Backstory,
}

/// The stored column name.
pub open spec fn column_name_spec(c: CharacterColumn) -> Seq<char> {
    match c {
        CharacterColumn::Name => "name"@,
        CharacterColumn::Class => "class"@,
        CharacterColumn::Race => "race"@,
        CharacterColumn::Level => "level"@,
        CharacterColumn::MaxHp => "max_hp"@,
        CharacterColumn::CurrentHp => "current_hp"@,
        CharacterColumn::ArmorClass => "armor_class"@,
        CharacterColumn::Speed => "speed"@,
        CharacterColumn::AbilityScores => "ability_scores"@,
        CharacterColumn::Conditions => "conditions"@,
        CharacterColumn::IsAlive => "is_alive"@,
        CharacterColumn::Backstory => "backstory"@,
    }
}

/// The name of a stored column.
pub fn column_name(c: CharacterColumn) -> (r: &'static str)
    ensures
        r@ == column_name_spec(c),
{
    match c {
        CharacterColumn::Name => "name",
        CharacterColumn::Class => "class",
        CharacterColumn::Race => "race",
        CharacterColumn::Level => "level",
        CharacterColumn::MaxHp => "max_hp",
        CharacterColumn::CurrentHp => "current_hp",
        CharacterColumn::ArmorClass => "armor_class",
        CharacterColumn::Speed => "speed",
        CharacterColumn::AbilityScores => "ability_scores",
        CharacterColumn::Conditions => "conditions",
        CharacterColumn::IsAlive => "is_alive",
        CharacterColumn::Backstory => "backstory",
    }
}

/// Each column with whether the update gives it, in writing order.
pub open spec fn update_flags(req: UpdateCharacterRequest) -> Seq<(bool, CharacterColumn)> {
    seq![
        (req.name is Some, CharacterColumn::Name),
        (req.class is Some, CharacterColumn::Class),
        (req.race is Some, CharacterColumn::Race),
        (req.level is Some, CharacterColumn::Level),
        (req.max_hp is Some, CharacterColumn::MaxHp),
        (req.current_hp is Some, CharacterColumn::CurrentHp),
        (req.armor_class is Some, CharacterColumn::ArmorClass),
        (req.speed is Some, CharacterColumn::Speed),
        (req.ability_scores is Some, CharacterColumn::AbilityScores),
        (req.conditions is Some, CharacterColumn::Conditions),
        (req.is_alive is Some, CharacterColumn::IsAlive),
        (req.backstory_text is Some, CharacterColumn::Backstory),
    ]
}

/// The flagged columns, in order.
pub open spec fn flagged(fl: Seq<(bool, CharacterColumn)>) -> Seq<CharacterColumn>
    decreases fl.len(),
{
    if fl.len() == 0 {
        Seq::empty()
    } else {
        let prev = flagged(fl.drop_last());
        if fl.last().0 {
            prev.push(fl.last().1)
        } else {
            prev
        }
    }
}

/// The columns an update writes, in the order they are written.
pub open spec fn update_columns_spec(req: UpdateCharacterRequest) -> Seq<CharacterColumn> {
    flagged(update_flags(req))
}

/// The columns an update writes (each also sets `updated_at`), in order.
pub fn update_columns(req: &UpdateCharacterRequest) -> (r: Vec<CharacterColumn>)
    ensures
        r@ == update_columns_spec(*req),
{
    let fl: Vec<(bool, CharacterColumn)> = vec![
        (req.name.is_some(), CharacterColumn::Name),
        (req.class.is_some(), CharacterColumn::Class),
        (req.race.is_some(), CharacterColumn::Race),
        (req.level.is_some(), CharacterColumn::Level),
        (req.max_hp.is_some(), CharacterColumn::MaxHp),
        (req.current_hp.is_some(), CharacterColumn::CurrentHp),
        (req.armor_class.is_some(), CharacterColumn::ArmorClass),
        (req.speed.is_some(), CharacterColumn::Speed),
        (req.ability_scores.is_some(), CharacterColumn::AbilityScores),
        (req.conditions.is_some(), CharacterColumn::Conditions),
        (req.is_alive.is_some(), CharacterColumn::IsAlive),
        (req.backstory_text.is_some(), CharacterColumn::Backstory),
    ];
    assert(fl@ =~= update_flags(*req));
    let mut out: Vec<CharacterColumn> = Vec::new();
    let mut i: usize = 0;
    assert(fl@.take(0) =~= Seq::<(bool, CharacterColumn)>::empty());
    while i < fl.len()
        invariant
            i <= fl.len(),
            out@ == flagged(fl@.take(i as int)),
        decreases fl.len() - i,
    {
        assert(fl@.take(i + 1).drop_last() =~= fl@.take(i as int));
        assert(fl@.take(i + 1).last() == fl@[i as int]);
        if fl[i].0 {
            out.push(fl[i].1);
        }
        i = i + 1;
    }
    assert(fl@.take(i as int) =~= fl@);
    out
}

/// The stored form of the alive flag.
pub fn alive_flag(alive: bool) -> (r: i32)
    ensures
        r == (if alive {
            1int
        } else {
            0int
        }),
{
    if alive {
        1
    } else {
        0
    }
}

/// A character's backstory and what was drawn from it.
pub struct Backstory {
    pub raw_text: String,
    pub extracted_hooks: Vec<String>,
    pub motivations: Vec<String>,
    pub key_relationships: Vec<String>,
    pub secrets: Vec<String>,
}

/// `b` is backstory `existing` with its text replaced by `t`: what was drawn
/// from the old text is kept, and a new backstory has nothing drawn.
pub open spec fn backstory_replaced(existing: Option<Backstory>, t: Seq<char>, b: Backstory) -> bool {
    &&& b.raw_text@ == t
    &&& match existing {
        Some(e) => b.extracted_hooks == e.extracted_hooks && b.motivations == e.motivations
            && b.key_relationships == e.key_relationships && b.secrets == e.secrets,
        None => b.extracted_hooks@.len() == 0 && b.motivations@.len() == 0
            && b.key_relationships@.len() == 0 && b.secrets@.len() == 0,
    }
}

/// The backstory after its text is replaced: the existing one with the new
/// text (what was drawn from it kept), or a new one with nothing drawn.
pub fn backstory_with_text(existing: Option<Backstory>, text: &str) -> (r: Backstory)
    ensures
        backstory_replaced(existing, text@, r),
{
    match existing {
        Some(b) => Backstory { raw_text: string_of(&chars_of(text)), ..b },
        None => Backstory {
            raw_text: string_of(&chars_of(text)),
            extracted_hooks: Vec::new(),
            motivations: Vec::new(),
            key_relationships: Vec::new(),
            secrets: Vec::new(),
        },
    }
}

/// Campaign and supplemental documents are read with layout-aware OCR and
/// have their story extracted; the others are reference material.
pub fn is_campaign_kind(k: DocumentKind) -> (b: bool)
    ensures
        b == (k == DocumentKind::Campaign || k == DocumentKind::Supplemental),
{
    match k {
        DocumentKind::Campaign | DocumentKind::Supplemental => true,
        _ => false,
    }
}

/// Whether `x` occurs among the first `n` ids.
fn seen_before(ids: &[u128], n: usize, x: u128) -> (b: bool)
    requires
        n <= ids.len(),
    ensures
        b == ids@.take(n as int).contains(x),
{
    let mut i: usize = 0;
    while i < n
        invariant
            i <= n <= ids.len(),
            forall|j: int| 0 <= j < i ==> ids@[j] != x,
        decreases n - i,
    {
        if ids[i] == x {
            assert(ids@.take(n as int)[i as int] == x);
            return true;
        }
        i = i + 1;
    }
    proof {
        assert forall|j: int| 0 <= j < n implies ids@.take(n as int)[j] != x by {}
    }
    false
}

/// The ids that occur in `ids`, each once, in order of first occurrence.
pub open spec fn first_occurrences(ids: Seq<u128>) -> Seq<u128>
    decreases ids.len(),
{
    if ids.len() == 0 {
        Seq::empty()
    } else if ids.drop_last().contains(ids.last()) {
        first_occurrences(ids.drop_last())
    } else {
        first_occurrences(ids.drop_last()).push(ids.last())
    }
}

/// The source documents whose stored chunks a batch replaces: each
/// document id of the batch once, in order of first occurrence.
pub fn documents_to_replace(ids: &[u128]) -> (r: Vec<u128>)
    ensures
        r@ == first_occurrences(ids@),
{
    let mut r: Vec<u128> = Vec::new();
    let mut i: usize = 0;
    while i < ids.len()
        invariant
            i <= ids.len(),
            r@ == first_occurrences(ids@.take(i as int)),
        decreases ids.len() - i,
    {
        proof {
            assert(ids@.take(i + 1).drop_last() =~= ids@.take(i as int));
            assert(ids@.take(i + 1).last() == ids@[i as int]);
        }
        if !seen_before(ids, i, ids[i]) {
            r.push(ids[i]);
        }
        i = i + 1;
    }
    assert(ids@.take(i as int) =~= ids@);
    r
}

/// The most points sent to the vector store in one request.
pub const UPSERT_BATCH: usize = 100;

/// The batches in which `n` chunks are sent: consecutive ranges `[start,
/// end)` of `UPSERT_BATCH` chunks, the last one possibly shorter.
pub open spec fn batch_ranges(n: nat) -> Seq<(nat, nat)> {
    Seq::new(
        ((n + 99) / 100) as nat,
        |i: int| ((i * 100) as nat, if (i + 1) * 100 <= n { ((i + 1) * 100) as nat } else { n }),
    )
}

/// The ranges of the chunks that go together in one upsert request.
pub fn upsert_batches(n: usize) -> (r: Vec<(usize, usize)>)
    ensures
        r@.len() == batch_ranges(n as nat).len(),
        forall|i: int| 0 <= i < r@.len() ==> (#[trigger] r@[i]).0 as nat == batch_ranges(n as nat)[i].0
            && r@[i].1 as nat == batch_ranges(n as nat)[i].1,
{
    let mut r: Vec<(usize, usize)> = Vec::new();
    let mut start: usize = 0;
    let ghost total = batch_ranges(n as nat);
    assert(n == 0 ==> total.len() == 0);
    assert(n > 0 ==> total.len() > 0) by (nonlinear_arith)
        requires
            total.len() == (n + 99) / 100,
    ;
    while start < n
        invariant
            start <= n,
            total == batch_ranges(n as nat),
            start < n ==> start == r@.len() * 100 && r@.len() < total.len(),
            start == n ==> r@.len() == total.len(),
            forall|i: int| 0 <= i < r@.len() ==> (#[trigger] r@[i]).0 as nat == total[i].0
                && r@[i].1 as nat == total[i].1,
        decreases n - start,
    {
        let ghost k = r@.len() as int;
        let end: usize = if n - start > UPSERT_BATCH { start + UPSERT_BATCH } else { n };
        assert(total[k].0 == start && total[k].1 == end);
        r.push((start, end));
        proof {
            if end < n {
                assert(k + 1 < total.len()) by (nonlinear_arith)
                    requires
                        (k + 1) * 100 < n,
                        total.len() == (n + 99) / 100,
                ;
            } else {
                assert(k + 1 == total.len()) by (nonlinear_arith)
                    requires
                        k * 100 < n,
                        n <= (k + 1) * 100,
                        total.len() == (n + 99) / 100,
                ;
            }
        }
        start = end;
    }
    r
}

// ───────────────────────── applying a character update ─────────────────────────

/// A value written into a character column. The alive flag is stored as an
/// integer (1 or 0); ability scores, conditions and the backstory are stored
/// as JSON of the values given here.
pub enum ColumnValue {
    Text(String),
    Int(i32),
    Abilities(crate::sheet::AbilityScores),
    List(Vec<String>),
    Story(Backstory),
}

/// `v` is what an update writes into column `col`: the request's value for
/// it, the alive flag as 1 or 0, and for the backstory the stored backstory
/// `existing` with its text replaced.
pub open spec fn assignment_ok(
    col: CharacterColumn,
    v: ColumnValue,
    req: UpdateCharacterRequest,
    existing: Option<Backstory>,
) -> bool {
    match col {
        CharacterColumn::Name => req.name is Some && v == ColumnValue::Text(req.name->0),
        CharacterColumn::Class => req.class is Some && v == ColumnValue::Text(req.class->0),
        CharacterColumn::Race => req.race is Some && v == ColumnValue::Text(req.race->0),
        CharacterColumn::Level => req.level is Some && v == ColumnValue::Int(req.level->0),
        CharacterColumn::MaxHp => req.max_hp is Some && v == ColumnValue::Int(req.max_hp->0),
        CharacterColumn::CurrentHp => req.current_hp is Some && v == ColumnValue::Int(req.current_hp->0),
        CharacterColumn::ArmorClass => req.armor_class is Some && v == ColumnValue::Int(req.armor_class->0),
        CharacterColumn::Speed => req.speed is Some && v == ColumnValue::Int(req.speed->0),
        CharacterColumn::AbilityScores => req.ability_scores is Some && v == ColumnValue::Abilities(
            req.ability_scores->0,
        ),
        CharacterColumn::Conditions => req.conditions is Some && v == ColumnValue::List(req.conditions->0),
        CharacterColumn::IsAlive => req.is_alive is Some && v == ColumnValue::Int(
            if req.is_alive->0 {
                1i32
            } else {
                0i32
            },
        ),
        CharacterColumn::Backstory => req.backstory_text is Some && (v matches ColumnValue::Story(b)
            && backstory_replaced(existing, req.backstory_text->0@, b)),
    }
}

pub open spec fn assigned_columns(s: Seq<(CharacterColumn, ColumnValue)>) -> Seq<CharacterColumn> {
    s.map_values(|p: (CharacterColumn, ColumnValue)| p.0)
}

pub open spec fn all_assignments_ok(
    s: Seq<(CharacterColumn, ColumnValue)>,
    req: UpdateCharacterRequest,
    existing: Option<Backstory>,
) -> bool {
    forall|i: int| 0 <= i < s.len() ==> assignment_ok((#[trigger] s[i]).0, s[i].1, req, existing)
}

fn assign(
    out: &mut Vec<(CharacterColumn, ColumnValue)>,
    col: CharacterColumn,
    v: ColumnValue,
    Ghost(req): Ghost<UpdateCharacterRequest>,
    Ghost(existing): Ghost<Option<Backstory>>,
)
    requires
        all_assignments_ok(old(out)@, req, existing),
        assignment_ok(col, v, req, existing),
    ensures
        assigned_columns(final(out)@) == assigned_columns(old(out)@).push(col),
        all_assignments_ok(final(out)@, req, existing),
{
    out.push((col, v));
    assert(assigned_columns(out@) =~= assigned_columns(old(out)@).push(col));
}

fn assign_given(
    out: &mut Vec<(CharacterColumn, ColumnValue)>,
    col: CharacterColumn,
    v: Option<ColumnValue>,
    Ghost(req): Ghost<UpdateCharacterRequest>,
    Ghost(existing): Ghost<Option<Backstory>>,
    Ghost(k): Ghost<int>,
)
    requires
        0 <= k < 12,
        update_flags(req)[k] == (v is Some, col),
        v is Some ==> assignment_ok(col, v->0, req, existing),
        assigned_columns(old(out)@) == flagged(update_flags(req).take(k)),
        all_assignments_ok(old(out)@, req, existing),
    ensures
        assigned_columns(final(out)@) == flagged(update_flags(req).take(k + 1)),
        all_assignments_ok(final(out)@, req, existing),
{
    let ghost fl = update_flags(req);
    assert(fl.take(k + 1).drop_last() =~= fl.take(k));
    assert(fl.take(k + 1).last() == fl[k]);
    match v {
        Some(x) => assign(out, col, x, Ghost(req), Ghost(existing)),
        None => {},
    }
}

/// What a character update writes: each column the request gives, in the
/// order of `update_columns`, with its value (the backstory built from the
/// stored one, `existing`).
pub fn update_assignments(req: UpdateCharacterRequest, existing: Option<Backstory>) -> (r: Vec<(CharacterColumn, ColumnValue)>)
    ensures
        assigned_columns(r@) == update_columns_spec(req),
        all_assignments_ok(r@, req, existing),
{
    let ghost g = req;
    let ghost ex = existing;
    let UpdateCharacterRequest {
        name,
        class,
        race,
        level,
        max_hp,
        current_hp,
        armor_class,
        speed,
        ability_scores,
        conditions,
        is_alive,
        backstory_text,
    } = req;
    let mut out: Vec<(CharacterColumn, ColumnValue)> = Vec::new();
    assert(assigned_columns(out@) =~= flagged(update_flags(g).take(0)));
    let v = match name { Some(x) => Some(ColumnValue::Text(x)), None => None };
    assign_given(&mut out, CharacterColumn::Name, v, Ghost(g), Ghost(ex), Ghost(0));
    let v = match class { Some(x) => Some(ColumnValue::Text(x)), None => None };
    assign_given(&mut out, CharacterColumn::Class, v, Ghost(g), Ghost(ex), Ghost(1));
    let v = match race { Some(x) => Some(ColumnValue::Text(x)), None => None };
    assign_given(&mut out, CharacterColumn::Race, v, Ghost(g), Ghost(ex), Ghost(2));
    let v = match level { Some(x) => Some(ColumnValue::Int(x)), None => None };
    assign_given(&mut out, CharacterColumn::Level, v, Ghost(g), Ghost(ex), Ghost(3));
    let v = match max_hp { Some(x) => Some(ColumnValue::Int(x)), None => None };
    assign_given(&mut out, CharacterColumn::MaxHp, v, Ghost(g), Ghost(ex), Ghost(4));
    let v = match current_hp { Some(x) => Some(ColumnValue::Int(x)), None => None };
    assign_given(&mut out, CharacterColumn::CurrentHp, v, Ghost(g), Ghost(ex), Ghost(5));
    let v = match armor_class { Some(x) => Some(ColumnValue::Int(x)), None => None };
    assign_given(&mut out, CharacterColumn::ArmorClass, v, Ghost(g), Ghost(ex), Ghost(6));
    let v = match speed { Some(x) => Some(ColumnValue::Int(x)), None => None };
    assign_given(&mut out, CharacterColumn::Speed, v, Ghost(g), Ghost(ex), Ghost(7));
    let v = match ability_scores { Some(x) => Some(ColumnValue::Abilities(x)), None => None };
    assign_given(&mut out, CharacterColumn::AbilityScores, v, Ghost(g), Ghost(ex), Ghost(8));
    let v = match conditions { Some(x) => Some(ColumnValue::List(x)), None => None };
    assign_given(&mut out, CharacterColumn::Conditions, v, Ghost(g), Ghost(ex), Ghost(9));
    let v = match is_alive { Some(x) => Some(ColumnValue::Int(alive_flag(x))), None => None };
    assign_given(&mut out, CharacterColumn::IsAlive, v, Ghost(g), Ghost(ex), Ghost(10));
    let v = match backstory_text {
        Some(t) => Some(ColumnValue::Story(backstory_with_text(existing, t.as_str()))),
        None => None,
    };
    assign_given(&mut out, CharacterColumn::Backstory, v, Ghost(g), Ghost(ex), Ghost(11));
    assert(update_flags(g).take(12) =~= update_flags(g));
    out
}

/// A stored character, as an update reads and changes it.
pub struct CharacterRecord {
    pub id: u128,
    pub campaign_id: u128,
    pub name: String,
    pub character_type: CharacterType,
    pub class: Option<String>,
    pub race: Option<String>,
    pub level: i32,
    pub max_hp: i32,
    pub current_hp: i32,
    pub armor_class: i32,
    pub speed: i32,
    pub ability_scores: crate::sheet::AbilityScores,
    pub conditions: Vec<String>,
    pub backstory: Option<Backstory>,
    pub is_alive: bool,
    pub portrait_url: Option<String>,
    pub spell_slots: Vec<crate::sheet::SpellSlot>,
    pub created_at: String,
    /// When the record last changed, in RFC 3339.
    pub updated_at: String,
}

/// The new value of a field: the request's when it gives one, else the old.
pub open spec fn updated<T>(given: Option<T>, old: T) -> T {
    match given {
        Some(v) => v,
        None => old,
    }
}

/// The character as it reads back after an update at time `now`: each field
/// the request gives takes its value (the backstory keeps what was drawn
/// from it and takes the new text), every other field is kept, and the
/// record is marked updated at `now` when anything was written.
pub fn apply_character_update(c: CharacterRecord, req: UpdateCharacterRequest, now: &str) -> (r: CharacterRecord)
    ensures
        r.id == c.id,
        r.campaign_id == c.campaign_id,
        r.character_type == c.character_type,
        r.name == updated(req.name, c.name),
        r.class == match req.class {
            Some(v) => Some(v),
            None => c.class,
        },
        r.race == match req.race {
            Some(v) => Some(v),
            None => c.race,
        },
        r.level == updated(req.level, c.level),
        r.max_hp == updated(req.max_hp, c.max_hp),
        r.current_hp == updated(req.current_hp, c.current_hp),
        r.armor_class == updated(req.armor_class, c.armor_class),
        r.speed == updated(req.speed, c.speed),
        r.ability_scores == updated(req.ability_scores, c.ability_scores),
        r.conditions == updated(req.conditions, c.conditions),
        r.is_alive == updated(req.is_alive, c.is_alive),
        match req.backstory_text {
            Some(t) => (r.backstory matches Some(b) && backstory_replaced(c.backstory, t@, b)),
            None => r.backstory == c.backstory,
        },
        r.portrait_url == c.portrait_url,
        r.spell_slots == c.spell_slots,
        r.created_at == c.created_at,
        update_columns_spec(req).len() > 0 ==> r.updated_at@ == now@,
        update_columns_spec(req).len() == 0 ==> r.updated_at == c.updated_at,
{
    let ghost g = req;
    let cols = update_columns(&req);
    let CharacterRecord {
        id,
        campaign_id,
        name,
        character_type,
        class,
        race,
        level,
        max_hp,
        current_hp,
        armor_class,
        speed,
        ability_scores,
        conditions,
        backstory,
        is_alive,
        portrait_url,
        spell_slots,
        created_at,
        updated_at,
    } = c;
    let backstory = match req.backstory_text {
        Some(t) => Some(backstory_with_text(backstory, t.as_str())),
        None => backstory,
    };
    let updated_at = if cols.len() > 0 {
        string_of(&chars_of(now))
    } else {
        updated_at
    };
    CharacterRecord {
        id,
        campaign_id,
        name: match req.name {
            Some(v) => v,
            None => name,
        },
        character_type,
        class: match req.class {
            Some(v) => Some(v),
            None => class,
        },
        race: match req.race {
            Some(v) => Some(v),
            None => race,
        },
        level: match req.level {
            Some(v) => v,
            None => level,
        },
        max_hp: match req.max_hp {
            Some(v) => v,
            None => max_hp,
        },
        current_hp: match req.current_hp {
            Some(v) => v,
            None => current_hp,
        },
        armor_class: match req.armor_class {
            Some(v) => v,
            None => armor_class,
        },
        speed: match req.speed {
            Some(v) => v,
            None => speed,
        },
        ability_scores: match req.ability_scores {
            Some(v) => v,
            None => ability_scores,
        },
        conditions: match req.conditions {
            Some(v) => v,
            None => conditions,
        },
        backstory,
        is_alive: match req.is_alive {
            Some(v) => v,
            None => is_alive,
        },
        portrait_url,
        spell_slots,
        created_at,
        updated_at,
    }
}

/// The kind of a stored document whose kind may be missing: a missing kind
/// reads as `DmGuide`, a stored code as `parse_doc_kind` reads it.
pub fn parse_doc_kind_opt(code: Option<&str>) -> (r: DocumentKind)
    ensures
        r == match code {
            Some(s) => doc_kind_of_code(s@),
            None => DocumentKind::DmGuide,
        },
{
    match code {
        Some(s) => parse_doc_kind(s),
        None => DocumentKind::DmGuide,
    }
}

} // verus!
