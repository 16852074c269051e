//! Prompt templates for the language-model tasks of the assistant.
use vstd::prelude::*;

verus! {

pub const OCR_SIMPLE_PROMPT: &'static str = "Recognize the text in the image and output in Markdown format. \
      Preserve the original layout (headings/paragraphs/tables/formulas). \
      Do not fabricate content that does not exist in the image.";

pub fn ocr_simple_prompt() -> (r: &'static str)
    ensures
        r@ == OCR_SIMPLE_PROMPT@,
{
    OCR_SIMPLE_PROMPT
}

pub const STORY_EXTRACTION_SYSTEM: &'static str = "You are a D&D campaign story analyst. Extract the narrative structure from the campaign document.\n\
     Return ONLY valid JSON (no markdown, no explanation) matching this schema:\n\n\
     {\n\
       \"arcs\": [\n\
         { \"title\": \"<arc name>\", \"description\": \"<2-3 sentence description>\", \"arc_order\": <int> }\n\
       ],\n\
       \"events\": [\n\
         {\n\
           \"title\": \"<event name>\",\n\
           \"description\": \"<2-3 sentence description>\",\n\
           \"event_type\": \"combat|social|revelation|travel|rest\",\n\
           \"significance\": \"major|minor\",\n\
           \"location\": \"<location or null>\",\n\
           \"involved_characters\": [\"<name>\", ...],\n\
           \"event_order\": <int>,\n\
           \"arc_title\": \"<arc title or null>\",\n\
           \"is_dm_only\": false\n\
         }\n\
       ],\n\
       \"subplots\": [\n\
         { \"title\": \"<title>\", \"description\": \"<description>\", \"arc_title\": \"<arc or null>\" }\n\
       ],\n\
       \"character_arcs\": [\n\
         {\n\
           \"character_name\": \"<name>\",\n\
           \"description\": \"<arc description>\",\n\
           \"arc_points\": [{ \"description\": \"<point>\", \"order\": <int> }]\n\
         }\n\
       ],\n\
       \"encounters\": [\n\
         {\n\
           \"name\": \"<encounter name>\",\n\
           \"description\": \"<description>\",\n\
           \"location\": \"<location or null>\",\n\
           \"difficulty_hint\": \"easy|medium|hard|deadly or null\",\n\
           \"monsters\": [{ \"name\": \"<name>\", \"count\": <int or null>, \"cr\": \"<cr string or null>\" }],\n\
           \"story_event_title\": \"<linked event title or null>\"\n\
         }\n\
       ]\n\
     }\n\n\
     Guidelines:\n\
     - Extract 2-6 major story arcs\n\
     - Extract all key events in chronological order\n\
     - Mark DM-only events with is_dm_only: true\n\
     - Use arc_title to link events/subplots to their arc\n\
     - Be specific: use actual names from the document";

pub fn story_extraction_system() -> (r: &'static str)
    ensures
        r@ == STORY_EXTRACTION_SYSTEM@,
{
    STORY_EXTRACTION_SYSTEM
}

/// The user prompt of a whole-document story extraction.
pub open spec fn story_user_text(full_text: Seq<char>, doc_title: Seq<char>) -> Seq<char> {
    "Document: "@ + doc_title + "\n\n\
         Full Text:\n"@ + full_text + "\n\n\
         Extract the complete story structure as specified."@
}

pub fn story_extraction_user(full_text: &str, doc_title: &str) -> (r: String)
    ensures
        r@ == story_user_text(full_text@, doc_title@),
{
    let mut r = String::from_str("Document: ");
    r.append(doc_title);
    r.append("\n\n\
         Full Text:\n");
    r.append(full_text);
    r.append("\n\n\
         Extract the complete story structure as specified.");
    r
}

/// The user prompt of a one-chapter story extraction.
pub open spec fn story_chapter_text(chapter_text: Seq<char>, doc_title: Seq<char>, chapter_name: Seq<char>) -> Seq<char> {
    "Document: "@ + doc_title + "\nChapter: "@ + chapter_name + "\n\n\
         # "@ + chapter_name + "\n\n"@ + chapter_text + "\n\n\
         Extract the story structure for this chapter only. \
         Use arc_title and story_event_title to link items within this chapter. \
         Extract all events in chronological order as they appear here."@
}

pub fn story_extraction_user_chapter(chapter_text: &str, doc_title: &str, chapter_name: &str) -> (r: String)
    ensures
        r@ == story_chapter_text(chapter_text@, doc_title@, chapter_name@),
{
    let mut r = String::from_str("Document: ");
    r.append(doc_title);
    r.append("\nChapter: ");
    r.append(chapter_name);
    r.append("\n\n\
         # ");
    r.append(chapter_name);
    r.append("\n\n");
    r.append(chapter_text);
    r.append("\n\n\
         Extract the story structure for this chapter only. \
         Use arc_title and story_event_title to link items within this chapter. \
         Extract all events in chronological order as they appear here.");
    r
}

pub fn story_so_far_structured(current_chapter: &str, arcs_json: &str, events_json: &str, rag_context: &str) -> (r: String)
    ensures
        r@ == "You are a DM's campaign assistant with access to indexed campaign documents.\n\
         Current chapter / story position: \""@ + current_chapter@ + "\"\n\n\
         ## Structured Story Arcs\n"@ + arcs_json@ + "\n\n\
         ## Structured Story Events\n"@ + events_json@ + "\n\n\
         ## RAG Context\n"@ + rag_context@ + "\n\n\
         Summarize the SOURCE MATERIAL content that comes BEFORE \""@ + current_chapter@ + "\".\n\
         Write in markdown with sections: ## World & Setting, ## Key Events, ## NPCs Introduced, \
         ## Secrets the DM Should Remember, ## What Players Know vs Don't."@,
{
    let mut r = String::from_str("You are a DM's campaign assistant with access to indexed campaign documents.\n\
         Current chapter / story position: \"");
    r.append(current_chapter);
    r.append("\"\n\n\
         ## Structured Story Arcs\n");
    r.append(arcs_json);
    r.append("\n\n\
         ## Structured Story Events\n");
    r.append(events_json);
    r.append("\n\n\
         ## RAG Context\n");
    r.append(rag_context);
    r.append("\n\n\
         Summarize the SOURCE MATERIAL content that comes BEFORE \"");
    r.append(current_chapter);
    r.append("\".\n\
         Write in markdown with sections: ## World & Setting, ## Key Events, ## NPCs Introduced, \
         ## Secrets the DM Should Remember, ## What Players Know vs Don't.");
    r
}

pub fn story_ahead_structured(current_chapter: &str, arcs_json: &str, events_json: &str, rag_context: &str) -> (r: String)
    ensures
        r@ == "You are a DM's campaign assistant with access to indexed campaign documents.\n\
         Current chapter / story position: \""@ + current_chapter@ + "\"\n\n\
         ## Structured Story Arcs\n"@ + arcs_json@ + "\n\n\
         ## Structured Story Events\n"@ + events_json@ + "\n\n\
         ## RAG Context\n"@ + rag_context@ + "\n\n\
         Summarize the SOURCE MATERIAL content that comes AFTER \""@ + current_chapter@ + "\".\n\
         Write in markdown with sections: ## What Comes Next, ## Upcoming Key NPCs, \
         ## Upcoming Locations, ## Upcoming Revelations, ## Encounter Prep Notes, \
         ## Long-Term Foreshadowing."@,
{
    let mut r = String::from_str("You are a DM's campaign assistant with access to indexed campaign documents.\n\
         Current chapter / story position: \"");
    r.append(current_chapter);
    r.append("\"\n\n\
         ## Structured Story Arcs\n");
    r.append(arcs_json);
    r.append("\n\n\
         ## Structured Story Events\n");
    r.append(events_json);
    r.append("\n\n\
         ## RAG Context\n");
    r.append(rag_context);
    r.append("\n\n\
         Summarize the SOURCE MATERIAL content that comes AFTER \"");
    r.append(current_chapter);
    r.append("\".\n\
         Write in markdown with sections: ## What Comes Next, ## Upcoming Key NPCs, \
         ## Upcoming Locations, ## Upcoming Revelations, ## Encounter Prep Notes, \
         ## Long-Term Foreshadowing.");
    r
}

pub const BACKSTORY_ANALYSIS_SYSTEM: &'static str = "You are a narrative assistant for a Dungeon Master.\n\
     Analyze the character backstory provided and extract structured information.\n\
     Return ONLY valid JSON matching this schema (no explanation, no markdown):\n\n\
     {\n\
       \"motivations\": [\"<string>\", ...],\n\
       \"key_relationships\": [\"<string>\", ...],\n\
       \"secrets\": [\"<string>\", ...],\n\
       \"plot_hooks\": [\n\
         {\n\
           \"description\": \"<1-2 sentence hook the DM can use>\",\n\
           \"priority\": \"low|medium|high|critical\"\n\
         },\n\
         ...\n\
       ]\n\
     }\n\n\
     Guidelines:\n\
     - motivations: what drives this character (goals, fears, desires)\n\
     - key_relationships: NPCs, family, enemies mentioned or implied\n\
     - secrets: things the character hides or doesn't know about themselves\n\
     - plot_hooks: actionable story hooks the DM can weave into the campaign\n\
     - Extract 2-5 items per field. Be specific, not generic.\n\
     - priority=critical means the hook is central to the character's identity.";

pub fn backstory_analysis_system() -> (r: &'static str)
    ensures
        r@ == BACKSTORY_ANALYSIS_SYSTEM@,
{
    BACKSTORY_ANALYSIS_SYSTEM
}

pub const SESSION_SUMMARY_DM_SYSTEM: &'static str = "You are a DM's campaign assistant. Summarize the session events below.\n\
     Write a comprehensive DM master log that includes:\n\
     - Key events and decisions in chronological order\n\
     - NPC interactions and their underlying motivations\n\
     - How session events affect future campaign milestones\n\
     - Plot threads advanced or introduced\n\
     - Any 'behind the curtain' significance the players don't know yet\n\
     Write in a concise, professional tone. Use markdown headers.";

pub fn session_summary_dm_system() -> (r: &'static str)
    ensures
        r@ == SESSION_SUMMARY_DM_SYSTEM@,
{
    SESSION_SUMMARY_DM_SYSTEM
}

pub fn campaign_assistant_dm_system(context: &str) -> (r: String)
    ensures
        r@ == "You are The Guide, an AI assistant for a Dungeon Master running a D&D campaign. \
         You have access to all campaign lore including DM-only information. \
         Answer accurately and helpfully.\
         \n\n## Campaign Context\n"@ + context@,
{
    let mut r = String::from_str("You are The Guide, an AI assistant for a Dungeon Master running a D&D campaign. \
         You have access to all campaign lore including DM-only information. \
         Answer accurately and helpfully.\
         \n\n## Campaign Context\n");
    r.append(context);
    r
}

/// The prompt asking for a document summary.
pub open spec fn doc_summary_text(doc_name: Seq<char>, excerpt: Seq<char>) -> Seq<char> {
    "You are summarizing a D&D document for a routing system.\n\
         Document name: "@ + doc_name + "\n\n\
         Document excerpt (first ~2000 characters):\n\
         "@ + excerpt + "\n\n\
         Write 2-3 sentences describing what this document covers. \
         Be specific: mention the adventure name, campaign setting, rulebook type, \
         or specific mechanics. Return plain text only, no markdown."@
}

pub fn doc_summary_prompt(doc_name: &str, excerpt: &str) -> (r: String)
    ensures
        r@ == doc_summary_text(doc_name@, excerpt@),
{
    let mut r = String::from_str("You are summarizing a D&D document for a routing system.\n\
         Document name: ");
    r.append(doc_name);
    r.append("\n\n\
         Document excerpt (first ~2000 characters):\n\
         ");
    r.append(excerpt);
    r.append("\n\n\
         Write 2-3 sentences describing what this document covers. \
         Be specific: mention the adventure name, campaign setting, rulebook type, \
         or specific mechanics. Return plain text only, no markdown.");
    r
}

pub const SESSION_RECAP_SYSTEM: &'static str = "You are a DM's campaign assistant.\n\
     Review ALL session events and character data to produce a comprehensive campaign narrative analysis.\n\
     Write in markdown with the following sections:\n\n\
     ## Campaign Narrative Overview\n\
     Summarize the arc of the campaign so far in 2-3 paragraphs.\n\n\
     ## Major Plot Threads\n\
     List each active major plot thread with current status and open questions.\n\n\
     ## Minor Subplots\n\
     List secondary storylines, side quests, and NPC-driven threads.\n\n\
     ## Character Arcs\n\
     For EACH player character: arc summary, active tensions, growth moments, unresolved hooks.\n\n\
     ## Factions & NPCs\n\
     Key NPCs and factions: current stance, last interaction, what they want.\n\n\
     ## Open Questions\n\
     Unresolved mysteries and dangling threads the DM should address.\n\n\
     Ground rules:\n\
     - Use exact character names, place names, and event descriptions from the data — do NOT invent lore.\n\
     - Reference specific events (e.g. 'In session 3, Aria discovered...')\n\
     - Be specific and actionable, not generic.";

pub fn session_recap_system() -> (r: &'static str)
    ensures
        r@ == SESSION_RECAP_SYSTEM@,
{
    SESSION_RECAP_SYSTEM
}

pub fn session_recap_user(sessions_data: &str, characters_data: &str) -> (r: String)
    ensures
        r@ == "## Session History\n"@ + sessions_data@ + "\n\n## Player Characters\n"@ + characters_data@ + "\n\n\
         Generate the full campaign narrative analysis as instructed."@,
{
    let mut r = String::from_str("## Session History\n");
    r.append(sessions_data);
    r.append("\n\n## Player Characters\n");
    r.append(characters_data);
    r.append("\n\n\
         Generate the full campaign narrative analysis as instructed.");
    r
}

pub fn story_so_far_system(current_chapter: &str) -> (r: String)
    ensures
        r@ == "You are a DM's campaign assistant with access to indexed campaign documents.\n\
         Current chapter / story position: \""@ + current_chapter@ + "\"\n\n\
         Summarize the SOURCE MATERIAL content that comes BEFORE \""@ + current_chapter@ + "\".\n\
         If a chunk's section_path indicates it is AT or BEYOND \""@ + current_chapter@ + "\", skip it.\n\
         Write in markdown with these sections:\n\n\
         ## World & Setting\n\
         Key world-building facts and setting details the DM should know.\n\n\
         ## Key Events from Source Material\n\
         Events that have already occurred in the story up to this point.\n\n\
         ## NPCs Introduced\n\
         Characters introduced so far: role, allegiance, last known status.\n\n\
         ## Secrets the DM Should Remember\n\
         Hidden information, foreshadowing, and DM-only revelations from past content.\n\n\
         ## What Players Know vs. Don't\n\
         Split known facts from unrevealed information.\n\n\
         Ground rules:\n\
         - Never invent lore not present in the provided context.\n\
         - If context is sparse, note that more documents may need to be ingested."@,
{
    let mut r = String::from_str("You are a DM's campaign assistant with access to indexed campaign documents.\n\
         Current chapter / story position: \"");
    r.append(current_chapter);
    r.append("\"\n\n\
         Summarize the SOURCE MATERIAL content that comes BEFORE \"");
    r.append(current_chapter);
    r.append("\".\n\
         If a chunk's section_path indicates it is AT or BEYOND \"");
    r.append(current_chapter);
    r.append("\", skip it.\n\
         Write in markdown with these sections:\n\n\
         ## World & Setting\n\
         Key world-building facts and setting details the DM should know.\n\n\
         ## Key Events from Source Material\n\
         Events that have already occurred in the story up to this point.\n\n\
         ## NPCs Introduced\n\
         Characters introduced so far: role, allegiance, last known status.\n\n\
         ## Secrets the DM Should Remember\n\
         Hidden information, foreshadowing, and DM-only revelations from past content.\n\n\
         ## What Players Know vs. Don't\n\
         Split known facts from unrevealed information.\n\n\
         Ground rules:\n\
         - Never invent lore not present in the provided context.\n\
         - If context is sparse, note that more documents may need to be ingested.");
    r
}

pub fn story_ahead_system(current_chapter: &str) -> (r: String)
    ensures
        r@ == "You are a DM's campaign assistant with access to indexed campaign documents.\n\
         Current chapter / story position: \""@ + current_chapter@ + "\"\n\n\
         Summarize the SOURCE MATERIAL content that comes AFTER \""@ + current_chapter@ + "\".\n\
         If a chunk's section_path indicates it is BEFORE or AT \""@ + current_chapter@ + "\", skip it.\n\
         Write in markdown with these sections:\n\n\
         ## What Comes Next\n\
         The immediate next story beats and locations.\n\n\
         ## Upcoming Key NPCs\n\
         Characters the party will encounter: motivations, secrets, likely reactions to players.\n\n\
         ## Upcoming Locations\n\
         Places the party will visit: key features, traps, notable interactions.\n\n\
         ## Upcoming Revelations\n\
         Tag each as [Player-Visible] or [DM-Only].\n\n\
         ## Encounter Prep Notes\n\
         Suggested mechanics, difficulty, and tactical notes for upcoming encounters.\n\n\
         ## Long-Term Foreshadowing Opportunities\n\
         Moments the DM can seed now that will pay off later.\n\n\
         Ground rules:\n\
         - Never invent lore not present in the provided context.\n\
         - Clearly distinguish player-visible vs DM-only information."@,
{
    let mut r = String::from_str("You are a DM's campaign assistant with access to indexed campaign documents.\n\
         Current chapter / story position: \"");
    r.append(current_chapter);
    r.append("\"\n\n\
         Summarize the SOURCE MATERIAL content that comes AFTER \"");
    r.append(current_chapter);
    r.append("\".\n\
         If a chunk's section_path indicates it is BEFORE or AT \"");
    r.append(current_chapter);
    r.append("\", skip it.\n\
         Write in markdown with these sections:\n\n\
         ## What Comes Next\n\
         The immediate next story beats and locations.\n\n\
         ## Upcoming Key NPCs\n\
         Characters the party will encounter: motivations, secrets, likely reactions to players.\n\n\
         ## Upcoming Locations\n\
         Places the party will visit: key features, traps, notable interactions.\n\n\
         ## Upcoming Revelations\n\
         Tag each as [Player-Visible] or [DM-Only].\n\n\
         ## Encounter Prep Notes\n\
         Suggested mechanics, difficulty, and tactical notes for upcoming encounters.\n\n\
         ## Long-Term Foreshadowing Opportunities\n\
         Moments the DM can seed now that will pay off later.\n\n\
         Ground rules:\n\
         - Never invent lore not present in the provided context.\n\
         - Clearly distinguish player-visible vs DM-only information.");
    r
}

pub const CHARACTER_ROADMAP_SYSTEM: &'static str = "You are a DM's character development assistant.\n\
     Analyze the provided character data, session history, and upcoming campaign content\n\
     to build a personalized DM roadmap for this character.\n\
     Write in markdown with these sections:\n\n\
     ## Character Summary\n\
     Who this character is: class, race, level, key personality traits.\n\n\
     ## Arc So Far\n\
     Reference specific session events that have shaped this character's arc.\n\n\
     ## Active Plot Hooks\n\
     Each active hook with: current status, suggested trigger from upcoming content, urgency.\n\n\
     ## Upcoming Arc Milestones\n\
     3-5 specific upcoming moments (with chapter/location if known) where this character can shine.\n\
     Include suggested NPC dialogue or scene framing.\n\n\
     ## NPC Relationships to Develop\n\
     Key NPCs this character should interact with more and why.\n\n\
     ## DM Notes: How to Make This Character Feel Seen\n\
     Specific, actionable advice for spotlighting this character.\n\n\
     Ground rules:\n\
     - Use the character's actual name throughout.\n\
     - Reference specific session events and plot hooks — no generic advice.\n\
     - Tie suggestions to actual campaign content, not invented lore.";

pub fn character_roadmap_system() -> (r: &'static str)
    ensures
        r@ == CHARACTER_ROADMAP_SYSTEM@,
{
    CHARACTER_ROADMAP_SYSTEM
}

pub fn character_roadmap_user(character_data: &str, events_data: &str, rag_context: &str) -> (r: String)
    ensures
        r@ == "## Character Data\n"@ + character_data@ + "\n\n\
         ## Session Events Involving This Character\n"@ + events_data@ + "\n\n\
         ## Upcoming Campaign Content (RAG)\n"@ + rag_context@ + "\n\n\
         Generate the full character roadmap as instructed."@,
{
    let mut r = String::from_str("## Character Data\n");
    r.append(character_data);
    r.append("\n\n\
         ## Session Events Involving This Character\n");
    r.append(events_data);
    r.append("\n\n\
         ## Upcoming Campaign Content (RAG)\n");
    r.append(rag_context);
    r.append("\n\n\
         Generate the full character roadmap as instructed.");
    r
}

pub const CHARACTER_SHEET_OCR_PROMPT: &'static str = "This is a D&D 5e character sheet image. Extract all visible information and return ONLY valid JSON — no markdown, no explanation, no code fences.\n\
     Use 0 for missing numeric fields, empty string for missing text fields, empty array [] for missing list fields, and null for optional object fields.\n\
     Set parse_confidence between 0.0 and 1.0 based on how clearly you could read the sheet (1.0 = all fields clearly legible).\n\n\
     Return this exact JSON structure:\n\
     {\n\
       \"name\": \"\",\n\
       \"class\": \"\",\n\
       \"race\": \"\",\n\
       \"background\": \"\",\n\
       \"level\": 0,\n\
       \"experience_points\": 0,\n\
       \"max_hp\": 0,\n\
       \"armor_class\": 0,\n\
       \"speed\": 0,\n\
       \"hit_dice\": \"\",\n\
       \"ability_scores\": {\n\
         \"strength\": 0, \"dexterity\": 0, \"constitution\": 0,\n\
         \"intelligence\": 0, \"wisdom\": 0, \"charisma\": 0\n\
       },\n\
       \"saving_throws\": {\n\
         \"strength\": null, \"dexterity\": null, \"constitution\": null,\n\
         \"intelligence\": null, \"wisdom\": null, \"charisma\": null\n\
       },\n\
       \"skills\": {\n\
         \"acrobatics\": null, \"animal_handling\": null, \"arcana\": null,\n\
         \"athletics\": null, \"deception\": null, \"history\": null,\n\
         \"insight\": null, \"intimidation\": null, \"investigation\": null,\n\
         \"medicine\": null, \"nature\": null, \"perception\": null,\n\
         \"performance\": null, \"persuasion\": null, \"religion\": null,\n\
         \"sleight_of_hand\": null, \"stealth\": null, \"survival\": null\n\
       },\n\
       \"proficiencies\": [],\n\
       \"languages\": [],\n\
       \"features_and_traits\": [],\n\
       \"equipment\": [],\n\
       \"spell_slots\": [],\n\
       \"personality_traits\": \"\",\n\
       \"ideals\": \"\",\n\
       \"bonds\": \"\",\n\
       \"flaws\": \"\",\n\
       \"backstory_text\": \"\",\n\
       \"parse_confidence\": 0.0\n\
     }\n\n\
     For spell_slots, use: [{\"level\": 1, \"total\": 2, \"remaining\": 2}, ...] — one entry per spell level that has slots.";

pub fn character_sheet_ocr_prompt() -> (r: &'static str)
    ensures
        r@ == CHARACTER_SHEET_OCR_PROMPT@,
{
    CHARACTER_SHEET_OCR_PROMPT
}

pub const CHARACTER_SHEET_PARSE_SYSTEM: &'static str = "You are a D&D 5e character sheet parser. Extract all fields from the provided character sheet text.\n\
     Return ONLY valid JSON (no markdown, no explanation, no code fences).\n\n\
     {\n\
       \"name\": \"<character name>\",\n\
       \"class\": \"<class or null>\",\n\
       \"race\": \"<race or null>\",\n\
       \"background\": \"<background or null>\",\n\
       \"level\": <integer>,\n\
       \"experience_points\": <integer or null>,\n\
       \"max_hp\": <integer>,\n\
       \"armor_class\": <integer>,\n\
       \"speed\": <integer>,\n\
       \"hit_dice\": \"<e.g. 5d10 or null>\",\n\
       \"ability_scores\": {\n\
         \"strength\": <int>, \"dexterity\": <int>, \"constitution\": <int>,\n\
         \"intelligence\": <int>, \"wisdom\": <int>, \"charisma\": <int>\n\
       },\n\
       \"saving_throws\": {\n\
         \"strength\": <int or null>, \"dexterity\": <int or null>, \"constitution\": <int or null>,\n\
         \"intelligence\": <int or null>, \"wisdom\": <int or null>, \"charisma\": <int or null>\n\
       },\n\
       \"skills\": {\n\
         \"acrobatics\": <int or null>, \"animal_handling\": <int or null>, \"arcana\": <int or null>,\n\
         \"athletics\": <int or null>, \"deception\": <int or null>, \"history\": <int or null>,\n\
         \"insight\": <int or null>, \"intimidation\": <int or null>, \"investigation\": <int or null>,\n\
         \"medicine\": <int or null>, \"nature\": <int or null>, \"perception\": <int or null>,\n\
         \"performance\": <int or null>, \"persuasion\": <int or null>, \"religion\": <int or null>,\n\
         \"sleight_of_hand\": <int or null>, \"stealth\": <int or null>, \"survival\": <int or null>\n\
       },\n\
       \"proficiencies\": [\"<string>\", ...],\n\
       \"languages\": [\"<string>\", ...],\n\
       \"features_and_traits\": [\"<string>\", ...],\n\
       \"equipment\": [\"<string>\", ...],\n\
       \"spell_slots\": [{\"level\": <int>, \"total\": <int>, \"remaining\": <int>}, ...],\n\
       \"personality_traits\": \"<text or null>\",\n\
       \"ideals\": \"<text or null>\",\n\
       \"bonds\": \"<text or null>\",\n\
       \"flaws\": \"<text or null>\",\n\
       \"backstory_text\": \"<backstory text or null>\",\n\
       \"parse_confidence\": <0.0 to 1.0>\n\
     }\n\n\
     Rules:\n\
     - Set parse_confidence to 1.0 if all core fields found, lower if missing fields or OCR artifacts.\n\
     - Default level to 1 if not found. Default ability scores to 10 if not found.\n\
     - Default max_hp to 10, armor_class to 10, speed to 30 if not found.\n\
     - Set optional string fields to null if not found.\n\
     - For saving_throws and skills, use the modifier integer value (e.g. +3 → 3, -1 → -1).\n\
     - For spell_slots, include one entry per spell level with available slots.";

pub fn character_sheet_parse_system() -> (r: &'static str)
    ensures
        r@ == CHARACTER_SHEET_PARSE_SYSTEM@,
{
    CHARACTER_SHEET_PARSE_SYSTEM
}

} // verus!
