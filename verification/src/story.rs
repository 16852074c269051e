//! Story structure extracted from a campaign document, and the merging of
//! per-chapter extractions into one.
use vstd::prelude::*;
use crate::error::GuideError;
use crate::split::chars_eq;
use crate::text::{chars_of, lowercase, to_lowercase, trim, trimmed};

verus! {

/// A story arc.
pub struct StoryArcInput {
    pub title: String,
    pub description: String,
    pub arc_order: i32,
}

/// A story event.
pub struct StoryEventInput {
    pub title: String,
    pub description: String,
    pub event_type: String,
    pub significance: String,
    pub location: Option<String>,
    pub involved_characters: Vec<String>,
    pub event_order: i32,
    pub arc_title: Option<String>,
    pub is_dm_only: bool,
}

/// A subplot.
pub struct SubplotInput {
    pub title: String,
    pub description: String,
    pub arc_title: Option<String>,
}

/// A point on a character's arc.
pub struct ArcPoint {
    pub description: String,
    pub order: i32,
}

/// A character's arc.
pub struct CharacterArcInput {
    pub character_name: String,
    pub description: String,
    pub arc_points: Vec<ArcPoint>,
}

/// A monster in an encounter.
pub struct MonsterInput {
    pub name: String,
    pub count: Option<i32>,
    pub cr: Option<String>,
}

/// An encounter prepared from the document.
pub struct EncounterInput {
    pub name: String,
    pub description: String,
    pub location: Option<String>,
    pub difficulty_hint: Option<String>,
    pub monsters: Vec<MonsterInput>,
    pub story_event_title: Option<String>,
}

/// The story structure of a document or of one chapter.
pub struct StoryExtractionResult {
    pub arcs: Vec<StoryArcInput>,
    pub events: Vec<StoryEventInput>,
    pub subplots: Vec<SubplotInput>,
    pub character_arcs: Vec<CharacterArcInput>,
    pub encounters: Vec<EncounterInput>,
}

/// Titles and names are matched by their trimmed lowercase form.
pub open spec fn match_key(s: Seq<char>) -> Seq<char> {
    lowercase(trim(s))
}

fn match_key_exec(s: &str) -> (r: Vec<char>)
    ensures
        r@ == match_key(s@),
{
    to_lowercase(&trimmed(&chars_of(s)))
}

// ───────────────────────── arcs ─────────────────────────

/// All arcs of all chapter results, in order.
pub open spec fn all_arcs(rs: Seq<(usize, StoryExtractionResult)>) -> Seq<StoryArcInput>
    decreases rs.len(),
{
    if rs.len() == 0 {
        Seq::empty()
    } else {
        all_arcs(rs.drop_last()) + rs.last().1.arcs@
    }
}

/// Arcs kept when merging: the first of each title (by match key), numbered
/// 1, 2, ... in order.
pub open spec fn kept_arcs(arcs: Seq<StoryArcInput>) -> Seq<StoryArcInput>
    decreases arcs.len(),
{
    if arcs.len() == 0 {
        Seq::empty()
    } else {
        let prev = kept_arcs(arcs.drop_last());
        let a = arcs.last();
        if exists|j: int| 0 <= j < prev.len() && match_key((#[trigger] prev[j]).title@) == match_key(a.title@) {
            prev
        } else {
            prev.push(StoryArcInput { arc_order: (prev.len() + 1) as i32, ..a })
        }
    }
}

proof fn lemma_kept_len(arcs: Seq<StoryArcInput>)
    ensures
        kept_arcs(arcs).len() <= arcs.len(),
    decreases arcs.len(),
{
    if arcs.len() > 0 {
        lemma_kept_len(arcs.drop_last());
    }
}

// ───────────────────────── events, subplots, encounters ─────────────────────────

/// An event moved to chapter `idx`: its order shifted by `idx * 1000`.
pub open spec fn shifted(e: StoryEventInput, idx: usize) -> StoryEventInput {
    StoryEventInput { event_order: (e.event_order + idx * 1000) as i32, ..e }
}

pub open spec fn all_events(rs: Seq<(usize, StoryExtractionResult)>) -> Seq<StoryEventInput>
    decreases rs.len(),
{
    if rs.len() == 0 {
        Seq::empty()
    } else {
        let (idx, r) = rs.last();
        all_events(rs.drop_last()) + r.events@.map_values(|e: StoryEventInput| shifted(e, idx))
    }
}

pub open spec fn all_subplots(rs: Seq<(usize, StoryExtractionResult)>) -> Seq<SubplotInput>
    decreases rs.len(),
{
    if rs.len() == 0 {
        Seq::empty()
    } else {
        all_subplots(rs.drop_last()) + rs.last().1.subplots@
    }
}

pub open spec fn all_encounters(rs: Seq<(usize, StoryExtractionResult)>) -> Seq<EncounterInput>
    decreases rs.len(),
{
    if rs.len() == 0 {
        Seq::empty()
    } else {
        all_encounters(rs.drop_last()) + rs.last().1.encounters@
    }
}

// ───────────────────────── character arcs ─────────────────────────

/// A character arc with its points as a sequence.
pub struct CharArcModel {
    pub name: String,
    pub description: String,
    pub points: Seq<ArcPoint>,
}

pub open spec fn char_arc_model(c: CharacterArcInput) -> CharArcModel {
    CharArcModel { name: c.character_name, description: c.description, points: c.arc_points@ }
}

pub open spec fn all_char_arcs(rs: Seq<(usize, StoryExtractionResult)>) -> Seq<CharArcModel>
    decreases rs.len(),
{
    if rs.len() == 0 {
        Seq::empty()
    } else {
        all_char_arcs(rs.drop_last()) + rs.last().1.character_arcs@.map_values(
            |c: CharacterArcInput| char_arc_model(c),
        )
    }
}

/// Position of the group of key `k`, or the number of groups.
pub open spec fn find_group(groups: Seq<CharArcModel>, k: Seq<char>) -> int
    decreases groups.len(),
{
    if groups.len() == 0 {
        0
    } else if match_key(groups[0].name@) == k {
        0
    } else {
        1 + find_group(groups.drop_first(), k)
    }
}

/// Character arcs grouped by character (by match key), in order of first
/// appearance; a group keeps its first name and description and collects
/// the points of all its arcs in order.
pub open spec fn char_groups(arcs: Seq<CharArcModel>) -> Seq<CharArcModel>
    decreases arcs.len(),
{
    if arcs.len() == 0 {
        Seq::empty()
    } else {
        let prev = char_groups(arcs.drop_last());
        let a = arcs.last();
        let g = find_group(prev, match_key(a.name@));
        if g < prev.len() {
            prev.update(g, CharArcModel { points: prev[g].points + a.points, ..prev[g] })
        } else {
            prev.push(a)
        }
    }
}

/// Points numbered 1, 2, ... in order.
pub open spec fn renumbered(ps: Seq<ArcPoint>) -> Seq<ArcPoint> {
    Seq::new(ps.len(), |i: int| ArcPoint { order: (i + 1) as i32, ..ps[i] })
}

/// The merged character arcs.
pub open spec fn merged_char_arcs(rs: Seq<(usize, StoryExtractionResult)>) -> Seq<CharArcModel> {
    char_groups(all_char_arcs(rs)).map_values(
        |g: CharArcModel| CharArcModel { points: renumbered(g.points), ..g },
    )
}


// ───────────────────────── merging ─────────────────────────

fn find_key(keys: &Vec<Vec<char>>, k: &[char]) -> (r: usize)
    ensures
        r <= keys.len(),
        r < keys.len() ==> keys@[r as int]@ == k@,
        forall|j: int| 0 <= j < r ==> (#[trigger] keys@[j])@ != k@,
{
    let mut i: usize = 0;
    while i < keys.len()
        invariant
            i <= keys.len(),
            forall|j: int| 0 <= j < i ==> (#[trigger] keys@[j])@ != k@,
        decreases keys.len() - i,
    {
        if chars_eq(&keys[i], k) {
            return i;
        }
        i = i + 1;
    }
    i
}

/// Adds one chapter's arcs to the kept arcs.
fn merge_arcs(
    keys: &mut Vec<Vec<char>>,
    arcs: &mut Vec<StoryArcInput>,
    new_arcs: Vec<StoryArcInput>,
    Ghost(seen): Ghost<Seq<StoryArcInput>>,
)
    requires
        old(arcs)@ == kept_arcs(seen),
        old(keys)@.len() == old(arcs)@.len(),
        forall|j: int| 0 <= j < old(keys)@.len() ==> (#[trigger] old(keys)@[j])@ == match_key(old(arcs)@[j].title@),
        seen.len() + new_arcs@.len() < i32::MAX,
    ensures
        final(arcs)@ == kept_arcs(seen + new_arcs@),
        final(keys)@.len() == final(arcs)@.len(),
        forall|j: int| 0 <= j < final(keys)@.len() ==> (#[trigger] final(keys)@[j])@ == match_key(final(arcs)@[j].title@),
{
    let ghost nv = new_arcs@;
    let ghost mut done: Seq<StoryArcInput> = Seq::empty();
    assert(seen + done =~= seen);
    for a in it: new_arcs.into_iter()
        invariant
            it.seq() == nv,
            done == it.history(),
            seen.len() + nv.len() < i32::MAX,
            arcs@ == kept_arcs(seen + it.history()),
            keys@.len() == arcs@.len(),
            forall|j: int| 0 <= j < keys@.len() ==> (#[trigger] keys@[j])@ == match_key(arcs@[j].title@),
    {
        let ghost h = it.history();
        let ghost all = seen + h.push(a);
        assert(all.drop_last() =~= seen + h);
        assert(all.last() == a);
        proof {
            lemma_kept_len(seen + h);
        }
        let k = match_key_exec(a.title.as_str());
        let pos = find_key(keys, &k);
        if pos < keys.len() {
            assert(match_key(arcs@[pos as int].title@) == match_key(a.title@));
        } else {
            proof {
                assert forall|j: int| 0 <= j < arcs@.len() implies match_key((#[trigger] arcs@[j]).title@)
                    != match_key(a.title@) by {
                    assert(keys@[j]@ != k@);
                }
            }
            let n = arcs.len() as i32 + 1;
            let mut a2 = a;
            a2.arc_order = n;
            keys.push(k);
            arcs.push(a2);
        }
        proof {
            done = done.push(a);
        }
    }
    assert(done =~= nv);
}


/// Order shifts stay within `i32` for every event of every chapter.
pub open spec fn event_orders_fit(rs: Seq<(usize, StoryExtractionResult)>) -> bool {
    forall|i: int, j: int|
        0 <= i < rs.len() && 0 <= j < rs[i].1.events@.len() ==> {
            let idx = rs[i].0;
            let o = (#[trigger] rs[i].1.events@[j]).event_order;
            &&& idx * 1000 <= i32::MAX
            &&& i32::MIN <= o + idx * 1000 <= i32::MAX
        }
}

fn merge_events(events: &mut Vec<StoryEventInput>, idx: usize, new_events: Vec<StoryEventInput>)
    requires
        forall|j: int| 0 <= j < new_events@.len() ==> {
            let o = (#[trigger] new_events@[j]).event_order;
            &&& idx * 1000 <= i32::MAX
            &&& i32::MIN <= o + idx * 1000 <= i32::MAX
        },
    ensures
        final(events)@ == old(events)@ + new_events@.map_values(|e: StoryEventInput| shifted(e, idx)),
{
    let ghost nv = new_events@;
    let ghost o = events@;
    let ghost mut done: Seq<StoryEventInput> = Seq::empty();
    assert(o + done.map_values(|e: StoryEventInput| shifted(e, idx)) =~= o);
    for e in it: new_events.into_iter()
        invariant
            it.seq() == nv,
            done == it.history(),
            forall|j: int| 0 <= j < nv.len() ==> {
                let o = (#[trigger] nv[j]).event_order;
                &&& idx * 1000 <= i32::MAX
                &&& i32::MIN <= o + idx * 1000 <= i32::MAX
            },
            events@ == o + done.map_values(|e: StoryEventInput| shifted(e, idx)),
    {
        assert(nv[done.len() as int] == e);
        let shift = idx as i32 * 1000;
        let mut e2 = e;
        e2.event_order = e2.event_order + shift;
        proof {
            assert(e2 == shifted(e, idx));
            assert(done.push(e).map_values(|x: StoryEventInput| shifted(x, idx)) =~= done.map_values(
                |x: StoryEventInput| shifted(x, idx),
            ).push(shifted(e, idx)));
            done = done.push(e);
        }
        events.push(e2);
    }
    assert(done =~= nv);
}

fn append_moved<T>(out: &mut Vec<T>, new_items: Vec<T>)
    ensures
        final(out)@ == old(out)@ + new_items@,
{
    let ghost nv = new_items@;
    let ghost o = out@;
    let ghost mut done: Seq<T> = Seq::empty();
    assert(o + done =~= o);
    for x in it: new_items.into_iter()
        invariant
            it.seq() == nv,
            done == it.history(),
            out@ == o + done,
    {
        proof {
            done = done.push(x);
        }
        out.push(x);
        assert(out@ =~= o + done);
    }
    assert(done =~= nv);
}


pub open spec fn group_models(gs: Seq<CharacterArcInput>) -> Seq<CharArcModel> {
    gs.map_values(|c: CharacterArcInput| char_arc_model(c))
}

proof fn lemma_find_group(models: Seq<CharArcModel>, k: Seq<char>, r: int)
    requires
        0 <= r <= models.len(),
        forall|j: int| 0 <= j < r ==> match_key((#[trigger] models[j]).name@) != k,
        r < models.len() ==> match_key(models[r].name@) == k,
    ensures
        find_group(models, k) == r,
    decreases r,
{
    if r > 0 {
        let t = models.drop_first();
        assert forall|j: int| 0 <= j < r - 1 implies match_key((#[trigger] t[j]).name@) != k by {
            assert(t[j] == models[j + 1]);
        }
        assert(match_key(models[0].name@) != k);
        lemma_find_group(t, k, r - 1);
    }
}

/// Adds one chapter's character arcs to the groups.
fn merge_char_arcs(
    keys: &mut Vec<Vec<char>>,
    groups: &mut Vec<CharacterArcInput>,
    new_arcs: Vec<CharacterArcInput>,
    Ghost(seen): Ghost<Seq<CharArcModel>>,
)
    requires
        group_models(old(groups)@) == char_groups(seen),
        old(keys)@.len() == old(groups)@.len(),
        forall|j: int| 0 <= j < old(keys)@.len() ==> (#[trigger] old(keys)@[j])@ == match_key(old(groups)@[j].character_name@),
    ensures
        group_models(final(groups)@) == char_groups(seen + new_arcs@.map_values(|c: CharacterArcInput| char_arc_model(c))),
        final(keys)@.len() == final(groups)@.len(),
        forall|j: int| 0 <= j < final(keys)@.len() ==> (#[trigger] final(keys)@[j])@ == match_key(final(groups)@[j].character_name@),
{
    let ghost nv = new_arcs@;
    let ghost mut done: Seq<CharacterArcInput> = Seq::empty();
    let ghost mv = |c: CharacterArcInput| char_arc_model(c);
    assert(seen + done.map_values(mv) =~= seen);
    for c in it: new_arcs.into_iter()
        invariant
            it.seq() == nv,
            done == it.history(),
            mv == (|c: CharacterArcInput| char_arc_model(c)),
            group_models(groups@) == char_groups(seen + done.map_values(mv)),
            keys@.len() == groups@.len(),
            forall|j: int| 0 <= j < keys@.len() ==> (#[trigger] keys@[j])@ == match_key(groups@[j].character_name@),
    {
        let ghost all = seen + done.push(c).map_values(mv);
        assert(done.push(c).map_values(mv) =~= done.map_values(mv).push(char_arc_model(c)));
        assert(all.drop_last() =~= seen + done.map_values(mv));
        assert(all.last() == char_arc_model(c));
        let ghost prev = group_models(groups@);
        let k = match_key_exec(c.character_name.as_str());
        let pos = find_key(keys, &k);
        proof {
            assert forall|j: int| 0 <= j < pos implies match_key((#[trigger] prev[j]).name@) != k@ by {
                assert(keys@[j]@ != k@);
            }
            lemma_find_group(prev, k@, pos as int);
        }
        if pos < keys.len() {
            let mut grp = groups.remove(pos);
            let ghost gp = grp.arc_points@;
            append_moved(&mut grp.arc_points, c.arc_points);
            groups.insert(pos, grp);
            proof {
                assert(group_models(groups@) =~= prev.update(
                    pos as int,
                    CharArcModel { points: prev[pos as int].points + char_arc_model(c).points, ..prev[pos as int] },
                ));
            }
        } else {
            keys.push(k);
            groups.push(c);
            proof {
                assert(group_models(groups@) =~= prev.push(char_arc_model(c)));
            }
        }
        proof {
            done = done.push(c);
        }
    }
    assert(done =~= nv);
}

fn renumber_points(ps: Vec<ArcPoint>) -> (r: Vec<ArcPoint>)
    requires
        ps@.len() < i32::MAX,
    ensures
        r@ == renumbered(ps@),
{
    let ghost nv = ps@;
    let mut out: Vec<ArcPoint> = Vec::new();
    let mut n: i32 = 1;
    for p in it: ps.into_iter()
        invariant
            it.seq() == nv,
            nv.len() < i32::MAX,
            out@.len() == it.history().len(),
            n == out@.len() + 1,
            forall|i: int| 0 <= i < out@.len() ==> (#[trigger] out@[i]) == (ArcPoint { order: (i + 1) as i32, ..nv[i] }),
    {
        assert(nv[out@.len() as int] == p);
        let mut p2 = p;
        p2.order = n;
        out.push(p2);
        n = n + 1;
    }
    assert(out@ =~= renumbered(nv));
    out
}

/// The number of arc points over character arcs.
pub open spec fn total_points(arcs: Seq<CharArcModel>) -> nat
    decreases arcs.len(),
{
    if arcs.len() == 0 {
        0
    } else {
        total_points(arcs.drop_last()) + arcs.last().points.len()
    }
}

proof fn lemma_find_group_range(groups: Seq<CharArcModel>, k: Seq<char>)
    ensures
        0 <= find_group(groups, k) <= groups.len(),
    decreases groups.len(),
{
    if groups.len() > 0 && match_key(groups[0].name@) != k {
        lemma_find_group_range(groups.drop_first(), k);
    }
}

proof fn lemma_group_points(arcs: Seq<CharArcModel>)
    ensures
        forall|g: int| 0 <= g < char_groups(arcs).len() ==> (#[trigger] char_groups(arcs)[g]).points.len()
            <= total_points(arcs),
    decreases arcs.len(),
{
    if arcs.len() > 0 {
        let pre = arcs.drop_last();
        lemma_group_points(pre);
        let prev = char_groups(pre);
        let cur = char_groups(arcs);
        let a = arcs.last();
        let g0 = find_group(prev, match_key(a.name@));
        lemma_find_group_range(prev, match_key(a.name@));
        assert forall|g: int| 0 <= g < cur.len() implies (#[trigger] cur[g]).points.len() <= total_points(arcs) by {
            if g0 < prev.len() {
                if g != g0 {
                    assert(cur[g] == prev[g]);
                } else {
                    assert(prev[g].points.len() <= total_points(pre));
                }
            } else if g < prev.len() {
                assert(cur[g] == prev[g]);
            }
        }
    }
}

/// The points of every merged character fit an `i32` count.
pub open spec fn arc_points_fit(rs: Seq<(usize, StoryExtractionResult)>) -> bool {
    total_points(all_char_arcs(rs)) < i32::MAX
}

/// Merges per-chapter extractions (each with its chapter's position):
/// arcs keep the first of each title, renumbered in order; events are kept
/// with their order moved by 1000 per chapter position; subplots and
/// encounters are concatenated; character arcs are grouped by character
/// (first name and description kept) with their points renumbered.
pub fn merge_story_extractions(chapter_results: Vec<(usize, StoryExtractionResult)>) -> (r: StoryExtractionResult)
    requires
        all_arcs(chapter_results@).len() < i32::MAX,
        event_orders_fit(chapter_results@),
        arc_points_fit(chapter_results@),
    ensures
        r.arcs@ == kept_arcs(all_arcs(chapter_results@)),
        r.events@ == all_events(chapter_results@),
        r.subplots@ == all_subplots(chapter_results@),
        r.encounters@ == all_encounters(chapter_results@),
        group_models(r.character_arcs@) == merged_char_arcs(chapter_results@),
{
    let ghost rs = chapter_results@;
    let mut arc_keys: Vec<Vec<char>> = Vec::new();
    let mut arcs: Vec<StoryArcInput> = Vec::new();
    let mut events: Vec<StoryEventInput> = Vec::new();
    let mut subplots: Vec<SubplotInput> = Vec::new();
    let mut encounters: Vec<EncounterInput> = Vec::new();
    let mut group_keys: Vec<Vec<char>> = Vec::new();
    let mut groups: Vec<CharacterArcInput> = Vec::new();
    let ghost mut done: Seq<(usize, StoryExtractionResult)> = Seq::empty();
    assert(group_models(groups@) =~= Seq::<CharArcModel>::empty());
    for item in it: chapter_results.into_iter()
        invariant
            it.seq() == rs,
            done == it.history(),
            all_arcs(rs).len() < i32::MAX,
            event_orders_fit(rs),
            arcs@ == kept_arcs(all_arcs(done)),
            arc_keys@.len() == arcs@.len(),
            forall|j: int| 0 <= j < arc_keys@.len() ==> (#[trigger] arc_keys@[j])@ == match_key(arcs@[j].title@),
            events@ == all_events(done),
            subplots@ == all_subplots(done),
            encounters@ == all_encounters(done),
            group_models(groups@) == char_groups(all_char_arcs(done)),
            group_keys@.len() == groups@.len(),
            forall|j: int| 0 <= j < group_keys@.len() ==> (#[trigger] group_keys@[j])@ == match_key(groups@[j].character_name@),
    {
        let ghost d2 = done.push(item);
        assert(d2.drop_last() =~= done);
        assert(d2.last() == item);
        proof {
            lemma_all_arcs_prefix(rs, done.len() as int + 1);
            assert(rs.take(done.len() as int + 1) =~= d2);
            assert forall|j: int| 0 <= j < item.1.events@.len() implies {
                let o = (#[trigger] item.1.events@[j]).event_order;
                &&& item.0 * 1000 <= i32::MAX
                &&& i32::MIN <= o + item.0 * 1000 <= i32::MAX
            } by {
                assert(rs[done.len() as int] == item);
            }
        }
        let (idx, result) = item;
        let StoryExtractionResult {
            arcs: r_arcs,
            events: r_events,
            subplots: r_subplots,
            character_arcs: r_chars,
            encounters: r_encounters,
        } = result;
        merge_arcs(&mut arc_keys, &mut arcs, r_arcs, Ghost(all_arcs(done)));
        merge_events(&mut events, idx, r_events);
        append_moved(&mut subplots, r_subplots);
        append_moved(&mut encounters, r_encounters);
        merge_char_arcs(&mut group_keys, &mut groups, r_chars, Ghost(all_char_arcs(done)));
        proof {
            done = d2;
        }
    }
    assert(done =~= rs);
    proof {
        lemma_group_points(all_char_arcs(rs));
    }
    let ghost gm = group_models(groups@);
    let mut character_arcs: Vec<CharacterArcInput> = Vec::new();
    let ghost mut gdone: Seq<CharacterArcInput> = Seq::empty();
    let ghost gv = groups@;
    for g in git: groups.into_iter()
        invariant
            git.seq() == gv,
            gdone == git.history(),
            group_models(gv) == char_groups(all_char_arcs(rs)),
            forall|g: int| 0 <= g < char_groups(all_char_arcs(rs)).len() ==> (#[trigger] char_groups(all_char_arcs(rs))[g]).points.len()
                < i32::MAX,
            character_arcs@.len() == gdone.len(),
            forall|i: int| 0 <= i < character_arcs@.len() ==> char_arc_model(#[trigger] character_arcs@[i])
                == (CharArcModel { points: renumbered(char_arc_model(gv[i]).points), ..char_arc_model(gv[i]) }),
    {
        let ghost i = gdone.len() as int;
        assert(gv[i] == g);
        assert(group_models(gv)[i] == char_arc_model(g));
        let CharacterArcInput { character_name, description, arc_points } = g;
        let pts = renumber_points(arc_points);
        character_arcs.push(CharacterArcInput { character_name, description, arc_points: pts });
        proof {
            gdone = gdone.push(g);
        }
    }
    assert(group_models(character_arcs@) =~= merged_char_arcs(rs));
    StoryExtractionResult { arcs, events, subplots, character_arcs, encounters }
}

proof fn lemma_all_arcs_prefix(rs: Seq<(usize, StoryExtractionResult)>, n: int)
    requires
        0 <= n <= rs.len(),
    ensures
        all_arcs(rs.take(n)).len() <= all_arcs(rs).len(),
    decreases rs.len() - n,
{
    if n < rs.len() {
        lemma_all_arcs_prefix(rs, n + 1);
        assert(rs.take(n + 1).drop_last() =~= rs.take(n));
    } else {
        assert(rs.take(n) =~= rs);
    }
}


/// Whether `merge_story_extractions` can take these results: fewer than
/// `i32::MAX` arcs and arc points in all, and every event order shift within
/// `i32`.
pub fn merge_inputs_fit(rs: &Vec<(usize, StoryExtractionResult)>) -> (b: bool)
    ensures
        b == (all_arcs(rs@).len() < i32::MAX && event_orders_fit(rs@) && arc_points_fit(rs@)),
{
    let mut arcs: u64 = 0;
    let mut points: u64 = 0;
    let mut i: usize = 0;
    assert(rs@.take(0) =~= Seq::<(usize, StoryExtractionResult)>::empty());
    while i < rs.len()
        invariant
            i <= rs.len(),
            arcs == all_arcs(rs@.take(i as int)).len(),
            arcs < i32::MAX,
            points == total_points(all_char_arcs(rs@.take(i as int))),
            points < i32::MAX,
            forall|a: int, j: int|
                0 <= a < i && 0 <= j < rs@[a].1.events@.len() ==> {
                    let idx = rs@[a].0;
                    let o = (#[trigger] rs@[a].1.events@[j]).event_order;
                    &&& idx * 1000 <= i32::MAX
                    &&& i32::MIN <= o + idx * 1000 <= i32::MAX
                },
        decreases rs.len() - i,
    {
        let ghost t = rs@.take(i + 1);
        assert(t.drop_last() =~= rs@.take(i as int));
        assert(t.last() == rs@[i as int]);
        let (idx, r) = (rs[i].0, &rs[i].1);
        if r.arcs.len() as u64 >= 0x7fff_ffffu64 - arcs {
            proof {
                lemma_all_arcs_prefix(rs@, i + 1);
            }
            return false;
        }
        arcs = arcs + r.arcs.len() as u64;
        let mut j: usize = 0;
        while j < r.events.len()
            invariant
                i < rs.len(),
                r == rs@[i as int].1,
                idx == rs@[i as int].0,
                j <= r.events.len(),
                forall|m: int| 0 <= m < j ==> {
                    let o = (#[trigger] r.events@[m]).event_order;
                    &&& idx * 1000 <= i32::MAX
                    &&& i32::MIN <= o + idx * 1000 <= i32::MAX
                },
            decreases r.events.len() - j,
        {
            let o = r.events[j].event_order as i64;
            if idx > 2147483 || o + (idx as i64) * 1000 > 0x7fff_ffffi64 || o + (idx as i64) * 1000 < -0x8000_0000i64 {
                proof {
                    assert(!event_orders_fit(rs@)) by {
                        assert(rs@[i as int].1.events@[j as int] == r.events@[j as int]);
                    }
                }
                return false;
            }
            j = j + 1;
        }
        let mut c: usize = 0;
        let ghost base = points;
        let ghost cm = r.character_arcs@.map_values(|x: CharacterArcInput| char_arc_model(x));
        while c < r.character_arcs.len()
            invariant
                i < rs.len(),
                r == rs@[i as int].1,
                c <= r.character_arcs.len(),
                cm == r.character_arcs@.map_values(|x: CharacterArcInput| char_arc_model(x)),
                t == rs@.take(i + 1),
                t.drop_last() == rs@.take(i as int),
                t.last() == rs@[i as int],
                base == total_points(all_char_arcs(rs@.take(i as int))),
                points == base + total_points(cm.take(c as int)),
                points < i32::MAX,
            decreases r.character_arcs.len() - c,
        {
            assert(cm.take(c + 1).drop_last() =~= cm.take(c as int));
            let n = r.character_arcs[c].arc_points.len() as u64;
            if n >= 0x7fff_ffffu64 - points {
                proof {
                    lemma_total_take(cm, c + 1);
                    lemma_total_take(cm, c as int);
                    assert(cm.take(c + 1).drop_last() =~= cm.take(c as int));
                    lemma_total_points_concat(all_char_arcs(rs@.take(i as int)), cm);
                    assert(all_char_arcs(t) == all_char_arcs(rs@.take(i as int)) + cm);
                    lemma_all_char_prefix(rs@, i + 1);
                }
                return false;
            }
            points = points + n;
            c = c + 1;
        }
        assert(cm.take(c as int) =~= cm);
        proof {
            lemma_total_points_concat(all_char_arcs(rs@.take(i as int)), cm);
            assert(all_char_arcs(t) == all_char_arcs(rs@.take(i as int)) + cm);
        }
        i = i + 1;
    }
    assert(rs@.take(i as int) =~= rs@);
    true
}

proof fn lemma_total_points_concat(a: Seq<CharArcModel>, b: Seq<CharArcModel>)
    ensures
        total_points(a + b) == total_points(a) + total_points(b),
    decreases b.len(),
{
    if b.len() > 0 {
        lemma_total_points_concat(a, b.drop_last());
        assert((a + b).drop_last() =~= a + b.drop_last());
    } else {
        assert(a + b =~= a);
    }
}

proof fn lemma_total_take(s: Seq<CharArcModel>, k: int)
    requires
        0 <= k <= s.len(),
    ensures
        total_points(s.take(k)) <= total_points(s),
    decreases s.len() - k,
{
    if k < s.len() {
        lemma_total_take(s, k + 1);
        assert(s.take(k + 1).drop_last() =~= s.take(k));
    } else {
        assert(s.take(k) =~= s);
    }
}

proof fn lemma_all_char_prefix(rs: Seq<(usize, StoryExtractionResult)>, n: int)
    requires
        0 <= n <= rs.len(),
    ensures
        total_points(all_char_arcs(rs.take(n))) <= total_points(all_char_arcs(rs)),
    decreases rs.len() - n,
{
    if n < rs.len() {
        lemma_all_char_prefix(rs, n + 1);
        let t = rs.take(n + 1);
        assert(t.drop_last() =~= rs.take(n));
        lemma_total_points_concat(
            all_char_arcs(rs.take(n)),
            t.last().1.character_arcs@.map_values(|x: CharacterArcInput| char_arc_model(x)),
        );
    } else {
        assert(rs.take(n) =~= rs);
    }
}

// ───────────────────────── laws ─────────────────────────

/// Merged arcs are numbered 1, 2, ... in order, and no two share a title
/// (by match key).
pub proof fn kept_arcs_numbered_and_distinct(arcs: Seq<StoryArcInput>)
    requires
        arcs.len() < i32::MAX,
    ensures
        forall|i: int| 0 <= i < kept_arcs(arcs).len() ==> (#[trigger] kept_arcs(arcs)[i]).arc_order == i + 1,
        forall|i: int, j: int|
            0 <= i < j < kept_arcs(arcs).len() ==> match_key((#[trigger] kept_arcs(arcs)[i]).title@)
                != match_key((#[trigger] kept_arcs(arcs)[j]).title@),
    decreases arcs.len(),
{
    if arcs.len() > 0 {
        let pre = arcs.drop_last();
        kept_arcs_numbered_and_distinct(pre);
        lemma_kept_len(pre);
        let prev = kept_arcs(pre);
        let cur = kept_arcs(arcs);
        assert forall|i: int| 0 <= i < cur.len() implies (#[trigger] cur[i]).arc_order == i + 1 by {
            if i < prev.len() {
                assert(cur[i] == prev[i]);
            }
        }
        assert forall|i: int, j: int| 0 <= i < j < cur.len() implies match_key((#[trigger] cur[i]).title@)
            != match_key((#[trigger] cur[j]).title@) by {
            if j < prev.len() {
                assert(cur[i] == prev[i] && cur[j] == prev[j]);
            } else {
                assert(cur[i] == prev[i]);
            }
        }
    }
}

/// Merging keeps every event of every chapter.
pub proof fn merge_keeps_counts(rs: Seq<(usize, StoryExtractionResult)>)
    ensures
        all_events(rs).len() == total_events(rs),
    decreases rs.len(),
{
    if rs.len() > 0 {
        merge_keeps_counts(rs.drop_last());
    }
}

/// The number of events over all chapter results.
pub open spec fn total_events(rs: Seq<(usize, StoryExtractionResult)>) -> nat
    decreases rs.len(),
{
    if rs.len() == 0 {
        0
    } else {
        total_events(rs.drop_last()) + rs.last().1.events@.len()
    }
}

// ───────────────────────────── storing the extraction ─────────────────────────────

/// The id of the last stored item whose lowercased title is `key`.
pub open spec fn last_with_key(items: Seq<(Seq<char>, u128)>, key: Seq<char>) -> Option<u128>
    decreases items.len(),
{
    if items.len() == 0 {
        None
    } else if lowercase(items.last().0) == key {
        Some(items.last().1)
    } else {
        last_with_key(items.drop_last(), key)
    }
}

pub open spec fn title_ids_view(items: Seq<(String, u128)>) -> Seq<(Seq<char>, u128)> {
    items.map_values(|p: (String, u128)| (p.0@, p.1))
}

/// The stored item a reference names: events and subplots name their arc,
/// encounters their story event, by title, compared in lowercase; where
/// several stored items share the lowercased title, the last one stored
/// counts. No title, or a title that matches nothing, links to nothing.
pub fn linked_id(items: &[(String, u128)], title: Option<&str>) -> (r: Option<u128>)
    ensures
        r == match title {
            Some(t) => last_with_key(title_ids_view(items@), lowercase(t@)),
            None => None,
        },
{
    let t = match title {
        Some(t) => t,
        None => return None,
    };
    let key = to_lowercase(&chars_of(t));
    let ghost all = title_ids_view(items@);
    assert(title == Some(t));
    let mut i: usize = items.len();
    assert(all.take(i as int) =~= all);
    while i > 0
        invariant
            i <= items.len(),
            key@ == lowercase(t@),
            title == Some(t),
            all == title_ids_view(items@),
            last_with_key(all, key@) == last_with_key(all.take(i as int), key@),
        decreases i,
    {
        let k = to_lowercase(&chars_of(items[i - 1].0.as_str()));
        proof {
            assert(all.take(i as int).drop_last() =~= all.take(i - 1));
            assert(all.take(i as int).last() == (items@[i - 1].0@, items@[i - 1].1));
        }
        if chars_eq(&k, &key) {
            assert(k@ == lowercase(items@[i - 1].0@));
            assert(last_with_key(all.take(i as int), key@) == Some(items@[i - 1].1));
            assert(last_with_key(all, key@) == Some(items@[i - 1].1));
            return Some(items[i - 1].1);
        }
        i = i - 1;
    }
    None
}

/// The windows whose extraction succeeded, with their call numbers, in order.
pub open spec fn succeeded<R>(outcomes: Seq<(usize, Option<R>)>) -> Seq<(usize, R)>
    decreases outcomes.len(),
{
    if outcomes.len() == 0 {
        Seq::empty()
    } else {
        match outcomes.last().1 {
            Some(r) => succeeded(outcomes.drop_last()).push((outcomes.last().0, r)),
            None => succeeded(outcomes.drop_last()),
        }
    }
}

/// The results of the chapter windows to merge: those whose extraction
/// succeeded, in order. When none did, the extraction fails with
/// `Internal("All chapter extractions failed")`.
pub fn successful_windows(outcomes: Vec<(usize, Option<StoryExtractionResult>)>) -> (r: Result<Vec<(usize, StoryExtractionResult)>, GuideError>)
    ensures
        succeeded(outcomes@).len() == 0 <==> r is Err,
        r matches Err(e) ==> e matches GuideError::Internal(m) && m@ == "All chapter extractions failed"@,
        r matches Ok(v) ==> v@ == succeeded(outcomes@),
{
    let ghost all = outcomes@;
    let mut out: Vec<(usize, StoryExtractionResult)> = Vec::new();
    let ghost mut done: Seq<(usize, Option<StoryExtractionResult>)> = Seq::empty();
    for o in it: outcomes.into_iter()
        invariant
            it.seq() == all,
            done == it.history(),
            out@ == succeeded(done),
    {
        proof {
            assert(done.push(o).drop_last() =~= done);
            done = done.push(o);
        }
        let (idx, r) = o;
        match r {
            Some(res) => out.push((idx, res)),
            None => {},
        }
    }
    assert(done =~= all);
    if out.len() == 0 {
        Err(GuideError::Internal(String::from_str("All chapter extractions failed")))
    } else {
        Ok(out)
    }
}

// ───────────────────────────── merging keeps every chapter ─────────────────────────────

pub open spec fn chapter_encounters(rs: Seq<(usize, StoryExtractionResult)>) -> Seq<Seq<EncounterInput>> {
    rs.map_values(|p: (usize, StoryExtractionResult)| p.1.encounters@)
}

pub open spec fn chapter_subplots(rs: Seq<(usize, StoryExtractionResult)>) -> Seq<Seq<SubplotInput>> {
    rs.map_values(|p: (usize, StoryExtractionResult)| p.1.subplots@)
}

/// Each chapter's events with their order moved into the chapter's block
/// of 1000 (chapter `idx` adds `idx * 1000`), everything else unchanged.
pub open spec fn chapter_events(rs: Seq<(usize, StoryExtractionResult)>) -> Seq<Seq<StoryEventInput>> {
    rs.map_values(
        |p: (usize, StoryExtractionResult)|
            p.1.events@.map_values(
                |e: StoryEventInput| StoryEventInput { event_order: (e.event_order + p.0 * 1000) as i32, ..e },
            ),
    )
}

/// The arcs of each chapter result, in order.
pub open spec fn chapter_arcs(rs: Seq<(usize, StoryExtractionResult)>) -> Seq<Seq<StoryArcInput>> {
    rs.map_values(|p: (usize, StoryExtractionResult)| p.1.arcs@)
}

/// The character arcs of each chapter result, in order.
pub open spec fn chapter_char_arcs(rs: Seq<(usize, StoryExtractionResult)>) -> Seq<Seq<CharArcModel>> {
    rs.map_values(
        |p: (usize, StoryExtractionResult)| p.1.character_arcs@.map_values(|c: CharacterArcInput| char_arc_model(c)),
    )
}

proof fn lemma_merge_concatenates(rs: Seq<(usize, StoryExtractionResult)>)
    ensures
        all_encounters(rs) == chapter_encounters(rs).flatten_alt(),
        all_subplots(rs) == chapter_subplots(rs).flatten_alt(),
        all_events(rs) == chapter_events(rs).flatten_alt(),
        all_arcs(rs) == chapter_arcs(rs).flatten_alt(),
        all_char_arcs(rs) == chapter_char_arcs(rs).flatten_alt(),
    decreases rs.len(),
{
    if rs.len() > 0 {
        let t = rs.drop_last();
        lemma_merge_concatenates(t);
        assert(chapter_arcs(rs).drop_last() =~= chapter_arcs(t));
        assert(chapter_char_arcs(rs).drop_last() =~= chapter_char_arcs(t));
        assert(chapter_encounters(rs).drop_last() =~= chapter_encounters(t));
        assert(chapter_subplots(rs).drop_last() =~= chapter_subplots(t));
        assert(chapter_events(rs).drop_last() =~= chapter_events(t));
        let (idx, r) = rs.last();
        assert(r.events@.map_values(|e: StoryEventInput| shifted(e, idx)) =~= chapter_events(rs).last());
    }
}

/// Merging the chapter results keeps every chapter's encounters and
/// subplots, concatenated in chapter order, and every chapter's events in
/// the same way, each moved into its chapter's block of event orders (the
/// chapter index times 1000 added) and otherwise unchanged. So the merged
/// lists are exactly as long as the chapters' lists together. The arcs and
/// character arcs that deduplication and grouping start from are likewise
/// all chapters' arcs in chapter order.
pub proof fn merge_concatenates_chapters(rs: Seq<(usize, StoryExtractionResult)>)
    ensures
        all_encounters(rs) == chapter_encounters(rs).flatten(),
        all_subplots(rs) == chapter_subplots(rs).flatten(),
        all_events(rs) == chapter_events(rs).flatten(),
        all_arcs(rs) == chapter_arcs(rs).flatten(),
        all_char_arcs(rs) == chapter_char_arcs(rs).flatten(),
{
    lemma_merge_concatenates(rs);
    chapter_encounters(rs).lemma_flatten_and_flatten_alt_are_equivalent();
    chapter_subplots(rs).lemma_flatten_and_flatten_alt_are_equivalent();
    chapter_events(rs).lemma_flatten_and_flatten_alt_are_equivalent();
    chapter_arcs(rs).lemma_flatten_and_flatten_alt_are_equivalent();
    chapter_char_arcs(rs).lemma_flatten_and_flatten_alt_are_equivalent();
}

/// Every arc's title (by match key) is among the kept arcs.
pub open spec fn kept_covers(arcs: Seq<StoryArcInput>) -> bool {
    forall|j: int| 0 <= j < arcs.len() ==> exists|i: int|
        0 <= i < kept_arcs(arcs).len() && match_key(kept_arcs(arcs)[i].title@) == match_key(
            (#[trigger] arcs[j]).title@,
        )
}

/// The arc kept at position `i` is the first arc of its title (by match
/// key), numbered `i + 1`.
pub open spec fn kept_first(arcs: Seq<StoryArcInput>) -> bool {
    forall|i: int| #![trigger kept_arcs(arcs)[i]] 0 <= i < kept_arcs(arcs).len() ==> exists|j: int| #![trigger arcs[j]]
        0 <= j < arcs.len() && kept_arcs(arcs)[i] == (StoryArcInput { arc_order: (i + 1) as i32, ..arcs[j] })
            && forall|q: int| 0 <= q < j ==> match_key((#[trigger] arcs[q]).title@) != match_key(arcs[j].title@)
}

proof fn lemma_kept_prefix(arcs: Seq<StoryArcInput>)
    requires
        arcs.len() > 0,
    ensures
        kept_arcs(arcs.drop_last()).len() <= kept_arcs(arcs).len() <= kept_arcs(arcs.drop_last()).len() + 1,
        forall|i: int| 0 <= i < kept_arcs(arcs.drop_last()).len() ==> #[trigger] kept_arcs(arcs)[i] == kept_arcs(arcs.drop_last())[i],
{
}

proof fn lemma_kept_covers(arcs: Seq<StoryArcInput>)
    ensures
        kept_covers(arcs),
    decreases arcs.len(),
{
    if arcs.len() > 0 {
        let pre = arcs.drop_last();
        lemma_kept_covers(pre);
        lemma_kept_prefix(arcs);
        let prev = kept_arcs(pre);
        let cur = kept_arcs(arcs);
        let a = arcs.last();
        let n = arcs.len() - 1;
        let dup = exists|j: int| 0 <= j < prev.len() && match_key((#[trigger] prev[j]).title@) == match_key(a.title@);
        assert forall|j: int| 0 <= j < arcs.len() implies exists|i: int|
            0 <= i < cur.len() && match_key(cur[i].title@) == match_key((#[trigger] arcs[j]).title@) by {
            if j < n {
                assert(pre[j] == arcs[j]);
                let i = choose|i: int| 0 <= i < prev.len() && match_key(prev[i].title@) == match_key((#[trigger] pre[j]).title@);
                assert(cur[i] == prev[i]);
            } else if dup {
                let i = choose|i: int| 0 <= i < prev.len() && match_key((#[trigger] prev[i]).title@) == match_key(a.title@);
                assert(cur[i] == prev[i]);
            } else {
                assert(cur[prev.len() as int].title == a.title);
            }
        }
    }
}

#[verifier::rlimit(60)]
proof fn lemma_kept_first(arcs: Seq<StoryArcInput>)
    ensures
        kept_first(arcs),
    decreases arcs.len(),
{
    if arcs.len() > 0 {
        let pre = arcs.drop_last();
        lemma_kept_first(pre);
        lemma_kept_covers(pre);
        lemma_kept_prefix(arcs);
        let prev = kept_arcs(pre);
        let cur = kept_arcs(arcs);
        let a = arcs.last();
        let n = arcs.len() - 1;
        let dup = exists|j: int| 0 <= j < prev.len() && match_key((#[trigger] prev[j]).title@) == match_key(a.title@);
        assert forall|i: int| #![trigger cur[i]] 0 <= i < cur.len() implies exists|j: int| #![trigger arcs[j]]
            0 <= j < arcs.len() && cur[i] == (StoryArcInput { arc_order: (i + 1) as i32, ..arcs[j] })
                && forall|q: int| 0 <= q < j ==> match_key((#[trigger] arcs[q]).title@) != match_key(arcs[j].title@) by {
            if i < prev.len() {
                let j = choose|j: int| #![trigger pre[j]]
                    0 <= j < pre.len() && prev[i] == (StoryArcInput { arc_order: (i + 1) as i32, ..pre[j] })
                        && forall|q: int| 0 <= q < j ==> match_key((#[trigger] pre[q]).title@) != match_key(pre[j].title@);
                assert(pre[j] == arcs[j]);
                assert forall|q: int| 0 <= q < j implies match_key((#[trigger] arcs[q]).title@) != match_key(arcs[j].title@) by {
                    assert(pre[q] == arcs[q]);
                }
                assert(cur[i] == prev[i]);
            } else {
                assert(!dup);
                assert forall|q: int| 0 <= q < n implies match_key((#[trigger] arcs[q]).title@) != match_key(arcs[n].title@) by {
                    assert(pre[q] == arcs[q]);
                    let i2 = choose|i2: int| 0 <= i2 < prev.len() && match_key(prev[i2].title@) == match_key((#[trigger] pre[q]).title@);
                }
                assert(cur[i] == (StoryArcInput { arc_order: (i + 1) as i32, ..arcs[n] }));
            }
        }
    }
}

/// Merging keeps one arc per title (by match key): every input arc's title
/// is among the kept arcs, and the arc kept at position `i` is the first
/// input arc of its title, numbered `i + 1`.
pub proof fn kept_arcs_first_of_each_title(arcs: Seq<StoryArcInput>)
    ensures
        kept_covers(arcs),
        kept_first(arcs),
{
    lemma_kept_covers(arcs);
    lemma_kept_first(arcs);
}

proof fn lemma_find_group_hit(groups: Seq<CharArcModel>, k: Seq<char>)
    ensures
        0 <= find_group(groups, k) <= groups.len(),
        find_group(groups, k) < groups.len() ==> match_key(groups[find_group(groups, k)].name@) == k,
        find_group(groups, k) == groups.len() ==> forall|j: int|
            0 <= j < groups.len() ==> match_key((#[trigger] groups[j]).name@) != k,
    decreases groups.len(),
{
    if groups.len() > 0 && match_key(groups[0].name@) != k {
        let t = groups.drop_first();
        lemma_find_group_hit(t, k);
        if find_group(t, k) < t.len() {
            assert(t[find_group(t, k)] == groups[find_group(t, k) + 1]);
        } else {
            assert forall|j: int| 0 <= j < groups.len() implies match_key((#[trigger] groups[j]).name@) != k by {
                if j > 0 {
                    assert(t[j - 1] == groups[j]);
                }
            }
        }
    }
}

proof fn lemma_total_update(s: Seq<CharArcModel>, g: int, x: CharArcModel)
    requires
        0 <= g < s.len(),
    ensures
        total_points(s.update(g, x)) + s[g].points.len() == total_points(s) + x.points.len(),
    decreases s.len(),
{
    if g == s.len() - 1 {
        assert(s.update(g, x).drop_last() =~= s.drop_last());
    } else {
        assert(s.update(g, x).drop_last() =~= s.drop_last().update(g, x));
        lemma_total_update(s.drop_last(), g, x);
    }
}

/// No two groups are of the same character (by match key).
pub open spec fn groups_distinct(groups: Seq<CharArcModel>) -> bool {
    forall|g: int, h: int|
        0 <= g < h < groups.len() ==> match_key((#[trigger] groups[g]).name@) != match_key((#[trigger] groups[h]).name@)
}

/// Every arc's character (by match key) has a group.
pub open spec fn groups_cover(arcs: Seq<CharArcModel>, groups: Seq<CharArcModel>) -> bool {
    forall|j: int| 0 <= j < arcs.len() ==> exists|g: int|
        0 <= g < groups.len() && match_key(groups[g].name@) == match_key((#[trigger] arcs[j]).name@)
}

/// Each group bears the name and description of the first arc of its
/// character.
pub open spec fn groups_named_first(arcs: Seq<CharArcModel>, groups: Seq<CharArcModel>) -> bool {
    forall|g: int| #![trigger groups[g]] 0 <= g < groups.len() ==> exists|j: int| #![trigger arcs[j]]
        0 <= j < arcs.len() && groups[g].name == arcs[j].name && groups[g].description == arcs[j].description
            && forall|q: int| 0 <= q < j ==> match_key((#[trigger] arcs[q]).name@) != match_key(arcs[j].name@)
}

proof fn lemma_groups_step(arcs: Seq<CharArcModel>)
    requires
        arcs.len() > 0,
    ensures
        ({
            let prev = char_groups(arcs.drop_last());
            let cur = char_groups(arcs);
            let a = arcs.last();
            let g0 = find_group(prev, match_key(a.name@));
            &&& 0 <= g0 <= prev.len()
            &&& g0 < prev.len() ==> cur == prev.update(g0, CharArcModel { points: prev[g0].points + a.points, ..prev[g0] })
                && match_key(prev[g0].name@) == match_key(a.name@)
            &&& g0 == prev.len() ==> cur == prev.push(a) && forall|j: int|
                0 <= j < prev.len() ==> match_key((#[trigger] prev[j]).name@) != match_key(a.name@)
        }),
{
    lemma_find_group_hit(char_groups(arcs.drop_last()), match_key(arcs.last().name@));
}

proof fn lemma_groups_distinct_cover(arcs: Seq<CharArcModel>)
    ensures
        groups_distinct(char_groups(arcs)),
        groups_cover(arcs, char_groups(arcs)),
        total_points(char_groups(arcs)) == total_points(arcs),
    decreases arcs.len(),
{
    if arcs.len() > 0 {
        let pre = arcs.drop_last();
        lemma_groups_distinct_cover(pre);
        lemma_groups_step(arcs);
        let prev = char_groups(pre);
        let cur = char_groups(arcs);
        let a = arcs.last();
        let g0 = find_group(prev, match_key(a.name@));
        assert forall|g: int| 0 <= g < prev.len() implies match_key((#[trigger] cur[g]).name@) == match_key(prev[g].name@) by {}
        assert forall|g: int, h: int| 0 <= g < h < cur.len() implies match_key((#[trigger] cur[g]).name@) != match_key(
            (#[trigger] cur[h]).name@,
        ) by {
            if h < prev.len() {
                assert(match_key(prev[g].name@) != match_key(prev[h].name@));
            }
        }
        assert forall|j: int| 0 <= j < arcs.len() implies exists|g: int|
            0 <= g < cur.len() && match_key(cur[g].name@) == match_key((#[trigger] arcs[j]).name@) by {
            if j < pre.len() {
                assert(pre[j] == arcs[j]);
                let g = choose|g: int| 0 <= g < prev.len() && match_key(prev[g].name@) == match_key((#[trigger] pre[j]).name@);
                assert(match_key(cur[g].name@) == match_key(prev[g].name@));
            } else if g0 < prev.len() {
                assert(match_key(cur[g0].name@) == match_key(prev[g0].name@));
            } else {
                assert(cur[prev.len() as int] == a);
            }
        }
        if g0 < prev.len() {
            lemma_total_update(prev, g0, CharArcModel { points: prev[g0].points + a.points, ..prev[g0] });
        } else {
            assert(cur.drop_last() =~= prev);
        }
    }
}

proof fn lemma_groups_named_first(arcs: Seq<CharArcModel>)
    ensures
        groups_named_first(arcs, char_groups(arcs)),
    decreases arcs.len(),
{
    if arcs.len() > 0 {
        let pre = arcs.drop_last();
        lemma_groups_named_first(pre);
        lemma_groups_distinct_cover(pre);
        lemma_groups_step(arcs);
        let prev = char_groups(pre);
        let cur = char_groups(arcs);
        let a = arcs.last();
        let n = arcs.len() - 1;
        let g0 = find_group(prev, match_key(a.name@));
        assert forall|g: int| #![trigger cur[g]] 0 <= g < cur.len() implies exists|j: int| #![trigger arcs[j]]
            0 <= j < arcs.len() && cur[g].name == arcs[j].name && cur[g].description == arcs[j].description
                && forall|q: int| 0 <= q < j ==> match_key((#[trigger] arcs[q]).name@) != match_key(arcs[j].name@) by {
            if g < prev.len() {
                let j = choose|j: int| #![trigger pre[j]]
                    0 <= j < pre.len() && prev[g].name == pre[j].name && prev[g].description == pre[j].description
                        && forall|q: int| 0 <= q < j ==> match_key((#[trigger] pre[q]).name@) != match_key(pre[j].name@);
                assert(pre[j] == arcs[j]);
                assert forall|q: int| 0 <= q < j implies match_key((#[trigger] arcs[q]).name@) != match_key(arcs[j].name@) by {
                    assert(pre[q] == arcs[q]);
                }
                assert(cur[g].name == prev[g].name && cur[g].description == prev[g].description);
            } else {
                assert(g0 == prev.len());
                assert forall|q: int| 0 <= q < n implies match_key((#[trigger] arcs[q]).name@) != match_key(arcs[n].name@) by {
                    assert(pre[q] == arcs[q]);
                    let g2 = choose|g2: int| 0 <= g2 < prev.len() && match_key(prev[g2].name@) == match_key((#[trigger] pre[q]).name@);
                }
                assert(cur[g] == arcs[n]);
            }
        }
    }
}

/// Grouping character arcs by character keeps one group per character (by
/// match key), gives every arc's character a group, loses no arc point (the
/// groups hold as many points as the arcs), and names each group as the
/// first arc of its character.
pub proof fn character_arcs_grouped(arcs: Seq<CharArcModel>)
    ensures
        groups_distinct(char_groups(arcs)),
        groups_cover(arcs, char_groups(arcs)),
        total_points(char_groups(arcs)) == total_points(arcs),
        groups_named_first(arcs, char_groups(arcs)),
{
    lemma_groups_distinct_cover(arcs);
    lemma_groups_named_first(arcs);
}

} // verus!
