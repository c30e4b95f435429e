//! Turning start.gg set nodes into the tool's sets.
use vstd::prelude::*;
use std::collections::HashMap;
use crate::fields::{
    i32_of, i32_opt, id_of, id_opt, nonempty_str, nonempty_string, parse_i32, parse_i32_opt,
    parse_id_string, parse_u64, parse_u64_opt, read_text, text_of, u64_of, u64_opt,
};
use crate::games::{
    games_data, last_pick, last_pick_exec, mode_for, mode_for_exec, parse_set_character_data,
    set_games, all_picks, sort_by_order, GameDataV, SetGameData,
};
use crate::json::{elements, get, get_opt, get_or_null, oview, Json, JsonV};
use crate::model::{ostr, EntrantSlot, GameCharacterPick, PickV, SetV, SlotV, TournamentSet};
use crate::text::{
    chars_of, concat, owned, contains, decimal, holds_word_either_case, is_blank,
    lemma_contains_lower_either_case, lower, push_str, small_letters, str_contains, str_eq,
    to_ascii_lowercase, trim,
};

verus! {

broadcast use vstd::std_specs::hash::group_hash_axioms;

// ---------------------------------------------------------------------------
// Slots
// ---------------------------------------------------------------------------

pub open spec fn empty_slot() -> SlotV {
    SlotV {
        entrant_id: None,
        name: Seq::empty(),
        score: 0,
        source_type: None,
        source_set_id: None,
        source_placement: None,
    }
}

/// A slot with no entrant: empty name, score 0, no source.
pub fn default_slot() -> (s: EntrantSlot)
    ensures
        s@ == empty_slot(),
{
    EntrantSlot {
        entrant_id: None,
        name: String::new(),
        score: 0,
        source_type: None,
        source_set_id: None,
        source_placement: None,
    }
}

pub open spec fn slot_score(slot: JsonV) -> i32 {
    match i32_opt(
        get_opt(get_opt(get_opt(get(slot, "standing"@), "stats"@), "score"@), "value"@),
    ) {
        Some(v) => v,
        None => 0,
    }
}

/// A slot of a set node. The name stays empty when there is no entrant, so the
/// front end can show its own placeholder.
pub open spec fn slot_of(slot: Option<JsonV>) -> SlotV {
    match slot {
        None => empty_slot(),
        Some(s) => {
            let entrant = get_or_null(s, "entrant"@);
            let source_type = nonempty_str(get(s, "prereqType"@));
            SlotV {
                entrant_id: u64_of(get_or_null(entrant, "id"@)),
                name: text_of(get(entrant, "name"@)),
                score: slot_score(s),
                source_type,
                source_set_id: if source_type == Some("set"@) {
                    id_opt(get(s, "prereqId"@))
                } else {
                    None
                },
                source_placement: i32_opt(get(s, "prereqPlacement"@)),
            }
        },
    }
}

fn get_ref<'a>(j: Option<&'a Json>, key: &str) -> (r: Option<&'a Json>)
    ensures
        oview(r) == get_opt(oview(j), key@),
{
    match j {
        Some(v) => v.get(key),
        None => None,
    }
}

fn get_or_null_exec<'a>(j: &'a Json, key: &str) -> (r: Json)
    ensures
        r@ == get_or_null(j@, key@),
{
    match j.get(key) {
        Some(v) => v.clone(),
        None => Json::Null,
    }
}

pub fn parse_slot(slot: Option<&Json>) -> (r: EntrantSlot)
    ensures
        r@ == slot_of(oview(slot)),
{
    let slot = match slot {
        Some(s) => s,
        None => {
            return default_slot();
        },
    };
    let entrant = get_or_null_exec(slot, "entrant");
    let entrant_id = match entrant.get("id") {
        Some(v) => parse_u64(v),
        None => parse_u64(&Json::Null),
    };
    let name = read_text(entrant.get("name"));
    let stats = get_ref(get_ref(slot.get("standing"), "stats"), "score");
    let score = match parse_i32_opt(get_ref(stats, "value")) {
        Some(v) => v,
        None => 0,
    };
    let source_type = nonempty_string(slot.get("prereqType"));
    let is_set = match &source_type {
        Some(t) => str_eq(t.as_str(), "set"),
        None => false,
    };
    let source_set_id = if is_set {
        match slot.get("prereqId") {
            Some(v) => parse_id_string(v),
            None => None,
        }
    } else {
        None
    };
    let source_placement = parse_i32_opt(slot.get("prereqPlacement"));
    let r = EntrantSlot {
        entrant_id,
        name,
        score,
        source_type,
        source_set_id,
        source_placement,
    };
    assert(r@ == slot_of(oview(Some(slot))));
    r
}

// ---------------------------------------------------------------------------
// Sets
// ---------------------------------------------------------------------------

/// The name of a character id, when the roster has it.
pub open spec fn name_of(names: Map<u64, String>, c: Option<u64>) -> Option<Seq<char>> {
    match c {
        Some(id) => if names.contains_key(id) {
            Some(names[id]@)
        } else {
            None
        },
        None => None,
    }
}

/// The event label of the sets: the event's name, or "Event" when it is blank.
pub open spec fn event_label(event_name: Seq<char>) -> Seq<char> {
    if trim(event_name).len() == 0 {
        "Event"@
    } else {
        event_name
    }
}

/// A reported score of 3 or more means best of 5; before that, round-robin
/// pools (round 0, or a phase named like a pool or group) default to best
/// of 3 and bracket sets to best of 5.
pub open spec fn best_of_for(max_score: i32, round: i32, phase_name: Option<Seq<char>>) -> u32 {
    let l = lower(
        match phase_name {
            Some(p) => p,
            None => Seq::empty(),
        },
    );
    if max_score >= 3 {
        5
    } else if round == 0 || contains(l, "pool"@) || contains(l, "group"@) {
        3
    } else {
        5
    }
}

pub open spec fn entrant_last_pick(picks: Seq<(u64, u64)>, e: Option<u64>) -> Option<u64> {
    match e {
        Some(id) => last_pick(picks, id),
        None => None,
    }
}

pub open spec fn entrant_mode(picks: Seq<(u64, u64)>, e: Option<u64>) -> Option<u64> {
    match e {
        Some(id) => mode_for(picks, id),
        None => None,
    }
}

pub open spec fn pick_view(
    g: GameDataV,
    p1: Option<u64>,
    p2: Option<u64>,
    names: Map<u64, String>,
) -> PickV {
    PickV {
        game_num: g.order,
        winner_entrant_id: g.winner_entrant_id,
        player1_character: name_of(names, entrant_last_pick(g.character_picks, p1)),
        player2_character: name_of(names, entrant_last_pick(g.character_picks, p2)),
    }
}

pub open spec fn slot_at(slots: Seq<JsonV>, i: int) -> Option<JsonV> {
    if 0 <= i < slots.len() {
        Some(slots[i])
    } else {
        None
    }
}

pub open spec fn max_i32(a: i32, b: i32) -> i32 {
    if a >= b {
        a
    } else {
        b
    }
}

/// The set a node describes, or `None` when it has no usable id.
pub open spec fn set_of(label: Seq<char>, node: JsonV, names: Map<u64, String>) -> Option<SetV> {
    match id_of(get_or_null(node, "id"@)) {
        None => None,
        Some(id) => {
            let pg = get(node, "phaseGroup"@);
            let phase_name = nonempty_str(get_opt(get_opt(pg, "phase"@), "name"@));
            let slots = elements(get(node, "slots"@));
            let p1 = slot_of(slot_at(slots, 0));
            let p2 = slot_of(slot_at(slots, 1));
            let picks = all_picks(set_games(node));
            let per_game = sort_by_order(games_data(set_games(node)));
            let full = text_of(get(node, "fullRoundText"@));
            let round = match i32_of(get_or_null(node, "round"@)) {
                Some(r) => r,
                None => 0,
            };
            Some(
                SetV {
                    id,
                    identifier: nonempty_str(get(node, "identifier"@)),
                    round_text: if full.len() == 0 {
                        "Set "@ + id
                    } else {
                        full
                    },
                    round,
                    event_name: label,
                    phase_name,
                    phase_group_id: u64_opt(get_opt(pg, "id"@)),
                    phase_group_identifier: nonempty_str(get_opt(pg, "displayIdentifier"@)),
                    state: match i32_of(get_or_null(node, "state"@)) {
                        Some(s) => s,
                        None => 0,
                    },
                    winner_id: u64_of(get_or_null(node, "winnerId"@)),
                    best_of: best_of_for(max_i32(p1.score, p2.score), round, phase_name),
                    player1_character: name_of(names, entrant_mode(picks, p1.entrant_id)),
                    player2_character: name_of(names, entrant_mode(picks, p2.entrant_id)),
                    games: per_game.map_values(
                        |g: GameDataV| pick_view(g, p1.entrant_id, p2.entrant_id, names),
                    ),
                    player1: p1,
                    player2: p2,
                },
            )
        },
    }
}

/// The sets of the nodes that have an id, in order.
pub open spec fn sets_of(label: Seq<char>, nodes: Seq<JsonV>, names: Map<u64, String>) -> Seq<
    SetV,
>
    decreases nodes.len(),
{
    if nodes.len() == 0 {
        Seq::empty()
    } else {
        sets_of(label, nodes.drop_last(), names) + match set_of(label, nodes.last(), names) {
            Some(s) => seq![s],
            None => Seq::empty(),
        }
    }
}

fn resolve_name(names: &HashMap<u64, String>, c: Option<u64>) -> (r: Option<String>)
    ensures
        ostr(r) == name_of(names@, c),
{
    match c {
        Some(id) => match names.get(&id) {
            Some(n) => Some(n.clone()),
            None => None,
        },
        None => None,
    }
}

fn pick_exec(g: &SetGameData, p1: Option<u64>, p2: Option<u64>, names: &HashMap<u64, String>) -> (r:
    GameCharacterPick)
    ensures
        r@ == pick_view(g@, p1, p2, names@),
{
    let c1 = match p1 {
        Some(id) => last_pick_exec(&g.character_picks, id),
        None => None,
    };
    let c2 = match p2 {
        Some(id) => last_pick_exec(&g.character_picks, id),
        None => None,
    };
    GameCharacterPick {
        game_num: g.order,
        winner_entrant_id: g.winner_entrant_id,
        player1_character: resolve_name(names, c1),
        player2_character: resolve_name(names, c2),
    }
}

fn best_of_exec(max_score: i32, round: i32, phase_name: &Option<String>) -> (r: u32)
    ensures
        r == best_of_for(max_score, round, ostr(*phase_name)),
{
    let lowered = match phase_name {
        Some(p) => to_ascii_lowercase(p.as_str()),
        None => {
            let l = String::new();
            assert(l@ =~= lower(Seq::<char>::empty()));
            l
        },
    };
    if max_score >= 3 {
        5
    } else if round == 0 || str_contains(lowered.as_str(), "pool") || str_contains(
        lowered.as_str(),
        "group",
    ) {
        3
    } else {
        5
    }
}

fn build_set(label: &String, node: &Json, names: &HashMap<u64, String>) -> (r: Option<
    TournamentSet,
>)
    ensures
        match r {
            Some(s) => set_of(label@, node@, names@) == Some(s@),
            None => set_of(label@, node@, names@) is None,
        },
{
    let id_value = get_or_null_exec(node, "id");
    let set_id = match parse_id_string(&id_value) {
        Some(s) => s,
        None => {
            return None;
        },
    };
    let identifier = nonempty_string(node.get("identifier"));
    let full = read_text(node.get("fullRoundText"));
    let round_text = if full.as_str().unicode_len() == 0 {
        concat("Set ", set_id.as_str())
    } else {
        full
    };
    let pg = node.get("phaseGroup");
    let phase_name = nonempty_string(get_ref(get_ref(pg, "phase"), "name"));
    let phase_group_id = parse_u64_opt(get_ref(pg, "id"));
    let phase_group_identifier = nonempty_string(get_ref(pg, "displayIdentifier"));
    let empty: Vec<Json> = Vec::new();
    let slots: &Vec<Json> = match node.get("slots") {
        Some(v) => match v.as_array() {
            Some(a) => a,
            None => &empty,
        },
        None => &empty,
    };
    let ghost sv = slots@.map_values(|j: Json| j@);
    assert(sv == elements(get(node@, "slots"@)));
    let player1 = if slots.len() > 0 {
        parse_slot(Some(&slots[0]))
    } else {
        parse_slot(None)
    };
    let player2 = if slots.len() > 1 {
        parse_slot(Some(&slots[1]))
    } else {
        parse_slot(None)
    };
    assert(player1@ == slot_of(slot_at(sv, 0)));
    assert(player2@ == slot_of(slot_at(sv, 1)));
    let data = parse_set_character_data(node);
    let m1 = match player1.entrant_id {
        Some(e) => mode_for_exec(&data.picks, e),
        None => None,
    };
    let m2 = match player2.entrant_id {
        Some(e) => mode_for_exec(&data.picks, e),
        None => None,
    };
    let player1_character = resolve_name(names, m1);
    let player2_character = resolve_name(names, m2);
    let ghost pv = data.per_game@.map_values(|g: SetGameData| g@);
    let mut games: Vec<GameCharacterPick> = Vec::new();
    let mut i: usize = 0;
    while i < data.per_game.len()
        invariant
            i <= data.per_game@.len(),
            pv == data.per_game@.map_values(|g: SetGameData| g@),
            games@.len() == i,
            forall|k: int|
                0 <= k < i ==> (#[trigger] games@[k])@ == pick_view(
                    pv[k],
                    player1@.entrant_id,
                    player2@.entrant_id,
                    names@,
                ),
        decreases data.per_game@.len() - i,
    {
        let p = pick_exec(&data.per_game[i], player1.entrant_id, player2.entrant_id, names);
        games.push(p);
        i = i + 1;
    }
    let state = match parse_i32(&get_or_null_exec(node, "state")) {
        Some(s) => s,
        None => 0,
    };
    let winner_id = parse_u64(&get_or_null_exec(node, "winnerId"));
    let round = match parse_i32(&get_or_null_exec(node, "round")) {
        Some(r) => r,
        None => 0,
    };
    let max_score = if player1.score >= player2.score {
        player1.score
    } else {
        player2.score
    };
    let best_of = best_of_exec(max_score, round, &phase_name);
    let r = TournamentSet {
        id: set_id,
        identifier,
        round_text,
        round,
        event_name: label.clone(),
        phase_name,
        phase_group_id,
        phase_group_identifier,
        state,
        winner_id,
        best_of,
        player1_character,
        player2_character,
        games,
        player1,
        player2,
    };
    assert(r@.games =~= pv.map_values(
        |g: GameDataV| pick_view(g, player1@.entrant_id, player2@.entrant_id, names@),
    ));
    Some(r)
}

/// The sets of an event's nodes; nodes without an id are skipped.
pub fn parse_set_nodes(event_name: &str, nodes: &Vec<Json>, character_names: &HashMap<
    u64,
    String,
>) -> (out: Vec<TournamentSet>)
    ensures
        out@.map_values(|s: TournamentSet| s@) == sets_of(
            event_label(event_name@),
            nodes@.map_values(|j: Json| j@),
            character_names@,
        ),
{
    let label = if is_blank(event_name) {
        owned("Event")
    } else {
        owned(event_name)
    };
    assert(label@ =~= event_label(event_name@));
    let ghost nv = nodes@.map_values(|j: Json| j@);
    let mut out: Vec<TournamentSet> = Vec::new();
    let mut i: usize = 0;
    while i < nodes.len()
        invariant
            i <= nodes@.len(),
            nv == nodes@.map_values(|j: Json| j@),
            label@ == event_label(event_name@),
            out@.map_values(|s: TournamentSet| s@) == sets_of(label@, nv.take(i as int), character_names@),
        decreases nodes@.len() - i,
    {
        assert(nv.take(i + 1).drop_last() =~= nv.take(i as int));
        assert(nv.take(i + 1).last() == nodes@[i as int]@);
        let ghost before = out@;
        match build_set(&label, &nodes[i], character_names) {
            Some(s) => {
                out.push(s);
            },
            None => {},
        }
        assert(out@.map_values(|s: TournamentSet| s@) =~= sets_of(
            label@,
            nv.take(i + 1),
            character_names@,
        ));
        i = i + 1;
    }
    assert(nv.take(nodes@.len() as int) =~= nv);
    out
}

/// Every set of the result comes from one of the nodes.
proof fn lemma_sets_come_from_nodes(label: Seq<char>, nodes: Seq<JsonV>, names: Map<u64, String>)
    ensures
        forall|k: int|
            0 <= k < sets_of(label, nodes, names).len() ==> exists|j: int|
                0 <= j < nodes.len() && set_of(label, nodes[j], names) == Some(
                    #[trigger] sets_of(label, nodes, names)[k],
                ),
    decreases nodes.len(),
{
    if nodes.len() > 0 {
        let u = nodes.drop_last();
        lemma_sets_come_from_nodes(label, u, names);
        let before = sets_of(label, u, names);
        let all = sets_of(label, nodes, names);
        assert forall|k: int| 0 <= k < all.len() implies exists|j: int|
            0 <= j < nodes.len() && set_of(label, nodes[j], names) == Some(#[trigger] all[k]) by {
            if k < before.len() {
                assert(all[k] == before[k]);
                let j = choose|j: int| 0 <= j < u.len() && set_of(label, u[j], names) == Some(before[k]);
                assert(nodes[j] == u[j]);
            } else {
                assert(nodes[nodes.len() - 1] == nodes.last());
            }
        }
    }
}

/// The best-of of each set follows its scores and the look of its phase: a
/// reported score of 3 or more makes it best of 5; below that, a set that
/// looks like a round-robin pool (round 0, or a phase whose name holds
/// "pool" or "group" in any letter case) is best of 3, and any other set is
/// best of 5.
pub proof fn law_best_of_follows_scores_and_pools(
    label: Seq<char>,
    nodes: Seq<JsonV>,
    names: Map<u64, String>,
)
    ensures
        forall|k: int|
            0 <= k < sets_of(label, nodes, names).len() ==> #[trigger] sets_of(
                label,
                nodes,
                names,
            )[k].best_of == if sets_of(label, nodes, names)[k].player1.score >= 3
                || sets_of(label, nodes, names)[k].player2.score >= 3 {
                5u32
            } else if sets_of(label, nodes, names)[k].round == 0 || holds_word_either_case(
                match sets_of(label, nodes, names)[k].phase_name {
                    Some(p) => p,
                    None => Seq::empty(),
                },
                "pool"@,
            ) || holds_word_either_case(
                match sets_of(label, nodes, names)[k].phase_name {
                    Some(p) => p,
                    None => Seq::empty(),
                },
                "group"@,
            ) {
                3u32
            } else {
                5u32
            },
{
    reveal_strlit("pool");
    reveal_strlit("group");
    assert(small_letters("pool"@));
    assert(small_letters("group"@));
    lemma_sets_come_from_nodes(label, nodes, names);
    let all = sets_of(label, nodes, names);
    assert forall|k: int| 0 <= k < all.len() implies #[trigger] all[k].best_of == if all[k].player1.score >= 3
        || all[k].player2.score >= 3 {
        5u32
    } else if all[k].round == 0 || holds_word_either_case(
        match all[k].phase_name {
            Some(p) => p,
            None => Seq::empty(),
        },
        "pool"@,
    ) || holds_word_either_case(
        match all[k].phase_name {
            Some(p) => p,
            None => Seq::empty(),
        },
        "group"@,
    ) {
        3u32
    } else {
        5u32
    } by {
        let j = choose|j: int| 0 <= j < nodes.len() && set_of(label, nodes[j], names) == Some(all[k]);
        let pn = match all[k].phase_name {
            Some(p) => p,
            None => Seq::<char>::empty(),
        };
        lemma_contains_lower_either_case(pn, "pool"@);
        lemma_contains_lower_either_case(pn, "group"@);
    }
}

} // verus!
