use std::collections::HashMap;

use main_tourney_manager_gg::buckets::{group_key, order_buckets, push_sets_to_buckets, GroupedBucket};
use main_tourney_manager_gg::games::{first_mode_exec, parse_set_character_data};
use main_tourney_manager_gg::json::{Json, JsonNumber};
use main_tourney_manager_gg::model::{EntrantSlot, GameCharacterPick, TournamentSet};
use main_tourney_manager_gg::sets::{default_slot, parse_set_nodes, parse_slot};
use main_tourney_manager_gg::tournament::{
    parse_event_payload, parse_tournament_payload, parse_videogame_id, peek_event_videogame_id,
    peek_tournament_videogame_id, fetch_stamp, stamp_at,
};

fn o(ms: Vec<(&str, Json)>) -> Json {
    Json::Object(ms.into_iter().map(|(k, v)| (k.to_string(), v)).collect())
}

fn s(x: &str) -> Json {
    Json::Str(x.to_string())
}

fn n(x: u64) -> Json {
    Json::Number(JsonNumber::PosInt(x))
}

fn arr(v: Vec<Json>) -> Json {
    Json::Array(v)
}

fn pick(entrant: u64, character: u64) -> Json {
    o(vec![("entrant", o(vec![("id", n(entrant))])), ("selectionValue", n(character))])
}

fn slot(entrant: u64, name: &str, score: u64) -> Json {
    o(vec![
        ("entrant", o(vec![("id", n(entrant)), ("name", s(name))])),
        ("standing", o(vec![("stats", o(vec![("score", o(vec![("value", n(score))]))]))])),
    ])
}

/// A set node: its id, round, and optionally its phase group (id, display
/// identifier) and phase name.
fn node(id: u64, round: u64, group: Option<(u64, &str)>, phase: Option<&str>) -> Json {
    let mut pg: Vec<(&str, Json)> = Vec::new();
    if let Some((gid, ident)) = group {
        pg.push(("id", n(gid)));
        pg.push(("displayIdentifier", s(ident)));
    }
    if let Some(p) = phase {
        pg.push(("phase", o(vec![("name", s(p))])));
    }
    o(vec![
        ("id", n(id)),
        ("fullRoundText", s("")),
        ("round", n(round)),
        ("phaseGroup", o(pg)),
        ("slots", arr(vec![slot(1, "A", 0), slot(2, "B", 0)])),
    ])
}

fn names() -> HashMap<u64, String> {
    let mut m = HashMap::new();
    m.insert(1, "Mario".to_string());
    m.insert(2, "Donkey Kong".to_string());
    m.insert(3, "Link".to_string());
    m
}

fn full_node() -> Json {
    o(vec![
        ("id", n(100)),
        ("identifier", s("A")),
        ("fullRoundText", s(" Winners Final ")),
        ("state", n(2)),
        ("winnerId", n(11)),
        ("round", n(3)),
        (
            "phaseGroup",
            o(vec![
                ("id", n(555)),
                ("displayIdentifier", s("1")),
                ("phase", o(vec![("id", n(9)), ("name", s("Top 8"))])),
            ]),
        ),
        (
            "slots",
            arr(vec![
                o(vec![
                    ("entrant", o(vec![("id", n(11)), ("name", s(" Alice "))])),
                    ("standing", o(vec![("stats", o(vec![("score", o(vec![("value", n(3))]))]))])),
                    ("prereqType", s("set")),
                    ("prereqId", n(90)),
                    ("prereqPlacement", n(1)),
                ]),
                o(vec![
                    ("entrant", o(vec![("id", s("12")), ("name", s("Bob"))])),
                    ("standing", o(vec![("stats", o(vec![("score", o(vec![("value", s("1"))]))]))])),
                    ("prereqType", s("seed")),
                    ("prereqId", n(5)),
                ]),
            ]),
        ),
        (
            "games",
            arr(vec![
                o(vec![("orderNum", n(2)), ("winnerId", n(12)), ("selections", arr(vec![pick(11, 1), pick(12, 2)]))]),
                o(vec![("orderNum", n(1)), ("winnerId", n(11)), ("selections", arr(vec![pick(11, 3), pick(12, 2)]))]),
                o(vec![("winnerId", n(11)), ("selections", arr(vec![pick(11, 3)]))]),
            ]),
        ),
    ])
}

#[test]
fn default_slot_is_empty() {
    assert_eq!(
        default_slot(),
        EntrantSlot {
            entrant_id: None,
            name: String::new(),
            score: 0,
            source_type: None,
            source_set_id: None,
            source_placement: None,
        }
    );
    assert_eq!(parse_slot(None), default_slot());
}

#[test]
fn slot_reads_entrant_score_and_source() {
    let j = o(vec![
        ("entrant", o(vec![("id", n(11)), ("name", s(" Alice "))])),
        ("standing", o(vec![("stats", o(vec![("score", o(vec![("value", Json::Number(JsonNumber::NegInt(-1)))]))]))])),
        ("prereqType", s("set")),
        ("prereqId", s("preview_1_2")),
        ("prereqPlacement", s("2")),
    ]);
    assert_eq!(
        parse_slot(Some(&j)),
        EntrantSlot {
            entrant_id: Some(11),
            name: "Alice".to_string(),
            score: -1,
            source_type: Some("set".to_string()),
            source_set_id: Some("preview_1_2".to_string()),
            source_placement: Some(2),
        }
    );
}

#[test]
fn slot_source_set_only_for_set_prerequisites() {
    let j = o(vec![("prereqType", s("seed")), ("prereqId", n(5)), ("entrant", Json::Null)]);
    let r = parse_slot(Some(&j));
    assert_eq!(r.source_type.as_deref(), Some("seed"));
    assert_eq!(r.source_set_id, None);
    assert_eq!(r.entrant_id, None);
    assert_eq!(r.name, "");
    let empty_type = o(vec![("prereqType", s(""))]);
    assert_eq!(parse_slot(Some(&empty_type)).source_type, None);
}

#[test]
fn set_node_is_read_in_full() {
    let sets = parse_set_nodes("Ultimate", &vec![full_node()], &names());
    assert_eq!(sets.len(), 1);
    let set = &sets[0];
    assert_eq!(set.id, "100");
    assert_eq!(set.identifier.as_deref(), Some("A"));
    assert_eq!(set.round_text, "Winners Final");
    assert_eq!(set.round, 3);
    assert_eq!(set.event_name, "Ultimate");
    assert_eq!(set.phase_name.as_deref(), Some("Top 8"));
    assert_eq!(set.phase_group_id, Some(555));
    assert_eq!(set.phase_group_identifier.as_deref(), Some("1"));
    assert_eq!(set.state, 2);
    assert_eq!(set.winner_id, Some(11));
    assert_eq!(set.best_of, 5);
    assert_eq!(set.player1.entrant_id, Some(11));
    assert_eq!(set.player1.name, "Alice");
    assert_eq!(set.player1.score, 3);
    assert_eq!(set.player1.source_set_id.as_deref(), Some("90"));
    assert_eq!(set.player1.source_placement, Some(1));
    assert_eq!(set.player2.entrant_id, Some(12));
    assert_eq!(set.player2.score, 1);
    assert_eq!(set.player2.source_set_id, None);
}

#[test]
fn set_characters_come_from_the_picks() {
    let sets = parse_set_nodes("Ultimate", &vec![full_node()], &names());
    let set = &sets[0];
    assert_eq!(set.player1_character.as_deref(), Some("Link"));
    assert_eq!(set.player2_character.as_deref(), Some("Donkey Kong"));
    assert_eq!(
        set.games,
        vec![
            GameCharacterPick {
                game_num: 1,
                winner_entrant_id: Some(11),
                player1_character: Some("Link".to_string()),
                player2_character: Some("Donkey Kong".to_string()),
            },
            GameCharacterPick {
                game_num: 2,
                winner_entrant_id: Some(12),
                player1_character: Some("Mario".to_string()),
                player2_character: Some("Donkey Kong".to_string()),
            },
            GameCharacterPick {
                game_num: 3,
                winner_entrant_id: Some(11),
                player1_character: Some("Link".to_string()),
                player2_character: None,
            },
        ]
    );
}

#[test]
fn unknown_character_ids_give_no_name() {
    let sets = parse_set_nodes("Ultimate", &vec![full_node()], &HashMap::new());
    assert_eq!(sets[0].player1_character, None);
    assert!(sets[0].games.iter().all(|g| g.player1_character.is_none()));
}

#[test]
fn most_picked_character_ties_go_to_the_first_seen() {
    assert_eq!(first_mode_exec(&vec![5, 6]), 5);
    assert_eq!(first_mode_exec(&vec![6, 5, 5, 6]), 6);
    assert_eq!(first_mode_exec(&vec![4, 7, 7]), 7);
    let data = parse_set_character_data(&o(vec![(
        "games",
        arr(vec![
            o(vec![("selections", arr(vec![pick(1, 5)]))]),
            o(vec![("selections", arr(vec![pick(1, 6), pick(1, 7)]))]),
        ]),
    )]));
    assert_eq!(data.picks, vec![(1, 5), (1, 6), (1, 7)]);
    assert_eq!(data.per_game.len(), 2);
    assert_eq!(data.per_game[0].order, 1);
    assert_eq!(data.per_game[1].order, 2);
    assert_eq!(data.per_game[1].character_picks, vec![(1, 6), (1, 7)]);
}

#[test]
fn games_are_sorted_by_number_stably() {
    let data = parse_set_character_data(&o(vec![(
        "games",
        arr(vec![
            o(vec![("orderNum", n(3)), ("winnerId", n(1))]),
            o(vec![("orderNum", n(1)), ("winnerId", n(2))]),
            o(vec![("orderNum", n(3)), ("winnerId", n(3))]),
        ]),
    )]));
    let orders: Vec<(u32, Option<u64>)> = data.per_game.iter().map(|g| (g.order, g.winner_entrant_id)).collect();
    assert_eq!(orders, vec![(1, Some(2)), (3, Some(1)), (3, Some(3))]);
    assert!(parse_set_character_data(&o(vec![])).per_game.is_empty());
}

#[test]
fn best_of_defaults_by_context() {
    let nodes = vec![
        node(1, 0, None, None),
        node(2, 2, None, Some("Pools")),
        node(3, 2, None, Some("Bracket")),
        node(4, 1, None, Some("Group Stage")),
        node(5, 1, None, None),
    ];
    let sets = parse_set_nodes("E", &nodes, &HashMap::new());
    let best_of: Vec<u32> = sets.iter().map(|s| s.best_of).collect();
    assert_eq!(best_of, vec![3, 3, 5, 3, 5]);
}

#[test]
fn sets_without_id_are_skipped_and_round_text_defaults() {
    let no_id = o(vec![("fullRoundText", s("Final"))]);
    let sets = parse_set_nodes("  ", &vec![no_id, node(8, 1, None, None)], &HashMap::new());
    assert_eq!(sets.len(), 1);
    assert_eq!(sets[0].round_text, "Set 8");
    assert_eq!(sets[0].event_name, "Event");
}

#[test]
fn group_keys_prefer_the_phase_group() {
    let sets = parse_set_nodes(
        "Ultimate",
        &vec![node(1, 1, Some((555, "1")), Some("Top 8")), node(2, 1, None, Some("Top 8")), node(3, 1, None, None)],
        &HashMap::new(),
    );
    assert_eq!(group_key(&sets[0]), "pg:555");
    assert_eq!(group_key(&sets[1]), "ep:Ultimate::Top 8");
    assert_eq!(group_key(&sets[2]), "e:Ultimate");
}

#[test]
fn pushing_sets_skips_seen_ids() {
    let sets = parse_set_nodes(
        "E",
        &vec![node(1, 1, Some((10, "1")), None), node(2, 1, Some((20, "2")), None), node(1, 1, Some((10, "1")), None), node(3, 1, Some((10, "1")), None)],
        &HashMap::new(),
    );
    let mut all: Vec<TournamentSet> = Vec::new();
    let mut grouped: Vec<GroupedBucket> = Vec::new();
    let mut seen: Vec<String> = vec!["2".to_string()];
    push_sets_to_buckets(sets, &mut all, &mut grouped, &mut seen);
    let ids: Vec<&str> = all.iter().map(|s| s.id.as_str()).collect();
    assert_eq!(ids, vec!["1", "3"]);
    assert_eq!(seen, vec!["2".to_string(), "1".to_string(), "3".to_string()]);
    assert_eq!(grouped.len(), 1);
    assert_eq!(grouped[0].key, "pg:10");
    assert_eq!(grouped[0].sets.len(), 2);
}

#[test]
fn tabs_are_ordered_bracket_first_then_pools_by_number() {
    let sets = parse_set_nodes(
        "B",
        &vec![
            node(1, 0, Some((2, "2")), Some("Pools")),
            node(2, 3, Some((9, "")), Some("Top 8")),
            node(3, 0, Some((10, "10")), Some("Pools")),
            node(4, 0, Some((11, "A")), Some("Pools")),
        ],
        &HashMap::new(),
    );
    let other = parse_set_nodes("A", &vec![node(5, 1, None, None)], &HashMap::new());
    let mut all: Vec<TournamentSet> = Vec::new();
    let mut grouped: Vec<GroupedBucket> = Vec::new();
    let mut seen: Vec<String> = Vec::new();
    push_sets_to_buckets(sets, &mut all, &mut grouped, &mut seen);
    push_sets_to_buckets(other, &mut all, &mut grouped, &mut seen);
    let tabs = order_buckets(grouped);
    let named: Vec<(&str, &str)> = tabs.iter().map(|b| (b.id.as_str(), b.name.as_str())).collect();
    assert_eq!(
        named,
        vec![
            ("ea", "A"),
            ("pg9", "B - Top 8"),
            ("pg2", "B - Pool 2"),
            ("pg10", "B - Pool 10"),
            ("pg11", "B - Pool A"),
        ]
    );
}

#[test]
fn videogame_id_in_object_or_array() {
    assert_eq!(parse_videogame_id(Some(&o(vec![("id", n(1386))]))), Some(1386));
    assert_eq!(parse_videogame_id(Some(&arr(vec![o(vec![("id", s("7"))])]))), Some(7));
    assert_eq!(parse_videogame_id(Some(&arr(vec![]))), None);
    assert_eq!(parse_videogame_id(None), None);
    let t = o(vec![(
        "tournament",
        o(vec![("events", arr(vec![o(vec![("videogame", Json::Null)]), o(vec![("videogame", o(vec![("id", n(4))]))])]))]),
    )]);
    assert_eq!(peek_tournament_videogame_id(&t), Some(4));
    let e = o(vec![("event", o(vec![("videogame", arr(vec![o(vec![("id", n(9))])]))]))]);
    assert_eq!(peek_event_videogame_id(&e), Some(9));
}

fn tournament_doc() -> Json {
    o(vec![(
        "tournament",
        o(vec![
            ("id", n(7)),
            ("name", s("  ")),
            (
                "events",
                arr(vec![
                    o(vec![
                        ("name", s("Melee")),
                        ("videogame", arr(vec![o(vec![("id", n(1))])])),
                        ("sets", o(vec![("nodes", arr(vec![node(1, 1, None, None)]))])),
                    ]),
                    o(vec![
                        ("name", s("Ult")),
                        ("videogame", o(vec![("id", n(1386))])),
                        ("sets", o(vec![("nodes", arr(vec![node(1, 1, None, None), node(2, 1, None, None)]))])),
                    ]),
                ]),
            ),
        ]),
    )])
}

#[test]
fn tournament_payload_is_read_into_tabs() {
    let d = parse_tournament_payload(&tournament_doc(), "tournament/x", &HashMap::new()).unwrap();
    assert_eq!(d.tournament_id, Some(7));
    assert_eq!(d.tournament_name, "tournament/x");
    assert_eq!(d.slug, "tournament/x");
    assert_eq!(d.total_sets, 2);
    assert_eq!(d.videogame_id, Some(1));
    let tabs: Vec<(&str, usize)> = d.buckets.iter().map(|b| (b.name.as_str(), b.sets.len())).collect();
    assert_eq!(tabs, vec![("Melee", 1), ("Ult", 1)]);
    assert!(d.fetched_at.len() >= 25 && d.fetched_at.ends_with("+00:00"));
}

#[test]
fn tournament_payload_errors() {
    let h = HashMap::new();
    assert_eq!(
        parse_tournament_payload(&o(vec![]), "x", &h).unwrap_err(),
        "start.gg response did not include tournament"
    );
    assert_eq!(
        parse_tournament_payload(&o(vec![("tournament", Json::Null)]), "x", &h).unwrap_err(),
        "Tournament not found for slug 'x'"
    );
    assert_eq!(
        parse_tournament_payload(&o(vec![("tournament", o(vec![]))]), "x", &h).unwrap_err(),
        "start.gg response missing events array"
    );
}

#[test]
fn event_payload_falls_back_to_phase_groups() {
    let doc = o(vec![(
        "event",
        o(vec![
            ("name", s("Ult")),
            ("tournament", o(vec![("id", n(3)), ("name", s("Big"))])),
            ("videogame", o(vec![("id", n(1386))])),
            ("sets", o(vec![("nodes", arr(vec![]))])),
            (
                "phaseGroups",
                arr(vec![
                    o(vec![("sets", o(vec![("nodes", arr(vec![node(1, 0, Some((5, "1")), None)]))]))]),
                    o(vec![("sets", o(vec![("nodes", arr(vec![node(2, 0, Some((6, "2")), None), node(1, 0, Some((5, "1")), None)]))]))]),
                ]),
            ),
        ]),
    )]);
    let d = parse_event_payload(&doc, "tournament/big/event/ult", &HashMap::new()).unwrap();
    assert_eq!(d.tournament_id, Some(3));
    assert_eq!(d.tournament_name, "Big");
    assert_eq!(d.videogame_id, Some(1386));
    assert_eq!(d.total_sets, 2);
    let names: Vec<&str> = d.buckets.iter().map(|b| b.name.as_str()).collect();
    assert_eq!(names, vec!["Ult - Pool 1", "Ult - Pool 2"]);
}

#[test]
fn event_payload_uses_direct_sets_first() {
    let doc = o(vec![(
        "event",
        o(vec![
            ("name", s("Ult")),
            ("sets", o(vec![("nodes", arr(vec![node(1, 1, None, None)]))])),
            ("phaseGroups", arr(vec![o(vec![("sets", o(vec![("nodes", arr(vec![node(2, 1, None, None)]))]))])])),
        ]),
    )]);
    let d = parse_event_payload(&doc, "s", &HashMap::new()).unwrap();
    assert_eq!(d.total_sets, 1);
    assert_eq!(d.tournament_name, "s");
    assert_eq!(d.tournament_id, None);
}

#[test]
fn event_payload_errors() {
    let h = HashMap::new();
    assert_eq!(parse_event_payload(&o(vec![]), "s", &h).unwrap_err(), "start.gg response did not include event");
    assert_eq!(
        parse_event_payload(&o(vec![("event", Json::Null)]), "s", &h).unwrap_err(),
        "Event not found for slug 's'"
    );
}

#[test]
fn pushing_appends_to_old_buckets_and_opens_new_ones_in_order() {
    let first = parse_set_nodes("E", &vec![node(1, 1, Some((10, "1")), None)], &HashMap::new());
    let mut all: Vec<TournamentSet> = Vec::new();
    let mut grouped: Vec<GroupedBucket> = Vec::new();
    let mut seen: Vec<String> = Vec::new();
    push_sets_to_buckets(first, &mut all, &mut grouped, &mut seen);
    let more = parse_set_nodes(
        "E",
        &vec![
            node(2, 1, Some((30, "3")), None),
            node(3, 1, Some((10, "1")), None),
            node(4, 1, Some((20, "2")), None),
            node(5, 1, Some((30, "3")), None),
        ],
        &HashMap::new(),
    );
    push_sets_to_buckets(more, &mut all, &mut grouped, &mut seen);
    let shape: Vec<(&str, Vec<&str>)> = grouped
        .iter()
        .map(|b| (b.key.as_str(), b.sets.iter().map(|s| s.id.as_str()).collect()))
        .collect();
    assert_eq!(
        shape,
        vec![("pg:10", vec!["1", "3"]), ("pg:30", vec!["2", "5"]), ("pg:20", vec!["4"])]
    );
    let ids: Vec<&str> = all.iter().map(|s| s.id.as_str()).collect();
    assert_eq!(ids, vec!["1", "2", "3", "4", "5"]);
}

#[test]
fn stamp_of_the_epoch() {
    assert_eq!(stamp_at(0, 0), "1970-01-01T00:00:00+00:00");
}

#[test]
fn stamp_keeps_its_fraction() {
    assert_eq!(stamp_at(1_700_000_000, 500_000_000), "2023-11-14T22:13:20.500+00:00");
    assert_eq!(stamp_at(1_700_000_000, 123_456_789), "2023-11-14T22:13:20.123456789+00:00");
}

#[test]
fn stamp_of_the_last_second_of_year_9999() {
    assert_eq!(stamp_at(253_402_300_799, 0), "9999-12-31T23:59:59+00:00");
}

#[test]
fn stamp_out_of_range_is_empty() {
    assert_eq!(stamp_at(u64::MAX, 0), "");
    assert_eq!(stamp_at(i64::MAX as u64, 0), "");
}

#[test]
fn current_stamp_is_a_utc_stamp() {
    let s = fetch_stamp();
    assert!(s.len() >= 25 && s.ends_with("+00:00"), "{s:?}");
    assert!(s.starts_with("20"), "{s:?}");
}
