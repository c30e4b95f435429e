use std::collections::HashMap;

use main_tourney_manager_gg::avatars::{
    avatar_request, avatar_urls_from, best_image_url, best_participant_image_url, entrant_avatars_from,
    entrant_ids_of,
};
use main_tourney_manager_gg::json::{Json, JsonNumber};
use main_tourney_manager_gg::load::{LoadStep, TournamentLoad};
use main_tourney_manager_gg::model::{
    AppConfig, EntrantAvatars, FetchTournamentRequest, GameCharacter, GameDataInput, GameSelectionInput,
    OverlayPlayer, ReportSetRequest, ReportSetResult, WriteOverlayRequest,
};
use main_tourney_manager_gg::overlay::{
    character_asset_value, icon_file, overlay_output_path, overlay_payload, player_payload,
};
use main_tourney_manager_gg::report::{
    report_attempt_list, ReportStep, SetReport, REPORT_SET_BARE_MUTATION, REPORT_SET_MUTATION,
    REPORT_SET_NOT_DQ_MUTATION, REPORT_SET_WITH_GAMES_MUTATION,
};
use main_tourney_manager_gg::startgg::{character_cache, NamesLookup};

fn obj(ms: Vec<(&str, Json)>) -> Json {
    Json::Object(ms.into_iter().map(|(k, v)| (k.to_string(), v)).collect())
}

fn text(x: &str) -> Json {
    Json::Str(x.to_string())
}

fn num(x: u64) -> Json {
    Json::Number(JsonNumber::PosInt(x))
}

fn empty() -> Json {
    obj(vec![])
}

fn report_request(set_id: &str, winner: u64, games: Option<Vec<GameDataInput>>) -> ReportSetRequest {
    ReportSetRequest { api_token: "tok".to_string(), set_id: set_id.to_string(), winner_id: winner, game_data: games }
}

#[test]
fn app_config_defaults() {
    let c = AppConfig::default();
    assert_eq!(c.api_token, "");
    assert_eq!(c.tournament_slug, "");
    assert_eq!(c.stream_output_path, "");
    assert_eq!(c.preferred_camera_id, None);
    assert_eq!(c.per_page, 128);
    assert!(c.auto_write_overlay);
}

#[test]
fn report_is_refused_before_sending() {
    let mut r = report_request("55", 7, None);
    r.api_token = " ".to_string();
    assert_eq!(SetReport::start(&r).err(), Some("Missing start.gg API token".to_string()));
    assert_eq!(SetReport::start(&report_request("  ", 7, None)).err(), Some("Invalid set ID".to_string()));
    assert_eq!(SetReport::start(&report_request("55", 0, None)).err(), Some("Invalid winner ID".to_string()));
}

#[test]
fn report_without_games_tries_three_mutations() {
    let base = obj(vec![("setId", text("55")), ("winnerId", text("7"))]);
    let list = report_attempt_list("55", 7, &Some(vec![]));
    let queries: Vec<&str> = list.iter().map(|(q, _)| q.as_str()).collect();
    assert_eq!(queries, vec![REPORT_SET_MUTATION, REPORT_SET_BARE_MUTATION, REPORT_SET_NOT_DQ_MUTATION]);
    assert!(list.iter().all(|(_, v)| *v == base));
}

#[test]
fn report_with_games_sends_them_first() {
    let games = vec![GameDataInput {
        game_num: 1,
        winner_id: Some(7),
        selections: vec![GameSelectionInput { entrant_id: 7, character_id: 1302 }],
    }, GameDataInput { game_num: 2, winner_id: None, selections: vec![] }];
    let list = report_attempt_list("55", 7, &Some(games));
    assert_eq!(list.len(), 4);
    assert_eq!(list[0].0, REPORT_SET_WITH_GAMES_MUTATION);
    let game_data = Json::Array(vec![
        obj(vec![
            ("gameNum", num(1)),
            ("winnerId", text("7")),
            ("selections", Json::Array(vec![obj(vec![("entrantId", text("7")), ("characterId", num(1302))])])),
        ]),
        obj(vec![("gameNum", num(2)), ("winnerId", Json::Null), ("selections", Json::Array(vec![]))]),
    ]);
    assert_eq!(
        list[0].1,
        obj(vec![("setId", text("55")), ("winnerId", text("7")), ("gameData", game_data)])
    );
    assert_eq!(list[1].0, REPORT_SET_MUTATION);
}

#[test]
fn report_succeeds_on_the_first_accepted_mutation() {
    let (mut rep, step) = SetReport::start(&report_request("55", 7, None)).unwrap();
    match step {
        ReportStep::Send(q, _) => assert_eq!(q, REPORT_SET_MUTATION),
        _ => panic!("expected a mutation"),
    }
    match rep.attempt_finished(Err("no".to_string())) {
        ReportStep::Send(q, _) => assert_eq!(q, REPORT_SET_BARE_MUTATION),
        _ => panic!("expected the next mutation"),
    }
    match rep.attempt_finished(Ok(empty())) {
        ReportStep::Finished(Ok(r)) => assert_eq!(
            r,
            ReportSetResult { success: true, message: "Set 55 reported successfully with winner 7".to_string() }
        ),
        _ => panic!("expected success"),
    }
}

#[test]
fn report_fails_after_every_mutation_fails() {
    let (mut rep, _) = SetReport::start(&report_request("55", 7, None)).unwrap();
    let _ = rep.attempt_finished(Err("a".to_string()));
    let _ = rep.attempt_finished(Err("b".to_string()));
    match rep.attempt_finished(Err("c".to_string())) {
        ReportStep::Finished(Err(e)) => assert_eq!(e, "Failed to report set after 3 attempts: a | b | c"),
        _ => panic!("expected failure"),
    }
}

fn load_request(slug: &str, per_page: Option<u32>) -> FetchTournamentRequest {
    FetchTournamentRequest { api_token: "tok".to_string(), tournament_slug: slug.to_string(), per_page }
}

fn set_node(id: u64) -> Json {
    obj(vec![("id", num(id)), ("round", num(1))])
}

fn event_doc(nodes: Vec<Json>) -> Json {
    obj(vec![(
        "event",
        obj(vec![
            ("name", text("Ult")),
            ("videogame", obj(vec![("id", num(1386))])),
            ("sets", obj(vec![("nodes", Json::Array(nodes))])),
        ]),
    )])
}

fn tournament_doc(nodes: Vec<Json>) -> Json {
    obj(vec![(
        "tournament",
        obj(vec![
            ("name", text("Big")),
            ("events", Json::Array(vec![obj(vec![("name", text("Ult")), ("sets", obj(vec![("nodes", Json::Array(nodes))]))])])),
        ]),
    )])
}

#[test]
fn load_is_refused_without_token_or_slug() {
    let mut r = load_request("x", None);
    r.api_token = String::new();
    assert_eq!(TournamentLoad::start(&r).err(), Some("Missing start.gg API token".to_string()));
    assert_eq!(TournamentLoad::start(&load_request(" ", None)).err(), Some("Missing tournament slug".to_string()));
}

#[test]
fn load_asks_for_the_event_first() {
    let (l, step) = TournamentLoad::start(&load_request("start.gg/tournament/big/event/ult", Some(5))).unwrap();
    match step {
        LoadStep::FetchEvent(s, p) => {
            assert_eq!(s, "tournament/big/event/ult");
            assert_eq!(p, 10);
        },
        _ => panic!("expected an event fetch"),
    }
    assert_eq!(l.tournament_slug, "tournament/big");
    let (_, step) = TournamentLoad::start(&load_request("big", Some(9000))).unwrap();
    match step {
        LoadStep::FetchTournament(s, p) => {
            assert_eq!(s, "tournament/big");
            assert_eq!(p, 500);
        },
        _ => panic!("expected a tournament fetch"),
    }
}

#[test]
fn load_shows_an_event_with_sets() {
    let (mut l, _) = TournamentLoad::start(&load_request("tournament/big/event/ult", None)).unwrap();
    match l.event_fetched(Ok(event_doc(vec![set_node(1)]))) {
        LoadStep::LoadNames(v) => assert_eq!(v, Some(1386)),
        _ => panic!("expected a roster load"),
    }
    match l.names_loaded(&HashMap::new()) {
        LoadStep::Finished(Ok(d)) => {
            assert_eq!(d.total_sets, 1);
            assert_eq!(d.slug, "tournament/big/event/ult");
        },
        _ => panic!("expected the event"),
    }
}

#[test]
fn load_prefers_a_tournament_with_sets_over_an_empty_event() {
    let (mut l, _) = TournamentLoad::start(&load_request("tournament/big/event/ult", None)).unwrap();
    let _ = l.event_fetched(Ok(event_doc(vec![])));
    match l.names_loaded(&HashMap::new()) {
        LoadStep::FetchTournament(s, p) => {
            assert_eq!(s, "tournament/big");
            assert_eq!(p, 128);
        },
        _ => panic!("expected a tournament fetch"),
    }
    match l.tournament_fetched(Ok(tournament_doc(vec![set_node(1), set_node(2)]))) {
        LoadStep::LoadNames(v) => assert_eq!(v, None),
        _ => panic!("expected a roster load"),
    }
    match l.names_loaded(&HashMap::new()) {
        LoadStep::Finished(Ok(d)) => {
            assert_eq!(d.total_sets, 2);
            assert_eq!(d.slug, "tournament/big");
        },
        _ => panic!("expected the tournament"),
    }
}

#[test]
fn load_keeps_the_empty_event_when_the_tournament_gives_nothing() {
    let (mut l, _) = TournamentLoad::start(&load_request("tournament/big/event/ult", None)).unwrap();
    let _ = l.event_fetched(Ok(event_doc(vec![])));
    let _ = l.names_loaded(&HashMap::new());
    match l.tournament_fetched(Err("down".to_string())) {
        LoadStep::Finished(Ok(d)) => assert_eq!(d.slug, "tournament/big/event/ult"),
        _ => panic!("expected the event"),
    }
    let (mut l2, _) = TournamentLoad::start(&load_request("tournament/big/event/ult", None)).unwrap();
    let _ = l2.event_fetched(Ok(event_doc(vec![])));
    let _ = l2.names_loaded(&HashMap::new());
    let _ = l2.tournament_fetched(Ok(tournament_doc(vec![])));
    match l2.names_loaded(&HashMap::new()) {
        LoadStep::Finished(Ok(d)) => assert_eq!(d.slug, "tournament/big/event/ult"),
        _ => panic!("expected the event"),
    }
}

#[test]
fn load_falls_back_to_the_tournament_when_the_event_fails() {
    let (mut l, _) = TournamentLoad::start(&load_request("tournament/big/event/ult", None)).unwrap();
    assert!(matches!(l.event_fetched(Err("e1".to_string())), LoadStep::FetchTournament(_, _)));
    match l.tournament_fetched(Err("t1".to_string())) {
        LoadStep::Finished(Err(e)) => assert_eq!(
            e,
            "Failed to fetch using event slug and tournament fallback. Event error: e1. Tournament error: t1"
        ),
        _ => panic!("expected both errors"),
    }
    let (mut l2, _) = TournamentLoad::start(&load_request("tournament/big/event/ult", None)).unwrap();
    let _ = l2.event_fetched(Err("e1".to_string()));
    let _ = l2.tournament_fetched(Ok(tournament_doc(vec![])));
    match l2.names_loaded(&HashMap::new()) {
        LoadStep::Finished(Ok(d)) => assert_eq!(d.total_sets, 0),
        _ => panic!("expected the tournament"),
    }
}

#[test]
fn load_without_an_event_reports_the_tournament_error() {
    let (mut l, _) = TournamentLoad::start(&load_request("big", None)).unwrap();
    match l.tournament_fetched(Err("t1".to_string())) {
        LoadStep::Finished(Err(e)) => assert_eq!(e, "t1"),
        _ => panic!("expected the error"),
    }
}

#[test]
fn load_reports_parse_errors() {
    let (mut l, _) = TournamentLoad::start(&load_request("tournament/big/event/ult", None)).unwrap();
    let _ = l.event_fetched(Ok(obj(vec![("event", Json::Null)])));
    match l.names_loaded(&HashMap::new()) {
        LoadStep::Finished(Err(e)) => assert_eq!(e, "Event not found for slug 'tournament/big/event/ult'"),
        _ => panic!("expected the parse error"),
    }
}

#[test]
fn roster_cache_keeps_only_non_empty_rosters() {
    let mut cache = character_cache();
    assert!(matches!(cache.names_for(None), NamesLookup::Ready(m) if m.is_empty()));
    assert!(matches!(cache.names_for(Some(1386)), NamesLookup::Fetch(1386)));
    let empty_roster = cache.roster_fetched(1386, Err("down".to_string()));
    assert!(empty_roster.is_empty());
    assert!(matches!(cache.names_for(Some(1386)), NamesLookup::Fetch(1386)));
    let names = cache.roster_fetched(1386, Ok(vec![GameCharacter { id: 1, name: "Mario".to_string() }]));
    assert_eq!(names.get(&1).map(String::as_str), Some("Mario"));
    match cache.names_for(Some(1386)) {
        NamesLookup::Ready(m) => assert_eq!(m, names),
        _ => panic!("expected the cached roster"),
    }
}

fn image(kind: &str, url: &str) -> Json {
    obj(vec![("type", text(kind)), ("url", text(url))])
}

#[test]
fn profile_image_is_preferred() {
    let imgs = vec![image("banner", "b"), image("profile", "p")];
    assert_eq!(best_image_url(Some(&imgs)).as_deref(), Some("p"));
    let others = vec![image("banner", "b"), image("x", "c")];
    assert_eq!(best_image_url(Some(&others)).as_deref(), Some("b"));
    assert_eq!(best_image_url(Some(&vec![])), None);
    assert_eq!(best_image_url(None), None);
    assert_eq!(best_image_url(Some(&vec![obj(vec![("type", text("profile"))])])), None);
}

fn entrant(id: u64, user_images: Vec<Json>, own_images: Vec<Json>) -> Json {
    obj(vec![
        ("id", num(id)),
        (
            "participants",
            Json::Array(vec![obj(vec![
                ("images", Json::Array(own_images)),
                ("player", obj(vec![("user", obj(vec![("images", Json::Array(user_images))]))])),
            ])]),
        ),
    ])
}

#[test]
fn user_picture_comes_before_the_participant_picture() {
    assert_eq!(
        best_participant_image_url(&entrant(1, vec![image("profile", "u")], vec![image("profile", "o")])).as_deref(),
        Some("u")
    );
    assert_eq!(best_participant_image_url(&entrant(1, vec![], vec![image("profile", "o")])).as_deref(), Some("o"));
    assert_eq!(best_participant_image_url(&entrant(1, vec![], vec![])), None);
    assert_eq!(best_participant_image_url(&obj(vec![])), None);
}

#[test]
fn avatar_query_aliases_each_entrant() {
    assert!(avatar_request(&vec![]).is_none());
    let (q, v) = avatar_request(&vec![11, 22]).unwrap();
    assert_eq!(
        q,
        "query EntrantAvatars { e0: entrant(id: 11) { id participants { images { type url } player { user { images { type url } } } } }\ne1: entrant(id: 22) { id participants { images { type url } player { user { images { type url } } } } } }"
    );
    assert_eq!(v, empty());
}

#[test]
fn avatar_urls_are_read_by_entrant_id() {
    let data = obj(vec![
        ("e0", entrant(11, vec![image("profile", "u11")], vec![])),
        ("e1", entrant(22, vec![], vec![])),
        ("e2", obj(vec![("id", text("33")), ("participants", Json::Array(vec![obj(vec![("images", Json::Array(vec![image("x", "o33")]))])]))])),
    ]);
    let urls = avatar_urls_from(Ok(data));
    assert_eq!(urls.len(), 2);
    assert_eq!(urls.get(&11).map(String::as_str), Some("u11"));
    assert_eq!(urls.get(&33).map(String::as_str), Some("o33"));
    assert!(avatar_urls_from(Err("x".to_string())).is_empty());
    assert!(avatar_urls_from(Ok(Json::Array(vec![]))).is_empty());
}

#[test]
fn each_player_gets_their_own_picture() {
    assert_eq!(entrant_ids_of(Some(1), None), vec![1]);
    assert_eq!(entrant_ids_of(Some(1), Some(2)), vec![1, 2]);
    assert_eq!(entrant_ids_of(None, Some(2)), vec![2]);
    let mut urls = HashMap::new();
    urls.insert(2, "two".to_string());
    assert_eq!(
        entrant_avatars_from(Some(1), Some(2), &urls),
        EntrantAvatars { player1_avatar: None, player2_avatar: Some("two".to_string()) }
    );
    assert_eq!(
        entrant_avatars_from(None, None, &urls),
        EntrantAvatars { player1_avatar: None, player2_avatar: None }
    );
}

fn player(name: &str, character: Option<&str>, score: u32, avatar: Option<&str>) -> OverlayPlayer {
    OverlayPlayer {
        name: name.to_string(),
        character: character.map(str::to_string),
        character_icon: None,
        score,
        avatar_url: avatar.map(str::to_string),
    }
}

fn expected_player(name: &str, character_name: &str, character: Json, avatar: &str) -> Json {
    obj(vec![
        ("name", text(name)),
        ("characterName", text(character_name)),
        ("character", character),
        ("country", empty()),
        ("state", empty()),
        ("pronoun", text("")),
        ("twitter", text("")),
        ("avatar", text("")),
        ("online_avatar", text(avatar)),
    ])
}

#[test]
fn character_entry_points_at_the_staged_icon() {
    assert_eq!(icon_file("koopa"), "koopa.png");
    assert_eq!(
        character_asset_value("koopa"),
        obj(vec![(
            "0",
            obj(vec![
                ("codename", text("koopa")),
                ("assets", obj(vec![("portrait", obj(vec![("asset", text("out/character-icons/koopa.png"))]))])),
            ]),
        )])
    );
}

#[test]
fn player_payload_fills_every_field() {
    let p = player("Alice", Some("Bowser"), 2, Some("https://img/a.png"));
    assert_eq!(
        player_payload(&p, Some(character_asset_value("koopa"))),
        expected_player("Alice", "Bowser", character_asset_value("koopa"), "https://img/a.png")
    );
    let q = player("Bob", None, 0, None);
    assert_eq!(player_payload(&q, None), expected_player("Bob", "", empty(), ""));
}

#[test]
fn overlay_payload_has_the_scoreboard_shape() {
    let req = WriteOverlayRequest {
        output_path: "/tmp/x.json".to_string(),
        tournament_name: "Big".to_string(),
        round_text: "Winners Final".to_string(),
        event_name: "Ult".to_string(),
        best_of: 5,
        player1: player("Alice", None, 2, None),
        player2: player("Bob", None, 1, None),
    };
    let team = |score: u64, p: Json| obj(vec![("score", num(score)), ("player", obj(vec![("1", p)]))]);
    let generic = |name: &str, score: u64| {
        obj(vec![
            ("name", text(name)),
            ("character", Json::Null),
            ("characterIcon", Json::Null),
            ("score", num(score)),
            ("avatarUrl", Json::Null),
        ])
    };
    let set_block = obj(vec![
        ("tournamentName", text("Big")),
        ("eventName", text("Ult")),
        ("roundText", text("Winners Final")),
        ("bestOf", num(5)),
        ("player1", generic("Alice", 2)),
        ("player2", generic("Bob", 1)),
    ]);
    assert_eq!(
        overlay_payload(&req, None, None),
        obj(vec![
            ("set", set_block),
            ("tournamentInfo", obj(vec![("tournamentName", text("Big"))])),
            (
                "score",
                obj(vec![(
                    "1",
                    obj(vec![
                        ("best_of", num(5)),
                        ("match", text("Winners Final")),
                        ("phase", text("Ult")),
                        (
                            "team",
                            obj(vec![
                                ("1", team(2, expected_player("Alice", "", empty(), ""))),
                                ("2", team(1, expected_player("Bob", "", empty(), ""))),
                            ]),
                        ),
                    ]),
                )]),
            ),
        ])
    );
}

#[test]
fn overlay_path_must_not_be_blank() {
    assert_eq!(overlay_output_path("  /tmp/x.json "), Ok("/tmp/x.json".to_string()));
    assert_eq!(overlay_output_path(" \n "), Err("Overlay output path is empty".to_string()));
}

#[test]
fn set_block_keeps_what_the_front_end_sent() {
    let mut p1 = player("Alice", Some("Bowser"), 3, Some("https://img/a.png"));
    p1.character_icon = Some("koopa".to_string());
    let req = WriteOverlayRequest {
        output_path: "out.json".to_string(),
        tournament_name: "T".to_string(),
        round_text: "R".to_string(),
        event_name: "E".to_string(),
        best_of: 3,
        player1: p1,
        player2: player("Bob", None, 0, None),
    };
    let payload = overlay_payload(&req, None, None);
    let set = payload.get("set").unwrap();
    assert_eq!(
        set.get("player1"),
        Some(&obj(vec![
            ("name", text("Alice")),
            ("character", text("Bowser")),
            ("characterIcon", text("koopa")),
            ("score", num(3)),
            ("avatarUrl", text("https://img/a.png")),
        ]))
    );
    assert_eq!(set.get("bestOf"), Some(&num(3)));
}
