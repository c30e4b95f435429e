use main_tourney_manager_gg::fetching::{BestSetsSearch, PageStep, Paginator, SearchStep};
use main_tourney_manager_gg::json::{Json, JsonNumber};
use main_tourney_manager_gg::paging::{extend_at_pointer, has_any_sets, merge_sets_pointers, resolve_sets_pointers, SetsLocation};
use main_tourney_manager_gg::queries::{
    attach_phase_groups, event_fetch_plan, event_sets_fetched, filtered_slug_variables,
    graphql_request_body, phase_group_fetch_plan, phase_groups_of, tournament_fetch_plan,
    tournament_payload_result, EventFetchStep, EVENT_PHASE_GROUP_SETS_QUERY, EVENT_SETS_QUERY,
    TOURNAMENT_SETS_FALLBACK_QUERY, TOURNAMENT_SETS_FILTERED_QUERY, TOURNAMENT_SETS_QUERY,
};

fn ob(ms: Vec<(&str, Json)>) -> Json {
    Json::Object(ms.into_iter().map(|(k, v)| (k.to_string(), v)).collect())
}

fn st(x: &str) -> Json {
    Json::Str(x.to_string())
}

fn nu(x: u64) -> Json {
    Json::Number(JsonNumber::PosInt(x))
}

fn event_location() -> Vec<SetsLocation> {
    vec![SetsLocation::Single { object_pointer: "/event".to_string(), sets_relative: "/sets".to_string() }]
}

fn event_page(total_pages: u64, nodes: Vec<Json>) -> Json {
    ob(vec![(
        "event",
        ob(vec![
            ("name", st("Ult")),
            ("sets", ob(vec![("pageInfo", ob(vec![("totalPages", nu(total_pages))])), ("nodes", Json::Array(nodes))])),
        ]),
    )])
}

#[test]
fn paginator_starts_at_page_one_with_at_least_eight() {
    let (p, vars) = Paginator::start(ob(vec![("slug", st("s"))]), 5, event_location());
    assert_eq!(p.per_page, 8);
    assert_eq!(p.page, 1);
    assert_eq!(vars, ob(vec![("slug", st("s")), ("perPage", nu(8)), ("page", nu(1))]));
}

#[test]
fn paginator_merges_pages_until_the_last() {
    let (mut p, _) = Paginator::start(ob(vec![("slug", st("s"))]), 128, event_location());
    let step = p.page_received(Ok(event_page(2, vec![nu(1)])), None);
    match step {
        PageStep::Request(v) => assert_eq!(v, ob(vec![("slug", st("s")), ("perPage", nu(128)), ("page", nu(2))])),
        _ => panic!("expected a second page"),
    }
    let step = p.page_received(Ok(event_page(2, vec![nu(2)])), None);
    match step {
        PageStep::Done(Ok(d)) => assert_eq!(d, event_page(2, vec![nu(1), nu(2)])),
        _ => panic!("expected the merged data"),
    }
}

#[test]
fn paginator_stops_on_an_empty_page() {
    let (mut p, _) = Paginator::start(ob(vec![]), 128, event_location());
    match p.page_received(Ok(event_page(5, vec![])), None) {
        PageStep::Done(Ok(d)) => assert_eq!(d, event_page(5, vec![])),
        _ => panic!("expected to stop"),
    }
}

#[test]
fn paginator_restarts_smaller_on_complexity_errors() {
    let (mut p, _) = Paginator::start(ob(vec![("slug", st("s"))]), 128, event_location());
    let _ = p.page_received(Ok(event_page(3, vec![nu(1)])), None);
    let e = "query complexity is too high (actual: 2000)".to_string();
    match p.page_received(Err(e), Some(51)) {
        PageStep::Request(v) => assert_eq!(v, ob(vec![("slug", st("s")), ("perPage", nu(51)), ("page", nu(1))])),
        _ => panic!("expected a restart"),
    }
    assert_eq!(p.per_page, 51);
    assert!(p.merged.is_none());
}

#[test]
fn paginator_gives_up_on_other_errors() {
    let (mut p, _) = Paginator::start(ob(vec![]), 64, event_location());
    match p.page_received(Err("HTTP 502".to_string()), Some(10)) {
        PageStep::Done(Err(e)) => assert_eq!(e, "HTTP 502"),
        _ => panic!("expected the error"),
    }
}

#[test]
fn sets_pointers_per_array_entry() {
    let data = ob(vec![(
        "tournament",
        ob(vec![("events", Json::Array(vec![ob(vec![]), ob(vec![])]))]),
    )]);
    let locs = vec![SetsLocation::PerArrayEntry {
        array_pointer: "/tournament/events".to_string(),
        sets_relative: "/sets".to_string(),
    }];
    assert_eq!(
        resolve_sets_pointers(&data, &locs),
        vec!["/tournament/events/0/sets".to_string(), "/tournament/events/1/sets".to_string()]
    );
    assert!(!has_any_sets(&data, &locs));
}

#[test]
fn merging_extends_each_connection() {
    let target = event_page(2, vec![nu(1)]);
    let source = event_page(2, vec![nu(2), nu(3)]);
    let merged = merge_sets_pointers(target, &source, &vec!["/event/sets".to_string()]);
    assert_eq!(merged, event_page(2, vec![nu(1), nu(2), nu(3)]));
    let untouched = merge_sets_pointers(event_page(1, vec![]), &ob(vec![]), &vec!["/event/sets".to_string()]);
    assert_eq!(untouched, event_page(1, vec![]));
}

#[test]
fn search_takes_the_first_attempt_with_sets() {
    let locs = event_location();
    let (mut s, step) = BestSetsSearch::start(3);
    assert!(matches!(step, SearchStep::Attempt(0)));
    assert!(matches!(s.attempt_finished(Err("e1".to_string()), &locs), SearchStep::Attempt(1)));
    assert!(matches!(s.attempt_finished(Ok(event_page(1, vec![])), &locs), SearchStep::Attempt(2)));
    match s.attempt_finished(Ok(event_page(1, vec![nu(4)])), &locs) {
        SearchStep::Finished(Ok(d)) => assert_eq!(d, event_page(1, vec![nu(4)])),
        _ => panic!("expected the sets"),
    }
}

#[test]
fn search_trusts_an_empty_answer() {
    let locs = event_location();
    let (mut s, _) = BestSetsSearch::start(2);
    let _ = s.attempt_finished(Ok(event_page(1, vec![])), &locs);
    match s.attempt_finished(Ok(event_page(7, vec![])), &locs) {
        SearchStep::Finished(Ok(d)) => assert_eq!(d, event_page(1, vec![])),
        _ => panic!("expected the first empty answer"),
    }
}

#[test]
fn search_joins_every_error() {
    let locs = event_location();
    let (mut s, _) = BestSetsSearch::start(2);
    let _ = s.attempt_finished(Err("a".to_string()), &locs);
    match s.attempt_finished(Err("b".to_string()), &locs) {
        SearchStep::Finished(Err(e)) => assert_eq!(e, "a | b"),
        _ => panic!("expected the errors"),
    }
    match BestSetsSearch::start(0).1 {
        SearchStep::Finished(Err(e)) => assert_eq!(e, ""),
        _ => panic!("expected an empty error"),
    }
}

#[test]
fn request_body_holds_query_and_variables() {
    assert_eq!(
        graphql_request_body("query Q { x }", ob(vec![("a", nu(1))])),
        ob(vec![("query", st("query Q { x }")), ("variables", ob(vec![("a", nu(1))]))])
    );
}

#[test]
fn tournament_plan_tries_three_queries() {
    let plan = tournament_fetch_plan("tournament/x");
    assert_eq!(plan.attempts.len(), 3);
    assert_eq!(plan.attempts[0].0, TOURNAMENT_SETS_QUERY);
    assert_eq!(plan.attempts[1].0, TOURNAMENT_SETS_FILTERED_QUERY);
    assert_eq!(plan.attempts[2].0, TOURNAMENT_SETS_FALLBACK_QUERY);
    assert_eq!(plan.attempts[0].1, ob(vec![("slug", st("tournament/x"))]));
    assert_eq!(plan.attempts[1].1, filtered_slug_variables("tournament/x"));
    assert_eq!(plan.attempts[2].1, ob(vec![("slug", st("tournament/x"))]));
    assert!(TOURNAMENT_SETS_FILTERED_QUERY.contains("query TournamentSetsFiltered("));
    match &plan.locations[..] {
        [SetsLocation::PerArrayEntry { array_pointer, sets_relative }] => {
            assert_eq!(array_pointer, "/tournament/events");
            assert_eq!(sets_relative, "/sets");
        },
        _ => panic!("one location per event"),
    }
}

#[test]
fn filtered_variables_list_every_state() {
    let states: Vec<Json> = (1..=9).map(nu).collect();
    assert_eq!(
        filtered_slug_variables("s"),
        ob(vec![("slug", st("s")), ("states", Json::Array(states))])
    );
}

#[test]
fn event_plan_reads_the_event_connection() {
    let plan = event_fetch_plan("tournament/x/event/y");
    assert_eq!(plan.attempts.len(), 3);
    assert_eq!(plan.attempts[0].0, EVENT_SETS_QUERY);
    assert!(EVENT_SETS_QUERY.contains("query EventSets("));
    assert!(matches!(&plan.locations[..], [SetsLocation::Single { .. }]));
    let (q, v, locs) = phase_group_fetch_plan("tournament/x/event/y");
    assert_eq!(q, EVENT_PHASE_GROUP_SETS_QUERY);
    assert_eq!(v, ob(vec![("slug", st("tournament/x/event/y"))]));
    assert_eq!(locs.len(), 1);
}

#[test]
fn fetch_errors_name_what_failed() {
    assert_eq!(
        tournament_payload_result(Err("x".to_string())),
        Err("Failed to fetch tournament data. x".to_string())
    );
    assert_eq!(tournament_payload_result(Ok(nu(1))), Ok(nu(1)));
    match event_sets_fetched(Err("y".to_string())) {
        EventFetchStep::Done(Err(e)) => assert_eq!(e, "Failed to fetch event data. y"),
        _ => panic!("expected the error"),
    }
}

#[test]
fn event_without_direct_sets_asks_for_phase_groups() {
    assert!(matches!(event_sets_fetched(Ok(event_page(1, vec![nu(1)]))), EventFetchStep::Done(Ok(_))));
    match event_sets_fetched(Ok(event_page(1, vec![]))) {
        EventFetchStep::FetchPhaseGroups(d) => assert_eq!(d, event_page(1, vec![])),
        _ => panic!("expected a phase group fetch"),
    }
}

#[test]
fn phase_groups_are_attached_to_the_event() {
    let groups = Json::Array(vec![ob(vec![("id", nu(5))])]);
    let fetched = ob(vec![("event", ob(vec![("phaseGroups", groups.clone())]))]);
    assert_eq!(phase_groups_of(&fetched), groups);
    assert_eq!(phase_groups_of(&ob(vec![])), Json::Array(vec![]));
    let data = ob(vec![("event", ob(vec![("name", st("Ult"))]))]);
    let with = attach_phase_groups(data.clone(), Ok(fetched));
    assert_eq!(with, ob(vec![("event", ob(vec![("name", st("Ult")), ("phaseGroups", groups)]))]));
    assert_eq!(attach_phase_groups(data.clone(), Err("no".to_string())), data);
    let null_event = ob(vec![("event", Json::Null)]);
    assert_eq!(attach_phase_groups(null_event.clone(), Ok(ob(vec![]))), null_event);
}

#[test]
fn extending_then_reading_gives_old_then_new() {
    let j = ob(vec![("a", Json::Array(vec![ob(vec![("n", Json::Array(vec![nu(1)]))])]))]);
    let r = extend_at_pointer(j, &"/a/0/n".to_string(), vec![nu(2), nu(3)]);
    assert_eq!(r.pointer("/a/0/n"), Some(&Json::Array(vec![nu(1), nu(2), nu(3)])));
    let k = ob(vec![("a", nu(1))]);
    assert_eq!(extend_at_pointer(k.clone(), &"/a".to_string(), vec![nu(2)]), k);
    assert_eq!(extend_at_pointer(k.clone(), &"/b".to_string(), vec![nu(2)]), k);
}

#[test]
fn refused_fetch_ends_with_the_error() {
    let (mut p, _) = Paginator::start(ob(vec![]), 16, event_location());
    let e = "complexity is too high (actual: 100000)".to_string();
    let mut sizes = vec![p.per_page];
    let mut steps = 0;
    loop {
        steps += 1;
        assert!(steps <= 9, "the fetch did not end");
        match p.page_received(Err(e.clone()), Some(1)) {
            PageStep::Request(_) => {
                assert!(p.per_page < *sizes.last().unwrap() && p.per_page >= 8);
                sizes.push(p.per_page);
            },
            PageStep::Done(r) => {
                assert_eq!(r, Err(e.clone()));
                break;
            },
        }
    }
    assert_eq!(sizes, vec![16, 8]);
}
