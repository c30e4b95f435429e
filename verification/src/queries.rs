//! The queries that fetch a tournament's or an event's sets, and what their
//! answers are turned into.
use vstd::prelude::*;
use crate::json::{array_opt, get, pointer, set_member, set_member_exec, Json, JsonV};
use crate::fetching::response_view;
use crate::paging::SetsLocation;
use crate::startgg::{num_json, object1, object2, str_value};
use crate::text::{owned, push_str};

verus! {

pub const TOURNAMENT_SETS_QUERY: &'static str = "
        query TournamentSets($slug: String!, $perPage: Int!, $page: Int!) {
          tournament(slug: $slug) {
            id
            name
            events {
              id
              name
              videogame {
                id
              }
              sets(page: $page, perPage: $perPage) {
                pageInfo {
                  totalPages
                }
                nodes {
                  id
                  identifier
                  fullRoundText
                  state
                  winnerId
                  round
                  phaseGroup {
                    id
                    displayIdentifier
                    phase {
                      id
                      name
                    }
                  }
                  slots {
                    slotIndex
                    prereqType
                    prereqId
                    prereqPlacement
                    entrant {
                      id
                      name
                    }
                    standing {
                      stats {
                        score {
                          value
                        }
                      }
                    }
                  }
                  games {
                    orderNum
                    winnerId
                    selections {
                      entrant {
                        id
                      }
                      selectionValue
                    }
                  }
                }
              }
            }
          }
        }
    ";

pub const TOURNAMENT_SETS_FILTERED_QUERY: &'static str = "
        query TournamentSetsFiltered($slug: String!, $perPage: Int!, $page: Int!, $states: [Int!]) {
          tournament(slug: $slug) {
            id
            name
            events {
              id
              name
              videogame {
                id
              }
              sets(
                page: $page
                perPage: $perPage
                sortType: CALL_ORDER
                filters: {
                  hideEmpty: false
                  showByes: true
                  state: $states
                }
              ) {
                pageInfo {
                  totalPages
                }
                nodes {
                  id
                  identifier
                  fullRoundText
                  state
                  winnerId
                  round
                  phaseGroup {
                    id
                    displayIdentifier
                    phase {
                      id
                      name
                    }
                  }
                  slots {
                    slotIndex
                    prereqType
                    prereqId
                    prereqPlacement
                    entrant {
                      id
                      name
                    }
                    standing {
                      stats {
                        score {
                          value
                        }
                      }
                    }
                  }
                  games {
                    orderNum
                    winnerId
                    selections {
                      entrant {
                        id
                      }
                      selectionValue
                    }
                  }
                }
              }
            }
          }
        }
    ";

pub const TOURNAMENT_SETS_FALLBACK_QUERY: &'static str = "
        query TournamentSetsFallback($slug: String!, $perPage: Int!, $page: Int!) {
          tournament(slug: $slug) {
            id
            name
            events {
              id
              name
              videogame {
                id
              }
              sets(page: $page, perPage: $perPage) {
                pageInfo {
                  totalPages
                }
                nodes {
                  id
                  identifier
                  fullRoundText
                  state
                  winnerId
                  round
                  slots {
                    slotIndex
                    prereqType
                    prereqId
                    prereqPlacement
                    entrant {
                      id
                      name
                    }
                    standing {
                      stats {
                        score {
                          value
                        }
                      }
                    }
                  }
                  games {
                    orderNum
                    winnerId
                    selections {
                      entrant {
                        id
                      }
                      selectionValue
                    }
                  }
                }
              }
            }
          }
        }
    ";

pub const EVENT_SETS_QUERY: &'static str = "
        query EventSets($slug: String!, $perPage: Int!, $page: Int!) {
          event(slug: $slug) {
            id
            name
            tournament {
              id
              name
            }
            videogame {
              id
            }
            sets(page: $page, perPage: $perPage) {
              pageInfo {
                totalPages
              }
              nodes {
                id
                identifier
                fullRoundText
                state
                winnerId
                round
                phaseGroup {
                  id
                  displayIdentifier
                  phase {
                    id
                    name
                  }
                }
                slots {
                  slotIndex
                  prereqType
                  prereqId
                  prereqPlacement
                  entrant {
                    id
                    name
                  }
                  standing {
                    stats {
                      score {
                        value
                      }
                    }
                  }
                }
                games {
                  orderNum
                  winnerId
                  selections {
                    entrant {
                      id
                    }
                    selectionValue
                  }
                }
              }
            }
          }
        }
    ";

pub const EVENT_SETS_FILTERED_QUERY: &'static str = "
        query EventSetsFiltered($slug: String!, $perPage: Int!, $page: Int!, $states: [Int!]) {
          event(slug: $slug) {
            id
            name
            tournament {
              id
              name
            }
            videogame {
              id
            }
            sets(
              page: $page
              perPage: $perPage
              sortType: CALL_ORDER
              filters: {
                hideEmpty: false
                showByes: true
                state: $states
              }
            ) {
              pageInfo {
                totalPages
              }
              nodes {
                id
                identifier
                fullRoundText
                state
                winnerId
                round
                phaseGroup {
                  id
                  displayIdentifier
                  phase {
                    id
                    name
                  }
                }
                slots {
                  slotIndex
                  prereqType
                  prereqId
                  prereqPlacement
                  entrant {
                    id
                    name
                  }
                  standing {
                    stats {
                      score {
                        value
                      }
                    }
                  }
                }
                games {
                  orderNum
                  winnerId
                  selections {
                    entrant {
                      id
                    }
                    selectionValue
                  }
                }
              }
            }
          }
        }
    ";

pub const EVENT_SETS_FALLBACK_QUERY: &'static str = "
        query EventSetsFallback($slug: String!, $perPage: Int!, $page: Int!) {
          event(slug: $slug) {
            id
            name
            tournament {
              id
              name
            }
            videogame {
              id
            }
            sets(page: $page, perPage: $perPage) {
              pageInfo {
                totalPages
              }
              nodes {
                id
                identifier
                fullRoundText
                state
                winnerId
                round
                slots {
                  slotIndex
                  prereqType
                  prereqId
                  prereqPlacement
                  entrant {
                    id
                    name
                  }
                  standing {
                    stats {
                      score {
                        value
                      }
                    }
                  }
                }
                games {
                  orderNum
                  winnerId
                  selections {
                    entrant {
                      id
                    }
                    selectionValue
                  }
                }
              }
            }
          }
        }
    ";

pub const EVENT_PHASE_GROUP_SETS_QUERY: &'static str = "
        query EventPhaseGroupSets($slug: String!, $perPage: Int!, $page: Int!) {
          event(slug: $slug) {
            phaseGroups {
              id
              sets(page: $page, perPage: $perPage) {
                pageInfo {
                  totalPages
                }
                nodes {
                  id
                  identifier
                  fullRoundText
                  state
                  winnerId
                  round
                  phaseGroup {
                    id
                    displayIdentifier
                    phase {
                      id
                      name
                    }
                  }
                  slots {
                    slotIndex
                    prereqType
                    prereqId
                    prereqPlacement
                    entrant {
                      id
                      name
                    }
                    standing {
                      stats {
                        score {
                          value
                        }
                      }
                    }
                  }
                  games {
                    orderNum
                    winnerId
                    selections {
                      entrant {
                        id
                      }
                      selectionValue
                    }
                  }
                }
              }
            }
          }
        }
    ";

// ---------------------------------------------------------------------------
// Requests
// ---------------------------------------------------------------------------

/// The body of a GraphQL request: `{ "query": .., "variables": .. }`.
pub fn graphql_request_body(query: &str, variables: Json) -> (r: Json)
    ensures
        r@ == JsonV::Object(seq![("query"@, JsonV::Str(query@)), ("variables"@, variables@)]),
{
    object2("query", str_value(query), "variables", variables)
}

/// `{ "slug": slug }`.
pub open spec fn slug_vars(slug: Seq<char>) -> JsonV {
    JsonV::Object(seq![("slug"@, JsonV::Str(slug))])
}

/// Every set state, `1` to `9`, so that sets not yet started are listed too.
pub open spec fn all_set_states() -> Seq<JsonV> {
    Seq::new(9, |i: int| num_json((i + 1) as u64))
}

/// `{ "slug": slug, "states": [1, ..., 9] }`.
pub open spec fn filtered_vars(slug: Seq<char>) -> JsonV {
    JsonV::Object(seq![("slug"@, JsonV::Str(slug)), ("states"@, JsonV::Array(all_set_states()))])
}

pub fn slug_variables(slug: &str) -> (r: Json)
    ensures
        r@ == slug_vars(slug@),
{
    object1("slug", str_value(slug))
}

pub fn filtered_slug_variables(slug: &str) -> (r: Json)
    ensures
        r@ == filtered_vars(slug@),
{
    let mut states: Vec<Json> = Vec::new();
    let mut k: u64 = 1;
    while k <= 9
        invariant
            1 <= k <= 10,
            states@.len() == k - 1,
            forall|i: int| 0 <= i < k - 1 ==> (#[trigger] states@[i])@ == num_json((i + 1) as u64),
        decreases 10 - k,
    {
        states.push(crate::startgg::num_value(k));
        k = k + 1;
    }
    let arr = Json::Array(states);
    assert(arr@ matches JsonV::Array(s) && s =~= all_set_states());
    object2("slug", str_value(slug), "states", arr)
}

/// The attempts of a search for sets, in order, and where the sets are.
pub struct FetchPlan {
    pub attempts: Vec<(String, Json)>,
    pub locations: Vec<SetsLocation>,
}

pub open spec fn attempts_view(a: Seq<(String, Json)>) -> Seq<(Seq<char>, JsonV)> {
    a.map_values(|p: (String, Json)| (p.0@, p.1@))
}

/// The three attempts: the plain query, the one that asks for every state,
/// and the one without phase groups.
pub open spec fn sets_attempts(
    primary: Seq<char>,
    filtered: Seq<char>,
    fallback: Seq<char>,
    slug: Seq<char>,
) -> Seq<(Seq<char>, JsonV)> {
    seq![(primary, slug_vars(slug)), (filtered, filtered_vars(slug)), (fallback, slug_vars(slug))]
}

pub open spec fn is_per_array_entry(loc: SetsLocation, array: Seq<char>, rel: Seq<char>) -> bool {
    loc matches SetsLocation::PerArrayEntry { array_pointer, sets_relative } && array_pointer@
        == array && sets_relative@ == rel
}

pub open spec fn is_single(loc: SetsLocation, object: Seq<char>, rel: Seq<char>) -> bool {
    loc matches SetsLocation::Single { object_pointer, sets_relative } && object_pointer@ == object
        && sets_relative@ == rel
}

fn three_attempts(primary: &str, filtered: &str, fallback: &str, slug: &str) -> (r: Vec<(String, Json)>)
    ensures
        attempts_view(r@) == sets_attempts(primary@, filtered@, fallback@, slug@),
{
    let mut r: Vec<(String, Json)> = Vec::new();
    r.push((owned(primary), slug_variables(slug)));
    r.push((owned(filtered), filtered_slug_variables(slug)));
    r.push((owned(fallback), slug_variables(slug)));
    assert(attempts_view(r@) =~= sets_attempts(primary@, filtered@, fallback@, slug@));
    r
}

/// How a tournament's sets are fetched: one `sets` connection per event.
pub fn tournament_fetch_plan(slug: &str) -> (p: FetchPlan)
    ensures
        attempts_view(p.attempts@) == sets_attempts(
            TOURNAMENT_SETS_QUERY@,
            TOURNAMENT_SETS_FILTERED_QUERY@,
            TOURNAMENT_SETS_FALLBACK_QUERY@,
            slug@,
        ),
        p.locations@.len() == 1,
        is_per_array_entry(p.locations@[0], "/tournament/events"@, "/sets"@),
{
    let attempts = three_attempts(
        TOURNAMENT_SETS_QUERY,
        TOURNAMENT_SETS_FILTERED_QUERY,
        TOURNAMENT_SETS_FALLBACK_QUERY,
        slug,
    );
    let mut locations: Vec<SetsLocation> = Vec::new();
    locations.push(
        SetsLocation::PerArrayEntry {
            array_pointer: owned("/tournament/events"),
            sets_relative: owned("/sets"),
        },
    );
    FetchPlan { attempts, locations }
}

/// How an event's sets are fetched: its own `sets` connection.
pub fn event_fetch_plan(slug: &str) -> (p: FetchPlan)
    ensures
        attempts_view(p.attempts@) == sets_attempts(
            EVENT_SETS_QUERY@,
            EVENT_SETS_FILTERED_QUERY@,
            EVENT_SETS_FALLBACK_QUERY@,
            slug@,
        ),
        p.locations@.len() == 1,
        is_single(p.locations@[0], "/event"@, "/sets"@),
{
    let attempts = three_attempts(
        EVENT_SETS_QUERY,
        EVENT_SETS_FILTERED_QUERY,
        EVENT_SETS_FALLBACK_QUERY,
        slug,
    );
    let mut locations: Vec<SetsLocation> = Vec::new();
    locations.push(
        SetsLocation::Single { object_pointer: owned("/event"), sets_relative: owned("/sets") },
    );
    FetchPlan { attempts, locations }
}

/// How an event's phase groups are fetched: one paginated query, with one
/// `sets` connection per phase group.
pub fn phase_group_fetch_plan(slug: &str) -> (r: (String, Json, Vec<SetsLocation>))
    ensures
        r.0@ == EVENT_PHASE_GROUP_SETS_QUERY@,
        r.1@ == slug_vars(slug@),
        r.2@.len() == 1,
        is_per_array_entry(r.2@[0], "/event/phaseGroups"@, "/sets"@),
{
    let mut locations: Vec<SetsLocation> = Vec::new();
    locations.push(
        SetsLocation::PerArrayEntry {
            array_pointer: owned("/event/phaseGroups"),
            sets_relative: owned("/sets"),
        },
    );
    (owned(EVENT_PHASE_GROUP_SETS_QUERY), slug_variables(slug), locations)
}

// ---------------------------------------------------------------------------
// Answers
// ---------------------------------------------------------------------------

/// An error gets `prefix` in front of it; data is kept.
pub open spec fn prefixed(r: Result<JsonV, Seq<char>>, prefix: Seq<char>) -> Result<JsonV, Seq<char>> {
    match r {
        Ok(d) => Ok(d),
        Err(e) => Err(prefix + e),
    }
}

/// The outcome of the search for a tournament's sets.
pub fn tournament_payload_result(r: Result<Json, String>) -> (out: Result<Json, String>)
    ensures
        response_view(out) == prefixed(response_view(r), "Failed to fetch tournament data. "@),
{
    match r {
        Ok(d) => Ok(d),
        Err(e) => {
            let mut m = owned("Failed to fetch tournament data. ");
            push_str(&mut m, e.as_str());
            Err(m)
        },
    }
}

/// Whether the event's own `sets` connection has any node.
pub open spec fn has_direct_sets(data: JsonV) -> bool {
    match array_opt(pointer(data, "/event/sets/nodes"@)) {
        Some(n) => n.len() > 0,
        None => false,
    }
}

/// What follows the search for an event's sets.
pub enum EventFetchStep {
    Done(Result<Json, String>),
    /// The event has no sets of its own: fetch its phase groups' sets.
    FetchPhaseGroups(Json),
}

pub enum EventFetchStepV {
    Done(Result<JsonV, Seq<char>>),
    FetchPhaseGroups(JsonV),
}

pub open spec fn event_step_view(s: EventFetchStep) -> EventFetchStepV {
    match s {
        EventFetchStep::Done(r) => EventFetchStepV::Done(response_view(r)),
        EventFetchStep::FetchPhaseGroups(d) => EventFetchStepV::FetchPhaseGroups(d@),
    }
}

pub open spec fn event_search_step(r: Result<JsonV, Seq<char>>) -> EventFetchStepV {
    match r {
        Err(e) => EventFetchStepV::Done(Err("Failed to fetch event data. "@ + e)),
        Ok(d) => if has_direct_sets(d) {
            EventFetchStepV::Done(Ok(d))
        } else {
            EventFetchStepV::FetchPhaseGroups(d)
        },
    }
}

pub fn event_sets_fetched(r: Result<Json, String>) -> (s: EventFetchStep)
    ensures
        event_step_view(s) == event_search_step(response_view(r)),
{
    match r {
        Err(e) => {
            let mut m = owned("Failed to fetch event data. ");
            push_str(&mut m, e.as_str());
            EventFetchStep::Done(Err(m))
        },
        Ok(d) => {
            let direct = match d.pointer("/event/sets/nodes") {
                Some(n) => match n.as_array() {
                    Some(v) => v.len() > 0,
                    None => false,
                },
                None => false,
            };
            if direct {
                EventFetchStep::Done(Ok(d))
            } else {
                EventFetchStep::FetchPhaseGroups(d)
            }
        },
    }
}

/// The phase groups of a phase-group fetch, or an empty array.
pub open spec fn phase_groups_value(data: JsonV) -> JsonV {
    match pointer(data, "/event/phaseGroups"@) {
        Some(p) => p,
        None => JsonV::Array(Seq::empty()),
    }
}

pub fn phase_groups_of(data: &Json) -> (r: Json)
    ensures
        r@ == phase_groups_value(data@),
{
    match data.pointer("/event/phaseGroups") {
        Some(p) => p.clone(),
        None => {
            let r = Json::Array(Vec::new());
            assert(r@ matches JsonV::Array(s) && s =~= Seq::<JsonV>::empty());
            r
        },
    }
}

/// The event data with `phaseGroups` set on its `event` object, when the
/// phase-group fetch succeeded and the event is an object.
pub open spec fn with_phase_groups(data: JsonV, fetched: Result<JsonV, Seq<char>>) -> JsonV {
    match fetched {
        Err(_) => data,
        Ok(f) => match get(data, "event"@) {
            Some(ev) => if ev is Object {
                set_member(data, "event"@, set_member(ev, "phaseGroups"@, phase_groups_value(f)))
            } else {
                data
            },
            None => data,
        },
    }
}

pub fn attach_phase_groups(data: Json, fetched: Result<Json, String>) -> (r: Json)
    ensures
        r@ == with_phase_groups(data@, response_view(fetched)),
{
    let f = match fetched {
        Ok(f) => f,
        Err(_) => {
            return data;
        },
    };
    let ev = match data.get("event") {
        Some(ev) => match ev {
            Json::Object(_) => ev.clone(),
            _ => {
                return data;
            },
        },
        None => {
            return data;
        },
    };
    let groups = phase_groups_of(&f);
    let ev2 = set_member_exec(ev, "phaseGroups", groups);
    set_member_exec(data, "event", ev2)
}

} // verus!
