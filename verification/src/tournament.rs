//! Reading a whole tournament or event response into the tournament view.
use vstd::prelude::*;
use std::collections::HashMap;
use crate::buckets::{
    groups_view, order_buckets, push_all, push_sets_to_buckets, sets_view, strings_view,
    tournament_view, GroupV, GroupedBucket, PushState,
};
use crate::fields::{parse_u64, text_of, u64_of, u64_opt, read_text};
use crate::json::{
    array_opt, as_array, elements, get, get_opt, get_or_null, is_null, oview, pointer, Json,
    JsonV,
};
use crate::model::{ostr, DataV, SetV, TournamentData, TournamentSet};
use crate::sets::{event_label, parse_set_nodes, sets_of};
use crate::text::{owned, push_str};
use std::time::{Duration, SystemTime, UNIX_EPOCH};

verus! {

// ---------------------------------------------------------------------------
// Videogame ids
// ---------------------------------------------------------------------------

/// The id of a `videogame` field, which is documented as an object but has
/// been seen wrapped in an array: both shapes are read.
pub open spec fn videogame_id_of(value: Option<JsonV>) -> Option<u64> {
    match value {
        None => None,
        Some(v) => match u64_opt(get(v, "id"@)) {
            Some(id) => Some(id),
            None => match as_array(v) {
                Some(a) => if a.len() > 0 {
                    u64_opt(get(a[0], "id"@))
                } else {
                    None
                },
                None => None,
            },
        },
    }
}

pub fn parse_videogame_id(value: Option<&Json>) -> (r: Option<u64>)
    ensures
        r == videogame_id_of(oview(value)),
{
    let value = match value {
        Some(v) => v,
        None => {
            return None;
        },
    };
    let direct = match value.get("id") {
        Some(v) => parse_u64(v),
        None => None,
    };
    if let Some(id) = direct {
        return Some(id);
    }
    match value.as_array() {
        Some(a) => if a.len() > 0 {
            match a[0].get("id") {
                Some(v) => parse_u64(v),
                None => None,
            }
        } else {
            None
        },
        None => None,
    }
}

/// The videogame of the first event that names one, from position `i` on.
pub open spec fn first_videogame_from(events: Seq<JsonV>, i: int) -> Option<u64>
    decreases events.len() - i,
{
    if i < 0 || i >= events.len() {
        None
    } else {
        match videogame_id_of(get(events[i], "videogame"@)) {
            Some(id) => Some(id),
            None => first_videogame_from(events, i + 1),
        }
    }
}

pub open spec fn tournament_videogame(data: JsonV) -> Option<u64> {
    match array_opt(pointer(data, "/tournament/events"@)) {
        Some(events) => first_videogame_from(events, 0),
        None => None,
    }
}

pub open spec fn event_videogame(data: JsonV) -> Option<u64> {
    videogame_id_of(pointer(data, "/event/videogame"@))
}

/// The videogame of a raw tournament response, read before the full parse so
/// the character roster can be fetched first.
pub fn peek_tournament_videogame_id(data: &Json) -> (r: Option<u64>)
    ensures
        r == tournament_videogame(data@),
{
    let events = match data.pointer("/tournament/events") {
        Some(e) => e.as_array(),
        None => None,
    };
    let events = match events {
        Some(e) => e,
        None => {
            return None;
        },
    };
    let ghost ev = events@.map_values(|j: Json| j@);
    let mut i: usize = 0;
    while i < events.len()
        invariant
            i <= events@.len(),
            ev == events@.map_values(|j: Json| j@),
            tournament_videogame(data@) == first_videogame_from(ev, 0),
            first_videogame_from(ev, 0) == first_videogame_from(ev, i as int),
        decreases events@.len() - i,
    {
        assert(ev[i as int] == events@[i as int]@);
        let id = parse_videogame_id(events[i].get("videogame"));
        if id.is_some() {
            return id;
        }
        i = i + 1;
    }
    None
}

pub fn peek_event_videogame_id(data: &Json) -> (r: Option<u64>)
    ensures
        r == event_videogame(data@),
{
    parse_videogame_id(data.pointer("/event/videogame"))
}

// ---------------------------------------------------------------------------
// Assembling the tournament view
// ---------------------------------------------------------------------------

/// An RFC 3339 time stamp in UTC, as far as every stamp is known to look:
/// long enough for a full date and time, ending in `+00:00`.
pub open spec fn is_utc_stamp(s: Seq<char>) -> bool {
    s.len() >= 25 && s.subrange(s.len() - 6, s.len() as int) == "+00:00"@
}

/// The stamp of a fetch: the RFC 3339 text in UTC of some time since 1970,
/// or empty when the clock could not be read as such a time.
pub open spec fn is_fetch_stamp(s: Seq<char>) -> bool {
    ||| s.len() == 0
    ||| is_utc_stamp(s) && exists|secs: i64, nanos: u32|
        0 <= secs && nanos < 1_000_000_000 && #[trigger] rfc3339_text(secs, nanos) == Some(s)
}

#[verifier::external_type_specification]
#[verifier::external_body]
pub struct ExSystemTime(std::time::SystemTime);

/// The system clock's current reading.
/// Trusted: std's `SystemTime::now`; nothing is stated of a clock reading.
#[verifier::external_body]
fn system_time_now() -> SystemTime {
    SystemTime::now()
}

/// The time elapsed since 1970-01-01 00:00:00 UTC; `None` when the reading
/// is earlier.
/// Trusted: std's `SystemTime::duration_since` from `UNIX_EPOCH`, whose error
/// (a reading before it) becomes `None`; nothing is stated of the duration.
#[verifier::external_body]
fn duration_since_epoch(t: &SystemTime) -> Option<Duration> {
    t.duration_since(UNIX_EPOCH).ok()
}

/// The whole seconds of a duration.
/// Trusted: std's `Duration::as_secs`; nothing is stated of the count.
#[verifier::external_body]
fn whole_seconds(d: &Duration) -> u64 {
    d.as_secs()
}

/// The nanoseconds of a duration past its whole seconds.
/// Trusted: std's `Duration::subsec_nanos`, documented as always less than
/// one billion.
#[verifier::external_body]
fn nanos_past_second(d: &Duration) -> (r: u32)
    ensures
        r < 1_000_000_000,
{
    d.subsec_nanos()
}

/// The RFC 3339 text chrono writes for a UTC time given as seconds and
/// nanoseconds since 1970, or `None` for a time out of its range.
pub uninterp spec fn rfc3339_text(secs: i64, nanos: u32) -> Option<Seq<char>>;

/// The RFC 3339 text of a UTC time given as seconds and nanoseconds since
/// 1970.
/// Trusted: chrono's `DateTime::from_timestamp`, which is `None` for seconds
/// out of its range or invalid nanoseconds, then `to_rfc3339`, which cannot
/// fail. Its text is named `rfc3339_text`. Stated of it: a time between 1970
/// and the end of year 9999, with fewer than a billion nanoseconds, is in
/// range; and every text has at least a four-digit year, month, day, hours,
/// minutes and seconds, and ends with the UTC offset `+00:00`.
#[verifier::external_body]
fn rfc3339_at(secs: i64, nanos: u32) -> (r: Option<String>)
    ensures
        ostr(r) == rfc3339_text(secs, nanos),
        0 <= secs <= 253_402_300_799 && nanos < 1_000_000_000 ==> r is Some,
        r matches Some(t) ==> is_utc_stamp(t@),
{
    chrono::DateTime::from_timestamp(secs, nanos).map(|d| d.to_rfc3339())
}

/// The RFC 3339 stamp in UTC of a time given as seconds and nanoseconds
/// since 1970; empty when chrono cannot write that time.
pub fn stamp_at(secs: u64, nanos: u32) -> (r: String)
    ensures
        secs <= 0x7fff_ffff_ffff_ffff ==> match rfc3339_text(secs as i64, nanos) {
            Some(t) => r@ == t,
            None => r@.len() == 0,
        },
        secs > 0x7fff_ffff_ffff_ffff ==> r@.len() == 0,
        secs <= 253_402_300_799 && nanos < 1_000_000_000 ==> r@.len() > 0,
        r@.len() == 0 || is_utc_stamp(r@),
{
    if secs > 0x7fff_ffff_ffff_ffff {
        return String::new();
    }
    match rfc3339_at(secs as i64, nanos) {
        Some(t) => t,
        None => String::new(),
    }
}

/// The current time as an RFC 3339 stamp in UTC; empty when the clock reads
/// before 1970 or beyond what chrono can write.
pub fn fetch_stamp() -> (r: String)
    ensures
        is_fetch_stamp(r@),
{
    let now = system_time_now();
    match duration_since_epoch(&now) {
        Some(elapsed) => {
            let secs = whole_seconds(&elapsed);
            let nanos = nanos_past_second(&elapsed);
            let r = stamp_at(secs, nanos);
            proof {
                if r@.len() > 0 {
                    assert(rfc3339_text(secs as i64, nanos) == Some(r@));
                }
            }
            r
        },
        None => String::new(),
    }
}

/// The tournament view of the grouped sets, fetched at `fetched_at`.
pub fn assemble_tournament_data(
    tournament_id: Option<u64>,
    tournament_name: String,
    slug: &str,
    videogame_id: Option<u64>,
    grouped: Vec<GroupedBucket>,
    all_sets: Vec<TournamentSet>,
    fetched_at: String,
) -> (r: TournamentData)
    ensures
        r@ == tournament_view(
            tournament_id,
            tournament_name@,
            slug@,
            fetched_at@,
            videogame_id,
            groups_view(grouped@),
            sets_view(all_sets@),
        ),
{
    let total_sets = all_sets.len();
    let buckets = order_buckets(grouped);
    let name = if tournament_name.as_str().unicode_len() == 0 {
        owned(slug)
    } else {
        tournament_name
    };
    TournamentData {
        tournament_id,
        tournament_name: name,
        slug: owned(slug),
        fetched_at,
        total_sets,
        videogame_id,
        buckets,
    }
}

/// The tournament view of the grouped sets, stamped with the current time
/// (an empty stamp when the clock cannot be read as a time since 1970).
pub fn build_tournament_data(
    tournament_id: Option<u64>,
    tournament_name: String,
    slug: &str,
    videogame_id: Option<u64>,
    grouped: Vec<GroupedBucket>,
    all_sets: Vec<TournamentSet>,
) -> (r: TournamentData)
    ensures
        r@ == tournament_view(
            tournament_id,
            tournament_name@,
            slug@,
            r@.fetched_at,
            videogame_id,
            groups_view(grouped@),
            sets_view(all_sets@),
        ),
        is_fetch_stamp(r@.fetched_at),
{
    let now = fetch_stamp();
    assemble_tournament_data(
        tournament_id,
        tournament_name,
        slug,
        videogame_id,
        grouped,
        all_sets,
        now,
    )
}

// ---------------------------------------------------------------------------
// Whole responses
// ---------------------------------------------------------------------------

pub open spec fn empty_push() -> PushState {
    PushState { all: Seq::empty(), grouped: Seq::empty(), seen: Seq::empty() }
}

pub open spec fn connection_nodes(holder: JsonV) -> Seq<JsonV> {
    elements(get_opt(get(holder, "sets"@), "nodes"@))
}

/// Reading the events of a tournament from position 0 to `n`: the sets so
/// far, and the first videogame named so far.
pub open spec fn events_state(
    events: Seq<JsonV>,
    names: Map<u64, String>,
    n: int,
) -> (PushState, Option<u64>)
    decreases n,
{
    if n <= 0 {
        (empty_push(), None)
    } else {
        let (st, vg) = events_state(events, names, n - 1);
        let e = events[n - 1];
        let vg2 = if vg is None {
            videogame_id_of(get(e, "videogame"@))
        } else {
            vg
        };
        (push_all(st, sets_of(event_label(text_of(get(e, "name"@))), connection_nodes(e), names)), vg2)
    }
}

/// What a tournament response yields, given the time it is stamped with.
pub open spec fn tournament_result(
    data: JsonV,
    slug: Seq<char>,
    names: Map<u64, String>,
    fetched_at: Seq<char>,
) -> Result<DataV, Seq<char>> {
    match get(data, "tournament"@) {
        None => Err("start.gg response did not include tournament"@),
        Some(t) => if is_null(t) {
            Err("Tournament"@ + " not found for slug '"@ + slug + "'"@)
        } else {
            match array_opt(get(t, "events"@)) {
                None => Err("start.gg response missing events array"@),
                Some(events) => {
                    let (st, vg) = events_state(events, names, events.len() as int);
                    Ok(
                        tournament_view(
                            u64_of(get_or_null(t, "id"@)),
                            text_of(get(t, "name"@)),
                            slug,
                            fetched_at,
                            vg,
                            st.grouped,
                            st.all,
                        ),
                    )
                },
            }
        },
    }
}

pub open spec fn result_view(r: Result<TournamentData, String>) -> Result<DataV, Seq<char>> {
    match r {
        Ok(d) => Ok(d@),
        Err(e) => Err(e@),
    }
}

/// The fetch time a result was stamped with (empty for an error).
pub open spec fn stamp_of(r: Result<TournamentData, String>) -> Seq<char> {
    match r {
        Ok(d) => d@.fetched_at,
        Err(_) => Seq::empty(),
    }
}

fn not_found(what: &str, slug: &str) -> (r: String)
    ensures
        r@ == what@ + " not found for slug '"@ + slug@ + "'"@,
{
    let mut r = owned(what);
    push_str(&mut r, " not found for slug '");
    push_str(&mut r, slug);
    push_str(&mut r, "'");
    r
}

fn connection_nodes_exec(holder: &Json) -> (r: Option<&Vec<Json>>)
    ensures
        match r {
            Some(v) => connection_nodes(holder@) == v@.map_values(|j: Json| j@),
            None => connection_nodes(holder@) == Seq::<JsonV>::empty(),
        },
{
    let sets = holder.get("sets");
    let nodes = match sets {
        Some(s) => s.get("nodes"),
        None => None,
    };
    match nodes {
        Some(n) => n.as_array(),
        None => None,
    }
}

/// Adds the sets of one connection holder (an event or a phase group).
fn push_holder_sets(
    event_name: &str,
    holder: &Json,
    names: &HashMap<u64, String>,
    all_sets: &mut Vec<TournamentSet>,
    grouped: &mut Vec<GroupedBucket>,
    seen: &mut Vec<String>,
)
    ensures
        push_all(
            PushState {
                all: sets_view(old(all_sets)@),
                grouped: groups_view(old(grouped)@),
                seen: strings_view(old(seen)@),
            },
            sets_of(event_label(event_name@), connection_nodes(holder@), names@),
        ) == (PushState {
            all: sets_view(final(all_sets)@),
            grouped: groups_view(final(grouped)@),
            seen: strings_view(final(seen)@),
        }),
{
    let empty: Vec<Json> = Vec::new();
    let nodes = match connection_nodes_exec(holder) {
        Some(n) => n,
        None => &empty,
    };
    assert(nodes@.map_values(|j: Json| j@) =~= connection_nodes(holder@));
    let sets = parse_set_nodes(event_name, nodes, names);
    push_sets_to_buckets(sets, all_sets, grouped, seen);
}

pub fn parse_tournament_payload(data: &Json, slug: &str, character_names: &HashMap<u64, String>) -> (r:
    Result<TournamentData, String>)
    ensures
        result_view(r) == tournament_result(data@, slug@, character_names@, stamp_of(r)),
        r is Ok ==> is_fetch_stamp(stamp_of(r)),
{
    let tournament = match data.get("tournament") {
        Some(t) => t,
        None => {
            return Err(owned("start.gg response did not include tournament"));
        },
    };
    if tournament.is_null() {
        return Err(not_found("Tournament", slug));
    }
    let tournament_id = match tournament.get("id") {
        Some(v) => parse_u64(v),
        None => parse_u64(&Json::Null),
    };
    let tournament_name = read_text(tournament.get("name"));
    let events = match tournament.get("events") {
        Some(e) => e.as_array(),
        None => None,
    };
    let events = match events {
        Some(e) => e,
        None => {
            return Err(owned("start.gg response missing events array"));
        },
    };
    let ghost ev = events@.map_values(|j: Json| j@);
    let mut grouped: Vec<GroupedBucket> = Vec::new();
    let mut all_sets: Vec<TournamentSet> = Vec::new();
    let mut seen: Vec<String> = Vec::new();
    let mut videogame_id: Option<u64> = None;
    let mut i: usize = 0;
    assert(groups_view(grouped@) =~= Seq::<GroupV>::empty());
    assert(sets_view(all_sets@) =~= Seq::<SetV>::empty());
    assert(strings_view(seen@) =~= Seq::<Seq<char>>::empty());
    while i < events.len()
        invariant
            i <= events@.len(),
            ev == events@.map_values(|j: Json| j@),
            events_state(ev, character_names@, i as int) == (
                PushState {
                    all: sets_view(all_sets@),
                    grouped: groups_view(grouped@),
                    seen: strings_view(seen@),
                },
                videogame_id,
            ),
        decreases events@.len() - i,
    {
        let event = &events[i];
        assert(ev[i as int] == event@);
        let event_name = read_text(event.get("name"));
        if videogame_id.is_none() {
            videogame_id = parse_videogame_id(event.get("videogame"));
        }
        push_holder_sets(
            event_name.as_str(),
            event,
            character_names,
            &mut all_sets,
            &mut grouped,
            &mut seen,
        );
        i = i + 1;
    }
    let tournament_name2 = tournament_name;
    let r = build_tournament_data(
        tournament_id,
        tournament_name2,
        slug,
        videogame_id,
        grouped,
        all_sets,
    );
    Ok(r)
}

/// Reading the phase groups of an event from position 0 to `n`, after `st`.
pub open spec fn phase_groups_state(
    st: PushState,
    label: Seq<char>,
    groups: Seq<JsonV>,
    names: Map<u64, String>,
    n: int,
) -> PushState
    decreases n,
{
    if n <= 0 {
        st
    } else {
        push_all(
            phase_groups_state(st, label, groups, names, n - 1),
            sets_of(label, connection_nodes(groups[n - 1]), names),
        )
    }
}

/// What an event response yields, given the time it is stamped with. The
/// event's own sets are used; only when it has none are its phase groups' sets
/// read.
pub open spec fn event_result(
    data: JsonV,
    slug: Seq<char>,
    names: Map<u64, String>,
    fetched_at: Seq<char>,
) -> Result<DataV, Seq<char>> {
    match get(data, "event"@) {
        None => Err("start.gg response did not include event"@),
        Some(ev) => if is_null(ev) {
            Err("Event"@ + " not found for slug '"@ + slug + "'"@)
        } else {
            let label = event_label(text_of(get(ev, "name"@)));
            let tournament = get_or_null(ev, "tournament"@);
            let direct = push_all(empty_push(), sets_of(label, connection_nodes(ev), names));
            let groups = elements(get(ev, "phaseGroups"@));
            let st = if direct.all.len() == 0 {
                phase_groups_state(direct, label, groups, names, groups.len() as int)
            } else {
                direct
            };
            Ok(
                tournament_view(
                    u64_of(get_or_null(tournament, "id"@)),
                    text_of(get(tournament, "name"@)),
                    slug,
                    fetched_at,
                    videogame_id_of(get(ev, "videogame"@)),
                    st.grouped,
                    st.all,
                ),
            )
        },
    }
}

pub fn parse_event_payload(data: &Json, slug: &str, character_names: &HashMap<u64, String>) -> (r:
    Result<TournamentData, String>)
    ensures
        result_view(r) == event_result(data@, slug@, character_names@, stamp_of(r)),
        r is Ok ==> is_fetch_stamp(stamp_of(r)),
{
    let event = match data.get("event") {
        Some(e) => e,
        None => {
            return Err(owned("start.gg response did not include event"));
        },
    };
    if event.is_null() {
        return Err(not_found("Event", slug));
    }
    let event_name = read_text(event.get("name"));
    let null = Json::Null;
    let tournament = match event.get("tournament") {
        Some(t) => t,
        None => &null,
    };
    let tournament_id = match tournament.get("id") {
        Some(v) => parse_u64(v),
        None => parse_u64(&Json::Null),
    };
    let tournament_name = read_text(tournament.get("name"));
    let videogame_id = parse_videogame_id(event.get("videogame"));
    let mut grouped: Vec<GroupedBucket> = Vec::new();
    let mut all_sets: Vec<TournamentSet> = Vec::new();
    let mut seen: Vec<String> = Vec::new();
    assert(groups_view(grouped@) =~= Seq::<GroupV>::empty());
    assert(sets_view(all_sets@) =~= Seq::<SetV>::empty());
    assert(strings_view(seen@) =~= Seq::<Seq<char>>::empty());
    push_holder_sets(
        event_name.as_str(),
        event,
        character_names,
        &mut all_sets,
        &mut grouped,
        &mut seen,
    );
    let ghost label = event_label(event_name@);
    let ghost direct = PushState {
        all: sets_view(all_sets@),
        grouped: groups_view(grouped@),
        seen: strings_view(seen@),
    };
    if all_sets.len() == 0 {
        let empty: Vec<Json> = Vec::new();
        let groups: &Vec<Json> = match event.get("phaseGroups") {
            Some(g) => match g.as_array() {
                Some(a) => a,
                None => &empty,
            },
            None => &empty,
        };
        let ghost gv = groups@.map_values(|j: Json| j@);
        assert(gv =~= elements(get(event@, "phaseGroups"@)));
        let mut i: usize = 0;
        while i < groups.len()
            invariant
                i <= groups@.len(),
                gv == groups@.map_values(|j: Json| j@),
                label == event_label(event_name@),
                phase_groups_state(direct, label, gv, character_names@, i as int) == (PushState {
                    all: sets_view(all_sets@),
                    grouped: groups_view(grouped@),
                    seen: strings_view(seen@),
                }),
            decreases groups@.len() - i,
        {
            assert(gv[i as int] == groups@[i as int]@);
            push_holder_sets(
                event_name.as_str(),
                &groups[i],
                character_names,
                &mut all_sets,
                &mut grouped,
                &mut seen,
            );
            i = i + 1;
        }
    }
    let r = build_tournament_data(
        tournament_id,
        tournament_name,
        slug,
        videogame_id,
        grouped,
        all_sets,
    );
    Ok(r)
}

} // verus!
