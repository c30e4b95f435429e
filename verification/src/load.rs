//! Loading a tournament: which payloads are fetched, in what order, and
//! which of them is shown.
//!
//! An event slug is tried first. When its event has sets, they are shown.
//! When it has none, or its fetch fails, the whole tournament is fetched
//! instead; an empty event is still shown when the tournament yields no sets
//! or cannot be fetched. Each payload is parsed with the character roster of
//! its videogame, which the caller loads when asked.
use vstd::prelude::*;
use std::collections::HashMap;
use crate::json::{Json, JsonV};
use crate::fetching::response_view;
use crate::model::{DataV, FetchTournamentRequest, TournamentData};
use crate::slug::{event_slug, normalize_event_slug, normalize_tournament_slug, tournament_slug};
use crate::startgg::missing_token;
use crate::text::{is_blank, owned, push_str, trim};
use crate::tournament::{
    event_result, event_videogame, parse_event_payload, parse_tournament_payload,
    is_fetch_stamp, peek_event_videogame_id, peek_tournament_videogame_id, result_view, stamp_of,
    tournament_result, tournament_videogame,
};

verus! {

/// What is shown if the tournament fetch brings nothing better.
pub enum Fallback {
    /// No event slug was given.
    NoEvent,
    /// The event loaded but has no sets.
    EventEmpty(TournamentData),
    /// The event could not be fetched.
    EventFailed(String),
}

pub enum LoadPhase {
    AwaitEvent,
    AwaitEventNames(Json),
    AwaitTournament(Fallback),
    AwaitTournamentNames(Json, Fallback),
    Done,
}

/// A tournament load in progress.
pub struct TournamentLoad {
    pub per_page: u32,
    pub tournament_slug: String,
    pub event_slug: String,
    pub phase: LoadPhase,
}

/// What the caller does next.
pub enum LoadStep {
    /// Fetch the event's payload (slug, sets per page).
    FetchEvent(String, u32),
    /// Fetch the tournament's payload (slug, sets per page).
    FetchTournament(String, u32),
    /// Load the character roster of this videogame (none when unknown).
    LoadNames(Option<u64>),
    Finished(Result<TournamentData, String>),
}

pub enum FallbackV {
    NoEvent,
    EventEmpty(DataV),
    EventFailed(Seq<char>),
}

pub enum PhaseV {
    AwaitEvent,
    AwaitEventNames(JsonV),
    AwaitTournament(FallbackV),
    AwaitTournamentNames(JsonV, FallbackV),
    Done,
}

pub struct LoadV {
    pub per_page: u32,
    pub tournament_slug: Seq<char>,
    pub event_slug: Seq<char>,
    pub phase: PhaseV,
}

pub enum LoadStepV {
    FetchEvent(Seq<char>, u32),
    FetchTournament(Seq<char>, u32),
    LoadNames(Option<u64>),
    Finished(Result<DataV, Seq<char>>),
}

pub open spec fn fallback_view(f: Fallback) -> FallbackV {
    match f {
        Fallback::NoEvent => FallbackV::NoEvent,
        Fallback::EventEmpty(d) => FallbackV::EventEmpty(d@),
        Fallback::EventFailed(e) => FallbackV::EventFailed(e@),
    }
}

pub open spec fn phase_view(p: LoadPhase) -> PhaseV {
    match p {
        LoadPhase::AwaitEvent => PhaseV::AwaitEvent,
        LoadPhase::AwaitEventNames(d) => PhaseV::AwaitEventNames(d@),
        LoadPhase::AwaitTournament(f) => PhaseV::AwaitTournament(fallback_view(f)),
        LoadPhase::AwaitTournamentNames(d, f) => PhaseV::AwaitTournamentNames(d@, fallback_view(f)),
        LoadPhase::Done => PhaseV::Done,
    }
}

impl View for TournamentLoad {
    type V = LoadV;

    open spec fn view(&self) -> LoadV {
        LoadV {
            per_page: self.per_page,
            tournament_slug: self.tournament_slug@,
            event_slug: self.event_slug@,
            phase: phase_view(self.phase),
        }
    }
}

pub open spec fn load_step_view(s: LoadStep) -> LoadStepV {
    match s {
        LoadStep::FetchEvent(slug, p) => LoadStepV::FetchEvent(slug@, p),
        LoadStep::FetchTournament(slug, p) => LoadStepV::FetchTournament(slug@, p),
        LoadStep::LoadNames(v) => LoadStepV::LoadNames(v),
        LoadStep::Finished(r) => LoadStepV::Finished(result_view(r)),
    }
}

// ---------------------------------------------------------------------------
// The transitions
// ---------------------------------------------------------------------------

/// Sets per page: 128 unless given, kept within 10 to 500.
pub open spec fn clamp_per_page(p: Option<u32>) -> u32 {
    let v = match p {
        Some(v) => v,
        None => 128,
    };
    if v < 10 {
        10
    } else if v > 500 {
        500
    } else {
        v
    }
}

/// Why a load is refused before anything is fetched, if it is.
pub open spec fn load_refusal(token: Seq<char>, slug: Seq<char>) -> Option<Seq<char>> {
    if missing_token(token) {
        Some("Missing start.gg API token"@)
    } else if trim(slug).len() == 0 {
        Some("Missing tournament slug"@)
    } else {
        None
    }
}

/// The first state and step for a slug as the operator typed it.
pub open spec fn load_start(raw_slug: Seq<char>, per_page: Option<u32>) -> (LoadV, LoadStepV) {
    let pp = clamp_per_page(per_page);
    let ts = tournament_slug(raw_slug);
    match event_slug(raw_slug) {
        Some(e) => (
            LoadV { per_page: pp, tournament_slug: ts, event_slug: e, phase: PhaseV::AwaitEvent },
            LoadStepV::FetchEvent(e, pp),
        ),
        None => (
            LoadV {
                per_page: pp,
                tournament_slug: ts,
                event_slug: Seq::empty(),
                phase: PhaseV::AwaitTournament(FallbackV::NoEvent),
            },
            LoadStepV::FetchTournament(ts, pp),
        ),
    }
}

pub open spec fn fetch_tournament_step(st: LoadV) -> LoadStepV {
    LoadStepV::FetchTournament(st.tournament_slug, st.per_page)
}

/// What the event fetch's outcome does.
pub open spec fn event_fetch_transition(st: LoadV, r: Result<JsonV, Seq<char>>) -> (LoadV, LoadStepV) {
    match r {
        Ok(d) => (
            LoadV { phase: PhaseV::AwaitEventNames(d), ..st },
            LoadStepV::LoadNames(event_videogame(d)),
        ),
        Err(e) => (
            LoadV { phase: PhaseV::AwaitTournament(FallbackV::EventFailed(e)), ..st },
            fetch_tournament_step(st),
        ),
    }
}

/// The answer when the tournament fetch fails.
pub open spec fn fallback_answer(fb: FallbackV, t: Seq<char>) -> Result<DataV, Seq<char>> {
    match fb {
        FallbackV::NoEvent => Err(t),
        FallbackV::EventEmpty(d) => Ok(d),
        FallbackV::EventFailed(e) => Err(
            "Failed to fetch using event slug and tournament fallback. Event error: "@ + e
                + ". Tournament error: "@ + t,
        ),
    }
}

pub open spec fn done(st: LoadV) -> LoadV {
    LoadV { phase: PhaseV::Done, ..st }
}

/// What the tournament fetch's outcome does.
pub open spec fn tournament_fetch_transition(st: LoadV, r: Result<JsonV, Seq<char>>) -> (
    LoadV,
    LoadStepV,
) {
    match st.phase {
        PhaseV::AwaitTournament(fb) => match r {
            Ok(d) => (
                LoadV { phase: PhaseV::AwaitTournamentNames(d, fb), ..st },
                LoadStepV::LoadNames(tournament_videogame(d)),
            ),
            Err(t) => (done(st), LoadStepV::Finished(fallback_answer(fb, t))),
        },
        _ => (st, LoadStepV::Finished(Err(Seq::empty()))),
    }
}

/// What a loaded roster does: the payload waiting for it is parsed, with
/// `stamp` as its fetch time.
pub open spec fn names_transition(st: LoadV, names: Map<u64, String>, stamp: Seq<char>) -> (
    LoadV,
    LoadStepV,
) {
    match st.phase {
        PhaseV::AwaitEventNames(d) => match event_result(d, st.event_slug, names, stamp) {
            Err(e) => (done(st), LoadStepV::Finished(Err(e))),
            Ok(p) => if p.total_sets > 0 {
                (done(st), LoadStepV::Finished(Ok(p)))
            } else {
                (
                    LoadV { phase: PhaseV::AwaitTournament(FallbackV::EventEmpty(p)), ..st },
                    fetch_tournament_step(st),
                )
            },
        },
        PhaseV::AwaitTournamentNames(d, fb) => match tournament_result(
            d,
            st.tournament_slug,
            names,
            stamp,
        ) {
            Err(e) => (done(st), LoadStepV::Finished(Err(e))),
            Ok(p) => (
                done(st),
                LoadStepV::Finished(
                    match fb {
                        FallbackV::EventEmpty(ev) => if p.total_sets > 0 {
                            Ok(p)
                        } else {
                            Ok(ev)
                        },
                        _ => Ok(p),
                    },
                ),
            ),
        },
        _ => (st, LoadStepV::Finished(Err(Seq::empty()))),
    }
}

/// A slug that names no event loads the tournament alone: it is fetched at
/// the tournament slug, its roster is asked for, and once the roster is in,
/// the load finishes with exactly what parsing the tournament payload gives.
pub proof fn law_tournament_only_load_shows_its_parse(
    raw: Seq<char>,
    per_page: Option<u32>,
    d: JsonV,
    names: Map<u64, String>,
    stamp: Seq<char>,
)
    requires
        event_slug(raw) is None,
    ensures
        load_start(raw, per_page).1 == LoadStepV::FetchTournament(
            tournament_slug(raw),
            clamp_per_page(per_page),
        ),
        tournament_fetch_transition(load_start(raw, per_page).0, Ok(d)).1 == LoadStepV::LoadNames(
            tournament_videogame(d),
        ),
        names_transition(
            tournament_fetch_transition(load_start(raw, per_page).0, Ok(d)).0,
            names,
            stamp,
        ).1 == LoadStepV::Finished(tournament_result(d, tournament_slug(raw), names, stamp)),
{
}

/// When the event's fetch fails, the tournament is fetched instead, and once
/// its roster is in, the load finishes with exactly what parsing the
/// tournament payload gives.
pub proof fn law_failed_event_load_shows_tournament_parse(
    raw: Seq<char>,
    per_page: Option<u32>,
    event_error: Seq<char>,
    d: JsonV,
    names: Map<u64, String>,
    stamp: Seq<char>,
)
    requires
        event_slug(raw) is Some,
    ensures
        event_fetch_transition(load_start(raw, per_page).0, Err(event_error)).1
            == LoadStepV::FetchTournament(tournament_slug(raw), clamp_per_page(per_page)),
        names_transition(
            tournament_fetch_transition(
                event_fetch_transition(load_start(raw, per_page).0, Err(event_error)).0,
                Ok(d),
            ).0,
            names,
            stamp,
        ).1 == LoadStepV::Finished(tournament_result(d, tournament_slug(raw), names, stamp)),
{
}

fn clamp_exec(p: Option<u32>) -> (r: u32)
    ensures
        r == clamp_per_page(p),
{
    let v = match p {
        Some(v) => v,
        None => 128,
    };
    if v < 10 {
        10
    } else if v > 500 {
        500
    } else {
        v
    }
}

impl TournamentLoad {
    /// Checks the request and, when it can be loaded, starts the load.
    pub fn start(request: &FetchTournamentRequest) -> (r: Result<(TournamentLoad, LoadStep), String>)
        ensures
            match load_refusal(request.api_token@, request.tournament_slug@) {
                Some(msg) => r matches Err(e) && e@ == msg,
                None => r matches Ok((s, step)) && (s@, load_step_view(step)) == load_start(
                    request.tournament_slug@,
                    request.per_page,
                ),
            },
    {
        if is_blank(request.api_token.as_str()) {
            return Err(owned("Missing start.gg API token"));
        }
        if is_blank(request.tournament_slug.as_str()) {
            return Err(owned("Missing tournament slug"));
        }
        let per_page = clamp_exec(request.per_page);
        let ts = normalize_tournament_slug(request.tournament_slug.as_str());
        match normalize_event_slug(request.tournament_slug.as_str()) {
            Some(e) => {
                let step = LoadStep::FetchEvent(e.clone(), per_page);
                Ok(
                    (
                        TournamentLoad {
                            per_page,
                            tournament_slug: ts,
                            event_slug: e,
                            phase: LoadPhase::AwaitEvent,
                        },
                        step,
                    ),
                )
            },
            None => {
                let step = LoadStep::FetchTournament(ts.clone(), per_page);
                let s = TournamentLoad {
                    per_page,
                    tournament_slug: ts,
                    event_slug: String::new(),
                    phase: LoadPhase::AwaitTournament(Fallback::NoEvent),
                };
                assert(s@.event_slug =~= Seq::<char>::empty());
                Ok((s, step))
            },
        }
    }

    fn fetch_tournament(&self) -> (step: LoadStep)
        ensures
            load_step_view(step) == fetch_tournament_step(self@),
    {
        LoadStep::FetchTournament(self.tournament_slug.clone(), self.per_page)
    }

    /// Takes the outcome of the event fetch.
    pub fn event_fetched(&mut self, outcome: Result<Json, String>) -> (step: LoadStep)
        requires
            old(self)@.phase is AwaitEvent,
        ensures
            (final(self)@, load_step_view(step)) == event_fetch_transition(
                old(self)@,
                response_view(outcome),
            ),
    {
        match outcome {
            Ok(data) => {
                let vg = peek_event_videogame_id(&data);
                self.phase = LoadPhase::AwaitEventNames(data);
                LoadStep::LoadNames(vg)
            },
            Err(e) => {
                self.phase = LoadPhase::AwaitTournament(Fallback::EventFailed(e));
                self.fetch_tournament()
            },
        }
    }

    /// Takes the outcome of the tournament fetch.
    pub fn tournament_fetched(&mut self, outcome: Result<Json, String>) -> (step: LoadStep)
        requires
            old(self)@.phase is AwaitTournament,
        ensures
            (final(self)@, load_step_view(step)) == tournament_fetch_transition(
                old(self)@,
                response_view(outcome),
            ),
    {
        let mut phase = LoadPhase::Done;
        std::mem::swap(&mut phase, &mut self.phase);
        let fb = match phase {
            LoadPhase::AwaitTournament(fb) => fb,
            _ => {
                return LoadStep::Finished(Err(String::new()));
            },
        };
        match outcome {
            Ok(data) => {
                let vg = peek_tournament_videogame_id(&data);
                self.phase = LoadPhase::AwaitTournamentNames(data, fb);
                LoadStep::LoadNames(vg)
            },
            Err(t) => LoadStep::Finished(
                match fb {
                    Fallback::NoEvent => Err(t),
                    Fallback::EventEmpty(d) => Ok(d),
                    Fallback::EventFailed(e) => {
                        let mut m = owned(
                            "Failed to fetch using event slug and tournament fallback. Event error: ",
                        );
                        push_str(&mut m, e.as_str());
                        push_str(&mut m, ". Tournament error: ");
                        push_str(&mut m, t.as_str());
                        Err(m)
                    },
                },
            ),
        }
    }

    /// Takes the roster that was asked for and parses the payload waiting
    /// for it. The parse stamps its result with the current time, of which
    /// only its form is fixed.
    pub fn names_loaded(&mut self, names: &HashMap<u64, String>) -> (step: LoadStep)
        requires
            old(self)@.phase is AwaitEventNames || old(self)@.phase is AwaitTournamentNames,
        ensures
            exists|stamp: Seq<char>|
                is_fetch_stamp(stamp) && #[trigger] names_transition(old(self)@, names@, stamp) == (
                    final(self)@,
                    load_step_view(step),
                ),
    {
        let mut phase = LoadPhase::Done;
        std::mem::swap(&mut phase, &mut self.phase);
        match phase {
            LoadPhase::AwaitEventNames(data) => {
                let r = parse_event_payload(&data, self.event_slug.as_str(), names);
                let ghost stamp = stamp_of(r);
                match r {
                    Err(e) => {
                        let step = LoadStep::Finished(Err(e));
                        assert(names_transition(old(self)@, names@, stamp) == (
                            self@,
                            load_step_view(step),
                        ));
                        step
                    },
                    Ok(p) => {
                        if p.total_sets > 0 {
                            let step = LoadStep::Finished(Ok(p));
                            assert(names_transition(old(self)@, names@, stamp) == (
                                self@,
                                load_step_view(step),
                            ));
                            step
                        } else {
                            self.phase = LoadPhase::AwaitTournament(Fallback::EventEmpty(p));
                            let step = self.fetch_tournament();
                            assert(names_transition(old(self)@, names@, stamp) == (
                                self@,
                                load_step_view(step),
                            ));
                            step
                        }
                    },
                }
            },
            LoadPhase::AwaitTournamentNames(data, fb) => {
                let r = parse_tournament_payload(&data, self.tournament_slug.as_str(), names);
                let ghost stamp = stamp_of(r);
                let step = match r {
                    Err(e) => LoadStep::Finished(Err(e)),
                    Ok(p) => LoadStep::Finished(
                        match fb {
                            Fallback::EventEmpty(ev) => if p.total_sets > 0 {
                                Ok(p)
                            } else {
                                Ok(ev)
                            },
                            _ => Ok(p),
                        },
                    ),
                };
                assert(names_transition(old(self)@, names@, stamp) == (self@, load_step_view(step)));
                step
            },
            _ => LoadStep::Finished(Err(String::new())),
        }
    }
}

} // verus!
