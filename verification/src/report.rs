//! Reporting a set's winner: the mutations tried, in order, until one is
//! accepted.
use vstd::prelude::*;
use crate::json::{get, member, members_view, set_member, set_member_exec, Json, JsonV};
use crate::fetching::{errors_of, first_ok, response_view};
use crate::model::{GameDataInput, GameSelectionInput, ReportSetRequest, ReportSetResult};
use crate::overlay::object_of;
use crate::startgg::{missing_token, num_json, num_value, object2, object3};
use crate::text::{
    chars_of, decimal, decimal_string, is_blank, join, owned, push_decimal, push_joined_with,
    push_str, trim,
};

verus! {

pub const REPORT_SET_WITH_GAMES_MUTATION: &'static str = "
                mutation ReportSet($setId: ID!, $winnerId: ID!, $gameData: [BracketSetGameDataInput]) {
                  reportBracketSet(setId: $setId, winnerId: $winnerId, gameData: $gameData) {
                    id
                    winnerId
                    state
                  }
                }
            ";

pub const REPORT_SET_MUTATION: &'static str = "
            mutation ReportSet($setId: ID!, $winnerId: ID!) {
              reportBracketSet(setId: $setId, winnerId: $winnerId) {
                id
                winnerId
                state
              }
            }
        ";

pub const REPORT_SET_BARE_MUTATION: &'static str = "
            mutation ReportSet($setId: ID!, $winnerId: ID!) {
              reportBracketSet(setId: $setId, winnerId: $winnerId)
            }
        ";

pub const REPORT_SET_NOT_DQ_MUTATION: &'static str = "
            mutation ReportSet($setId: ID!, $winnerId: ID!) {
              reportBracketSet(setId: $setId, winnerId: $winnerId, isDQ: false)
            }
        ";

// ---------------------------------------------------------------------------
// The request
// ---------------------------------------------------------------------------

/// Why a report is refused before anything is sent, if it is.
pub open spec fn report_refusal(token: Seq<char>, set_id: Seq<char>, winner_id: u64) -> Option<Seq<char>> {
    if missing_token(token) {
        Some("Missing start.gg API token"@)
    } else if trim(set_id).len() == 0 {
        Some("Invalid set ID"@)
    } else if winner_id == 0 {
        Some("Invalid winner ID"@)
    } else {
        None
    }
}

/// `{ "setId": .., "winnerId": "<winner>" }`.
pub open spec fn base_report_vars(set_id: Seq<char>, winner_id: u64) -> JsonV {
    JsonV::Object(
        seq![("setId"@, JsonV::Str(set_id)), ("winnerId"@, JsonV::Str(decimal(winner_id as nat)))],
    )
}

pub open spec fn selection_json(s: GameSelectionInput) -> JsonV {
    JsonV::Object(
        seq![
            ("entrantId"@, JsonV::Str(decimal(s.entrant_id as nat))),
            ("characterId"@, num_json(s.character_id)),
        ],
    )
}

pub open spec fn selections_json(sels: Seq<GameSelectionInput>) -> Seq<JsonV> {
    sels.map_values(|s: GameSelectionInput| selection_json(s))
}

pub open spec fn game_json(g: GameDataInput) -> JsonV {
    JsonV::Object(
        seq![
            ("gameNum"@, num_json(g.game_num as u64)),
            (
                "winnerId"@,
                match g.winner_id {
                    Some(w) => JsonV::Str(decimal(w as nat)),
                    None => JsonV::Null,
                },
            ),
            ("selections"@, JsonV::Array(selections_json(g.selections@))),
        ],
    )
}

pub open spec fn games_seq(games: Seq<GameDataInput>) -> Seq<JsonV> {
    games.map_values(|g: GameDataInput| game_json(g))
}

pub open spec fn games_json(games: Seq<GameDataInput>) -> JsonV {
    JsonV::Array(games_seq(games))
}

/// The mutations tried, in order: with the per-game data when there is any,
/// then three forms that report the winner alone.
pub open spec fn report_attempts(
    set_id: Seq<char>,
    winner_id: u64,
    game_data: Option<Seq<GameDataInput>>,
) -> Seq<(Seq<char>, JsonV)> {
    let base = base_report_vars(set_id, winner_id);
    let plain = seq![
        (REPORT_SET_MUTATION@, base),
        (REPORT_SET_BARE_MUTATION@, base),
        (REPORT_SET_NOT_DQ_MUTATION@, base),
    ];
    match game_data {
        Some(g) => if g.len() > 0 {
            seq![(REPORT_SET_WITH_GAMES_MUTATION@, set_member(base, "gameData"@, games_json(g)))]
                + plain
        } else {
            plain
        },
        None => plain,
    }
}

fn selection_value(s: &GameSelectionInput) -> (r: Json)
    ensures
        r@ == selection_json(*s),
{
    object2(
        "entrantId",
        Json::Str(decimal_string(s.entrant_id)),
        "characterId",
        num_value(s.character_id),
    )
}

fn game_value(g: &GameDataInput) -> (r: Json)
    ensures
        r@ == game_json(*g),
{
    let mut sels: Vec<Json> = Vec::new();
    let mut i: usize = 0;
    while i < g.selections.len()
        invariant
            i <= g.selections@.len(),
            sels@.len() == i,
            forall|k: int| 0 <= k < i ==> (#[trigger] sels@[k])@ == selection_json(g.selections@[k]),
        decreases g.selections@.len() - i,
    {
        sels.push(selection_value(&g.selections[i]));
        i = i + 1;
    }
    let arr = Json::Array(sels);
    assert(arr@ matches JsonV::Array(s) && s =~= selections_json(g.selections@));
    let winner = match g.winner_id {
        Some(w) => Json::Str(decimal_string(w)),
        None => Json::Null,
    };
    let ghost av = arr@;
    assert(av == JsonV::Array(selections_json(g.selections@)));
    assert(winner@ == (match g.winner_id {
        Some(w) => JsonV::Str(decimal(w as nat)),
        None => JsonV::Null,
    }));
    let ghost wv = winner@;
    let r = object3("gameNum", num_value(g.game_num as u64), "winnerId", winner, "selections", arr);
    assert(r@ == JsonV::Object(seq![("gameNum"@, num_json(g.game_num as u64)), ("winnerId"@, wv), ("selections"@, av)]));
    assert(game_json(*g) matches JsonV::Object(ms) && ms =~= seq![("gameNum"@, num_json(g.game_num as u64)), ("winnerId"@, wv), ("selections"@, av)]);
    r
}

fn games_value(games: &Vec<GameDataInput>) -> (r: Json)
    ensures
        r@ == games_json(games@),
{
    let mut out: Vec<Json> = Vec::new();
    let mut i: usize = 0;
    while i < games.len()
        invariant
            i <= games@.len(),
            out@.len() == i,
            forall|k: int| 0 <= k < i ==> (#[trigger] out@[k])@ == game_json(games@[k]),
        decreases games@.len() - i,
    {
        out.push(game_value(&games[i]));
        i = i + 1;
    }
    let arr = Json::Array(out);
    assert(arr@ matches JsonV::Array(s) && s =~= games_seq(games@));
    arr
}

fn base_value(set_id: &str, winner_id: u64) -> (r: Json)
    ensures
        r@ == base_report_vars(set_id@, winner_id),
{
    object2("setId", Json::Str(owned(set_id)), "winnerId", Json::Str(decimal_string(winner_id)))
}

pub open spec fn game_data_view(g: Option<Vec<GameDataInput>>) -> Option<Seq<GameDataInput>> {
    match g {
        Some(v) => Some(v@),
        None => None,
    }
}

pub fn report_attempt_list(set_id: &str, winner_id: u64, game_data: &Option<Vec<GameDataInput>>) -> (r: Vec<
    (String, Json),
>)
    ensures
        r@.map_values(|p: (String, Json)| (p.0@, p.1@)) == report_attempts(
            set_id@,
            winner_id,
            game_data_view(*game_data),
        ),
        r@.len() >= 3,
{
    let mut r: Vec<(String, Json)> = Vec::new();
    match game_data {
        Some(g) => {
            if g.len() > 0 {
                let base = base_value(set_id, winner_id);
                let with_games = set_member_exec(base, "gameData", games_value(g));
                r.push((owned(REPORT_SET_WITH_GAMES_MUTATION), with_games));
            }
        },
        None => {},
    }
    r.push((owned(REPORT_SET_MUTATION), base_value(set_id, winner_id)));
    r.push((owned(REPORT_SET_BARE_MUTATION), base_value(set_id, winner_id)));
    r.push((owned(REPORT_SET_NOT_DQ_MUTATION), base_value(set_id, winner_id)));
    assert(r@.map_values(|p: (String, Json)| (p.0@, p.1@)) =~= report_attempts(
        set_id@,
        winner_id,
        game_data_view(*game_data),
    ));
    r
}

/// With per-game data, the first mutation tried is the one that carries it:
/// its `gameData` holds one entry per game, in order, each with the game's
/// number, its winner, and one selection per selection given, in order, with
/// its entrant (as text) and its character.
pub proof fn law_reported_games_keep_every_selection(
    set_id: Seq<char>,
    winner_id: u64,
    games: Seq<GameDataInput>,
)
    requires
        games.len() > 0,
    ensures
        report_attempts(set_id, winner_id, Some(games))[0].0 == REPORT_SET_WITH_GAMES_MUTATION@,
        get(report_attempts(set_id, winner_id, Some(games))[0].1, "gameData"@) matches Some(
            JsonV::Array(gs),
        ) && gs.len() == games.len() && forall|i: int|
            0 <= i < games.len() ==> {
                &&& get(#[trigger] gs[i], "gameNum"@) == Some(num_json(games[i].game_num as u64))
                &&& get(gs[i], "winnerId"@) == Some(
                    match games[i].winner_id {
                        Some(w) => JsonV::Str(decimal(w as nat)),
                        None => JsonV::Null,
                    },
                )
                &&& get(gs[i], "selections"@) matches Some(JsonV::Array(sels))
                &&& sels.len() == games[i].selections@.len()
                &&& forall|k: int|
                    0 <= k < sels.len() ==> get(#[trigger] sels[k], "entrantId"@) == Some(
                        JsonV::Str(decimal(games[i].selections@[k].entrant_id as nat)),
                    ) && get(sels[k], "characterId"@) == Some(
                        num_json(games[i].selections@[k].character_id),
                    )
            },
{
    reveal_strlit("setId");
    reveal_strlit("winnerId");
    reveal_strlit("gameData");
    reveal_strlit("gameNum");
    reveal_strlit("selections");
    reveal_strlit("entrantId");
    reveal_strlit("characterId");
    let base = base_report_vars(set_id, winner_id);
    let gj = games_json(games);
    let ms = seq![("setId"@, JsonV::Str(set_id)), ("winnerId"@, JsonV::Str(decimal(winner_id as nat)))];
    assert(ms[0].0.len() != "gameData"@.len());
    assert(ms[1].0[0] != "gameData"@[0]);
    assert(crate::json::member_pos_from(ms, "gameData"@, 2) is None);
    assert(crate::json::member_pos_from(ms, "gameData"@, 1) is None);
    assert(crate::json::member_pos_from(ms, "gameData"@, 0) is None);
    let full = ms.push(("gameData"@, gj));
    assert(set_member(base, "gameData"@, gj) == JsonV::Object(full));
    assert(full.drop_first().drop_first().drop_first().len() == 0);
    assert(full.drop_first().drop_first()[0].0 == "gameData"@);
    reveal_with_fuel(member, 4);
    assert(member(full, "gameData"@) == Some(gj));
    assert forall|i: int| 0 <= i < games.len() implies {
        &&& get(#[trigger] games_seq(games)[i], "gameNum"@) == Some(num_json(games[i].game_num as u64))
        &&& get(games_seq(games)[i], "winnerId"@) == Some(
            match games[i].winner_id {
                Some(w) => JsonV::Str(decimal(w as nat)),
                None => JsonV::Null,
            },
        )
        &&& get(games_seq(games)[i], "selections"@) == Some(JsonV::Array(selections_json(games[i].selections@)))
    } by {
        let gm = games[i];
        let sj = selections_json(gm.selections@);
        let wv = match gm.winner_id {
            Some(w) => JsonV::Str(decimal(w as nat)),
            None => JsonV::Null,
        };
        let gs3 = seq![
            ("gameNum"@, num_json(gm.game_num as u64)),
            ("winnerId"@, wv),
            ("selections"@, JsonV::Array(sj)),
        ];
        assert(games_seq(games)[i] == game_json(gm));
        assert(game_json(gm) matches JsonV::Object(x) && x =~= gs3);
        assert(gs3[0].0.len() != "winnerId"@.len());
        assert(gs3[0].0.len() != "selections"@.len());
        assert(gs3[1].0.len() != "selections"@.len());
        assert(gs3.drop_first()[0] == gs3[1]);
        assert(gs3.drop_first().drop_first()[0] == gs3[2]);
    }
    assert forall|i: int, k: int|
        0 <= i < games.len() && 0 <= k < games[i].selections@.len() implies {
        &&& get(#[trigger] selections_json(games[i].selections@)[k], "entrantId"@) == Some(JsonV::Str(decimal(games[i].selections@[k].entrant_id as nat)))
        &&& get(selections_json(games[i].selections@)[k], "characterId"@) == Some(num_json(games[i].selections@[k].character_id))
    } by {
        let sv = games[i].selections@[k];
        let s2 = seq![
            ("entrantId"@, JsonV::Str(decimal(sv.entrant_id as nat))),
            ("characterId"@, num_json(sv.character_id)),
        ];
        assert(selections_json(games[i].selections@)[k] == selection_json(sv));
        assert(selection_json(sv) matches JsonV::Object(x) && x =~= s2);
        assert(s2[0].0.len() != "characterId"@.len());
        assert(s2.drop_first()[0] == s2[1]);
    }
}

// ---------------------------------------------------------------------------
// The attempts
// ---------------------------------------------------------------------------

pub open spec fn success_message(set_id: Seq<char>, winner_id: u64) -> Seq<char> {
    "Set "@ + set_id + " reported successfully with winner "@ + decimal(winner_id as nat)
}

pub open spec fn failure_message(failures: Seq<Seq<char>>) -> Seq<char> {
    "Failed to report set after "@ + decimal(failures.len()) + " attempts: "@ + join(
        failures,
        " | "@,
    )
}

/// A report in progress.
pub struct SetReport {
    pub attempts: Vec<(String, Json)>,
    pub next: usize,
    pub failures: Vec<String>,
    pub set_id: String,
    pub winner_id: u64,
}

pub struct ReportV {
    pub attempts: Seq<(Seq<char>, JsonV)>,
    pub next: int,
    pub failures: Seq<Seq<char>>,
    pub set_id: Seq<char>,
    pub winner_id: u64,
}

impl View for SetReport {
    type V = ReportV;

    open spec fn view(&self) -> ReportV {
        ReportV {
            attempts: self.attempts@.map_values(|p: (String, Json)| (p.0@, p.1@)),
            next: self.next as int,
            failures: self.failures@.map_values(|e: String| e@),
            set_id: self.set_id@,
            winner_id: self.winner_id,
        }
    }
}

/// What the report does next: send a mutation with its variables, or stop.
pub enum ReportStep {
    Send(String, Json),
    Finished(Result<ReportSetResult, String>),
}

pub enum ReportStepV {
    Send(Seq<char>, JsonV),
    /// `Ok` holds the result's `success` and `message`.
    Finished(Result<(bool, Seq<char>), Seq<char>>),
}

pub open spec fn report_step_view(s: ReportStep) -> ReportStepV {
    match s {
        ReportStep::Send(q, v) => ReportStepV::Send(q@, v@),
        ReportStep::Finished(Ok(r)) => ReportStepV::Finished(Ok((r.success, r.message@))),
        ReportStep::Finished(Err(e)) => ReportStepV::Finished(Err(e@)),
    }
}

/// While a report runs, the current attempt exists and each earlier one
/// failed.
pub open spec fn report_inv(st: ReportV) -> bool {
    &&& 0 <= st.next < st.attempts.len()
    &&& st.failures.len() == st.next
}

/// What the outcome of the current attempt does to the report.
pub open spec fn report_transition(st: ReportV, outcome: Result<JsonV, Seq<char>>) -> (ReportV, ReportStepV) {
    match outcome {
        Ok(_) => (st, ReportStepV::Finished(Ok((true, success_message(st.set_id, st.winner_id))))),
        Err(e) => {
            let next = ReportV { next: st.next + 1, failures: st.failures.push(e), ..st };
            if next.next < st.attempts.len() {
                (next, ReportStepV::Send(st.attempts[next.next].0, st.attempts[next.next].1))
            } else {
                (next, ReportStepV::Finished(Err(failure_message(next.failures))))
            }
        },
    }
}

fn clone_attempt(a: &(String, Json)) -> (r: (String, Json))
    ensures
        r.0@ == a.0@,
        r.1@ == a.1@,
{
    (a.0.clone(), a.1.clone())
}

impl SetReport {
    /// Checks the request and, when it can be sent, starts the report with
    /// its first mutation.
    pub fn start(request: &ReportSetRequest) -> (r: Result<(SetReport, ReportStep), String>)
        ensures
            match report_refusal(request.api_token@, request.set_id@, request.winner_id) {
                Some(msg) => r matches Err(e) && e@ == msg,
                None => r matches Ok((s, step)) && s@ == (ReportV {
                    attempts: report_attempts(
                        request.set_id@,
                        request.winner_id,
                        game_data_view(request.game_data),
                    ),
                    next: 0,
                    failures: Seq::empty(),
                    set_id: request.set_id@,
                    winner_id: request.winner_id,
                }) && report_inv(s@) && report_step_view(step) == ReportStepV::Send(
                    s@.attempts[0].0,
                    s@.attempts[0].1,
                ),
            },
    {
        if is_blank(request.api_token.as_str()) {
            return Err(owned("Missing start.gg API token"));
        }
        if is_blank(request.set_id.as_str()) {
            return Err(owned("Invalid set ID"));
        }
        if request.winner_id == 0 {
            return Err(owned("Invalid winner ID"));
        }
        let attempts = report_attempt_list(
            request.set_id.as_str(),
            request.winner_id,
            &request.game_data,
        );
        let first = clone_attempt(&attempts[0]);
        let s = SetReport {
            attempts,
            next: 0,
            failures: Vec::new(),
            set_id: request.set_id.clone(),
            winner_id: request.winner_id,
        };
        assert(s@.failures =~= Seq::<Seq<char>>::empty());
        Ok((s, ReportStep::Send(first.0, first.1)))
    }

    /// Takes the outcome of the mutation last sent and says what to do next.
    pub fn attempt_finished(&mut self, outcome: Result<Json, String>) -> (step: ReportStep)
        requires
            report_inv(old(self)@),
        ensures
            (final(self)@, report_step_view(step)) == report_transition(
                old(self)@,
                response_view(outcome),
            ),
            step is Send ==> report_inv(final(self)@),
    {
        match outcome {
            Ok(_) => {
                let mut m = owned("Set ");
                push_str(&mut m, self.set_id.as_str());
                push_str(&mut m, " reported successfully with winner ");
                push_decimal(&mut m, self.winner_id);
                ReportStep::Finished(Ok(ReportSetResult { success: true, message: m }))
            },
            Err(e) => {
                let n = self.attempts.len();
                assert(n == old(self)@.attempts.len());
                self.failures.push(e);
                self.next = self.next + 1;
                assert(self@.failures =~= old(self)@.failures.push(e@));
                if self.next < self.attempts.len() {
                    let a = clone_attempt(&self.attempts[self.next]);
                    ReportStep::Send(a.0, a.1)
                } else {
                    let mut pieces: Vec<Vec<char>> = Vec::new();
                    let mut i: usize = 0;
                    while i < self.failures.len()
                        invariant
                            i <= self.failures@.len(),
                            pieces@.len() == i,
                            forall|k: int|
                                0 <= k < i ==> (#[trigger] pieces@[k])@ == self.failures@[k]@,
                        decreases self.failures@.len() - i,
                    {
                        pieces.push(chars_of(self.failures[i].as_str()));
                        i = i + 1;
                    }
                    assert(pieces@.map_values(|p: Vec<char>| p@) =~= self@.failures);
                    let mut m = owned("Failed to report set after ");
                    push_decimal(&mut m, self.failures.len() as u64);
                    push_str(&mut m, " attempts: ");
                    let sep = chars_of(" | ");
                    push_joined_with(&mut m, &pieces, &sep);
                    ReportStep::Finished(Err(m))
                }
            },
        }
    }
}

// ---------------------------------------------------------------------------
// What a whole report answers
// ---------------------------------------------------------------------------

/// Runs the report from `st`, feeding it the attempts' outcomes in order
/// until it finishes.
pub open spec fn run_report(st: ReportV, outs: Seq<Result<JsonV, Seq<char>>>) -> ReportStepV
    decreases outs.len(),
{
    if outs.len() == 0 {
        ReportStepV::Send(st.attempts[st.next].0, st.attempts[st.next].1)
    } else {
        let (st2, step) = report_transition(st, outs[0]);
        match step {
            ReportStepV::Send(_, _) => run_report(st2, outs.drop_first()),
            _ => step,
        }
    }
}

/// A report of `set_id` won by `winner_id`, started over these attempts.
pub open spec fn report_over(
    attempts: Seq<(Seq<char>, JsonV)>,
    set_id: Seq<char>,
    winner_id: u64,
    outs: Seq<Result<JsonV, Seq<char>>>,
) -> ReportStepV {
    run_report(
        ReportV { attempts, next: 0, failures: Seq::empty(), set_id, winner_id },
        outs,
    )
}

proof fn lemma_run_report(st: ReportV, outs: Seq<Result<JsonV, Seq<char>>>)
    requires
        report_inv(st),
        st.next + outs.len() == st.attempts.len(),
    ensures
        run_report(st, outs) == ReportStepV::Finished(
            match first_ok(outs) {
                Some(_) => Ok((true, success_message(st.set_id, st.winner_id))),
                None => Err(failure_message(st.failures + errors_of(outs))),
            },
        ),
    decreases outs.len(),
{
    let rest = outs.drop_first();
    match outs[0] {
        Ok(_) => {},
        Err(e) => {
            let st2 = ReportV { next: st.next + 1, failures: st.failures.push(e), ..st };
            assert(st2.failures + errors_of(rest) =~= st.failures + errors_of(outs));
            if rest.len() > 0 {
                lemma_run_report(st2, rest);
            } else {
                assert(errors_of(rest) =~= Seq::<Seq<char>>::empty());
                assert(st2.failures + errors_of(rest) =~= st2.failures);
            }
        },
    }
}

/// A report succeeds as soon as one mutation is accepted, with the message
/// naming the set and its winner; it fails only when every mutation was
/// refused, and then its message counts them all and gives each error, in
/// order.
pub proof fn law_report_tries_every_mutation(
    attempts: Seq<(Seq<char>, JsonV)>,
    set_id: Seq<char>,
    winner_id: u64,
    outs: Seq<Result<JsonV, Seq<char>>>,
)
    requires
        attempts.len() > 0,
        outs.len() == attempts.len(),
    ensures
        report_over(attempts, set_id, winner_id, outs) == ReportStepV::Finished(
            match first_ok(outs) {
                Some(_) => Ok((true, success_message(set_id, winner_id))),
                None => Err(failure_message(errors_of(outs))),
            },
        ),
        first_ok(outs) is None ==> errors_of(outs).len() == attempts.len(),
{
    let st = ReportV { attempts, next: 0, failures: Seq::empty(), set_id, winner_id };
    lemma_run_report(st, outs);
    assert(st.failures + errors_of(outs) =~= errors_of(outs));
    if first_ok(outs) is None {
        lemma_all_errors(outs);
    }
}

proof fn lemma_all_errors(outs: Seq<Result<JsonV, Seq<char>>>)
    requires
        first_ok(outs) is None,
    ensures
        errors_of(outs).len() == outs.len(),
    decreases outs.len(),
{
    if outs.len() > 0 {
        lemma_all_errors(outs.drop_first());
    }
}

} // verus!
