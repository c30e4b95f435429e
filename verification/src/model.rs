//! The records the tool exchanges with its front end, and their views.
use vstd::prelude::*;

verus! {

/// The characters of an optional string.
pub open spec fn ostr(o: Option<String>) -> Option<Seq<char>> {
    match o {
        Some(s) => Some(s@),
        None => None,
    }
}

/// Settings the operator saves between sessions.
#[derive(Debug, PartialEq)]
pub struct AppConfig {
    pub api_token: String,
    pub tournament_slug: String,
    pub stream_output_path: String,
    pub preferred_camera_id: Option<String>,
    pub per_page: u32,
    pub auto_write_overlay: bool,
}

impl Default for AppConfig {
    fn default() -> (c: Self)
        ensures
            c.api_token@.len() == 0,
            c.tournament_slug@.len() == 0,
            c.stream_output_path@.len() == 0,
            c.preferred_camera_id is None,
            c.per_page == 128,
            c.auto_write_overlay,
    {
        AppConfig {
            api_token: String::new(),
            tournament_slug: String::new(),
            stream_output_path: String::new(),
            preferred_camera_id: None,
            per_page: 128,
            auto_write_overlay: true,
        }
    }
}

pub struct FetchTournamentRequest {
    pub api_token: String,
    pub tournament_slug: String,
    pub per_page: Option<u32>,
}

pub struct GameSelectionInput {
    pub entrant_id: u64,
    pub character_id: u64,
}

pub struct GameDataInput {
    pub game_num: u32,
    pub winner_id: Option<u64>,
    pub selections: Vec<GameSelectionInput>,
}

pub struct ReportSetRequest {
    pub api_token: String,
    pub set_id: String,
    pub winner_id: u64,
    pub game_data: Option<Vec<GameDataInput>>,
}

pub struct FetchCharactersRequest {
    pub api_token: String,
    pub videogame_id: u64,
}

pub struct FetchAvatarsRequest {
    pub api_token: String,
    pub player1_entrant_id: Option<u64>,
    pub player2_entrant_id: Option<u64>,
}

#[derive(Debug, PartialEq)]
pub struct EntrantAvatars {
    pub player1_avatar: Option<String>,
    pub player2_avatar: Option<String>,
}

#[derive(Debug, PartialEq)]
pub struct GameCharacter {
    pub id: u64,
    pub name: String,
}

#[derive(Debug, PartialEq)]
pub struct ReportSetResult {
    pub success: bool,
    pub message: String,
}

pub struct OverlayPlayer {
    pub name: String,
    pub character: Option<String>,
    pub character_icon: Option<String>,
    pub score: u32,
    pub avatar_url: Option<String>,
}

pub struct WriteOverlayRequest {
    pub output_path: String,
    pub tournament_name: String,
    pub round_text: String,
    pub event_name: String,
    pub best_of: u32,
    pub player1: OverlayPlayer,
    pub player2: OverlayPlayer,
}

/// One side of a set.
#[derive(Debug, PartialEq)]
pub struct EntrantSlot {
    pub entrant_id: Option<u64>,
    pub name: String,
    pub score: i32,
    /// Where this slot's competitor comes from: "set", "seed", "bye", etc.
    pub source_type: Option<String>,
    /// The originating set ID when `source_type` is "set".
    pub source_set_id: Option<String>,
    /// 1 = winner of the source set advances here, 2 = loser advances here.
    pub source_placement: Option<i32>,
}

pub struct SlotV {
    pub entrant_id: Option<u64>,
    pub name: Seq<char>,
    pub score: i32,
    pub source_type: Option<Seq<char>>,
    pub source_set_id: Option<Seq<char>>,
    pub source_placement: Option<i32>,
}

impl View for EntrantSlot {
    type V = SlotV;

    open spec fn view(&self) -> SlotV {
        SlotV {
            entrant_id: self.entrant_id,
            name: self.name@,
            score: self.score,
            source_type: ostr(self.source_type),
            source_set_id: ostr(self.source_set_id),
            source_placement: self.source_placement,
        }
    }
}

/// The characters of one reported game.
#[derive(Debug, PartialEq)]
pub struct GameCharacterPick {
    pub game_num: u32,
    /// The entrant who won this game.
    pub winner_entrant_id: Option<u64>,
    pub player1_character: Option<String>,
    pub player2_character: Option<String>,
}

pub struct PickV {
    pub game_num: u32,
    pub winner_entrant_id: Option<u64>,
    pub player1_character: Option<Seq<char>>,
    pub player2_character: Option<Seq<char>>,
}

impl View for GameCharacterPick {
    type V = PickV;

    open spec fn view(&self) -> PickV {
        PickV {
            game_num: self.game_num,
            winner_entrant_id: self.winner_entrant_id,
            player1_character: ostr(self.player1_character),
            player2_character: ostr(self.player2_character),
        }
    }
}

#[derive(Debug, PartialEq)]
pub struct TournamentSet {
    pub id: String,
    pub identifier: Option<String>,
    pub round_text: String,
    pub round: i32,
    pub event_name: String,
    pub phase_name: Option<String>,
    pub phase_group_id: Option<u64>,
    pub phase_group_identifier: Option<String>,
    pub state: i32,
    pub winner_id: Option<u64>,
    pub best_of: u32,
    /// Each player's most-picked character across the set's reported games.
    pub player1_character: Option<String>,
    pub player2_character: Option<String>,
    /// The characters of each reported game, by game number.
    pub games: Vec<GameCharacterPick>,
    pub player1: EntrantSlot,
    pub player2: EntrantSlot,
}

pub struct SetV {
    pub id: Seq<char>,
    pub identifier: Option<Seq<char>>,
    pub round_text: Seq<char>,
    pub round: i32,
    pub event_name: Seq<char>,
    pub phase_name: Option<Seq<char>>,
    pub phase_group_id: Option<u64>,
    pub phase_group_identifier: Option<Seq<char>>,
    pub state: i32,
    pub winner_id: Option<u64>,
    pub best_of: u32,
    pub player1_character: Option<Seq<char>>,
    pub player2_character: Option<Seq<char>>,
    pub games: Seq<PickV>,
    pub player1: SlotV,
    pub player2: SlotV,
}

impl View for TournamentSet {
    type V = SetV;

    open spec fn view(&self) -> SetV {
        SetV {
            id: self.id@,
            identifier: ostr(self.identifier),
            round_text: self.round_text@,
            round: self.round,
            event_name: self.event_name@,
            phase_name: ostr(self.phase_name),
            phase_group_id: self.phase_group_id,
            phase_group_identifier: ostr(self.phase_group_identifier),
            state: self.state,
            winner_id: self.winner_id,
            best_of: self.best_of,
            player1_character: ostr(self.player1_character),
            player2_character: ostr(self.player2_character),
            games: self.games@.map_values(|g: GameCharacterPick| g@),
            player1: self.player1@,
            player2: self.player2@,
        }
    }
}

/// One tab's worth of sets.
#[derive(Debug, PartialEq)]
pub struct SetBucket {
    pub id: String,
    pub name: String,
    pub sets: Vec<TournamentSet>,
}

pub struct BucketV {
    pub id: Seq<char>,
    pub name: Seq<char>,
    pub sets: Seq<SetV>,
}

impl View for SetBucket {
    type V = BucketV;

    open spec fn view(&self) -> BucketV {
        BucketV {
            id: self.id@,
            name: self.name@,
            sets: self.sets@.map_values(|s: TournamentSet| s@),
        }
    }
}

#[derive(Debug, PartialEq)]
pub struct TournamentData {
    pub tournament_id: Option<u64>,
    pub tournament_name: String,
    pub slug: String,
    pub fetched_at: String,
    pub total_sets: usize,
    pub videogame_id: Option<u64>,
    pub buckets: Vec<SetBucket>,
}

pub struct DataV {
    pub tournament_id: Option<u64>,
    pub tournament_name: Seq<char>,
    pub slug: Seq<char>,
    pub fetched_at: Seq<char>,
    pub total_sets: usize,
    pub videogame_id: Option<u64>,
    pub buckets: Seq<BucketV>,
}

impl View for TournamentData {
    type V = DataV;

    open spec fn view(&self) -> DataV {
        DataV {
            tournament_id: self.tournament_id,
            tournament_name: self.tournament_name@,
            slug: self.slug@,
            fetched_at: self.fetched_at@,
            total_sets: self.total_sets,
            videogame_id: self.videogame_id,
            buckets: self.buckets@.map_values(|b: SetBucket| b@),
        }
    }
}

pub fn clone_opt_string(o: &Option<String>) -> (r: Option<String>)
    ensures
        ostr(r) == ostr(*o),
{
    match o {
        Some(s) => Some(s.clone()),
        None => None,
    }
}

impl Clone for EntrantSlot {
    fn clone(&self) -> (r: Self)
        ensures
            r@ == self@,
    {
        EntrantSlot {
            entrant_id: self.entrant_id,
            name: self.name.clone(),
            score: self.score,
            source_type: clone_opt_string(&self.source_type),
            source_set_id: clone_opt_string(&self.source_set_id),
            source_placement: self.source_placement,
        }
    }
}

impl Clone for GameCharacterPick {
    fn clone(&self) -> (r: Self)
        ensures
            r@ == self@,
    {
        GameCharacterPick {
            game_num: self.game_num,
            winner_entrant_id: self.winner_entrant_id,
            player1_character: clone_opt_string(&self.player1_character),
            player2_character: clone_opt_string(&self.player2_character),
        }
    }
}

impl Clone for TournamentSet {
    fn clone(&self) -> (r: Self)
        ensures
            r@ == self@,
    {
        let mut games: Vec<GameCharacterPick> = Vec::new();
        let mut i: usize = 0;
        while i < self.games.len()
            invariant
                i <= self.games@.len(),
                games@.len() == i,
                forall|k: int| 0 <= k < i ==> (#[trigger] games@[k])@ == self.games@[k]@,
            decreases self.games@.len() - i,
        {
            games.push(self.games[i].clone());
            i = i + 1;
        }
        let r = TournamentSet {
            id: self.id.clone(),
            identifier: clone_opt_string(&self.identifier),
            round_text: self.round_text.clone(),
            round: self.round,
            event_name: self.event_name.clone(),
            phase_name: clone_opt_string(&self.phase_name),
            phase_group_id: self.phase_group_id,
            phase_group_identifier: clone_opt_string(&self.phase_group_identifier),
            state: self.state,
            winner_id: self.winner_id,
            best_of: self.best_of,
            player1_character: clone_opt_string(&self.player1_character),
            player2_character: clone_opt_string(&self.player2_character),
            games,
            player1: self.player1.clone(),
            player2: self.player2.clone(),
        };
        assert(r@.games =~= self@.games);
        r
    }
}

} // verus!
