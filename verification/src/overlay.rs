//! The scoreboard file a stream layout reads, and the character portraits it
//! points at.
use vstd::prelude::*;
use crate::json::{members_view, Json, JsonV};
use crate::model::{OverlayPlayer, WriteOverlayRequest};
use crate::startgg::{num_json, num_value, str_json, str_value};
use crate::text::{owned, push_str, trim, trim_string};

verus! {

// ---------------------------------------------------------------------------
// Building objects
// ---------------------------------------------------------------------------

/// An object with the members in the given order.
pub fn object_of(members: Vec<(String, Json)>) -> (r: Json)
    ensures
        r@ == JsonV::Object(members_view(members@)),
{
    let r = Json::Object(members);
    assert(r@ matches JsonV::Object(s) && s =~= members_view(members@));
    r
}

fn entry(key: &str, v: Json) -> (r: (String, Json))
    ensures
        r.0@ == key@,
        r.1@ == v@,
{
    (owned(key), v)
}

pub open spec fn empty_object() -> JsonV {
    JsonV::Object(Seq::empty())
}

pub fn empty_object_value() -> (r: Json)
    ensures
        r@ == empty_object(),
{
    let ms: Vec<(String, Json)> = Vec::new();
    let ghost mv = ms@;
    let r = object_of(ms);
    assert(members_view(mv) =~= Seq::<(Seq<char>, JsonV)>::empty());
    r
}

// ---------------------------------------------------------------------------
// Character portraits
// ---------------------------------------------------------------------------

/// The file of a character's icon: `<slug>.png`.
pub open spec fn icon_file_name(slug: Seq<char>) -> Seq<char> {
    slug + ".png"@
}

pub fn icon_file(slug: &str) -> (r: String)
    ensures
        r@ == icon_file_name(slug@),
{
    let mut r = owned(slug);
    push_str(&mut r, ".png");
    r
}

/// What a layout reads of a character: one entry with its codename and the
/// portrait staged under `out/character-icons/`.
pub open spec fn character_asset_json(slug: Seq<char>) -> JsonV {
    JsonV::Object(
        seq![
            (
                "0"@,
                JsonV::Object(
                    seq![
                        ("codename"@, JsonV::Str(slug)),
                        (
                            "assets"@,
                            JsonV::Object(
                                seq![
                                    (
                                        "portrait"@,
                                        JsonV::Object(
                                            seq![
                                                (
                                                    "asset"@,
                                                    JsonV::Str(
                                                        "out/character-icons/"@ + icon_file_name(
                                                            slug,
                                                        ),
                                                    ),
                                                ),
                                            ],
                                        ),
                                    ),
                                ],
                            ),
                        ),
                    ],
                ),
            ),
        ],
    )
}

pub fn character_asset_value(slug: &str) -> (r: Json)
    ensures
        r@ == character_asset_json(slug@),
{
    let mut path = owned("out/character-icons/");
    let file = icon_file(slug);
    push_str(&mut path, file.as_str());
    let asset = one_member("asset", Json::Str(path));
    let portrait = one_member("portrait", asset);
    let inner = two_members("codename", str_value(slug), "assets", portrait);
    one_member("0", inner)
}

// ---------------------------------------------------------------------------
// Players and the scoreboard
// ---------------------------------------------------------------------------

pub open spec fn or_empty_str(o: Option<String>) -> Seq<char> {
    match o {
        Some(s) => s@,
        None => Seq::empty(),
    }
}

/// One player as a layout reads it. Country and state are empty objects (a
/// layout reads their `asset` unconditionally); only the online avatar is
/// given, never the local one.
pub open spec fn player_json(p: OverlayPlayer, character: Option<JsonV>) -> JsonV {
    JsonV::Object(
        seq![
            ("name"@, JsonV::Str(p.name@)),
            ("characterName"@, JsonV::Str(or_empty_str(p.character))),
            (
                "character"@,
                match character {
                    Some(c) => c,
                    None => empty_object(),
                },
            ),
            ("country"@, empty_object()),
            ("state"@, empty_object()),
            ("pronoun"@, JsonV::Str(Seq::empty())),
            ("twitter"@, JsonV::Str(Seq::empty())),
            ("avatar"@, JsonV::Str(Seq::empty())),
            ("online_avatar"@, JsonV::Str(or_empty_str(p.avatar_url))),
        ],
    )
}

fn or_empty(o: &Option<String>) -> (r: String)
    ensures
        r@ == or_empty_str(*o),
{
    match o {
        Some(s) => s.clone(),
        None => String::new(),
    }
}

/// A player of the scoreboard, with the character entry that was staged for
/// them, if any.
pub fn player_payload(player: &OverlayPlayer, character: Option<Json>) -> (r: Json)
    ensures
        r@ == player_json(
            *player,
            match character {
                Some(c) => Some(c@),
                None => None,
            },
        ),
{
    let ghost cv = match &character {
        Some(c) => Some(c@),
        None => None::<JsonV>,
    };
    let c = match character {
        Some(c) => c,
        None => empty_object_value(),
    };
    let mut ms: Vec<(String, Json)> = Vec::new();
    ms.push(entry("name", Json::Str(player.name.clone())));
    ms.push(entry("characterName", Json::Str(or_empty(&player.character))));
    ms.push(entry("character", c));
    ms.push(entry("country", empty_object_value()));
    ms.push(entry("state", empty_object_value()));
    ms.push(entry("pronoun", Json::Str(String::new())));
    ms.push(entry("twitter", Json::Str(String::new())));
    ms.push(entry("avatar", Json::Str(String::new())));
    ms.push(entry("online_avatar", Json::Str(or_empty(&player.avatar_url))));
    let ghost mv = ms@;
    let r = object_of(ms);
    assert(members_view(mv) =~= (match player_json(*player, cv) {
        JsonV::Object(s) => s,
        _ => Seq::empty(),
    }));
    r
}

/// One side of the scoreboard: its score and its one player.
pub open spec fn team_json(score: u32, player: JsonV) -> JsonV {
    JsonV::Object(
        seq![
            ("score"@, num_json(score as u64)),
            ("player"@, JsonV::Object(seq![("1"@, player)])),
        ],
    )
}

pub open spec fn opt_str_json(o: Option<String>) -> JsonV {
    match o {
        Some(s) => JsonV::Str(s@),
        None => JsonV::Null,
    }
}

/// A player as the front end described it.
pub open spec fn generic_player_json(p: OverlayPlayer) -> JsonV {
    JsonV::Object(
        seq![
            ("name"@, JsonV::Str(p.name@)),
            ("character"@, opt_str_json(p.character)),
            ("characterIcon"@, opt_str_json(p.character_icon)),
            ("score"@, num_json(p.score as u64)),
            ("avatarUrl"@, opt_str_json(p.avatar_url)),
        ],
    )
}

/// The generic `set` block: the set on stream as the front end described
/// it, for overlays that do not read the scoreboard's own shape.
pub open spec fn set_block_json(req: WriteOverlayRequest) -> JsonV {
    JsonV::Object(
        seq![
            ("tournamentName"@, JsonV::Str(req.tournament_name@)),
            ("eventName"@, JsonV::Str(req.event_name@)),
            ("roundText"@, JsonV::Str(req.round_text@)),
            ("bestOf"@, num_json(req.best_of as u64)),
            ("player1"@, generic_player_json(req.player1)),
            ("player2"@, generic_player_json(req.player2)),
        ],
    )
}

/// The scoreboard, but for its time stamp: the generic `set` block, and the
/// `tournamentInfo` and `score` blocks in the shape scoreboard layouts read.
pub open spec fn overlay_json(req: WriteOverlayRequest, p1: JsonV, p2: JsonV) -> JsonV {
    JsonV::Object(
        seq![
            ("set"@, set_block_json(req)),
            (
                "tournamentInfo"@,
                JsonV::Object(seq![("tournamentName"@, JsonV::Str(req.tournament_name@))]),
            ),
            (
                "score"@,
                JsonV::Object(
                    seq![
                        (
                            "1"@,
                            JsonV::Object(
                                seq![
                                    ("best_of"@, num_json(req.best_of as u64)),
                                    ("match"@, JsonV::Str(req.round_text@)),
                                    ("phase"@, JsonV::Str(req.event_name@)),
                                    (
                                        "team"@,
                                        JsonV::Object(
                                            seq![
                                                ("1"@, team_json(req.player1.score, p1)),
                                                ("2"@, team_json(req.player2.score, p2)),
                                            ],
                                        ),
                                    ),
                                ],
                            ),
                        ),
                    ],
                ),
            ),
        ],
    )
}

fn one_member(key: &str, v: Json) -> (r: Json)
    ensures
        r@ == JsonV::Object(seq![(key@, v@)]),
{
    let mut ms: Vec<(String, Json)> = Vec::new();
    ms.push(entry(key, v));
    let ghost mv = ms@;
    let r = object_of(ms);
    assert(members_view(mv) =~= seq![(key@, v@)]);
    r
}

fn two_members(k1: &str, v1: Json, k2: &str, v2: Json) -> (r: Json)
    ensures
        r@ == JsonV::Object(seq![(k1@, v1@), (k2@, v2@)]),
{
    let mut ms: Vec<(String, Json)> = Vec::new();
    ms.push(entry(k1, v1));
    ms.push(entry(k2, v2));
    let ghost mv = ms@;
    let r = object_of(ms);
    assert(members_view(mv) =~= seq![(k1@, v1@), (k2@, v2@)]);
    r
}

fn team_value(score: u32, player: Json) -> (r: Json)
    ensures
        r@ == team_json(score, player@),
{
    two_members("score", num_value(score as u64), "player", one_member("1", player))
}

fn opt_str_value(o: &Option<String>) -> (r: Json)
    ensures
        r@ == opt_str_json(*o),
{
    match o {
        Some(s) => Json::Str(s.clone()),
        None => Json::Null,
    }
}

fn generic_player_value(p: &OverlayPlayer) -> (r: Json)
    ensures
        r@ == generic_player_json(*p),
{
    let mut ms: Vec<(String, Json)> = Vec::new();
    ms.push(entry("name", Json::Str(p.name.clone())));
    ms.push(entry("character", opt_str_value(&p.character)));
    ms.push(entry("characterIcon", opt_str_value(&p.character_icon)));
    ms.push(entry("score", num_value(p.score as u64)));
    ms.push(entry("avatarUrl", opt_str_value(&p.avatar_url)));
    let ghost mv = ms@;
    let r = object_of(ms);
    assert(members_view(mv) =~= (match generic_player_json(*p) {
        JsonV::Object(s) => s,
        _ => Seq::empty(),
    }));
    r
}

/// The generic `set` block of a request.
pub fn set_block(request: &WriteOverlayRequest) -> (r: Json)
    ensures
        r@ == set_block_json(*request),
{
    let mut ms: Vec<(String, Json)> = Vec::new();
    ms.push(entry("tournamentName", Json::Str(request.tournament_name.clone())));
    ms.push(entry("eventName", Json::Str(request.event_name.clone())));
    ms.push(entry("roundText", Json::Str(request.round_text.clone())));
    ms.push(entry("bestOf", num_value(request.best_of as u64)));
    ms.push(entry("player1", generic_player_value(&request.player1)));
    ms.push(entry("player2", generic_player_value(&request.player2)));
    let ghost mv = ms@;
    let r = object_of(ms);
    assert(members_view(mv) =~= (match set_block_json(*request) {
        JsonV::Object(s) => s,
        _ => Seq::empty(),
    }));
    r
}

/// The scoreboard for a request, with each player's staged character entry.
/// The caller adds the time stamp.
pub fn overlay_payload(
    request: &WriteOverlayRequest,
    player1_character: Option<Json>,
    player2_character: Option<Json>,
) -> (r: Json)
    ensures
        r@ == overlay_json(
            *request,
            player_json(
                request.player1,
                match player1_character {
                    Some(c) => Some(c@),
                    None => None,
                },
            ),
            player_json(
                request.player2,
                match player2_character {
                    Some(c) => Some(c@),
                    None => None,
                },
            ),
        ),
{
    let p1 = player_payload(&request.player1, player1_character);
    let p2 = player_payload(&request.player2, player2_character);
    let ghost (v1, v2) = (p1@, p2@);
    let teams = two_members(
        "1",
        team_value(request.player1.score, p1),
        "2",
        team_value(request.player2.score, p2),
    );
    let mut score1: Vec<(String, Json)> = Vec::new();
    score1.push(entry("best_of", num_value(request.best_of as u64)));
    score1.push(entry("match", Json::Str(request.round_text.clone())));
    score1.push(entry("phase", Json::Str(request.event_name.clone())));
    score1.push(entry("team", teams));
    let ghost sv = score1@;
    let score1 = object_of(score1);
    assert(members_view(sv) =~= seq![
        ("best_of"@, num_json(request.best_of as u64)),
        ("match"@, JsonV::Str(request.round_text@)),
        ("phase"@, JsonV::Str(request.event_name@)),
        (
            "team"@,
            JsonV::Object(
                seq![
                    ("1"@, team_json(request.player1.score, v1)),
                    ("2"@, team_json(request.player2.score, v2)),
                ],
            ),
        ),
    ]);
    let info = one_member("tournamentName", Json::Str(request.tournament_name.clone()));
    let set = set_block(request);
    let mut top: Vec<(String, Json)> = Vec::new();
    top.push(entry("set", set));
    top.push(entry("tournamentInfo", info));
    top.push(entry("score", one_member("1", score1)));
    let ghost tv = top@;
    let r = object_of(top);
    assert(members_view(tv) =~= seq![
        ("set"@, tv[0].1@),
        ("tournamentInfo"@, tv[1].1@),
        ("score"@, tv[2].1@),
    ]);
    r
}

/// The file the scoreboard goes to: the request's path without surrounding
/// white space, which must not be empty.
pub fn overlay_output_path(output_path: &str) -> (r: Result<String, String>)
    ensures
        match r {
            Ok(p) => p@ == trim(output_path@) && p@.len() > 0,
            Err(e) => trim(output_path@).len() == 0 && e@ == "Overlay output path is empty"@,
        },
{
    if crate::text::is_blank(output_path) {
        Err(owned("Overlay output path is empty"))
    } else {
        Ok(trim_string(output_path))
    }
}

} // verus!
