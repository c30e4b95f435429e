//! The start.gg GraphQL exchange: what is asked, and what the answers mean.
use vstd::prelude::*;
use std::collections::HashMap;
use crate::json::{
    array_opt, as_str, get, get_opt, members_view, oview, pointer, str_opt, Json, JsonNumber,
    JsonV,
};
use crate::fields::{parse_u64, u64_of};
use crate::model::{ostr, GameCharacter};
use crate::paging::SetsLocation;
use crate::text::{
    chars_of, decimal, decimal_string, is_blank, join, owned, push_decimal, push_joined_with,
    push_str, str_eq, trim,
};
use serde_json::Value;

verus! {

broadcast use vstd::std_specs::hash::group_hash_axioms;

// ---------------------------------------------------------------------------
// Responses
// ---------------------------------------------------------------------------

/// The message of one GraphQL error.
pub open spec fn error_message(e: JsonV) -> Seq<char> {
    match str_opt(get(e, "message"@)) {
        Some(m) => m,
        None => "Unknown GraphQL error"@,
    }
}

pub open spec fn error_messages(errs: Seq<JsonV>) -> Seq<Seq<char>> {
    errs.map_values(|e: JsonV| error_message(e))
}

/// What a start.gg response means: an HTTP failure; a body that is not JSON;
/// GraphQL errors (their messages joined); or the `data` field.
pub open spec fn graphql_result(
    status: u16,
    body: Seq<char>,
    parsed: Result<JsonV, Seq<char>>,
) -> Result<JsonV, Seq<char>> {
    if !(200 <= status && status < 300) {
        Err("start.gg returned HTTP "@ + decimal(status as nat) + ": "@ + body)
    } else {
        match parsed {
            Err(e) => Err("Invalid JSON from start.gg: "@ + e),
            Ok(payload) => match array_opt(get(payload, "errors"@)) {
                Some(errs) if errs.len() > 0 => Err(
                    "start.gg GraphQL error: "@ + join(error_messages(errs), " | "@),
                ),
                _ => match get(payload, "data"@) {
                    Some(d) => Ok(d),
                    None => Err("start.gg response did not include a data field"@),
                },
            },
        }
    }
}

pub open spec fn json_result(r: Result<Json, String>) -> Result<JsonV, Seq<char>> {
    match r {
        Ok(j) => Ok(j@),
        Err(e) => Err(e@),
    }
}

fn error_message_exec(e: &Json) -> (r: Vec<char>)
    ensures
        r@ == error_message(e@),
{
    let m = match e.get("message") {
        Some(m) => m.as_str(),
        None => None,
    };
    match m {
        Some(s) => chars_of(s),
        None => chars_of("Unknown GraphQL error"),
    }
}

/// Reads a start.gg response: its HTTP status, its body, and the body parsed
/// as JSON (or the parser's error message).
pub fn interpret_graphql_response(status: u16, body: &str, parsed: Result<Json, String>) -> (r:
    Result<Json, String>)
    ensures
        json_result(r) == graphql_result(status, body@, json_result(parsed)),
{
    if !(200 <= status && status < 300) {
        let mut m = owned("start.gg returned HTTP ");
        push_decimal(&mut m, status as u64);
        push_str(&mut m, ": ");
        push_str(&mut m, body);
        return Err(m);
    }
    let payload = match parsed {
        Err(e) => {
            let mut m = owned("Invalid JSON from start.gg: ");
            push_str(&mut m, e.as_str());
            return Err(m);
        },
        Ok(p) => p,
    };
    let errors = match payload.get("errors") {
        Some(e) => e.as_array(),
        None => None,
    };
    match errors {
        Some(errs) => {
            if errs.len() > 0 {
                let ghost ev = errs@.map_values(|j: Json| j@);
                let mut pieces: Vec<Vec<char>> = Vec::new();
                let mut i: usize = 0;
                while i < errs.len()
                    invariant
                        i <= errs@.len(),
                        ev == errs@.map_values(|j: Json| j@),
                        pieces@.len() == i,
                        forall|k: int|
                            0 <= k < i ==> (#[trigger] pieces@[k])@ == error_message(ev[k]),
                    decreases errs@.len() - i,
                {
                    pieces.push(error_message_exec(&errs[i]));
                    i = i + 1;
                }
                assert(pieces@.map_values(|p: Vec<char>| p@) =~= error_messages(ev));
                let mut m = owned("start.gg GraphQL error: ");
                let sep = chars_of(" | ");
                push_joined_with(&mut m, &pieces, &sep);
                return Err(m);
            }
        },
        None => {},
    }
    match payload.get("data") {
        Some(d) => Ok(d.clone()),
        None => Err(owned("start.gg response did not include a data field")),
    }
}

// ---------------------------------------------------------------------------
// Parsing the body
// ---------------------------------------------------------------------------

#[verifier::external_type_specification]
#[verifier::external_body]
pub struct ExJsonValue(serde_json::Value);

/// What serde_json's parser makes of a text: the document, or its error
/// message. It depends on the text alone.
pub uninterp spec fn parsed_json(text: Seq<char>) -> Result<JsonV, Seq<char>>;

/// A parsed serde_json document as the library's own `Json`: one variant for
/// one variant, members in the parsed map's order; a number that is neither a
/// `u64` nor an `i64` keeps no value.
/// Trusted: used only by `parse_json_text`, whose contract covers it.
#[verifier::external_body]
fn json_of_value(v: &Value) -> Json {
    match v {
        Value::Null => Json::Null,
        Value::Bool(b) => Json::Bool(*b),
        Value::Number(n) => Json::Number(match (n.as_u64(), n.as_i64()) {
            (Some(u), _) => JsonNumber::PosInt(u),
            (None, Some(i)) => JsonNumber::NegInt(i),
            _ => JsonNumber::Float,
        }),
        Value::String(t) => Json::Str(t.clone()),
        Value::Array(a) => Json::Array(a.iter().map(json_of_value).collect()),
        Value::Object(m) => Json::Object(m.iter().map(|(k, x)| (k.clone(), json_of_value(x))).collect()),
    }
}

/// Parses a text as JSON.
/// Trusted: serde_json's `from_str::<Value>`; its result, converted to
/// `Json`, or its error's message, is named `parsed_json` of the text.
#[verifier::external_body]
fn parse_json_text(text: &str) -> (r: Result<Json, String>)
    ensures
        json_result(r) == parsed_json(text@),
{
    serde_json::from_str::<Value>(text).map(|v| json_of_value(&v)).map_err(|e| e.to_string())
}

/// Reads a start.gg response from its HTTP status and body text: an HTTP
/// failure; a body that is not JSON; GraphQL errors; or the `data` field.
pub fn read_graphql_response(status: u16, body: &str) -> (r: Result<Json, String>)
    ensures
        json_result(r) == graphql_result(status, body@, parsed_json(body@)),
{
    if !(200 <= status && status < 300) {
        return interpret_graphql_response(status, body, Err(String::new()));
    }
    let parsed = parse_json_text(body);
    interpret_graphql_response(status, body, parsed)
}

// ---------------------------------------------------------------------------
// Requests
// ---------------------------------------------------------------------------

pub open spec fn missing_token(token: Seq<char>) -> bool {
    trim(token).len() == 0
}

/// Every request needs an API token that is not blank.
pub fn require_api_token(api_token: &str) -> (r: Result<(), String>)
    ensures
        r is Ok <==> !missing_token(api_token@),
        r matches Err(e) ==> e@ == "Missing start.gg API token"@,
{
    if is_blank(api_token) {
        Err(owned("Missing start.gg API token"))
    } else {
        Ok(())
    }
}

pub open spec fn str_json(s: Seq<char>) -> JsonV {
    JsonV::Str(s)
}

pub open spec fn num_json(n: u64) -> JsonV {
    JsonV::Number(JsonNumber::PosInt(n))
}

pub fn str_value(s: &str) -> (r: Json)
    ensures
        r@ == str_json(s@),
{
    Json::Str(owned(s))
}

pub fn num_value(n: u64) -> (r: Json)
    ensures
        r@ == num_json(n),
{
    Json::Number(JsonNumber::PosInt(n))
}

/// An object with one member.
pub fn object1(k: &str, v: Json) -> (r: Json)
    ensures
        r@ == JsonV::Object(seq![(k@, v@)]),
{
    let mut ms: Vec<(String, Json)> = Vec::new();
    ms.push((owned(k), v));
    let r = Json::Object(ms);
    assert(r@ matches JsonV::Object(s) && s =~= seq![(k@, v@)]);
    r
}

/// An object with two members.
pub fn object2(k1: &str, v1: Json, k2: &str, v2: Json) -> (r: Json)
    ensures
        r@ == JsonV::Object(seq![(k1@, v1@), (k2@, v2@)]),
{
    let mut ms: Vec<(String, Json)> = Vec::new();
    ms.push((owned(k1), v1));
    ms.push((owned(k2), v2));
    let r = Json::Object(ms);
    assert(r@ matches JsonV::Object(s) && s =~= seq![(k1@, v1@), (k2@, v2@)]);
    r
}

/// An object with three members.
pub fn object3(k1: &str, v1: Json, k2: &str, v2: Json, k3: &str, v3: Json) -> (r: Json)
    ensures
        r@ == JsonV::Object(seq![(k1@, v1@), (k2@, v2@), (k3@, v3@)]),
{
    let mut ms: Vec<(String, Json)> = Vec::new();
    ms.push((owned(k1), v1));
    ms.push((owned(k2), v2));
    ms.push((owned(k3), v3));
    let r = Json::Object(ms);
    assert(r@ matches JsonV::Object(s) && s =~= seq![(k1@, v1@), (k2@, v2@), (k3@, v3@)]);
    r
}

// ---------------------------------------------------------------------------
// Characters
// ---------------------------------------------------------------------------

pub const VIDEOGAME_CHARACTERS_QUERY: &'static str = "
        query VideogameCharacters($id: ID!) {
          videogame(id: $id) {
            characters {
              id
              name
            }
          }
        }
    ";

/// `{ "id": "<videogame id>" }`.
pub fn characters_variables(videogame_id: u64) -> (r: Json)
    ensures
        r@ == JsonV::Object(seq![("id"@, str_json(decimal(videogame_id as nat)))]),
{
    object1("id", Json::Str(decimal_string(videogame_id)))
}

/// One roster entry: an id (a number, or a string holding one) and a string
/// name.
pub open spec fn character_of(c: JsonV) -> Option<(u64, Seq<char>)> {
    match get(c, "id"@) {
        Some(idv) => match u64_of(idv) {
            Some(id) => match str_opt(get(c, "name"@)) {
                Some(n) => Some((id, n)),
                None => None,
            },
            None => None,
        },
        None => None,
    }
}

pub open spec fn characters_from(cs: Seq<JsonV>) -> Seq<(u64, Seq<char>)>
    decreases cs.len(),
{
    if cs.len() == 0 {
        Seq::empty()
    } else {
        characters_from(cs.drop_last()) + match character_of(cs.last()) {
            Some(c) => seq![c],
            None => Seq::empty(),
        }
    }
}

/// A videogame's roster in a `characters` response; entries without an id or
/// a name are skipped.
pub open spec fn roster_of(data: JsonV) -> Result<Seq<(u64, Seq<char>)>, Seq<char>> {
    match array_opt(get_opt(get(data, "videogame"@), "characters"@)) {
        Some(cs) => Ok(characters_from(cs)),
        None => Err("start.gg response did not include characters"@),
    }
}

pub open spec fn characters_view(cs: Seq<GameCharacter>) -> Seq<(u64, Seq<char>)> {
    cs.map_values(|c: GameCharacter| (c.id, c.name@))
}

fn character_exec(c: &Json) -> (r: Option<GameCharacter>)
    ensures
        match r {
            Some(g) => character_of(c@) == Some((g.id, g.name@)),
            None => character_of(c@) is None,
        },
{
    let idv = match c.get("id") {
        Some(v) => v,
        None => {
            return None;
        },
    };
    let id = match parse_u64(idv) {
        Some(id) => id,
        None => {
            return None;
        },
    };
    let name = match c.get("name") {
        Some(n) => n.as_str(),
        None => None,
    };
    match name {
        Some(n) => Some(GameCharacter { id, name: owned(n) }),
        None => None,
    }
}

pub fn parse_videogame_characters(data: &Json) -> (r: Result<Vec<GameCharacter>, String>)
    ensures
        match r {
            Ok(cs) => roster_of(data@) == Ok::<Seq<(u64, Seq<char>)>, Seq<char>>(
                characters_view(cs@),
            ),
            Err(e) => roster_of(data@) == Err::<Seq<(u64, Seq<char>)>, Seq<char>>(e@),
        },
{
    let vg = data.get("videogame");
    let cs = match vg {
        Some(v) => match v.get("characters") {
            Some(c) => c.as_array(),
            None => None,
        },
        None => None,
    };
    let cs = match cs {
        Some(c) => c,
        None => {
            return Err(owned("start.gg response did not include characters"));
        },
    };
    let ghost cv = cs@.map_values(|j: Json| j@);
    let mut out: Vec<GameCharacter> = Vec::new();
    let mut i: usize = 0;
    while i < cs.len()
        invariant
            i <= cs@.len(),
            cv == cs@.map_values(|j: Json| j@),
            characters_view(out@) == characters_from(cv.take(i as int)),
        decreases cs@.len() - i,
    {
        assert(cv.take(i + 1).drop_last() =~= cv.take(i as int));
        assert(cv.take(i + 1).last() == cs@[i as int]@);
        let ghost before = out@;
        match character_exec(&cs[i]) {
            Some(g) => {
                out.push(g);
                assert(characters_view(out@) =~= characters_view(before).push(
                    (out@.last().id, out@.last().name@),
                ));
            },
            None => {},
        }
        i = i + 1;
        assert(characters_view(out@) =~= characters_from(cv.take(i as int)));
    }
    assert(cv.take(cs@.len() as int) =~= cv);
    Ok(out)
}

/// The roster a characters request gave: its error, or the roster read
/// from its data.
pub fn videogame_characters_from(fetched: Result<Json, String>) -> (r: Result<Vec<GameCharacter>, String>)
    ensures
        match fetched {
            Err(e) => r matches Err(x) && x@ == e@,
            Ok(d) => match r {
                Ok(cs) => roster_of(d@) == Ok::<Seq<(u64, Seq<char>)>, Seq<char>>(characters_view(cs@)),
                Err(e) => roster_of(d@) == Err::<Seq<(u64, Seq<char>)>, Seq<char>>(e@),
            },
        },
{
    match fetched {
        Err(e) => Err(e),
        Ok(d) => parse_videogame_characters(&d),
    }
}

/// The roster as a map from id to name; a later entry with the same id wins.
pub open spec fn roster_map(cs: Seq<GameCharacter>) -> Map<u64, String>
    decreases cs.len(),
{
    if cs.len() == 0 {
        Map::empty()
    } else {
        roster_map(cs.drop_last()).insert(cs.last().id, cs.last().name)
    }
}

/// The character names of a roster fetch; a failed fetch gives no names.
pub fn character_names_from(fetched: Result<Vec<GameCharacter>, String>) -> (r: HashMap<u64, String>)
    ensures
        match fetched {
            Ok(cs) => r@ == roster_map(cs@),
            Err(_) => r@ == Map::<u64, String>::empty(),
        },
{
    let mut m: HashMap<u64, String> = HashMap::new();
    match fetched {
        Ok(cs) => {
            let mut i: usize = 0;
            while i < cs.len()
                invariant
                    i <= cs@.len(),
                    m@ == roster_map(cs@.take(i as int)),
                decreases cs@.len() - i,
            {
                assert(cs@.take(i + 1).drop_last() =~= cs@.take(i as int));
                m.insert(cs[i].id, cs[i].name.clone());
                i = i + 1;
            }
            assert(cs@.take(cs@.len() as int) =~= cs@);
            m
        },
        Err(_) => m,
    }
}

/// The rosters fetched so far, by videogame.
pub struct CharacterCache {
    pub rosters: HashMap<u64, HashMap<u64, String>>,
}

/// An empty roster cache.
pub fn character_cache() -> (c: CharacterCache)
    ensures
        c.rosters@ == Map::<u64, HashMap<u64, String>>::empty(),
{
    CharacterCache { rosters: HashMap::new() }
}

impl CharacterCache {
    /// The cached roster of a videogame.
    pub fn lookup(&self, videogame_id: u64) -> (r: Option<HashMap<u64, String>>)
        ensures
            match r {
                Some(m) => self.rosters@.contains_key(videogame_id) && m@ == self.rosters@[videogame_id]@,
                None => !self.rosters@.contains_key(videogame_id),
            },
    {
        match self.rosters.get(&videogame_id) {
            Some(m) => Some(m.clone()),
            None => None,
        }
    }

    /// Keeps a fetched roster, unless it is empty (a failed fetch is retried
    /// on the next load).
    pub fn remember(&mut self, videogame_id: u64, roster: HashMap<u64, String>)
        ensures
            roster@.len() == 0 ==> final(self).rosters@ == old(self).rosters@,
            roster@.len() > 0 ==> final(self).rosters@ == old(self).rosters@.insert(
                videogame_id,
                roster,
            ),
    {
        if roster.len() > 0 {
            self.rosters.insert(videogame_id, roster);
        }
    }
}

/// Where the names for a videogame come from.
pub enum NamesLookup {
    /// These names (none for an unknown videogame, or the cached roster).
    Ready(HashMap<u64, String>),
    /// Fetch this videogame's roster.
    Fetch(u64),
}

pub open spec fn fetched_names(fetched: Result<Vec<GameCharacter>, String>) -> Map<u64, String> {
    match fetched {
        Ok(cs) => roster_map(cs@),
        Err(_) => Map::empty(),
    }
}

impl CharacterCache {
    /// The names for a videogame: none when it is unknown, the cached roster
    /// when there is one, else a fetch.
    pub fn names_for(&self, videogame_id: Option<u64>) -> (r: NamesLookup)
        ensures
            match videogame_id {
                None => r matches NamesLookup::Ready(m) && m@ == Map::<u64, String>::empty(),
                Some(id) => if self.rosters@.contains_key(id) {
                    r matches NamesLookup::Ready(m) && m@ == self.rosters@[id]@
                } else {
                    r matches NamesLookup::Fetch(i) && i == id
                },
            },
    {
        match videogame_id {
            None => NamesLookup::Ready(HashMap::new()),
            Some(id) => match self.lookup(id) {
                Some(m) => NamesLookup::Ready(m),
                None => NamesLookup::Fetch(id),
            },
        }
    }

    /// The names of a fetched roster (none when the fetch failed), kept for
    /// later loads when there are any.
    pub fn roster_fetched(&mut self, videogame_id: u64, fetched: Result<Vec<GameCharacter>, String>) -> (r:
        HashMap<u64, String>)
        ensures
            r@ == fetched_names(fetched),
            r@.len() == 0 ==> final(self).rosters@ == old(self).rosters@,
            r@.len() > 0 ==> final(self).rosters@.contains_key(videogame_id)
                && final(self).rosters@[videogame_id]@ == r@ && final(self).rosters@
                == old(self).rosters@.insert(videogame_id, final(self).rosters@[videogame_id]),
    {
        let names = character_names_from(fetched);
        let kept = names.clone();
        self.remember(videogame_id, kept);
        names
    }
}

} // verus!
