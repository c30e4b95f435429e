//! Profile pictures of the entrants on stream.
use vstd::prelude::*;
use std::collections::HashMap;
use crate::json::{array_opt, get, pointer, str_opt, Json, JsonV};
use crate::fetching::response_view;
use crate::fields::{parse_u64, u64_of};
use crate::model::{ostr, EntrantAvatars};
use crate::text::{chars_of, decimal, join, owned, push_decimal, push_joined_with, push_str};

verus! {

broadcast use vstd::std_specs::hash::group_hash_axioms;

// ---------------------------------------------------------------------------
// Choosing an image
// ---------------------------------------------------------------------------

pub open spec fn is_profile(img: JsonV) -> bool {
    str_opt(get(img, "type"@)) == Some("profile"@)
}

/// The first image from position `i` on that is typed "profile".
pub open spec fn first_profile_from(imgs: Seq<JsonV>, i: int) -> Option<int>
    decreases imgs.len() - i,
{
    if i < 0 || i >= imgs.len() {
        None
    } else if is_profile(imgs[i]) {
        Some(i)
    } else {
        first_profile_from(imgs, i + 1)
    }
}

/// The first "profile" image, or else the first image.
pub open spec fn chosen_image(imgs: Seq<JsonV>) -> Option<JsonV> {
    match first_profile_from(imgs, 0) {
        Some(i) => Some(imgs[i]),
        None => if imgs.len() > 0 {
            Some(imgs[0])
        } else {
            None
        },
    }
}

/// The URL of the chosen image, when it has one.
pub open spec fn best_image(images: Option<Seq<JsonV>>) -> Option<Seq<char>> {
    match images {
        Some(imgs) => match chosen_image(imgs) {
            Some(c) => str_opt(get(c, "url"@)),
            None => None,
        },
        None => None,
    }
}

proof fn lemma_first_profile_in_range(imgs: Seq<JsonV>, i: int)
    ensures
        match first_profile_from(imgs, i) {
            Some(k) => i <= k < imgs.len() && is_profile(imgs[k]),
            None => true,
        },
    decreases imgs.len() - i,
{
    if 0 <= i < imgs.len() && !is_profile(imgs[i]) {
        lemma_first_profile_in_range(imgs, i + 1);
    }
}

pub open spec fn json_views(v: Seq<Json>) -> Seq<JsonV> {
    v.map_values(|j: Json| j@)
}

fn first_profile_index(imgs: &Vec<Json>) -> (r: Option<usize>)
    ensures
        match r {
            Some(k) => first_profile_from(json_views(imgs@), 0) == Some(k as int) && k < imgs@.len(),
            None => first_profile_from(json_views(imgs@), 0) is None,
        },
{
    let ghost iv = json_views(imgs@);
    proof {
        lemma_first_profile_in_range(iv, 0);
    }
    let mut i: usize = 0;
    while i < imgs.len()
        invariant
            i <= imgs@.len(),
            iv == json_views(imgs@),
            first_profile_from(iv, 0) == first_profile_from(iv, i as int),
        decreases imgs@.len() - i,
    {
        assert(iv[i as int] == imgs@[i as int]@);
        let t = match imgs[i].get("type") {
            Some(t) => t.as_str(),
            None => None,
        };
        let profile = match t {
            Some(s) => crate::text::str_eq(s, "profile"),
            None => false,
        };
        if profile {
            return Some(i);
        }
        i = i + 1;
    }
    None
}

/// Prefers an image typed "profile", otherwise the first one.
pub fn best_image_url(images: Option<&Vec<Json>>) -> (r: Option<String>)
    ensures
        ostr(r) == best_image(array_view(images)),
{
    let imgs = match images {
        Some(v) => v,
        None => {
            return None;
        },
    };
    let ghost iv = json_views(imgs@);
    proof {
        lemma_first_profile_in_range(iv, 0);
    }
    let c = match first_profile_index(imgs) {
        Some(k) => {
            assert(first_profile_from(iv, 0) == Some(k as int));
            assert(iv[k as int] == imgs@[k as int]@);
            &imgs[k]
        },
        None => {
            if imgs.len() == 0 {
                return None;
            }
            assert(iv[0] == imgs@[0]@);
            &imgs[0]
        },
    };
    assert(chosen_image(iv) == Some(c@));
    assert(array_view(images) == Some(iv));
    let u = match c.get("url") {
        Some(u) => u.as_str(),
        None => None,
    };
    match u {
        Some(s) => Some(owned(s)),
        None => None,
    }
}

/// A participant's picture: the picture of their user account first, then
/// one given for this tournament.
pub open spec fn participant_image(p: JsonV) -> Option<Seq<char>> {
    match best_image(array_opt(pointer(p, "/player/user/images"@))) {
        Some(u) => Some(u),
        None => best_image(array_opt(get(p, "images"@))),
    }
}

/// The first participant from position `i` on that has a picture.
pub open spec fn first_participant_image_from(ps: Seq<JsonV>, i: int) -> Option<Seq<char>>
    decreases ps.len() - i,
{
    if i < 0 || i >= ps.len() {
        None
    } else {
        match participant_image(ps[i]) {
            Some(u) => Some(u),
            None => first_participant_image_from(ps, i + 1),
        }
    }
}

pub open spec fn entrant_image(entrant: JsonV) -> Option<Seq<char>> {
    match array_opt(get(entrant, "participants"@)) {
        Some(ps) => first_participant_image_from(ps, 0),
        None => None,
    }
}

pub open spec fn array_view(o: Option<&Vec<Json>>) -> Option<Seq<JsonV>> {
    match o {
        Some(v) => Some(json_views(v@)),
        None => None,
    }
}

fn array_at<'a>(j: Option<&'a Json>) -> (r: Option<&'a Vec<Json>>)
    ensures
        array_view(r) == array_opt(
            match j {
                Some(v) => Some(v@),
                None => None,
            },
        ),
{
    match j {
        Some(v) => {
            let r = v.as_array();
            proof {
                match r {
                    Some(a) => {
                        assert(a@.map_values(|x: Json| x@) =~= (match v@ {
                            JsonV::Array(s) => s,
                            _ => Seq::empty(),
                        }));
                    },
                    None => {},
                }
            }
            r
        },
        None => None,
    }
}

/// The picture of the first participant of an entrant that has one.
pub fn best_participant_image_url(entrant: &Json) -> (r: Option<String>)
    ensures
        ostr(r) == entrant_image(entrant@),
{
    let ps = match array_at(entrant.get("participants")) {
        Some(ps) => ps,
        None => {
            return None;
        },
    };
    let ghost pv = ps@.map_values(|j: Json| j@);
    let mut i: usize = 0;
    while i < ps.len()
        invariant
            i <= ps@.len(),
            pv == ps@.map_values(|j: Json| j@),
            entrant_image(entrant@) == first_participant_image_from(pv, i as int),
        decreases ps@.len() - i,
    {
        assert(pv[i as int] == ps@[i as int]@);
        let user = best_image_url(array_at(ps[i].pointer("/player/user/images")));
        if user.is_some() {
            return user;
        }
        let own = best_image_url(array_at(ps[i].get("images")));
        if own.is_some() {
            return own;
        }
        i = i + 1;
    }
    None
}

// ---------------------------------------------------------------------------
// The request
// ---------------------------------------------------------------------------

/// The aliased field that asks for one entrant's pictures.
pub open spec fn avatar_field(i: nat, id: u64) -> Seq<char> {
    "e"@ + decimal(i) + ": entrant(id: "@ + decimal(id as nat)
        + ") { id participants { images { type url } player { user { images { type url } } } } }"@
}

pub open spec fn avatar_fields(ids: Seq<u64>) -> Seq<Seq<char>> {
    Seq::new(ids.len(), |i: int| avatar_field(i as nat, ids[i]))
}

/// One query for every entrant, one aliased field each.
pub open spec fn avatar_query(ids: Seq<u64>) -> Seq<char> {
    "query EntrantAvatars { "@ + join(avatar_fields(ids), "\n"@) + " }"@
}

fn avatar_field_exec(i: usize, id: u64) -> (r: Vec<char>)
    ensures
        r@ == avatar_field(i as nat, id),
{
    let mut s = owned("e");
    push_decimal(&mut s, i as u64);
    push_str(&mut s, ": entrant(id: ");
    push_decimal(&mut s, id);
    push_str(
        &mut s,
        ") { id participants { images { type url } player { user { images { type url } } } } }",
    );
    chars_of(s.as_str())
}

/// The query for the pictures of `ids`, with its (empty) variables; no
/// request is made for no entrant.
pub fn avatar_request(ids: &Vec<u64>) -> (r: Option<(String, Json)>)
    ensures
        match r {
            Some((q, v)) => ids@.len() > 0 && q@ == avatar_query(ids@) && v@ == JsonV::Object(
                Seq::empty(),
            ),
            None => ids@.len() == 0,
        },
{
    if ids.len() == 0 {
        return None;
    }
    let mut pieces: Vec<Vec<char>> = Vec::new();
    let mut i: usize = 0;
    while i < ids.len()
        invariant
            i <= ids@.len(),
            pieces@.len() == i,
            forall|k: int| 0 <= k < i ==> (#[trigger] pieces@[k])@ == avatar_field(k as nat, ids@[k]),
        decreases ids@.len() - i,
    {
        pieces.push(avatar_field_exec(i, ids[i]));
        i = i + 1;
    }
    assert(pieces@.map_values(|p: Vec<char>| p@) =~= avatar_fields(ids@));
    let mut q = owned("query EntrantAvatars { ");
    let sep = chars_of("\n");
    push_joined_with(&mut q, &pieces, &sep);
    push_str(&mut q, " }");
    let v = Json::Object(Vec::new());
    assert(v@ matches JsonV::Object(s) && s =~= Seq::<(Seq<char>, JsonV)>::empty());
    Some((q, v))
}

// ---------------------------------------------------------------------------
// The answer
// ---------------------------------------------------------------------------

/// An entrant's id and picture, when it has both.
pub open spec fn entrant_avatar(e: JsonV) -> Option<(u64, Seq<char>)> {
    match get(e, "id"@) {
        Some(idv) => match u64_of(idv) {
            Some(id) => match entrant_image(e) {
                Some(u) => Some((id, u)),
                None => None,
            },
            None => None,
        },
        None => None,
    }
}

/// The pictures of the entrants among the members, by id; a later member
/// with the same id wins.
pub open spec fn avatar_entries(ms: Seq<(Seq<char>, JsonV)>) -> Map<u64, Seq<char>>
    decreases ms.len(),
{
    if ms.len() == 0 {
        Map::empty()
    } else {
        let m = avatar_entries(ms.drop_last());
        match entrant_avatar(ms.last().1) {
            Some((id, u)) => m.insert(id, u),
            None => m,
        }
    }
}

/// The pictures a request found; a failed request, or data that is not an
/// object, finds none.
pub open spec fn avatar_urls(fetched: Result<JsonV, Seq<char>>) -> Map<u64, Seq<char>> {
    match fetched {
        Ok(JsonV::Object(ms)) => avatar_entries(ms),
        _ => Map::empty(),
    }
}

pub open spec fn urls_match(r: Map<u64, String>, m: Map<u64, Seq<char>>) -> bool {
    &&& r.dom() == m.dom()
    &&& forall|k: u64| #[trigger] r.contains_key(k) ==> r[k]@ == m[k]
}

pub fn avatar_urls_from(fetched: Result<Json, String>) -> (r: HashMap<u64, String>)
    ensures
        urls_match(r@, avatar_urls(response_view(fetched))),
{
    let mut out: HashMap<u64, String> = HashMap::new();
    let ms = match &fetched {
        Ok(Json::Object(ms)) => ms,
        _ => {
            assert(out@.dom() =~= Map::<u64, Seq<char>>::empty().dom());
            return out;
        },
    };
    let ghost mv = crate::json::members_view(ms@);
    assert(response_view(fetched) == Ok::<JsonV, Seq<char>>(JsonV::Object(mv))) by {
        assert(mv =~= (match response_view(fetched) {
            Ok(JsonV::Object(s)) => s,
            _ => mv,
        }));
    }
    let mut i: usize = 0;
    assert(out@.dom() =~= avatar_entries(mv.take(0)).dom());
    while i < ms.len()
        invariant
            i <= ms@.len(),
            mv == crate::json::members_view(ms@),
            urls_match(out@, avatar_entries(mv.take(i as int))),
        decreases ms@.len() - i,
    {
        assert(mv.take(i + 1).drop_last() =~= mv.take(i as int));
        assert(mv.take(i + 1).last() == mv[i as int]);
        let e = &ms[i].1;
        let id = match e.get("id") {
            Some(v) => parse_u64(v),
            None => None,
        };
        match id {
            Some(id) => {
                match best_participant_image_url(e) {
                    Some(u) => {
                        let ghost before = out@;
                        out.insert(id, u);
                        assert(out@.dom() =~= avatar_entries(mv.take(i + 1)).dom());
                    },
                    None => {},
                }
            },
            None => {},
        }
        i = i + 1;
    }
    assert(mv.take(ms@.len() as int) =~= mv);
    out
}

/// The entrants whose pictures are asked for: player 1's, then player 2's.
pub fn entrant_ids_of(player1: Option<u64>, player2: Option<u64>) -> (r: Vec<u64>)
    ensures
        r@ == (match player1 {
            Some(a) => seq![a],
            None => Seq::empty(),
        }) + (match player2 {
            Some(b) => seq![b],
            None => Seq::empty(),
        }),
{
    let mut r: Vec<u64> = Vec::new();
    match player1 {
        Some(a) => r.push(a),
        None => {},
    }
    match player2 {
        Some(b) => r.push(b),
        None => {},
    }
    assert(r@ =~= (match player1 {
        Some(a) => seq![a],
        None => Seq::empty(),
    }) + (match player2 {
        Some(b) => seq![b],
        None => Seq::empty(),
    }));
    r
}

/// The picture found for an entrant, if any.
pub open spec fn avatar_for(id: Option<u64>, urls: Map<u64, String>) -> Option<Seq<char>> {
    match id {
        Some(i) => if urls.contains_key(i) {
            Some(urls[i]@)
        } else {
            None
        },
        None => None,
    }
}

fn avatar_lookup(id: Option<u64>, urls: &HashMap<u64, String>) -> (r: Option<String>)
    ensures
        ostr(r) == avatar_for(id, urls@),
{
    match id {
        Some(i) => match urls.get(&i) {
            Some(u) => Some(u.clone()),
            None => None,
        },
        None => None,
    }
}

/// Each player's picture, from the pictures that were found.
pub fn entrant_avatars_from(
    player1: Option<u64>,
    player2: Option<u64>,
    urls: &HashMap<u64, String>,
) -> (r: EntrantAvatars)
    ensures
        ostr(r.player1_avatar) == avatar_for(player1, urls@),
        ostr(r.player2_avatar) == avatar_for(player2, urls@),
{
    EntrantAvatars {
        player1_avatar: avatar_lookup(player1, urls),
        player2_avatar: avatar_lookup(player2, urls),
    }
}

} // verus!
