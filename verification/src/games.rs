//! Per-game character selections of a set.
//!
//! start.gg reports, for each game of a set, the character each entrant
//! picked (`selectionValue`, the raw character id). From these the library
//! derives each entrant's most-picked character across the set (ties go to
//! the character picked first) and a per-game breakdown ordered by game number.
use vstd::prelude::*;
use crate::fields::{parse_u64, u64_opt};
use crate::json::{elements, get, get_opt, oview, Json, JsonV};

verus! {

// ---------------------------------------------------------------------------
// Most-picked value
// ---------------------------------------------------------------------------

/// How often `c` occurs in `s`.
pub open spec fn count(s: Seq<u64>, c: u64) -> nat
    decreases s.len(),
{
    if s.len() == 0 {
        0
    } else {
        count(s.drop_last(), c) + if s.last() == c {
            1nat
        } else {
            0nat
        }
    }
}

/// Scanning `s` from position `i`, the value kept so far is replaced by any
/// value that occurs strictly more often.
pub open spec fn first_mode_from(s: Seq<u64>, i: int, best: u64) -> u64
    decreases s.len() - i,
{
    if i >= s.len() || i < 0 {
        best
    } else {
        let next = if count(s, s[i]) > count(s, best) {
            s[i]
        } else {
            best
        };
        first_mode_from(s, i + 1, next)
    }
}

/// The most frequent value of a non-empty sequence; of equally frequent values,
/// the one that occurs first.
pub open spec fn first_mode(s: Seq<u64>) -> u64
    recommends
        s.len() > 0,
{
    first_mode_from(s, 0, s[0])
}

pub fn count_exec(s: &Vec<u64>, c: u64) -> (n: usize)
    ensures
        n == count(s@, c),
{
    let mut n: usize = 0;
    let mut i: usize = 0;
    while i < s.len()
        invariant
            i <= s@.len(),
            n == count(s@.take(i as int), c),
            n <= i,
        decreases s@.len() - i,
    {
        assert(s@.take(i + 1).drop_last() =~= s@.take(i as int));
        if s[i] == c {
            n = n + 1;
        }
        i = i + 1;
    }
    assert(s@.take(s@.len() as int) =~= s@);
    n
}

pub fn first_mode_exec(s: &Vec<u64>) -> (m: u64)
    requires
        s@.len() > 0,
    ensures
        m == first_mode(s@),
{
    let mut best = s[0];
    let mut best_count = count_exec(s, best);
    let mut i: usize = 0;
    while i < s.len()
        invariant
            i <= s@.len(),
            best_count == count(s@, best),
            first_mode(s@) == first_mode_from(s@, i as int, best),
        decreases s@.len() - i,
    {
        let c = count_exec(s, s[i]);
        if c > best_count {
            best = s[i];
            best_count = c;
        }
        i = i + 1;
    }
    best
}

pub proof fn lemma_count_le_len(s: Seq<u64>, c: u64)
    ensures
        count(s, c) <= s.len(),
    decreases s.len(),
{
    if s.len() > 0 {
        lemma_count_le_len(s.drop_last(), c);
    }
}

pub proof fn lemma_count_pos(s: Seq<u64>, i: int)
    requires
        0 <= i < s.len(),
    ensures
        count(s, s[i]) > 0,
    decreases s.len(),
{
    if i < s.len() - 1 {
        lemma_count_pos(s.drop_last(), i);
    }
}

proof fn lemma_first_mode_from(s: Seq<u64>, i: int, best: u64)
    requires
        0 <= i <= s.len(),
        s.contains(best),
        forall|k: int| 0 <= k < i ==> count(s, #[trigger] s[k]) <= count(s, best),
    ensures
        s.contains(first_mode_from(s, i, best)),
        forall|k: int|
            0 <= k < s.len() ==> count(s, #[trigger] s[k]) <= count(s, first_mode_from(s, i, best)),
        count(s, first_mode_from(s, i, best)) >= count(s, best),
    decreases s.len() - i,
{
    if i < s.len() {
        let next = if count(s, s[i]) > count(s, best) {
            s[i]
        } else {
            best
        };
        assert(s.contains(next));
        lemma_first_mode_from(s, i + 1, next);
    }
}

/// The most-picked value is picked at least as often as any other value of
/// the sequence, and is one of its values.
pub proof fn law_most_picked_character(s: Seq<u64>)
    requires
        s.len() > 0,
    ensures
        s.contains(first_mode(s)),
        forall|c: u64| #[trigger] count(s, c) <= count(s, first_mode(s)),
{
    assert(s.contains(s[0]));
    lemma_first_mode_from(s, 0, s[0]);
    assert forall|c: u64| #[trigger] count(s, c) <= count(s, first_mode(s)) by {
        if count(s, c) > 0 {
            lemma_count_member(s, c);
        }
    }
}

/// `v` occurs among the first `j + 1` values.
pub open spec fn seen_by(s: Seq<u64>, v: u64, j: int) -> bool {
    exists|k: int| 0 <= k <= j && #[trigger] s[k] == v
}

proof fn lemma_first_mode_ties(s: Seq<u64>, i: int, best: u64)
    requires
        0 <= i <= s.len(),
        s.len() > 0,
        i == 0 ==> best == s[0],
        i > 0 ==> seen_by(s, best, i - 1),
        forall|k: int| 0 <= k < i ==> count(s, #[trigger] s[k]) <= count(s, best),
        forall|j: int| 0 <= j < i && !seen_by(s, best, j) ==> count(s, #[trigger] s[j]) < count(s, best),
    ensures
        forall|j: int|
            0 <= j < s.len() && !seen_by(s, first_mode_from(s, i, best), j) ==> count(
                s,
                #[trigger] s[j],
            ) < count(s, first_mode_from(s, i, best)),
    decreases s.len() - i,
{
    if i < s.len() {
        let next = if count(s, s[i]) > count(s, best) {
            s[i]
        } else {
            best
        };
        assert(seen_by(s, next, i)) by {
            if next == s[i] {
                assert(s[i] == next);
            } else if i == 0 {
                assert(s[0] == best);
            } else {
                let k = choose|k: int| 0 <= k <= i - 1 && #[trigger] s[k] == best;
                assert(s[k] == best);
            }
        }
        assert forall|j: int| 0 <= j < i + 1 && !seen_by(s, next, j) implies count(s, #[trigger] s[j])
            < count(s, next) by {
            if j == i {
                assert(seen_by(s, next, i));
            }
        }
        lemma_first_mode_ties(s, i + 1, next);
    }
}

/// Of values picked equally often, the one picked first wins: any value
/// picked before the most-picked value's first pick is picked fewer times.
pub proof fn law_most_picked_ties_go_first(s: Seq<u64>)
    requires
        s.len() > 0,
    ensures
        forall|j: int|
            0 <= j < s.len() && !seen_by(s, first_mode(s), j) ==> count(s, #[trigger] s[j]) < count(
                s,
                first_mode(s),
            ),
{
    lemma_first_mode_ties(s, 0, s[0]);
}

proof fn lemma_count_member(s: Seq<u64>, c: u64)
    requires
        count(s, c) > 0,
    ensures
        exists|k: int| 0 <= k < s.len() && s[k] == c,
    decreases s.len(),
{
    if s.last() != c {
        lemma_count_member(s.drop_last(), c);
        let k = choose|k: int| 0 <= k < s.drop_last().len() && s.drop_last()[k] == c;
        assert(s[k] == c);
    } else {
        assert(s[s.len() - 1] == c);
    }
}

// ---------------------------------------------------------------------------
// Picks
// ---------------------------------------------------------------------------

/// The (entrant, character) pick of one selection, when both are present.
pub open spec fn selection_pick(sel: JsonV) -> Option<(u64, u64)> {
    match u64_opt(get_opt(get(sel, "entrant"@), "id"@)) {
        Some(e) => match u64_opt(get(sel, "selectionValue"@)) {
            Some(c) => Some((e, c)),
            None => None,
        },
        None => None,
    }
}

/// The picks of a game's selections, in order.
pub open spec fn picks_of(sels: Seq<JsonV>) -> Seq<(u64, u64)>
    decreases sels.len(),
{
    if sels.len() == 0 {
        Seq::empty()
    } else {
        picks_of(sels.drop_last()) + match selection_pick(sels.last()) {
            Some(p) => seq![p],
            None => Seq::empty(),
        }
    }
}

pub open spec fn game_selections(game: JsonV) -> Seq<JsonV> {
    elements(get(game, "selections"@))
}

/// Every pick of every game, games in the order they were reported.
pub open spec fn all_picks(games: Seq<JsonV>) -> Seq<(u64, u64)>
    decreases games.len(),
{
    if games.len() == 0 {
        Seq::empty()
    } else {
        all_picks(games.drop_last()) + picks_of(game_selections(games.last()))
    }
}

/// The characters `e` picked, in order.
pub open spec fn picks_by(picks: Seq<(u64, u64)>, e: u64) -> Seq<u64>
    decreases picks.len(),
{
    if picks.len() == 0 {
        Seq::empty()
    } else {
        picks_by(picks.drop_last(), e) + if picks.last().0 == e {
            seq![picks.last().1]
        } else {
            Seq::empty()
        }
    }
}

/// `e`'s most-picked character, if `e` picked any.
pub open spec fn mode_for(picks: Seq<(u64, u64)>, e: u64) -> Option<u64> {
    let mine = picks_by(picks, e);
    if mine.len() > 0 {
        Some(first_mode(mine))
    } else {
        None
    }
}

/// The character `e` picked last in a game, if any.
pub open spec fn last_pick(picks: Seq<(u64, u64)>, e: u64) -> Option<u64>
    decreases picks.len(),
{
    if picks.len() == 0 {
        None
    } else if picks.last().0 == e {
        Some(picks.last().1)
    } else {
        last_pick(picks.drop_last(), e)
    }
}

fn selection_pick_exec(sel: &Json) -> (r: Option<(u64, u64)>)
    ensures
        r == selection_pick(sel@),
{
    let entrant = sel.get("entrant");
    let id = match entrant {
        Some(e) => e.get("id"),
        None => None,
    };
    let e = match id {
        Some(v) => parse_u64(v),
        None => None,
    };
    match e {
        Some(e) => {
            let c = match sel.get("selectionValue") {
                Some(v) => parse_u64(v),
                None => None,
            };
            match c {
                Some(c) => Some((e, c)),
                None => None,
            }
        },
        None => None,
    }
}

/// Appends the picks of `sels` to `out`.
fn push_picks(sels: &Vec<Json>, out: &mut Vec<(u64, u64)>)
    ensures
        final(out)@ == old(out)@ + picks_of(sels@.map_values(|j: Json| j@)),
{
    let ghost sv = sels@.map_values(|j: Json| j@);
    let mut i: usize = 0;
    while i < sels.len()
        invariant
            i <= sels@.len(),
            sv == sels@.map_values(|j: Json| j@),
            out@ == old(out)@ + picks_of(sv.take(i as int)),
        decreases sels@.len() - i,
    {
        assert(sv.take(i + 1).drop_last() =~= sv.take(i as int));
        assert(sv.take(i + 1).last() == sels@[i as int]@);
        match selection_pick_exec(&sels[i]) {
            Some(p) => {
                out.push(p);
            },
            None => {},
        }
        i = i + 1;
        assert(out@ =~= old(out)@ + picks_of(sv.take(i as int)));
    }
    assert(sv.take(sels@.len() as int) =~= sv);
}

pub fn selections_of(game: &Json) -> (r: Option<&Vec<Json>>)
    ensures
        match r {
            Some(v) => game_selections(game@) == v@.map_values(|j: Json| j@),
            None => game_selections(game@) == Seq::<JsonV>::empty(),
        },
{
    match game.get("selections") {
        Some(s) => s.as_array(),
        None => None,
    }
}

pub fn picks_by_exec(picks: &Vec<(u64, u64)>, e: u64) -> (r: Vec<u64>)
    ensures
        r@ == picks_by(picks@, e),
{
    let mut r: Vec<u64> = Vec::new();
    let mut i: usize = 0;
    while i < picks.len()
        invariant
            i <= picks@.len(),
            r@ == picks_by(picks@.take(i as int), e),
        decreases picks@.len() - i,
    {
        assert(picks@.take(i + 1).drop_last() =~= picks@.take(i as int));
        if picks[i].0 == e {
            r.push(picks[i].1);
        }
        i = i + 1;
        assert(r@ =~= picks_by(picks@.take(i as int), e));
    }
    assert(picks@.take(picks@.len() as int) =~= picks@);
    r
}

pub fn mode_for_exec(picks: &Vec<(u64, u64)>, e: u64) -> (r: Option<u64>)
    ensures
        r == mode_for(picks@, e),
{
    let mine = picks_by_exec(picks, e);
    if mine.len() > 0 {
        Some(first_mode_exec(&mine))
    } else {
        None
    }
}

pub fn last_pick_exec(picks: &Vec<(u64, u64)>, e: u64) -> (r: Option<u64>)
    ensures
        r == last_pick(picks@, e),
{
    let mut i = picks.len();
    assert(picks@.take(i as int) =~= picks@);
    while i > 0
        invariant
            i <= picks@.len(),
            last_pick(picks@, e) == last_pick(picks@.take(i as int), e),
        decreases i,
    {
        assert(picks@.take(i as int).drop_last() =~= picks@.take(i - 1));
        if picks[i - 1].0 == e {
            return Some(picks[i - 1].1);
        }
        i = i - 1;
    }
    None
}

// ---------------------------------------------------------------------------
// Per-game data and the set's character data
// ---------------------------------------------------------------------------

pub struct SetGameData {
    pub order: u32,
    pub winner_entrant_id: Option<u64>,
    /// The game's picks in order; an entrant's last pick is their character.
    pub character_picks: Vec<(u64, u64)>,
}

pub struct GameDataV {
    pub order: u32,
    pub winner_entrant_id: Option<u64>,
    pub character_picks: Seq<(u64, u64)>,
}

impl View for SetGameData {
    type V = GameDataV;

    open spec fn view(&self) -> GameDataV {
        GameDataV {
            order: self.order,
            winner_entrant_id: self.winner_entrant_id,
            character_picks: self.character_picks@,
        }
    }
}

/// The game at position `index` of the set's games.
pub open spec fn game_data(game: JsonV, index: int) -> GameDataV {
    GameDataV {
        order: match u64_opt(get(game, "orderNum"@)) {
            Some(n) => n as u32,
            None => (index + 1) as u32,
        },
        winner_entrant_id: u64_opt(get(game, "winnerId"@)),
        character_picks: picks_of(game_selections(game)),
    }
}

pub open spec fn games_data(games: Seq<JsonV>) -> Seq<GameDataV> {
    Seq::new(games.len(), |i: int| game_data(games[i], i))
}

// ---------------------------------------------------------------------------
// Stable insertion by game number
// ---------------------------------------------------------------------------

/// Where a stable insertion sort puts `x` into the sorted `t`: after every
/// element whose game number is not greater.
pub open spec fn insert_pos(t: Seq<GameDataV>, x: GameDataV) -> int
    decreases t.len(),
{
    if t.len() == 0 || t.last().order <= x.order {
        t.len() as int
    } else {
        insert_pos(t.drop_last(), x)
    }
}

/// `sort_by_key(|g| g.order)`: a stable sort by game number.
pub open spec fn sort_by_order(s: Seq<GameDataV>) -> Seq<GameDataV>
    decreases s.len(),
{
    if s.len() == 0 {
        s
    } else {
        let t = sort_by_order(s.drop_last());
        t.insert(insert_pos(t, s.last()), s.last())
    }
}

pub proof fn lemma_insert_pos_bound(t: Seq<GameDataV>, x: GameDataV)
    ensures
        0 <= insert_pos(t, x) <= t.len(),
    decreases t.len(),
{
    if t.len() > 0 && t.last().order > x.order {
        lemma_insert_pos_bound(t.drop_last(), x);
    }
}

pub proof fn lemma_sort_len(s: Seq<GameDataV>)
    ensures
        sort_by_order(s).len() == s.len(),
    decreases s.len(),
{
    if s.len() > 0 {
        lemma_sort_len(s.drop_last());
        lemma_insert_pos_bound(sort_by_order(s.drop_last()), s.last());
    }
}

pub open spec fn games_in_order(t: Seq<GameDataV>) -> bool {
    forall|i: int, j: int| 0 <= i < j < t.len() ==> (#[trigger] t[i]).order <= (#[trigger] t[j]).order
}

proof fn lemma_insert_pos_split(t: Seq<GameDataV>, x: GameDataV)
    ensures
        forall|k: int| insert_pos(t, x) <= k < t.len() ==> (#[trigger] t[k]).order > x.order,
        insert_pos(t, x) > 0 ==> t[insert_pos(t, x) - 1].order <= x.order,
    decreases t.len(),
{
    lemma_insert_pos_bound(t, x);
    if t.len() > 0 && t.last().order > x.order {
        let u = t.drop_last();
        lemma_insert_pos_split(u, x);
        lemma_insert_pos_bound(u, x);
        assert forall|k: int| insert_pos(t, x) <= k < t.len() implies (#[trigger] t[k]).order
            > x.order by {
            if k < u.len() {
                assert(t[k] == u[k]);
            }
        }
        if insert_pos(t, x) > 0 {
            assert(t[insert_pos(t, x) - 1] == u[insert_pos(u, x) - 1]);
        }
    }
}

/// The games of a set come out by game number, and none is lost or added.
pub proof fn law_games_sorted(s: Seq<GameDataV>)
    ensures
        games_in_order(sort_by_order(s)),
        sort_by_order(s).to_multiset() == s.to_multiset(),
    decreases s.len(),
{
    broadcast use vstd::seq_lib::to_multiset_insert, vstd::seq_lib::to_multiset_build;

    if s.len() > 0 {
        let u = s.drop_last();
        let x = s.last();
        law_games_sorted(u);
        let t = sort_by_order(u);
        let p = insert_pos(t, x);
        lemma_insert_pos_bound(t, x);
        lemma_insert_pos_split(t, x);
        let r = t.insert(p, x);
        assert forall|i: int, j: int| 0 <= i < j < r.len() implies (#[trigger] r[i]).order <= (
        #[trigger] r[j]).order by {
            if j < p {
                assert(r[i] == t[i] && r[j] == t[j]);
            } else if j == p {
                assert(r[i] == t[i]);
                if i < p - 1 {
                    assert(t[i].order <= t[p - 1].order);
                }
            } else if i == p {
                assert(r[j] == t[j - 1]);
            } else if i < p {
                assert(r[i] == t[i] && r[j] == t[j - 1]);
            } else {
                assert(r[i] == t[i - 1] && r[j] == t[j - 1]);
            }
        }
        assert(s =~= u.push(x));
    }
}

fn insert_sorted(t: &mut Vec<SetGameData>, x: SetGameData)
    ensures
        final(t)@.map_values(|g: SetGameData| g@) == ({
            let tv = old(t)@.map_values(|g: SetGameData| g@);
            tv.insert(insert_pos(tv, x@), x@)
        }),
{
    let ghost tv = t@.map_values(|g: SetGameData| g@);
    let mut j = t.len();
    assert(tv.take(j as int) =~= tv);
    while j > 0 && t[j - 1].order > x.order
        invariant
            j <= t@.len(),
            tv == t@.map_values(|g: SetGameData| g@),
            insert_pos(tv, x@) == insert_pos(tv.take(j as int), x@),
        decreases j,
    {
        assert(tv.take(j as int).drop_last() =~= tv.take(j - 1));
        j = j - 1;
    }
    assert(tv.take(j as int).len() == 0 || tv.take(j as int).last().order <= x@.order);
    assert(insert_pos(tv.take(j as int), x@) == j);
    proof {
        lemma_insert_pos_bound(tv, x@);
    }
    t.insert(j, x);
    assert(t@.map_values(|g: SetGameData| g@) =~= tv.insert(j as int, x@));
}

pub fn sort_games(v: Vec<SetGameData>) -> (r: Vec<SetGameData>)
    ensures
        r@.map_values(|g: SetGameData| g@) == sort_by_order(v@.map_values(|g: SetGameData| g@)),
{
    let ghost sv = v@.map_values(|g: SetGameData| g@);
    let mut out: Vec<SetGameData> = Vec::new();
    let mut rest = v;
    // Move the games out front to back.
    let mut items: Vec<SetGameData> = Vec::new();
    while rest.len() > 0
        invariant
            rest@.map_values(|g: SetGameData| g@) + items@.reverse().map_values(
                |g: SetGameData| g@,
            ) == sv,
        decreases rest@.len(),
    {
        let g = rest.pop().unwrap();
        items.push(g);
        assert(rest@.map_values(|g: SetGameData| g@) + items@.reverse().map_values(
            |g: SetGameData| g@,
        ) =~= sv);
    }
    assert(items@.reverse().map_values(|g: SetGameData| g@) =~= sv);
    let n = items.len();
    let mut i: usize = 0;
    while i < n
        invariant
            n == items@.len() + i,
            items@.reverse().map_values(|g: SetGameData| g@) == sv.skip(i as int),
            out@.map_values(|g: SetGameData| g@) == sort_by_order(sv.take(i as int)),
            sv.len() == n,
        decreases n - i,
    {
        let ghost old_items = items@;
        let g = items.pop().unwrap();
        assert(items@ =~= old_items.drop_last());
        assert(g == old_items.last());
        assert(old_items.reverse().map_values(|g: SetGameData| g@)[0] == g@);
        assert(sv.skip(i as int)[0] == g@);
        assert(items@.reverse().map_values(|g: SetGameData| g@) =~= old_items.reverse().map_values(
            |g: SetGameData| g@,
        ).drop_first());
        assert(items@.reverse().map_values(|g: SetGameData| g@) =~= sv.skip(i + 1));
        assert(sv.take(i + 1).drop_last() =~= sv.take(i as int));
        assert(sv.take(i + 1).last() == g@);
        insert_sorted(&mut out, g);
        i = i + 1;
    }
    assert(sv.take(n as int) =~= sv);
    out
}

// ---------------------------------------------------------------------------
// The set's character data
// ---------------------------------------------------------------------------

pub open spec fn set_games(node: JsonV) -> Seq<JsonV> {
    elements(get(node, "games"@))
}

pub struct SetCharacterData {
    /// Every (entrant, character) pick of the set, in reported order; an
    /// entrant's most-picked character is `mode_for(picks, entrant)`.
    pub picks: Vec<(u64, u64)>,
    /// One entry per reported game, ordered by game number.
    pub per_game: Vec<SetGameData>,
}

fn game_data_exec(game: &Json, index: usize) -> (r: SetGameData)
    ensures
        r@ == game_data(game@, index as int),
{
    let order = match game.get("orderNum") {
        Some(v) => parse_u64(v),
        None => None,
    };
    let order: u32 = match order {
        Some(n) => n as u32,
        None => {
            let k: u64 = index as u64;
            (k as u128 + 1) as u32
        },
    };
    let winner = match game.get("winnerId") {
        Some(v) => parse_u64(v),
        None => None,
    };
    let mut picks: Vec<(u64, u64)> = Vec::new();
    match selections_of(game) {
        Some(sels) => push_picks(sels, &mut picks),
        None => {},
    }
    assert(picks@ =~= picks_of(game_selections(game@)));
    SetGameData { order, winner_entrant_id: winner, character_picks: picks }
}

/// For each entrant that picked a character in this set's games, the data
/// to find their most-picked character; and the per-game picks, ordered by
/// game number.
pub fn parse_set_character_data(node: &Json) -> (r: SetCharacterData)
    ensures
        r.picks@ == all_picks(set_games(node@)),
        r.per_game@.map_values(|g: SetGameData| g@) == sort_by_order(
            games_data(set_games(node@)),
        ),
{
    let games = match node.get("games") {
        Some(g) => g.as_array(),
        None => None,
    };
    let games = match games {
        Some(g) => g,
        None => {
            let empty: Vec<SetGameData> = Vec::new();
            assert(games_data(set_games(node@)) =~= Seq::<GameDataV>::empty());
            return SetCharacterData { picks: Vec::new(), per_game: empty };
        },
    };
    let ghost gv = games@.map_values(|j: Json| j@);
    assert(set_games(node@) == gv);
    let mut picks: Vec<(u64, u64)> = Vec::new();
    let mut per_game: Vec<SetGameData> = Vec::new();
    let mut i: usize = 0;
    while i < games.len()
        invariant
            i <= games@.len(),
            gv == games@.map_values(|j: Json| j@),
            picks@ == all_picks(gv.take(i as int)),
            per_game@.map_values(|g: SetGameData| g@) == games_data(gv).take(i as int),
        decreases games@.len() - i,
    {
        let g = &games[i];
        assert(gv.take(i + 1).drop_last() =~= gv.take(i as int));
        assert(gv.take(i + 1).last() == g@);
        match selections_of(g) {
            Some(sels) => push_picks(sels, &mut picks),
            None => {},
        }
        assert(picks@ =~= all_picks(gv.take(i + 1)));
        let d = game_data_exec(g, i);
        assert(games_data(gv)[i as int] == game_data(gv[i as int], i as int));
        let ghost before = per_game@;
        per_game.push(d);
        assert(per_game@.map_values(|g: SetGameData| g@) =~= before.map_values(
            |g: SetGameData| g@,
        ).push(game_data(gv[i as int], i as int)));
        assert(games_data(gv).take(i + 1) =~= games_data(gv).take(i as int).push(
            games_data(gv)[i as int],
        ));
        i = i + 1;
        assert(per_game@.map_values(|g: SetGameData| g@) =~= games_data(gv).take(i as int));
    }
    assert(gv.take(games@.len() as int) =~= gv);
    assert(games_data(gv).take(games@.len() as int) =~= games_data(gv));
    let sorted = sort_games(per_game);
    SetCharacterData { picks, per_game: sorted }
}

} // verus!
