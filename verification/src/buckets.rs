//! Grouping sets into tabs ("buckets") and assembling the tournament view.
//!
//! Sets are grouped by phase group, so a phase with several pools becomes
//! several tabs. Tabs are ordered by event; within an event every bracket
//! comes before the pools, and pools follow in pool-number order.
use vstd::prelude::*;
use crate::model::{ostr, BucketV, DataV, SetBucket, SetV, TournamentData, TournamentSet};
use crate::slug::{bucket_id, normalize_bucket_id};
use crate::text::{
    chars_of, contains, decimal, holds_word_either_case, lemma_contains_lower_either_case, lower,
    owned, parse_u64_str, parse_u64_text, push_decimal, push_str, small_letters, str_contains,
    str_eq, to_ascii_lowercase,
};

verus! {

// ---------------------------------------------------------------------------
// Grouping
// ---------------------------------------------------------------------------

/// The key of a set's bucket: its phase group when it has one, otherwise its
/// event and phase, otherwise its event.
pub open spec fn group_key_of(s: SetV) -> Seq<char> {
    match s.phase_group_id {
        Some(g) => "pg:"@ + decimal(g as nat),
        None => match s.phase_name {
            Some(p) => "ep:"@ + s.event_name + "::"@ + p,
            None => "e:"@ + s.event_name,
        },
    }
}

pub fn group_key(set: &TournamentSet) -> (r: String)
    ensures
        r@ == group_key_of(set@),
{
    match set.phase_group_id {
        Some(g) => {
            let mut r = owned("pg:");
            push_decimal(&mut r, g);
            r
        },
        None => match &set.phase_name {
            Some(p) => {
                let mut r = owned("ep:");
                push_str(&mut r, set.event_name.as_str());
                push_str(&mut r, "::");
                push_str(&mut r, p.as_str());
                r
            },
            None => {
                let mut r = owned("e:");
                push_str(&mut r, set.event_name.as_str());
                r
            },
        },
    }
}

/// One tab's worth of sets, before it is named and ordered.
pub struct GroupedBucket {
    pub key: String,
    pub sets: Vec<TournamentSet>,
}

pub struct GroupV {
    pub key: Seq<char>,
    pub sets: Seq<SetV>,
}

impl View for GroupedBucket {
    type V = GroupV;

    open spec fn view(&self) -> GroupV {
        GroupV { key: self.key@, sets: self.sets@.map_values(|s: TournamentSet| s@) }
    }
}

pub open spec fn groups_view(g: Seq<GroupedBucket>) -> Seq<GroupV> {
    g.map_values(|b: GroupedBucket| b@)
}

pub open spec fn sets_view(s: Seq<TournamentSet>) -> Seq<SetV> {
    s.map_values(|t: TournamentSet| t@)
}

pub open spec fn strings_view(s: Seq<String>) -> Seq<Seq<char>> {
    s.map_values(|t: String| t@)
}

/// The index of the first bucket with key `k`.
pub open spec fn group_index_from(g: Seq<GroupV>, k: Seq<char>, i: int) -> Option<int>
    decreases g.len() - i,
{
    if i < 0 || i >= g.len() {
        None
    } else if g[i].key == k {
        Some(i)
    } else {
        group_index_from(g, k, i + 1)
    }
}

/// `s` added to the first bucket with its key, or to a new bucket at the end.
pub open spec fn add_to_group(g: Seq<GroupV>, s: SetV) -> Seq<GroupV> {
    let k = group_key_of(s);
    match group_index_from(g, k, 0) {
        Some(i) => g.update(i, GroupV { key: k, sets: g[i].sets.push(s) }),
        None => g.push(GroupV { key: k, sets: seq![s] }),
    }
}

pub struct PushState {
    pub all: Seq<SetV>,
    pub grouped: Seq<GroupV>,
    pub seen: Seq<Seq<char>>,
}

/// A set whose id was seen before is skipped; any other set is recorded as
/// seen, appended to all sets and added to its bucket.
pub open spec fn push_one(st: PushState, s: SetV) -> PushState {
    if st.seen.contains(s.id) {
        st
    } else {
        PushState {
            all: st.all.push(s),
            grouped: add_to_group(st.grouped, s),
            seen: st.seen.push(s.id),
        }
    }
}

pub open spec fn push_all(st: PushState, sets: Seq<SetV>) -> PushState
    decreases sets.len(),
{
    if sets.len() == 0 {
        st
    } else {
        push_one(push_all(st, sets.drop_last()), sets.last())
    }
}

fn seen_contains(seen: &Vec<String>, id: &String) -> (r: bool)
    ensures
        r == strings_view(seen@).contains(id@),
{
    let mut i: usize = 0;
    while i < seen.len()
        invariant
            i <= seen@.len(),
            forall|k: int| 0 <= k < i ==> seen@[k]@ != id@,
        decreases seen@.len() - i,
    {
        if str_eq(seen[i].as_str(), id.as_str()) {
            assert(strings_view(seen@)[i as int] == id@);
            return true;
        }
        i = i + 1;
    }
    assert(!strings_view(seen@).contains(id@)) by {
        if strings_view(seen@).contains(id@) {
            let k = choose|k: int| 0 <= k < strings_view(seen@).len() && strings_view(seen@)[k] == id@;
            assert(seen@[k]@ == id@);
        }
    }
    false
}

fn find_group(grouped: &Vec<GroupedBucket>, key: &String) -> (r: Option<usize>)
    ensures
        match r {
            Some(i) => i < grouped@.len() && group_index_from(groups_view(grouped@), key@, 0) == Some(
                i as int,
            ) && grouped@[i as int].key@ == key@,
            None => group_index_from(groups_view(grouped@), key@, 0) is None,
        },
{
    let ghost gv = groups_view(grouped@);
    let mut i: usize = 0;
    while i < grouped.len()
        invariant
            i <= grouped@.len(),
            gv == groups_view(grouped@),
            group_index_from(gv, key@, 0) == group_index_from(gv, key@, i as int),
        decreases grouped@.len() - i,
    {
        if str_eq(grouped[i].key.as_str(), key.as_str()) {
            return Some(i);
        }
        i = i + 1;
    }
    None
}

fn add_to_group_exec(grouped: &mut Vec<GroupedBucket>, set: TournamentSet)
    ensures
        groups_view(final(grouped)@) == add_to_group(groups_view(old(grouped)@), set@),
{
    let key = group_key(&set);
    let ghost gv = groups_view(grouped@);
    match find_group(grouped, &key) {
        Some(i) => {
            let ghost g0 = grouped@;
            let mut bucket = grouped.remove(i);
            assert(bucket == g0[i as int]);
            bucket.sets.push(set);
            assert(bucket@.sets =~= gv[i as int].sets.push(set@));
            grouped.insert(i, bucket);
            assert(grouped@ =~= g0.update(i as int, bucket));
            assert(groups_view(grouped@) =~= gv.update(
                i as int,
                GroupV { key: key@, sets: gv[i as int].sets.push(set@) },
            ));
        },
        None => {
            let mut sets: Vec<TournamentSet> = Vec::new();
            sets.push(set);
            let b = GroupedBucket { key, sets };
            assert(b@.sets =~= seq![set@]);
            grouped.push(b);
            assert(groups_view(grouped@) =~= gv.push(GroupV { key: key@, sets: seq![set@] }));
        },
    }
}

/// Adds each set whose id was not seen yet to `all_sets` and to its bucket in
/// `grouped`, and records its id in `seen_set_ids`; sets seen before are
/// skipped.
pub fn push_sets_to_buckets(
    sets: Vec<TournamentSet>,
    all_sets: &mut Vec<TournamentSet>,
    grouped: &mut Vec<GroupedBucket>,
    seen_set_ids: &mut Vec<String>,
)
    ensures
        push_all(
            PushState {
                all: sets_view(old(all_sets)@),
                grouped: groups_view(old(grouped)@),
                seen: strings_view(old(seen_set_ids)@),
            },
            sets_view(sets@),
        ) == (PushState {
            all: sets_view(final(all_sets)@),
            grouped: groups_view(final(grouped)@),
            seen: strings_view(final(seen_set_ids)@),
        }),
{
    let ghost start = PushState {
        all: sets_view(all_sets@),
        grouped: groups_view(grouped@),
        seen: strings_view(seen_set_ids@),
    };
    let ghost sv = sets_view(sets@);
    let mut i: usize = 0;
    while i < sets.len()
        invariant
            i <= sets@.len(),
            sv == sets_view(sets@),
            push_all(start, sv.take(i as int)) == (PushState {
                all: sets_view(all_sets@),
                grouped: groups_view(grouped@),
                seen: strings_view(seen_set_ids@),
            }),
        decreases sets@.len() - i,
    {
        assert(sv.take(i + 1).drop_last() =~= sv.take(i as int));
        assert(sv.take(i + 1).last() == sets@[i as int]@);
        let set = &sets[i];
        if !seen_contains(seen_set_ids, &set.id) {
            let ghost a0 = all_sets@;
            let ghost s0 = seen_set_ids@;
            seen_set_ids.push(set.id.clone());
            all_sets.push(set.clone());
            add_to_group_exec(grouped, set.clone());
            assert(sets_view(all_sets@) =~= sets_view(a0).push(set@));
            assert(strings_view(seen_set_ids@) =~= strings_view(s0).push(set@.id));
        }
        i = i + 1;
    }
    assert(sv.take(sets@.len() as int) =~= sv);
}

/// What grouping keeps true: each recorded id belongs to the set recorded
/// with it, no id is recorded twice, no two buckets share a key, and every
/// set sits in the bucket of its own key.
pub open spec fn push_inv(st: PushState) -> bool {
    &&& st.seen.len() == st.all.len()
    &&& forall|k: int| 0 <= k < st.all.len() ==> st.seen[k] == (#[trigger] st.all[k]).id
    &&& forall|a: int, b: int|
        #![trigger st.all[a], st.all[b]]
        0 <= a < b < st.all.len() ==> st.all[a].id != st.all[b].id
    &&& forall|a: int, b: int|
        #![trigger st.grouped[a], st.grouped[b]]
        0 <= a < b < st.grouped.len() ==> st.grouped[a].key != st.grouped[b].key
    &&& forall|g: int, k: int|
        0 <= g < st.grouped.len() && 0 <= k < st.grouped[g].sets.len() ==> group_key_of(
            #[trigger] st.grouped[g].sets[k],
        ) == st.grouped[g].key
}

proof fn lemma_group_index(g: Seq<GroupV>, k: Seq<char>, i: int)
    requires
        0 <= i,
    ensures
        match group_index_from(g, k, i) {
            Some(j) => i <= j < g.len() && g[j].key == k,
            None => forall|j: int| i <= j < g.len() ==> (#[trigger] g[j]).key != k,
        },
    decreases g.len() - i,
{
    if i < g.len() && g[i].key != k {
        lemma_group_index(g, k, i + 1);
    }
}

proof fn lemma_push_one(st: PushState, s: SetV)
    requires
        push_inv(st),
    ensures
        push_inv(push_one(st, s)),
{
    if !st.seen.contains(s.id) {
        let n = push_one(st, s);
        let k = group_key_of(s);
        lemma_group_index(st.grouped, k, 0);
        assert forall|a: int, b: int| 0 <= a < b < n.all.len() implies n.all[a].id != n.all[b].id by {
            if b == st.all.len() {
                assert(n.all[a] == st.all[a]);
                assert(st.seen[a] == st.all[a].id);
            } else {
                assert(n.all[a] == st.all[a]);
                assert(n.all[b] == st.all[b]);
            }
        }
        assert forall|j: int| 0 <= j < n.all.len() implies n.seen[j] == (#[trigger] n.all[j]).id by {
            if j < st.all.len() {
                assert(n.all[j] == st.all[j]);
            }
        }
        match group_index_from(st.grouped, k, 0) {
            Some(i) => {
                assert forall|g: int, m: int|
                    0 <= g < n.grouped.len() && 0 <= m < n.grouped[g].sets.len() implies group_key_of(
                    #[trigger] n.grouped[g].sets[m],
                ) == n.grouped[g].key by {
                    if g == i && m == st.grouped[i].sets.len() {
                        assert(n.grouped[g].sets[m] == s);
                    } else if g == i {
                        assert(n.grouped[g].sets[m] == st.grouped[g].sets[m]);
                    }
                }
            },
            None => {},
        }
    }
}

/// Grouping keeps its invariant, whatever sets are pushed.
pub proof fn law_push_keeps_invariant(st: PushState, sets: Seq<SetV>)
    requires
        push_inv(st),
    ensures
        push_inv(push_all(st, sets)),
    decreases sets.len(),
{
    if sets.len() > 0 {
        law_push_keeps_invariant(st, sets.drop_last());
        lemma_push_one(push_all(st, sets.drop_last()), sets.last());
    }
}

/// No set is lost: after pushing, the id of every pushed set is recorded
/// (with the first set that carried it), and what was recorded before stays.
pub proof fn law_push_records_every_id(st: PushState, sets: Seq<SetV>)
    ensures
        forall|k: int| 0 <= k < sets.len() ==> push_all(st, sets).seen.contains(#[trigger] sets[k].id),
        forall|j: int| 0 <= j < st.seen.len() ==> push_all(st, sets).seen.contains(#[trigger] st.seen[j]),
    decreases sets.len(),
{
    if sets.len() > 0 {
        let prev = push_all(st, sets.drop_last());
        law_push_records_every_id(st, sets.drop_last());
        let n = push_one(prev, sets.last());
        assert forall|x: Seq<char>| prev.seen.contains(x) implies n.seen.contains(x) by {
            if !prev.seen.contains(sets.last().id) {
                let j = choose|j: int| 0 <= j < prev.seen.len() && prev.seen[j] == x;
                assert(n.seen[j] == x);
            }
        }
        assert(n.seen.contains(sets.last().id)) by {
            if !prev.seen.contains(sets.last().id) {
                assert(n.seen[prev.seen.len() as int] == sets.last().id);
            }
        }
        assert forall|k: int| 0 <= k < sets.len() implies n.seen.contains(#[trigger] sets[k].id) by {
            if k < sets.len() - 1 {
                assert(sets.drop_last()[k] == sets[k]);
                assert(prev.seen.contains(sets.drop_last()[k].id));
            }
        }
    }
}

/// Grouping from nothing: every set is kept once, by id, in the bucket of
/// its key.
pub proof fn law_grouping_from_empty(sets: Seq<SetV>)
    ensures
        push_inv(push_all(PushState { all: Seq::empty(), grouped: Seq::empty(), seen: Seq::empty() }, sets)),
{
    law_push_keeps_invariant(PushState { all: Seq::empty(), grouped: Seq::empty(), seen: Seq::empty() }, sets);
}

// ---------------------------------------------------------------------------
// What the buckets hold
// ---------------------------------------------------------------------------

/// The sets among `u` whose bucket key is `k`, in order.
pub open spec fn sets_with_key(u: Seq<SetV>, k: Seq<char>) -> Seq<SetV>
    decreases u.len(),
{
    if u.len() == 0 {
        Seq::empty()
    } else if group_key_of(u.last()) == k {
        sets_with_key(u.drop_last(), k).push(u.last())
    } else {
        sets_with_key(u.drop_last(), k)
    }
}

pub open spec fn keys_distinct(g: Seq<GroupV>) -> bool {
    forall|a: int, b: int|
        #![trigger g[a], g[b]]
        0 <= a < b < g.len() ==> g[a].key != g[b].key
}

/// What the buckets `after` hold, when they were `before` and the sets `u`
/// were accepted since, in order: the old buckets keep their keys and
/// place, each followed by the accepted sets of its key; after them come new
/// buckets, in the order their keys first appear in `u`, each holding exactly
/// the accepted sets of its key; every accepted set has a bucket, and no two
/// buckets share a key.
pub open spec fn grouping_of(before: Seq<GroupV>, u: Seq<SetV>, after: Seq<GroupV>) -> bool {
    &&& keys_distinct(after)
    &&& before.len() <= after.len()
    &&& forall|g: int|
        0 <= g < before.len() ==> (#[trigger] after[g]).key == before[g].key && after[g].sets
            == before[g].sets + sets_with_key(u, before[g].key)
    &&& forall|g: int|
        before.len() <= g < after.len() ==> (#[trigger] after[g]).sets == sets_with_key(
            u,
            after[g].key,
        ) && after[g].sets.len() > 0
    &&& forall|i: int|
        0 <= i < u.len() ==> group_index_from(after, group_key_of(#[trigger] u[i]), 0) is Some
    &&& forall|g1: int, g2: int, n: int|
        #![trigger after[g1], after[g2], u.take(n)]
        before.len() <= g1 < g2 < after.len() && 0 <= n <= u.len() && sets_with_key(
            u.take(n),
            after[g2].key,
        ).len() > 0 ==> sets_with_key(u.take(n), after[g1].key).len() > 0
}

proof fn lemma_with_key_push(u: Seq<SetV>, s: SetV, k: Seq<char>)
    ensures
        sets_with_key(u.push(s), k) == if group_key_of(s) == k {
            sets_with_key(u, k).push(s)
        } else {
            sets_with_key(u, k)
        },
{
    assert(u.push(s).drop_last() =~= u);
}

proof fn lemma_with_key_absent(u: Seq<SetV>, k: Seq<char>)
    requires
        forall|i: int| 0 <= i < u.len() ==> group_key_of(#[trigger] u[i]) != k,
    ensures
        sets_with_key(u, k).len() == 0,
    decreases u.len(),
{
    if u.len() > 0 {
        let t = u.drop_last();
        assert forall|i: int| 0 <= i < t.len() implies group_key_of(#[trigger] t[i]) != k by {
            assert(t[i] == u[i]);
        }
        assert(group_key_of(u[u.len() - 1]) != k);
        lemma_with_key_absent(t, k);
    }
}

proof fn lemma_grouping_step(before: Seq<GroupV>, u: Seq<SetV>, after: Seq<GroupV>, s: SetV)
    requires
        grouping_of(before, u, after),
    ensures
        grouping_of(before, u.push(s), add_to_group(after, s)),
{
    let k = group_key_of(s);
    let u2 = u.push(s);
    let a2 = add_to_group(after, s);
    lemma_group_index(after, k, 0);
    assert forall|kk: Seq<char>| #[trigger] sets_with_key(u2, kk) == if k == kk {
        sets_with_key(u, kk).push(s)
    } else {
        sets_with_key(u, kk)
    } by {
        lemma_with_key_push(u, s, kk);
    }
    assert forall|n: int| 0 <= n <= u.len() implies #[trigger] u2.take(n) == u.take(n) by {
        assert(u2.take(n) =~= u.take(n));
    }
    assert(u2.take(u2.len() as int) =~= u2);
    assert(u.take(u.len() as int) =~= u);
    match group_index_from(after, k, 0) {
        Some(i) => {
            assert(a2.len() == after.len());
            assert forall|g: int| 0 <= g < a2.len() && g != i implies #[trigger] a2[g] == after[g] by {}
            assert(a2[i].key == k);
            assert(keys_distinct(a2)) by {
                assert forall|x: int, y: int| 0 <= x < y < a2.len() implies a2[x].key != a2[y].key by {
                    assert(after[x].key != after[y].key);
                }
            }
            assert forall|g: int| 0 <= g < before.len() implies (#[trigger] a2[g]).key == before[g].key
                && a2[g].sets == before[g].sets + sets_with_key(u2, before[g].key) by {
                if g == i {
                    assert(a2[g].sets =~= after[g].sets.push(s));
                    assert(before[g].sets + sets_with_key(u, k).push(s) =~= (before[g].sets
                        + sets_with_key(u, k)).push(s));
                } else {
                    assert(after[g].key != k);
                }
            }
            assert forall|g: int| before.len() <= g < a2.len() implies (#[trigger] a2[g]).sets
                == sets_with_key(u2, a2[g].key) && a2[g].sets.len() > 0 by {
                if g != i {
                    assert(after[g].key != k);
                }
            }
            assert forall|j: int| 0 <= j < u2.len() implies group_index_from(
                a2,
                group_key_of(#[trigger] u2[j]),
                0,
            ) is Some by {
                let kj = group_key_of(u2[j]);
                if j < u.len() {
                    assert(u2[j] == u[j]);
                    lemma_group_index(after, kj, 0);
                    let gj = group_index_from(after, kj, 0)->0;
                    lemma_group_index(a2, kj, 0);
                    assert(a2[gj].key == kj);
                } else {
                    lemma_group_index(a2, kj, 0);
                    assert(a2[i].key == kj);
                }
            }
            assert forall|g1: int, g2: int, n: int|
                #![trigger a2[g1], a2[g2], u2.take(n)]
                before.len() <= g1 < g2 < a2.len() && 0 <= n <= u2.len() && sets_with_key(
                    u2.take(n),
                    a2[g2].key,
                ).len() > 0 implies sets_with_key(u2.take(n), a2[g1].key).len() > 0 by {
                assert(a2[g1].key == after[g1].key);
                assert(a2[g2].key == after[g2].key);
                if n <= u.len() {
                    assert(u2.take(n) == u.take(n));
                    assert(after[g1] == after[g1] && after[g2] == after[g2] && u.take(n) == u.take(n));
                } else {
                    assert(sets_with_key(u, after[g1].key).len() > 0);
                }
            }
        },
        None => {
            assert(a2 == after.push(GroupV { key: k, sets: seq![s] }));
            assert forall|j: int| 0 <= j < u.len() implies group_key_of(#[trigger] u[j]) != k by {
                lemma_group_index(after, group_key_of(u[j]), 0);
            }
            lemma_with_key_absent(u, k);
            assert(sets_with_key(u2, k) =~= seq![s]);
            assert forall|g: int| 0 <= g < after.len() implies #[trigger] a2[g] == after[g] by {}
            assert(keys_distinct(a2)) by {
                assert forall|x: int, y: int| 0 <= x < y < a2.len() implies a2[x].key != a2[y].key by {
                    if y < after.len() {
                        assert(after[x].key != after[y].key);
                    }
                }
            }
            assert forall|g: int| 0 <= g < before.len() implies (#[trigger] a2[g]).key == before[g].key
                && a2[g].sets == before[g].sets + sets_with_key(u2, before[g].key) by {
                assert(after[g].key != k);
            }
            assert forall|g: int| before.len() <= g < a2.len() implies (#[trigger] a2[g]).sets
                == sets_with_key(u2, a2[g].key) && a2[g].sets.len() > 0 by {
                if g < after.len() {
                    assert(after[g].key != k);
                }
            }
            assert forall|j: int| 0 <= j < u2.len() implies group_index_from(
                a2,
                group_key_of(#[trigger] u2[j]),
                0,
            ) is Some by {
                let kj = group_key_of(u2[j]);
                lemma_group_index(a2, kj, 0);
                if j < u.len() {
                    assert(u2[j] == u[j]);
                    lemma_group_index(after, kj, 0);
                    let gj = group_index_from(after, kj, 0)->0;
                    assert(a2[gj].key == kj);
                } else {
                    assert(a2[after.len() as int].key == kj);
                }
            }
            assert forall|g1: int, g2: int, n: int|
                #![trigger a2[g1], a2[g2], u2.take(n)]
                before.len() <= g1 < g2 < a2.len() && 0 <= n <= u2.len() && sets_with_key(
                    u2.take(n),
                    a2[g2].key,
                ).len() > 0 implies sets_with_key(u2.take(n), a2[g1].key).len() > 0 by {
                assert(a2[g1].key == after[g1].key);
                if g2 < after.len() {
                    assert(a2[g2].key == after[g2].key);
                    if n <= u.len() {
                        assert(u2.take(n) == u.take(n));
                        assert(after[g1] == after[g1] && after[g2] == after[g2] && u.take(n) == u.take(n));
                    } else {
                        assert(sets_with_key(u, after[g1].key).len() > 0);
                    }
                } else {
                    if n <= u.len() {
                        assert(u2.take(n) == u.take(n));
                        assert forall|j: int| 0 <= j < u.take(n).len() implies group_key_of(
                            #[trigger] u.take(n)[j],
                        ) != k by {
                            assert(u.take(n)[j] == u[j]);
                            lemma_group_index(after, group_key_of(u[j]), 0);
                        }
                        lemma_with_key_absent(u.take(n), k);
                    } else {
                        assert(sets_with_key(u, after[g1].key).len() > 0);
                    }
                }
            }
        },
    }
}

proof fn lemma_push_grouping(st: PushState, sets: Seq<SetV>)
    requires
        keys_distinct(st.grouped),
    ensures
        push_all(st, sets).all.len() >= st.all.len(),
        push_all(st, sets).all.take(st.all.len() as int) == st.all,
        grouping_of(
            st.grouped,
            push_all(st, sets).all.skip(st.all.len() as int),
            push_all(st, sets).grouped,
        ),
    decreases sets.len(),
{
    let n0 = st.all.len() as int;
    if sets.len() == 0 {
        assert(st.all.take(n0) =~= st.all);
        let u = st.all.skip(n0);
        assert(u.len() == 0);
        assert forall|g: int| 0 <= g < st.grouped.len() implies (#[trigger] st.grouped[g]).sets
            == st.grouped[g].sets + sets_with_key(u, st.grouped[g].key) by {
            assert(st.grouped[g].sets + sets_with_key(u, st.grouped[g].key) =~= st.grouped[g].sets);
        }
    } else {
        lemma_push_grouping(st, sets.drop_last());
        let prev = push_all(st, sets.drop_last());
        let s = sets.last();
        let u = prev.all.skip(n0);
        if !prev.seen.contains(s.id) {
            let a = push_one(prev, s);
            assert(a.all.take(n0) =~= prev.all.take(n0));
            assert(a.all.skip(n0) =~= u.push(s));
            lemma_grouping_step(st.grouped, u, prev.grouped, s);
        }
    }
}

/// Pushing sets into buckets whose keys are distinct: the accepted sets are
/// appended to all sets in order, and the buckets hold them as `grouping_of`
/// says: old buckets keep key and place and gain the accepted sets of their
/// key, new buckets follow in order of first appearance with exactly the
/// accepted sets of their key, and keys stay distinct.
pub proof fn law_push_fills_buckets(st: PushState, sets: Seq<SetV>)
    requires
        keys_distinct(st.grouped),
    ensures
        push_all(st, sets).all == st.all + push_all(st, sets).all.skip(st.all.len() as int),
        grouping_of(
            st.grouped,
            push_all(st, sets).all.skip(st.all.len() as int),
            push_all(st, sets).grouped,
        ),
{
    lemma_push_grouping(st, sets);
    let a = push_all(st, sets).all;
    assert(a =~= a.take(st.all.len() as int) + a.skip(st.all.len() as int));
}

// ---------------------------------------------------------------------------
// Ordering tabs
// ---------------------------------------------------------------------------

/// The outcome of comparing two keys.
#[derive(Debug, PartialEq)]
pub enum Order3 {
    Before,
    Same,
    After,
}

/// Lexicographic order of character sequences (that of `String`).
pub open spec fn compare_text(a: Seq<char>, b: Seq<char>) -> Order3
    decreases a.len(),
{
    if a.len() == 0 {
        if b.len() == 0 {
            Order3::Same
        } else {
            Order3::Before
        }
    } else if b.len() == 0 {
        Order3::After
    } else if a[0] < b[0] {
        Order3::Before
    } else if a[0] > b[0] {
        Order3::After
    } else {
        compare_text(a.drop_first(), b.drop_first())
    }
}

pub open spec fn compare_nat(a: int, b: int) -> Order3 {
    if a < b {
        Order3::Before
    } else if a > b {
        Order3::After
    } else {
        Order3::Same
    }
}

/// Where a bucket goes: by event name, then brackets before pools, then
/// numbered pools by number before unnumbered ones, which go by label.
pub struct BucketSortKey {
    pub event_name: String,
    pub is_pool: bool,
    pub pool_number: Option<u64>,
    pub label: String,
}

pub struct SortKeyV {
    pub event_name: Seq<char>,
    pub is_pool: bool,
    pub pool_number: Option<u64>,
    pub label: Seq<char>,
}

impl View for BucketSortKey {
    type V = SortKeyV;

    open spec fn view(&self) -> SortKeyV {
        SortKeyV {
            event_name: self.event_name@,
            is_pool: self.is_pool,
            pool_number: self.pool_number,
            label: self.label@,
        }
    }
}

pub open spec fn compare_pools(a: SortKeyV, b: SortKeyV) -> Order3 {
    match (a.pool_number, b.pool_number) {
        (Some(x), Some(y)) => compare_nat(x as int, y as int),
        (Some(_), None) => Order3::Before,
        (None, Some(_)) => Order3::After,
        (None, None) => compare_text(a.label, b.label),
    }
}

pub open spec fn compare_keys(a: SortKeyV, b: SortKeyV) -> Order3 {
    match compare_text(a.event_name, b.event_name) {
        Order3::Same => match compare_nat(
            if a.is_pool {
                1
            } else {
                0
            },
            if b.is_pool {
                1
            } else {
                0
            },
        ) {
            Order3::Same => compare_pools(a, b),
            o => o,
        },
        o => o,
    }
}

pub fn compare_text_exec(a: &Vec<char>, b: &Vec<char>) -> (r: Order3)
    ensures
        r == compare_text(a@, b@),
{
    let mut i: usize = 0;
    assert(a@.skip(0) =~= a@);
    assert(b@.skip(0) =~= b@);
    while i < a.len() && i < b.len() && a[i] == b[i]
        invariant
            i <= a@.len(),
            i <= b@.len(),
            compare_text(a@, b@) == compare_text(a@.skip(i as int), b@.skip(i as int)),
        decreases a@.len() - i,
    {
        assert(a@.skip(i as int).drop_first() =~= a@.skip(i + 1));
        assert(b@.skip(i as int).drop_first() =~= b@.skip(i + 1));
        i = i + 1;
    }
    if i == a.len() {
        if i == b.len() {
            Order3::Same
        } else {
            Order3::Before
        }
    } else if i == b.len() {
        Order3::After
    } else if a[i] < b[i] {
        Order3::Before
    } else {
        Order3::After
    }
}

fn compare_keys_exec(a: &BucketSortKey, b: &BucketSortKey) -> (r: Order3)
    ensures
        r == compare_keys(a@, b@),
{
    let ea = chars_of(a.event_name.as_str());
    let eb = chars_of(b.event_name.as_str());
    match compare_text_exec(&ea, &eb) {
        Order3::Same => {},
        o => {
            return o;
        },
    }
    if !a.is_pool && b.is_pool {
        return Order3::Before;
    }
    if a.is_pool && !b.is_pool {
        return Order3::After;
    }
    match (a.pool_number, b.pool_number) {
        (Some(x), Some(y)) => if x < y {
            Order3::Before
        } else if x > y {
            Order3::After
        } else {
            Order3::Same
        },
        (Some(_), None) => Order3::Before,
        (None, Some(_)) => Order3::After,
        (None, None) => {
            let la = chars_of(a.label.as_str());
            let lb = chars_of(b.label.as_str());
            compare_text_exec(&la, &lb)
        },
    }
}

// ---------------------------------------------------------------------------
// Naming tabs
// ---------------------------------------------------------------------------

pub open spec fn all_round_zero(sets: Seq<SetV>) -> bool {
    forall|k: int| 0 <= k < sets.len() ==> #[trigger] sets[k].round == 0
}

pub open spec fn or_empty(o: Option<Seq<char>>) -> Seq<char> {
    match o {
        Some(s) => s,
        None => Seq::empty(),
    }
}

/// A bucket is a round-robin pool when none of its sets has a bracket round,
/// or when its phase is named like a pool or a group.
pub open spec fn is_pool_group(sets: Seq<SetV>) -> bool {
    let lp = lower(or_empty(sets[0].phase_name));
    all_round_zero(sets) || contains(lp, "pool"@) || contains(lp, "group"@)
}

pub open spec fn pool_label(first: SetV) -> Seq<char> {
    match first.phase_group_identifier {
        Some(x) => x,
        None => "?"@,
    }
}

pub open spec fn bucket_name(sets: Seq<SetV>) -> Seq<char> {
    let first = sets[0];
    if is_pool_group(sets) {
        first.event_name + " - Pool "@ + pool_label(first)
    } else {
        match first.phase_name {
            Some(p) => first.event_name + " - "@ + p,
            None => first.event_name,
        }
    }
}

/// A non-empty group as a named bucket with its sort key.
pub open spec fn entry_of(g: GroupV) -> Option<(BucketV, SortKeyV)> {
    if g.sets.len() == 0 {
        None
    } else {
        let first = g.sets[0];
        let label = pool_label(first);
        Some(
            (
                BucketV { id: bucket_id(g.key), name: bucket_name(g.sets), sets: g.sets },
                SortKeyV {
                    event_name: first.event_name,
                    is_pool: is_pool_group(g.sets),
                    pool_number: parse_u64_text(label),
                    label,
                },
            ),
        )
    }
}

pub open spec fn entries_of(gs: Seq<GroupV>) -> Seq<(BucketV, SortKeyV)>
    decreases gs.len(),
{
    if gs.len() == 0 {
        Seq::empty()
    } else {
        entries_of(gs.drop_last()) + match entry_of(gs.last()) {
            Some(e) => seq![e],
            None => Seq::empty(),
        }
    }
}

/// Where a stable insertion sort puts `x`: after every entry that does not
/// sort after it.
pub open spec fn entry_pos(t: Seq<(BucketV, SortKeyV)>, x: (BucketV, SortKeyV)) -> int
    decreases t.len(),
{
    if t.len() == 0 || !(compare_keys(t.last().1, x.1) is After) {
        t.len() as int
    } else {
        entry_pos(t.drop_last(), x)
    }
}

/// `sort_by(compare_keys)`: a stable sort of the entries.
pub open spec fn sort_entries(s: Seq<(BucketV, SortKeyV)>) -> Seq<(BucketV, SortKeyV)>
    decreases s.len(),
{
    if s.len() == 0 {
        s
    } else {
        let t = sort_entries(s.drop_last());
        t.insert(entry_pos(t, s.last()), s.last())
    }
}

pub open spec fn ordered_buckets(gs: Seq<GroupV>) -> Seq<BucketV> {
    sort_entries(entries_of(gs)).map_values(|e: (BucketV, SortKeyV)| e.0)
}

/// The tournament as the front end shows it.
pub open spec fn tournament_view(
    tournament_id: Option<u64>,
    tournament_name: Seq<char>,
    slug: Seq<char>,
    fetched_at: Seq<char>,
    videogame_id: Option<u64>,
    grouped: Seq<GroupV>,
    all_sets: Seq<SetV>,
) -> DataV {
    DataV {
        tournament_id,
        tournament_name: if tournament_name.len() == 0 {
            slug
        } else {
            tournament_name
        },
        slug,
        fetched_at,
        total_sets: all_sets.len() as usize,
        videogame_id,
        buckets: ordered_buckets(grouped),
    }
}

pub open spec fn entry_view(e: (SetBucket, BucketSortKey)) -> (BucketV, SortKeyV) {
    (e.0@, e.1@)
}

pub proof fn lemma_entry_pos_bound(t: Seq<(BucketV, SortKeyV)>, x: (BucketV, SortKeyV))
    ensures
        0 <= entry_pos(t, x) <= t.len(),
    decreases t.len(),
{
    if t.len() > 0 && compare_keys(t.last().1, x.1) is After {
        lemma_entry_pos_bound(t.drop_last(), x);
    }
}

// ---------------------------------------------------------------------------
// Tabs come out in order
// ---------------------------------------------------------------------------

pub open spec fn flip(o: Order3) -> Order3 {
    match o {
        Order3::Before => Order3::After,
        Order3::Same => Order3::Same,
        Order3::After => Order3::Before,
    }
}

proof fn lemma_text_flip(a: Seq<char>, b: Seq<char>)
    ensures
        compare_text(b, a) == flip(compare_text(a, b)),
    decreases a.len(),
{
    if a.len() > 0 && b.len() > 0 && a[0] == b[0] {
        lemma_text_flip(a.drop_first(), b.drop_first());
    }
}

proof fn lemma_text_same(a: Seq<char>, b: Seq<char>)
    requires
        compare_text(a, b) is Same,
    ensures
        a == b,
    decreases a.len(),
{
    if a.len() > 0 {
        lemma_text_same(a.drop_first(), b.drop_first());
        assert(a =~= seq![a[0]] + a.drop_first());
        assert(b =~= seq![b[0]] + b.drop_first());
    } else {
        assert(a =~= b);
    }
}

proof fn lemma_text_before_trans(a: Seq<char>, b: Seq<char>, c: Seq<char>)
    requires
        compare_text(a, b) is Before,
        compare_text(b, c) is Before,
    ensures
        compare_text(a, c) is Before,
    decreases a.len(),
{
    if a.len() > 0 && b.len() > 0 && c.len() > 0 && a[0] == b[0] && b[0] == c[0] {
        lemma_text_before_trans(a.drop_first(), b.drop_first(), c.drop_first());
    }
}

proof fn lemma_keys_flip(a: SortKeyV, b: SortKeyV)
    ensures
        compare_keys(b, a) == flip(compare_keys(a, b)),
{
    lemma_text_flip(a.event_name, b.event_name);
    lemma_text_flip(a.label, b.label);
}

/// Keys that compare the same are interchangeable in any comparison.
proof fn lemma_keys_same(a: SortKeyV, b: SortKeyV, c: SortKeyV)
    requires
        compare_keys(a, b) is Same,
    ensures
        compare_keys(a, c) == compare_keys(b, c),
        compare_keys(c, a) == compare_keys(c, b),
{
    lemma_text_same(a.event_name, b.event_name);
    match (a.pool_number, b.pool_number) {
        (None, None) => {
            lemma_text_same(a.label, b.label);
        },
        _ => {},
    }
}

proof fn lemma_keys_before_trans(a: SortKeyV, b: SortKeyV, c: SortKeyV)
    requires
        compare_keys(a, b) is Before,
        compare_keys(b, c) is Before,
    ensures
        compare_keys(a, c) is Before,
{
    let e1 = compare_text(a.event_name, b.event_name);
    let e2 = compare_text(b.event_name, c.event_name);
    if e1 is Same {
        lemma_text_same(a.event_name, b.event_name);
    }
    if e2 is Same {
        lemma_text_same(b.event_name, c.event_name);
    }
    if e1 is Before && e2 is Before {
        lemma_text_before_trans(a.event_name, b.event_name, c.event_name);
    }
    if e1 is Same && e2 is Same {
        match (a.pool_number, b.pool_number, c.pool_number) {
            (None, None, None) => {
                if compare_text(a.label, b.label) is Before && compare_text(b.label, c.label) is Before {
                    lemma_text_before_trans(a.label, b.label, c.label);
                }
            },
            _ => {},
        }
    }
}

/// `a` may come before `b`: it does not sort after it.
pub open spec fn key_le(a: SortKeyV, b: SortKeyV) -> bool {
    !(compare_keys(a, b) is After)
}

proof fn lemma_key_le_trans(a: SortKeyV, b: SortKeyV, c: SortKeyV)
    requires
        key_le(a, b),
        key_le(b, c),
    ensures
        key_le(a, c),
{
    if compare_keys(a, b) is Same {
        lemma_keys_same(a, b, c);
    } else if compare_keys(b, c) is Same {
        lemma_keys_same(b, c, a);
        lemma_keys_flip(a, b);
        lemma_keys_flip(a, c);
    } else {
        lemma_keys_before_trans(a, b, c);
    }
}

pub open spec fn entries_sorted(t: Seq<(BucketV, SortKeyV)>) -> bool {
    forall|i: int, j: int| 0 <= i < j < t.len() ==> key_le(#[trigger] t[i].1, #[trigger] t[j].1)
}

proof fn lemma_entry_pos_split(t: Seq<(BucketV, SortKeyV)>, x: (BucketV, SortKeyV))
    ensures
        forall|k: int| entry_pos(t, x) <= k < t.len() ==> compare_keys(#[trigger] t[k].1, x.1) is After,
        entry_pos(t, x) > 0 ==> key_le(t[entry_pos(t, x) - 1].1, x.1),
    decreases t.len(),
{
    lemma_entry_pos_bound(t, x);
    if t.len() > 0 && compare_keys(t.last().1, x.1) is After {
        let u = t.drop_last();
        lemma_entry_pos_split(u, x);
        lemma_entry_pos_bound(u, x);
        assert forall|k: int| entry_pos(t, x) <= k < t.len() implies compare_keys(
            #[trigger] t[k].1,
            x.1,
        ) is After by {
            if k < u.len() {
                assert(t[k] == u[k]);
            }
        }
        if entry_pos(t, x) > 0 {
            assert(t[entry_pos(t, x) - 1] == u[entry_pos(u, x) - 1]);
        }
    }
}

proof fn lemma_insert_sorted(t: Seq<(BucketV, SortKeyV)>, x: (BucketV, SortKeyV))
    requires
        entries_sorted(t),
    ensures
        entries_sorted(t.insert(entry_pos(t, x), x)),
{
    let p = entry_pos(t, x);
    lemma_entry_pos_bound(t, x);
    lemma_entry_pos_split(t, x);
    let r = t.insert(p, x);
    assert forall|i: int, j: int| 0 <= i < j < r.len() implies key_le(#[trigger] r[i].1, #[trigger] r[j].1) by {
        if j < p {
            assert(r[i] == t[i] && r[j] == t[j]);
        } else if j == p {
            assert(r[i] == t[i]);
            if i < p - 1 {
                lemma_key_le_trans(t[i].1, t[p - 1].1, x.1);
            }
        } else if i == p {
            assert(r[j] == t[j - 1]);
            lemma_keys_flip(t[j - 1].1, x.1);
        } else if i < p {
            assert(r[i] == t[i] && r[j] == t[j - 1]);
        } else {
            assert(r[i] == t[i - 1] && r[j] == t[j - 1]);
        }
    }
}

/// Sorting the tabs puts them in key order (a tab never precedes one that
/// sorts before it) and keeps every tab, each exactly as often.
pub proof fn law_sorted_tabs(s: Seq<(BucketV, SortKeyV)>)
    ensures
        entries_sorted(sort_entries(s)),
        sort_entries(s).to_multiset() == s.to_multiset(),
    decreases s.len(),
{
    broadcast use vstd::seq_lib::to_multiset_insert, vstd::seq_lib::to_multiset_build;

    if s.len() > 0 {
        let u = s.drop_last();
        law_sorted_tabs(u);
        let t = sort_entries(u);
        lemma_insert_sorted(t, s.last());
        lemma_entry_pos_bound(t, s.last());
        assert(s =~= u.push(s.last()));
    }
}

/// Sets that look like a round-robin pool: none has a bracket round, or the
/// first set's phase name holds "pool" or "group" in any letter case.
pub open spec fn looks_like_pool(sets: Seq<SetV>) -> bool {
    let phase = match sets[0].phase_name {
        Some(p) => p,
        None => Seq::empty(),
    };
    ||| forall|k: int| 0 <= k < sets.len() ==> #[trigger] sets[k].round == 0
    ||| holds_word_either_case(phase, "pool"@)
    ||| holds_word_either_case(phase, "group"@)
}

proof fn lemma_pool_group_looks_like_pool(sets: Seq<SetV>)
    ensures
        is_pool_group(sets) == looks_like_pool(sets),
{
    reveal_strlit("pool");
    reveal_strlit("group");
    assert(small_letters("pool"@));
    assert(small_letters("group"@));
    let phase = match sets[0].phase_name {
        Some(p) => p,
        None => Seq::<char>::empty(),
    };
    assert(or_empty(sets[0].phase_name) == phase);
    lemma_contains_lower_either_case(phase, "pool"@);
    lemma_contains_lower_either_case(phase, "group"@);
}

proof fn lemma_text_same_self(a: Seq<char>)
    ensures
        compare_text(a, a) is Same,
    decreases a.len(),
{
    if a.len() > 0 {
        lemma_text_same_self(a.drop_first());
    }
}

/// An entry whose name and key are those of its own sets.
spec fn entry_fits(e: (BucketV, SortKeyV)) -> bool {
    &&& e.0.sets.len() > 0
    &&& e.0.name == bucket_name(e.0.sets)
    &&& e.1.event_name == e.0.sets[0].event_name
    &&& e.1.is_pool == is_pool_group(e.0.sets)
}

proof fn lemma_entries_fit(gs: Seq<GroupV>)
    ensures
        forall|i: int| 0 <= i < entries_of(gs).len() ==> entry_fits(#[trigger] entries_of(gs)[i]),
    decreases gs.len(),
{
    if gs.len() > 0 {
        lemma_entries_fit(gs.drop_last());
        let before = entries_of(gs.drop_last());
        assert forall|i: int| 0 <= i < entries_of(gs).len() implies entry_fits(#[trigger] entries_of(gs)[i]) by {
            if i < before.len() {
                assert(entries_of(gs)[i] == before[i]);
            }
        }
    }
}

proof fn lemma_sorted_entries_fit(s: Seq<(BucketV, SortKeyV)>)
    requires
        forall|i: int| 0 <= i < s.len() ==> entry_fits(#[trigger] s[i]),
    ensures
        forall|i: int| 0 <= i < sort_entries(s).len() ==> entry_fits(#[trigger] sort_entries(s)[i]),
    decreases s.len(),
{
    if s.len() > 0 {
        let u = s.drop_last();
        assert forall|i: int| 0 <= i < u.len() implies entry_fits(#[trigger] u[i]) by {
            assert(u[i] == s[i]);
        }
        lemma_sorted_entries_fit(u);
        let t = sort_entries(u);
        let p = entry_pos(t, s.last());
        lemma_entry_pos_bound(t, s.last());
        assert(entry_fits(s[s.len() - 1]));
        assert forall|i: int| 0 <= i < sort_entries(s).len() implies entry_fits(#[trigger] sort_entries(s)[i]) by {
            if i < p {
                assert(sort_entries(s)[i] == t[i]);
            } else if i == p {
                assert(sort_entries(s)[i] == s.last());
            } else {
                assert(sort_entries(s)[i] == t[i - 1]);
            }
        }
    }
}

/// The tabs as shown: a tab whose sets look like a round-robin pool is named
/// "<event> - Pool <group label>" (the label "?" when the group has none),
/// any other tab "<event> - <phase>" (or the event alone without a phase);
/// and within an event, no bracket tab comes after a pool tab.
pub proof fn law_pool_tabs_named_and_after_brackets(gs: Seq<GroupV>)
    ensures
        forall|i: int|
            0 <= i < ordered_buckets(gs).len() ==> (#[trigger] ordered_buckets(gs)[i]).sets.len() > 0,
        forall|i: int|
            0 <= i < ordered_buckets(gs).len() ==> (#[trigger] ordered_buckets(gs)[i]).name == if looks_like_pool(
                ordered_buckets(gs)[i].sets,
            ) {
                ordered_buckets(gs)[i].sets[0].event_name + " - Pool "@ + match ordered_buckets(
                    gs,
                )[i].sets[0].phase_group_identifier {
                    Some(x) => x,
                    None => "?"@,
                }
            } else {
                match ordered_buckets(gs)[i].sets[0].phase_name {
                    Some(p) => ordered_buckets(gs)[i].sets[0].event_name + " - "@ + p,
                    None => ordered_buckets(gs)[i].sets[0].event_name,
                }
            },
        forall|i: int, j: int|
            0 <= i < j < ordered_buckets(gs).len() && (#[trigger] ordered_buckets(gs)[i]).sets[0].event_name
                == (#[trigger] ordered_buckets(gs)[j]).sets[0].event_name && looks_like_pool(
                ordered_buckets(gs)[i].sets,
            ) ==> looks_like_pool(ordered_buckets(gs)[j].sets),
{
    let es = entries_of(gs);
    let t = sort_entries(es);
    lemma_entries_fit(gs);
    lemma_sorted_entries_fit(es);
    law_sorted_tabs(es);
    let ob = ordered_buckets(gs);
    assert(ob.len() == t.len());
    assert forall|i: int| 0 <= i < ob.len() implies {
        &&& (#[trigger] ob[i]) == t[i].0
        &&& is_pool_group(ob[i].sets) == looks_like_pool(ob[i].sets)
        &&& entry_fits(t[i])
    } by {
        lemma_pool_group_looks_like_pool(ob[i].sets);
    }
    assert forall|i: int, j: int|
        0 <= i < j < ob.len() && (#[trigger] ob[i]).sets[0].event_name == (#[trigger] ob[j]).sets[0].event_name
            && looks_like_pool(ob[i].sets) implies looks_like_pool(ob[j].sets) by {
        assert(key_le(t[i].1, t[j].1));
        lemma_text_same_self(t[i].1.event_name);
    }
}

fn all_round_zero_exec(sets: &Vec<TournamentSet>) -> (r: bool)
    ensures
        r == all_round_zero(sets_view(sets@)),
{
    let mut i: usize = 0;
    while i < sets.len()
        invariant
            i <= sets@.len(),
            forall|k: int| 0 <= k < i ==> #[trigger] sets@[k].round == 0,
        decreases sets@.len() - i,
    {
        if sets[i].round != 0 {
            assert(sets_view(sets@)[i as int].round != 0);
            return false;
        }
        i = i + 1;
    }
    assert(forall|k: int|
        0 <= k < sets_view(sets@).len() ==> #[trigger] sets_view(sets@)[k].round == sets@[k].round);
    true
}

fn entry_exec(g: GroupedBucket) -> (r: Option<(SetBucket, BucketSortKey)>)
    ensures
        match r {
            Some(e) => entry_of(g@) == Some(entry_view(e)),
            None => entry_of(g@) is None,
        },
{
    if g.sets.len() == 0 {
        return None;
    }
    let ghost sv = sets_view(g.sets@);
    let first = &g.sets[0];
    assert(sv[0] == first@);
    let lowered = match &first.phase_name {
        Some(p) => to_ascii_lowercase(p.as_str()),
        None => {
            let l = String::new();
            assert(l@ =~= lower(Seq::<char>::empty()));
            l
        },
    };
    let is_pool = all_round_zero_exec(&g.sets) || str_contains(lowered.as_str(), "pool")
        || str_contains(lowered.as_str(), "group");
    let label = match &first.phase_group_identifier {
        Some(x) => x.clone(),
        None => owned("?"),
    };
    let name = if is_pool {
        let mut n = first.event_name.clone();
        push_str(&mut n, " - Pool ");
        push_str(&mut n, label.as_str());
        n
    } else {
        match &first.phase_name {
            Some(p) => {
                let mut n = first.event_name.clone();
                push_str(&mut n, " - ");
                push_str(&mut n, p.as_str());
                n
            },
            None => first.event_name.clone(),
        }
    };
    let key = BucketSortKey {
        event_name: first.event_name.clone(),
        is_pool,
        pool_number: parse_u64_str(label.as_str()),
        label,
    };
    let id = normalize_bucket_id(g.key.as_str());
    let bucket = SetBucket { id, name, sets: g.sets };
    Some((bucket, key))
}

fn insert_entry(t: &mut Vec<(SetBucket, BucketSortKey)>, x: (SetBucket, BucketSortKey))
    ensures
        final(t)@.map_values(|e: (SetBucket, BucketSortKey)| entry_view(e)) == ({
            let tv = old(t)@.map_values(|e: (SetBucket, BucketSortKey)| entry_view(e));
            tv.insert(entry_pos(tv, entry_view(x)), entry_view(x))
        }),
{
    let ghost tv = t@.map_values(|e: (SetBucket, BucketSortKey)| entry_view(e));
    let mut j = t.len();
    assert(tv.take(j as int) =~= tv);
    while j > 0 && matches!(compare_keys_exec(&t[j - 1].1, &x.1), Order3::After)
        invariant
            j <= t@.len(),
            tv == t@.map_values(|e: (SetBucket, BucketSortKey)| entry_view(e)),
            entry_pos(tv, entry_view(x)) == entry_pos(tv.take(j as int), entry_view(x)),
        decreases j,
    {
        assert(tv.take(j as int).drop_last() =~= tv.take(j - 1));
        j = j - 1;
    }
    assert(entry_pos(tv.take(j as int), entry_view(x)) == j);
    proof {
        lemma_entry_pos_bound(tv, entry_view(x));
    }
    t.insert(j, x);
    assert(t@.map_values(|e: (SetBucket, BucketSortKey)| entry_view(e)) =~= tv.insert(
        j as int,
        entry_view(x),
    ));
}

/// The named, ordered buckets of the non-empty groups.
pub fn order_buckets(grouped: Vec<GroupedBucket>) -> (r: Vec<SetBucket>)
    ensures
        r@.map_values(|b: SetBucket| b@) == ordered_buckets(groups_view(grouped@)),
{
    let ghost gv = groups_view(grouped@);
    let mut rest = grouped;
    let mut items: Vec<GroupedBucket> = Vec::new();
    while rest.len() > 0
        invariant
            groups_view(rest@) + groups_view(items@.reverse()) == gv,
        decreases rest@.len(),
    {
        let ghost r0 = rest@;
        let ghost i0 = items@;
        let g = rest.pop().unwrap();
        items.push(g);
        assert(rest@ =~= r0.drop_last());
        assert(items@.reverse() =~= seq![g] + i0.reverse());
        assert(groups_view(rest@) + groups_view(items@.reverse()) =~= gv);
    }
    assert(groups_view(items@.reverse()) =~= gv);
    let n = items.len();
    let mut sorted: Vec<(SetBucket, BucketSortKey)> = Vec::new();
    let mut i: usize = 0;
    while i < n
        invariant
            n == items@.len() + i,
            gv.len() == n,
            groups_view(items@.reverse()) == gv.skip(i as int),
            sorted@.map_values(|e: (SetBucket, BucketSortKey)| entry_view(e)) == sort_entries(
                entries_of(gv.take(i as int)),
            ),
        decreases n - i,
    {
        let ghost i0 = items@;
        let g = items.pop().unwrap();
        assert(items@ =~= i0.drop_last());
        assert(g == i0.last());
        assert(groups_view(i0.reverse())[0] == g@);
        assert(gv[i as int] == g@);
        assert(groups_view(items@.reverse()) =~= groups_view(i0.reverse()).drop_first());
        assert(groups_view(items@.reverse()) =~= gv.skip(i + 1));
        assert(gv.take(i + 1).drop_last() =~= gv.take(i as int));
        assert(gv.take(i + 1).last() == g@);
        let ghost e0 = entries_of(gv.take(i as int));
        match entry_exec(g) {
            Some(e) => {
                assert(entries_of(gv.take(i + 1)) == e0.push(entry_view(e)));
                assert(e0.push(entry_view(e)).drop_last() =~= e0);
                insert_entry(&mut sorted, e);
            },
            None => {
                assert(entries_of(gv.take(i + 1)) =~= e0);
            },
        }
        i = i + 1;
    }
    assert(gv.take(n as int) =~= gv);
    let ghost sv = sorted@.map_values(|e: (SetBucket, BucketSortKey)| entry_view(e));
    let mut out: Vec<SetBucket> = Vec::new();
    let mut backwards: Vec<SetBucket> = Vec::new();
    while sorted.len() > 0
        invariant
            sv.map_values(|e: (BucketV, SortKeyV)| e.0) == sorted@.map_values(
                |e: (SetBucket, BucketSortKey)| entry_view(e).0,
            ) + backwards@.reverse().map_values(|b: SetBucket| b@),
        decreases sorted@.len(),
    {
        let ghost s0 = sorted@;
        let ghost b0 = backwards@;
        let e = sorted.pop().unwrap();
        backwards.push(e.0);
        assert(sorted@ =~= s0.drop_last());
        assert(backwards@.reverse() =~= seq![e.0] + b0.reverse());
        assert(sv.map_values(|e: (BucketV, SortKeyV)| e.0) =~= sorted@.map_values(
            |e: (SetBucket, BucketSortKey)| entry_view(e).0,
        ) + backwards@.reverse().map_values(|b: SetBucket| b@));
    }
    assert(backwards@.reverse().map_values(|b: SetBucket| b@) =~= sv.map_values(
        |e: (BucketV, SortKeyV)| e.0,
    ));
    while backwards.len() > 0
        invariant
            out@.map_values(|b: SetBucket| b@) + backwards@.reverse().map_values(|b: SetBucket| b@)
                == sv.map_values(|e: (BucketV, SortKeyV)| e.0),
        decreases backwards@.len(),
    {
        let ghost o0 = out@;
        let ghost b0 = backwards@;
        let b = backwards.pop().unwrap();
        out.push(b);
        assert(backwards@ =~= b0.drop_last());
        assert(b0.reverse() =~= seq![b] + backwards@.reverse());
        assert(out@.map_values(|b: SetBucket| b@) + backwards@.reverse().map_values(
            |b: SetBucket| b@,
        ) =~= sv.map_values(|e: (BucketV, SortKeyV)| e.0));
    }
    assert(out@.map_values(|b: SetBucket| b@) =~= sv.map_values(|e: (BucketV, SortKeyV)| e.0));
    out
}

} // verus!
