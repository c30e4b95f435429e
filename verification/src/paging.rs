//! Where the paginated `sets` connections of a response are, and merging
//! their pages.
use vstd::prelude::*;
use crate::json::{
    member_pos_exec, member_pos_from, array_opt, as_u64, elements, follow, member, parse_index, parse_index_exec, pointer,
    pointer_tokens, pointer_tokens_exec, Json, JsonV,
};
use crate::text::{chars_of, decimal, owned, push_decimal, push_str, seq_eq};

verus! {

/// Where a paginated `sets` connection lives in a response: directly on one
/// object, or once per entry of an array whose length is only known from the
/// response.
#[derive(Clone)]
pub enum SetsLocation {
    Single { object_pointer: String, sets_relative: String },
    PerArrayEntry { array_pointer: String, sets_relative: String },
}

/// The pointers of the `sets` objects that one location names in `data`.
pub open spec fn location_pointers(data: JsonV, loc: SetsLocation) -> Seq<Seq<char>> {
    match loc {
        SetsLocation::Single { object_pointer, sets_relative } => seq![
            object_pointer@ + sets_relative@,
        ],
        SetsLocation::PerArrayEntry { array_pointer, sets_relative } => match array_opt(
            pointer(data, array_pointer@),
        ) {
            Some(a) => Seq::new(
                a.len(),
                |i: int| array_pointer@ + "/"@ + decimal(i as nat) + sets_relative@,
            ),
            None => Seq::empty(),
        },
    }
}

/// The pointers of every `sets` object the locations name, in order.
pub open spec fn sets_pointers(data: JsonV, locs: Seq<SetsLocation>) -> Seq<Seq<char>>
    decreases locs.len(),
{
    if locs.len() == 0 {
        Seq::empty()
    } else {
        sets_pointers(data, locs.drop_last()) + location_pointers(data, locs.last())
    }
}

pub open spec fn nodes_at(data: JsonV, p: Seq<char>) -> Option<Seq<JsonV>> {
    array_opt(pointer(data, p + "/nodes"@))
}

/// Whether any of the connections has at least one node.
pub open spec fn any_sets(data: JsonV, locs: Seq<SetsLocation>) -> bool {
    exists|k: int|
        0 <= k < sets_pointers(data, locs).len() && match #[trigger] nodes_at(
            data,
            sets_pointers(data, locs)[k],
        ) {
            Some(n) => n.len() > 0,
            None => false,
        }
}

pub fn resolve_sets_pointers(data: &Json, locations: &Vec<SetsLocation>) -> (out: Vec<String>)
    ensures
        out@.map_values(|s: String| s@) == sets_pointers(data@, locations@),
{
    let mut out: Vec<String> = Vec::new();
    let mut k: usize = 0;
    while k < locations.len()
        invariant
            k <= locations@.len(),
            out@.map_values(|s: String| s@) == sets_pointers(data@, locations@.take(k as int)),
        decreases locations@.len() - k,
    {
        assert(locations@.take(k + 1).drop_last() =~= locations@.take(k as int));
        assert(locations@.take(k + 1).last() == locations@[k as int]);
        let ghost before = out@;
        match &locations[k] {
            SetsLocation::Single { object_pointer, sets_relative } => {
                let mut p = object_pointer.clone();
                push_str(&mut p, sets_relative.as_str());
                out.push(p);
            },
            SetsLocation::PerArrayEntry { array_pointer, sets_relative } => {
                let len = match data.pointer(array_pointer.as_str()) {
                    Some(a) => match a.as_array() {
                        Some(v) => v.len(),
                        None => 0,
                    },
                    None => 0,
                };
                assert(len == location_pointers(data@, locations@[k as int]).len());
                let mut i: usize = 0;
                while i < len
                    invariant
                        i <= len,
                        k < locations@.len(),
                        len == location_pointers(data@, locations@[k as int]).len(),
                        locations@[k as int] == (SetsLocation::PerArrayEntry {
                            array_pointer: *array_pointer,
                            sets_relative: *sets_relative,
                        }),
                        out@.map_values(|s: String| s@) == before.map_values(|s: String| s@)
                            + location_pointers(data@, locations@[k as int]).take(i as int),
                    decreases len - i,
                {
                    let mut p = array_pointer.clone();
                    push_str(&mut p, "/");
                    push_decimal(&mut p, i as u64);
                    push_str(&mut p, sets_relative.as_str());
                    assert(p@ == location_pointers(data@, locations@[k as int])[i as int]);
                    let ghost mid = out@;
                    out.push(p);
                    assert(out@.map_values(|s: String| s@) =~= mid.map_values(|s: String| s@).push(p@));
                    i = i + 1;
                    assert(out@.map_values(|s: String| s@) =~= before.map_values(|s: String| s@)
                        + location_pointers(data@, locations@[k as int]).take(i as int));
                }
                assert(location_pointers(data@, locations@[k as int]).take(len as int)
                    =~= location_pointers(data@, locations@[k as int]));
            },
        }
        k = k + 1;
        assert(out@.map_values(|s: String| s@) =~= sets_pointers(data@, locations@.take(k as int)));
    }
    assert(locations@.take(locations@.len() as int) =~= locations@);
    out
}

/// `p` followed by `suffix`.
pub fn with_suffix(p: &String, suffix: &str) -> (r: String)
    ensures
        r@ == p@ + suffix@,
{
    let mut r = p.clone();
    push_str(&mut r, suffix);
    r
}

pub fn has_any_sets(data: &Json, locations: &Vec<SetsLocation>) -> (r: bool)
    ensures
        r == any_sets(data@, locations@),
{
    let pointers = resolve_sets_pointers(data, locations);
    let ghost ps = sets_pointers(data@, locations@);
    let mut i: usize = 0;
    while i < pointers.len()
        invariant
            i <= pointers@.len(),
            pointers@.map_values(|s: String| s@) == ps,
            ps == sets_pointers(data@, locations@),
            forall|k: int|
                0 <= k < i ==> match #[trigger] nodes_at(data@, ps[k]) {
                    Some(n) => n.len() == 0,
                    None => true,
                },
        decreases pointers@.len() - i,
    {
        assert(ps[i as int] == pointers@[i as int]@);
        let q = with_suffix(&pointers[i], "/nodes");
        let nonempty = match data.pointer(q.as_str()) {
            Some(n) => match n.as_array() {
                Some(v) => v.len() > 0,
                None => false,
            },
            None => false,
        };
        if nonempty {
            assert(match nodes_at(data@, ps[i as int]) {
                Some(n) => n.len() > 0,
                None => false,
            });
            return true;
        }
        i = i + 1;
    }
    false
}

// ---------------------------------------------------------------------------
// Extending an array in place
// ---------------------------------------------------------------------------

/// The value at the tokens, when it is an array, extended by `extra`;
/// everything else unchanged (`pointer_mut(..).as_array_mut().extend(..)`).
pub open spec fn extend_at_tokens(j: JsonV, toks: Seq<Seq<char>>, extra: Seq<JsonV>) -> JsonV
    decreases toks.len(),
{
    if toks.len() == 0 {
        match j {
            JsonV::Array(a) => JsonV::Array(a + extra),
            _ => j,
        }
    } else {
        match j {
            JsonV::Object(ms) => match member_pos_from(ms, toks[0], 0) {
                Some(i) => JsonV::Object(
                    ms.update(i, (ms[i].0, extend_at_tokens(ms[i].1, toks.drop_first(), extra))),
                ),
                None => j,
            },
            JsonV::Array(a) => match parse_index(toks[0]) {
                Some(i) => if i < a.len() {
                    JsonV::Array(
                        a.update(i as int, extend_at_tokens(a[i as int], toks.drop_first(), extra)),
                    )
                } else {
                    j
                },
                None => j,
            },
            _ => j,
        }
    }
}

/// The array at pointer `p`, when there is one, extended by `extra`.
pub open spec fn extend_at(j: JsonV, p: Seq<char>, extra: Seq<JsonV>) -> JsonV {
    if p.len() == 0 {
        extend_at_tokens(j, Seq::empty(), extra)
    } else if p[0] != '/' {
        j
    } else {
        extend_at_tokens(j, pointer_tokens(p), extra)
    }
}

/// Appends the nodes of `source` at each pointer to the nodes of `target` at
/// the same pointer.
pub open spec fn merge_pages(target: JsonV, source: JsonV, ps: Seq<Seq<char>>) -> JsonV
    decreases ps.len(),
{
    if ps.len() == 0 {
        target
    } else {
        let t = merge_pages(target, source, ps.drop_last());
        match nodes_at(source, ps.last()) {
            Some(src) => extend_at(t, ps.last() + "/nodes"@, src),
            None => t,
        }
    }
}

proof fn lemma_member_pos(ms: Seq<(Seq<char>, JsonV)>, key: Seq<char>, i: int)
    requires
        0 <= i <= ms.len(),
    ensures
        member(ms.skip(i), key) == match member_pos_from(ms, key, i) {
            Some(p) => Some(ms[p].1),
            None => None::<JsonV>,
        },
        member_pos_from(ms, key, i) matches Some(p) ==> i <= p < ms.len() && ms[p].0 == key,
    decreases ms.len() - i,
{
    if i < ms.len() {
        assert(ms.skip(i)[0] == ms[i]);
        assert(ms.skip(i).drop_first() =~= ms.skip(i + 1));
        lemma_member_pos(ms, key, i + 1);
    }
}

proof fn lemma_member_pos_update(ms: Seq<(Seq<char>, JsonV)>, key: Seq<char>, p: int, v: JsonV, i: int)
    requires
        0 <= i <= p < ms.len(),
        member_pos_from(ms, key, i) == Some(p),
    ensures
        member_pos_from(ms.update(p, (key, v)), key, i) == Some(p),
    decreases p - i,
{
    if i < p {
        lemma_member_pos_update(ms, key, p, v, i + 1);
    }
}

proof fn lemma_extend_then_read(j: JsonV, toks: Seq<Seq<char>>, extra: Seq<JsonV>)
    ensures
        match array_opt(follow(j, toks)) {
            Some(a) => array_opt(follow(extend_at_tokens(j, toks, extra), toks)) == Some(a + extra),
            None => extend_at_tokens(j, toks, extra) == j,
        },
    decreases toks.len(),
{
    if toks.len() > 0 {
        let rest = toks.drop_first();
        match j {
            JsonV::Object(ms) => {
                lemma_member_pos(ms, toks[0], 0);
                assert(ms.skip(0) =~= ms);
                match member_pos_from(ms, toks[0], 0) {
                    Some(i) => {
                        lemma_extend_then_read(ms[i].1, rest, extra);
                        let inner = extend_at_tokens(ms[i].1, rest, extra);
                        let ms2 = ms.update(i, (ms[i].0, inner));
                        lemma_member_pos_update(ms, toks[0], i, inner, 0);
                        lemma_member_pos(ms2, toks[0], 0);
                        assert(ms2.skip(0) =~= ms2);
                        if array_opt(follow(ms[i].1, rest)) is None {
                            assert(ms2 =~= ms);
                        }
                    },
                    None => {},
                }
            },
            JsonV::Array(a) => match parse_index(toks[0]) {
                Some(i) => if i < a.len() {
                    lemma_extend_then_read(a[i as int], rest, extra);
                    if array_opt(follow(a[i as int], rest)) is None {
                        assert(a.update(i as int, a[i as int]) =~= a);
                    }
                },
                None => {},
            },
            _ => {},
        }
    } else {
        match j {
            JsonV::Array(a) => {},
            _ => {},
        }
    }
}

/// Extending the array at a pointer and then reading that pointer gives the
/// old elements followed by the new ones; where the pointer leads to no
/// array, nothing changes.
pub proof fn law_extend_then_read(j: JsonV, p: Seq<char>, extra: Seq<JsonV>)
    ensures
        match array_opt(pointer(j, p)) {
            Some(a) => array_opt(pointer(extend_at(j, p, extra), p)) == Some(a + extra),
            None => extend_at(j, p, extra) == j,
        },
{
    if p.len() == 0 {
        lemma_extend_then_read(j, Seq::empty(), extra);
    } else if p[0] == '/' {
        lemma_extend_then_read(j, pointer_tokens(p), extra);
    }
}

fn extend_tokens_exec(j: Json, toks: &Vec<Vec<char>>, from: usize, extra: Vec<Json>) -> (r: Json)
    requires
        from <= toks@.len(),
    ensures
        r@ == extend_at_tokens(
            j@,
            toks@.map_values(|t: Vec<char>| t@).skip(from as int),
            extra@.map_values(|e: Json| e@),
        ),
    decreases toks@.len() - from,
{
    let ghost tv = toks@.map_values(|t: Vec<char>| t@).skip(from as int);
    let ghost ev = extra@.map_values(|e: Json| e@);
    let ghost jv = j@;
    if from == toks.len() {
        assert(tv.len() == 0);
        match j {
            Json::Array(mut a) => {
                let ghost a0 = a@;
                assert(jv matches JsonV::Array(s) && s =~= a0.map_values(|e: Json| e@));
                let mut extra = extra;
                a.append(&mut extra);
                let r = Json::Array(a);
                assert(r@ matches JsonV::Array(s) && s =~= a0.map_values(|e: Json| e@) + ev);
                return r;
            },
            other => {
                return other;
            },
        }
    }
    assert(tv[0] == toks@[from as int]@);
    assert(tv.drop_first() =~= toks@.map_values(|t: Vec<char>| t@).skip(from + 1));
    match j {
        Json::Object(mut ms) => {
            let ghost mv = crate::json::members_view(ms@);
            assert((Json::Object(ms))@ == JsonV::Object(mv)) by {
                assert((Json::Object(ms))@ matches JsonV::Object(s) && s =~= mv);
            }
            match member_pos_exec(&ms, &toks[from]) {
                Some(i) => {
                    let (k, v) = ms.remove(i);
                    let v2 = extend_tokens_exec(v, toks, from + 1, extra);
                    ms.insert(i, (k, v2));
                    let r = Json::Object(ms);
                    assert(r@ matches JsonV::Object(s) && s =~= mv.update(
                        i as int,
                        (mv[i as int].0, extend_at_tokens(mv[i as int].1, tv.drop_first(), ev)),
                    ));
                    r
                },
                None => Json::Object(ms),
            }
        },
        Json::Array(mut a) => {
            let ghost av = a@.map_values(|e: Json| e@);
            assert((Json::Array(a))@ == JsonV::Array(av)) by {
                assert((Json::Array(a))@ matches JsonV::Array(s) && s =~= av);
            }
            match parse_index_exec(&toks[from]) {
                Some(i) => if i < a.len() {
                    let v = a.remove(i);
                    let v2 = extend_tokens_exec(v, toks, from + 1, extra);
                    a.insert(i, v2);
                    let r = Json::Array(a);
                    assert(r@ matches JsonV::Array(s) && s =~= av.update(
                        i as int,
                        extend_at_tokens(av[i as int], tv.drop_first(), ev),
                    ));
                    r
                } else {
                    Json::Array(a)
                },
                None => Json::Array(a),
            }
        },
        other => other,
    }
}

/// Extends the array at pointer `p` of `j`, when there is one, by `extra`.
pub fn extend_at_pointer(j: Json, p: &String, extra: Vec<Json>) -> (r: Json)
    ensures
        r@ == extend_at(j@, p@, extra@.map_values(|e: Json| e@)),
{
    let v = chars_of(p.as_str());
    if v.len() == 0 {
        let none: Vec<Vec<char>> = Vec::new();
        assert(none@.map_values(|t: Vec<char>| t@).skip(0) =~= Seq::<Seq<char>>::empty());
        return extend_tokens_exec(j, &none, 0, extra);
    }
    if v[0] != '/' {
        return j;
    }
    let toks = pointer_tokens_exec(&v);
    assert(toks@.map_values(|t: Vec<char>| t@).skip(0) =~= pointer_tokens(p@));
    extend_tokens_exec(j, &toks, 0, extra)
}

pub fn clone_json_vec(v: &Vec<Json>) -> (r: Vec<Json>)
    ensures
        r@.map_values(|e: Json| e@) == v@.map_values(|e: Json| e@),
{
    let mut r: Vec<Json> = Vec::new();
    let mut i: usize = 0;
    while i < v.len()
        invariant
            i <= v@.len(),
            r@.len() == i,
            forall|k: int| 0 <= k < i ==> (#[trigger] r@[k])@ == v@[k]@,
        decreases v@.len() - i,
    {
        r.push(v[i].clone());
        i = i + 1;
    }
    assert(r@.map_values(|e: Json| e@) =~= v@.map_values(|e: Json| e@));
    r
}

/// The nodes of `source` at each pointer appended to those of `target`.
pub fn merge_sets_pointers(target: Json, source: &Json, pointers: &Vec<String>) -> (r: Json)
    ensures
        r@ == merge_pages(target@, source@, pointers@.map_values(|s: String| s@)),
{
    let ghost ps = pointers@.map_values(|s: String| s@);
    let mut t = target;
    let mut i: usize = 0;
    while i < pointers.len()
        invariant
            i <= pointers@.len(),
            ps == pointers@.map_values(|s: String| s@),
            t@ == merge_pages(target@, source@, ps.take(i as int)),
        decreases pointers@.len() - i,
    {
        assert(ps.take(i + 1).drop_last() =~= ps.take(i as int));
        assert(ps.take(i + 1).last() == pointers@[i as int]@);
        let q = with_suffix(&pointers[i], "/nodes");
        let src = match source.pointer(q.as_str()) {
            Some(n) => n.as_array(),
            None => None,
        };
        match src {
            Some(a) => {
                let nodes = clone_json_vec(a);
                t = extend_at_pointer(t, &q, nodes);
            },
            None => {},
        }
        i = i + 1;
    }
    assert(ps.take(pointers@.len() as int) =~= ps);
    t
}

} // verus!
