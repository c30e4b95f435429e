//! A JSON document as plain values, and the reads the library makes of it.
//!
//! `Json` holds what a parsed start.gg response holds. Numbers keep their
//! integer value when they have one; a number that is neither a `u64` nor an
//! `i64` is kept as `Float` without its value, since nothing here reads it.
//! Objects keep their members in order; a lookup finds the first member with
//! the key. `JsonV` is the same document with `Seq`s in place of `Vec`s and
//! `String`s, and every contract speaks of it.
use vstd::prelude::*;
use crate::text::{
    all_digits, chars_of, digits_up_to, digits_value, seq_eq, string_of_chars, string_of_range,
};

verus! {

#[derive(Debug, PartialEq)]
pub enum JsonNumber {
    /// A non-negative integer.
    PosInt(u64),
    /// A negative integer.
    NegInt(i64),
    /// Any other number.
    Float,
}

#[derive(Debug, PartialEq)]
pub enum Json {
    Null,
    Bool(bool),
    Number(JsonNumber),
    Str(String),
    Array(Vec<Json>),
    Object(Vec<(String, Json)>),
}

/// The mathematical view of a JSON document.
pub enum JsonV {
    Null,
    Bool(bool),
    Number(JsonNumber),
    Str(Seq<char>),
    Array(Seq<JsonV>),
    Object(Seq<(Seq<char>, JsonV)>),
}

pub open spec fn json_view(j: Json) -> JsonV
    decreases j,
{
    match j {
        Json::Null => JsonV::Null,
        Json::Bool(b) => JsonV::Bool(b),
        Json::Number(n) => JsonV::Number(n),
        Json::Str(s) => JsonV::Str(s@),
        Json::Array(v) => JsonV::Array(
            Seq::new(
                v@.len(),
                |i: int|
                    if 0 <= i < v@.len() {
                        json_view(v@[i])
                    } else {
                        JsonV::Null
                    },
            ),
        ),
        Json::Object(ms) => JsonV::Object(
            Seq::new(
                ms@.len(),
                |i: int|
                    if 0 <= i < ms@.len() {
                        (ms@[i].0@, json_view(ms@[i].1))
                    } else {
                        (Seq::empty(), JsonV::Null)
                    },
            ),
        ),
    }
}

impl View for Json {
    type V = JsonV;

    open spec fn view(&self) -> JsonV {
        json_view(*self)
    }
}

// ---------------------------------------------------------------------------
// Spec-level reads
// ---------------------------------------------------------------------------

/// The value of the first member named `key`.
pub open spec fn member(ms: Seq<(Seq<char>, JsonV)>, key: Seq<char>) -> Option<JsonV>
    decreases ms.len(),
{
    if ms.len() == 0 {
        None
    } else if ms[0].0 == key {
        Some(ms[0].1)
    } else {
        member(ms.drop_first(), key)
    }
}

/// `Value::get(key)`: the member of an object; `None` for any other value.
pub open spec fn get(j: JsonV, key: Seq<char>) -> Option<JsonV> {
    match j {
        JsonV::Object(ms) => member(ms, key),
        _ => None,
    }
}

/// The view of an optional reference.
pub open spec fn oview(o: Option<&Json>) -> Option<JsonV> {
    match o {
        Some(v) => Some(v@),
        None => None,
    }
}

/// `.and_then(|v| v.get(key))`.
pub open spec fn get_opt(j: Option<JsonV>, key: Seq<char>) -> Option<JsonV> {
    match j {
        Some(v) => get(v, key),
        None => None,
    }
}

/// `Value::get(key).unwrap_or(&Value::Null)`.
pub open spec fn get_or_null(j: JsonV, key: Seq<char>) -> JsonV {
    match get(j, key) {
        Some(v) => v,
        None => JsonV::Null,
    }
}

pub open spec fn as_u64(j: JsonV) -> Option<u64> {
    match j {
        JsonV::Number(JsonNumber::PosInt(n)) => Some(n),
        _ => None,
    }
}

pub open spec fn as_i64(j: JsonV) -> Option<i64> {
    match j {
        JsonV::Number(JsonNumber::PosInt(n)) => if n <= i64::MAX {
            Some(n as i64)
        } else {
            None
        },
        JsonV::Number(JsonNumber::NegInt(n)) => Some(n),
        _ => None,
    }
}

pub open spec fn as_str(j: JsonV) -> Option<Seq<char>> {
    match j {
        JsonV::Str(s) => Some(s),
        _ => None,
    }
}

/// `.and_then(Value::as_str)` on an optional value.
pub open spec fn str_opt(j: Option<JsonV>) -> Option<Seq<char>> {
    match j {
        Some(v) => as_str(v),
        None => None,
    }
}

pub open spec fn as_array(j: JsonV) -> Option<Seq<JsonV>> {
    match j {
        JsonV::Array(v) => Some(v),
        _ => None,
    }
}

/// `.and_then(Value::as_array)` on an optional value.
pub open spec fn array_opt(j: Option<JsonV>) -> Option<Seq<JsonV>> {
    match j {
        Some(v) => as_array(v),
        None => None,
    }
}

/// The elements of an optional array, or none (`.unwrap_or(&[])`).
pub open spec fn elements(j: Option<JsonV>) -> Seq<JsonV> {
    match array_opt(j) {
        Some(v) => v,
        None => Seq::empty(),
    }
}

pub open spec fn is_null(j: JsonV) -> bool {
    j is Null
}

// ---------------------------------------------------------------------------
// JSON pointers (RFC 6901, as `Value::pointer` reads them)
// ---------------------------------------------------------------------------

/// `str::split(sep)`: every piece between occurrences of `sep`, empty ones too.
pub open spec fn split_all(s: Seq<char>, sep: char) -> Seq<Seq<char>>
    decreases s.len(),
{
    if s.len() == 0 {
        seq![Seq::empty()]
    } else {
        let r = split_all(s.drop_last(), sep);
        if s.last() == sep {
            r.push(Seq::empty())
        } else {
            r.update(r.len() - 1, r.last().push(s.last()))
        }
    }
}

/// `str::replace` of the two-character pattern `[a, b]` by `c`.
pub open spec fn replace_pair(s: Seq<char>, a: char, b: char, c: char) -> Seq<char>
    decreases s.len(),
{
    if s.len() == 0 {
        s
    } else if s.len() >= 2 && s[0] == a && s[1] == b {
        seq![c] + replace_pair(s.skip(2), a, b, c)
    } else {
        seq![s[0]] + replace_pair(s.drop_first(), a, b, c)
    }
}

/// A reference token with `~1` and then `~0` unescaped.
pub open spec fn unescape(t: Seq<char>) -> Seq<char> {
    replace_pair(replace_pair(t, '~', '1', '/'), '~', '0', '~')
}

/// An array index in a pointer: digits without a `+` and without a leading zero.
pub open spec fn parse_index(t: Seq<char>) -> Option<usize> {
    if t.len() > 0 && t[0] == '+' {
        None
    } else if t.len() > 0 && t[0] == '0' && t.len() != 1 {
        None
    } else if t.len() > 0 && all_digits(t) && digits_value(t) <= usize::MAX {
        Some(digits_value(t) as usize)
    } else {
        None
    }
}

pub open spec fn step(j: JsonV, token: Seq<char>) -> Option<JsonV> {
    match j {
        JsonV::Object(ms) => member(ms, token),
        JsonV::Array(v) => match parse_index(token) {
            Some(i) => if i < v.len() {
                Some(v[i as int])
            } else {
                None
            },
            None => None,
        },
        _ => None,
    }
}

pub open spec fn follow(j: JsonV, tokens: Seq<Seq<char>>) -> Option<JsonV>
    decreases tokens.len(),
{
    if tokens.len() == 0 {
        Some(j)
    } else {
        match step(j, tokens[0]) {
            Some(k) => follow(k, tokens.drop_first()),
            None => None,
        }
    }
}

pub open spec fn pointer_tokens(p: Seq<char>) -> Seq<Seq<char>> {
    split_all(p.drop_first(), '/').map_values(|t: Seq<char>| unescape(t))
}

/// `Value::pointer(p)`.
pub open spec fn pointer(j: JsonV, p: Seq<char>) -> Option<JsonV> {
    if p.len() == 0 {
        Some(j)
    } else if p[0] != '/' {
        None
    } else {
        follow(j, pointer_tokens(p))
    }
}

// ---------------------------------------------------------------------------
// Executable reads
// ---------------------------------------------------------------------------

pub proof fn lemma_view_array(v: Vec<Json>, i: int)
    requires
        0 <= i < v@.len(),
    ensures
        (Json::Array(v))@ matches JsonV::Array(s) && s.len() == v@.len() && s[i] == v@[i]@,
{
}

pub fn json_clone(j: &Json) -> (r: Json)
    ensures
        r@ == j@,
    decreases j,
{
    match j {
        Json::Null => Json::Null,
        Json::Bool(b) => Json::Bool(*b),
        Json::Number(JsonNumber::PosInt(n)) => Json::Number(JsonNumber::PosInt(*n)),
        Json::Number(JsonNumber::NegInt(n)) => Json::Number(JsonNumber::NegInt(*n)),
        Json::Number(JsonNumber::Float) => Json::Number(JsonNumber::Float),
        Json::Str(s) => Json::Str(s.clone()),
        Json::Array(v) => {
            let mut out: Vec<Json> = Vec::new();
            let mut i: usize = 0;
            while i < v.len()
                invariant
                    i <= v@.len(),
                    *j == Json::Array(*v),
                    out@.len() == i,
                    forall|k: int| 0 <= k < i ==> (#[trigger] out@[k])@ == v@[k]@,
                decreases v@.len() - i,
            {
                proof {
                    vstd::std_specs::vec::axiom_vec_index_decreases(*v, i as int);
                    let jj = *j;
                    assert(decreases_to!(jj => jj->Array_0));
                    assert(decreases_to!(jj => v[i as int]));
                }
                let e = json_clone(&v[i]);
                out.push(e);
                i = i + 1;
            }
            let r = Json::Array(out);
            assert(r@ matches JsonV::Array(s) && s =~= (match j@ {
                JsonV::Array(t) => t,
                _ => s,
            }));
            r
        },
        Json::Object(ms) => {
            let mut out: Vec<(String, Json)> = Vec::new();
            let mut i: usize = 0;
            while i < ms.len()
                invariant
                    i <= ms@.len(),
                    *j == Json::Object(*ms),
                    out@.len() == i,
                    forall|k: int|
                        0 <= k < i ==> (#[trigger] out@[k]).0@ == ms@[k].0@ && out@[k].1@
                            == ms@[k].1@,
                decreases ms@.len() - i,
            {
                let k = ms[i].0.clone();
                proof {
                    vstd::std_specs::vec::axiom_vec_index_decreases(*ms, i as int);
                    let jj = *j;
                    assert(decreases_to!(jj => jj->Object_0));
                    assert(decreases_to!(ms[i as int] => ms[i as int].1));
                    assert(decreases_to!(jj => ms[i as int].1));
                }
                let e = json_clone(&ms[i].1);
                out.push((k, e));
                i = i + 1;
            }
            let r = Json::Object(out);
            assert(r@ matches JsonV::Object(s) && s =~= (match j@ {
                JsonV::Object(t) => t,
                _ => s,
            }));
            r
        },
    }
}

impl Clone for Json {
    fn clone(&self) -> (r: Self)
        ensures
            r@ == self@,
    {
        json_clone(self)
    }
}

pub open spec fn members_view(ms: Seq<(String, Json)>) -> Seq<(Seq<char>, JsonV)> {
    Seq::new(ms.len(), |i: int| (ms[i].0@, ms[i].1@))
}

fn member_index(ms: &Vec<(String, Json)>, key: &Vec<char>) -> (r: Option<usize>)
    ensures
        match r {
            Some(i) => i < ms@.len() && member(members_view(ms@), key@) == Some(ms@[i as int].1@),
            None => member(members_view(ms@), key@) is None,
        },
{
    let ghost mv = members_view(ms@);
    let mut i: usize = 0;
    assert(mv.skip(0) =~= mv);
    while i < ms.len()
        invariant
            i <= ms@.len(),
            mv == members_view(ms@),
            member(mv, key@) == member(mv.skip(i as int), key@),
        decreases ms@.len() - i,
    {
        let k = chars_of(ms[i].0.as_str());
        assert(mv.skip(i as int)[0] == mv[i as int]);
        if seq_eq(&k, key) {
            return Some(i);
        }
        assert(mv.skip(i as int).drop_first() =~= mv.skip(i + 1));
        i = i + 1;
    }
    None
}

impl Json {
    /// `Value::get(key)`.
    pub fn get(&self, key: &str) -> (r: Option<&Json>)
        ensures
            match r {
                Some(v) => get(self@, key@) == Some(v@),
                None => get(self@, key@) is None,
            },
    {
        let k = chars_of(key);
        self.get_chars(&k)
    }

    pub fn get_chars(&self, key: &Vec<char>) -> (r: Option<&Json>)
        ensures
            match r {
                Some(v) => get(self@, key@) == Some(v@),
                None => get(self@, key@) is None,
            },
    {
        match self {
            Json::Object(ms) => {
                assert(self@ == JsonV::Object(members_view(ms@))) by {
                    assert(self@ matches JsonV::Object(s) && s =~= members_view(ms@));
                }
                match member_index(ms, key) {
                    Some(i) => Some(&ms[i].1),
                    None => None,
                }
            },
            _ => None,
        }
    }

    pub fn as_u64(&self) -> (r: Option<u64>)
        ensures
            r == as_u64(self@),
    {
        match self {
            Json::Number(JsonNumber::PosInt(n)) => Some(*n),
            _ => None,
        }
    }

    pub fn as_i64(&self) -> (r: Option<i64>)
        ensures
            r == as_i64(self@),
    {
        match self {
            Json::Number(JsonNumber::PosInt(n)) => if *n <= 0x7fff_ffff_ffff_ffff {
                Some(*n as i64)
            } else {
                None
            },
            Json::Number(JsonNumber::NegInt(n)) => Some(*n),
            _ => None,
        }
    }

    pub fn as_str(&self) -> (r: Option<&str>)
        ensures
            match r {
                Some(s) => as_str(self@) == Some(s@),
                None => as_str(self@) is None,
            },
    {
        match self {
            Json::Str(s) => Some(s.as_str()),
            _ => None,
        }
    }

    pub fn as_array(&self) -> (r: Option<&Vec<Json>>)
        ensures
            match r {
                Some(v) => as_array(self@) == Some(v@.map_values(|e: Json| e@)),
                None => as_array(self@) is None,
            },
    {
        match self {
            Json::Array(v) => {
                assert(self@ matches JsonV::Array(s) && s =~= v@.map_values(|e: Json| e@));
                Some(v)
            },
            _ => None,
        }
    }

    pub fn is_null(&self) -> (r: bool)
        ensures
            r == is_null(self@),
    {
        match self {
            Json::Null => true,
            _ => false,
        }
    }

    /// `Value::pointer(p)`.
    pub fn pointer(&self, p: &str) -> (r: Option<&Json>)
        ensures
            match r {
                Some(v) => pointer(self@, p@) == Some(v@),
                None => pointer(self@, p@) is None,
            },
    {
        let v = chars_of(p);
        if v.len() == 0 {
            return Some(self);
        }
        if v[0] != '/' {
            return None;
        }
        let tokens = pointer_tokens_exec(&v);
        assert(tokens@.map_values(|t: Vec<char>| t@).skip(0) =~= tokens@.map_values(
            |t: Vec<char>| t@,
        ));
        follow_exec(self, &tokens, 0)
    }
}

/// The reference tokens of a pointer that starts with `/`.
pub fn pointer_tokens_exec(v: &Vec<char>) -> (tokens: Vec<Vec<char>>)
    requires
        v@.len() > 0,
    ensures
        tokens@.map_values(|t: Vec<char>| t@) == pointer_tokens(v@),
{
    let rest = string_of_range(v, 1, v.len());
    assert(rest@ =~= v@.drop_first());
    let rest_chars = chars_of(rest.as_str());
    let pieces = split_all_exec(&rest_chars, '/');
    let ghost raw = split_all(v@.drop_first(), '/');
    let mut tokens: Vec<Vec<char>> = Vec::new();
    let mut i: usize = 0;
    while i < pieces.len()
        invariant
            i <= pieces@.len(),
            pieces@.len() == raw.len(),
            forall|k: int| 0 <= k < pieces@.len() ==> #[trigger] pieces@[k]@ == raw[k],
            tokens@.len() == i,
            forall|k: int| 0 <= k < i ==> #[trigger] tokens@[k]@ == unescape(raw[k]),
        decreases pieces@.len() - i,
    {
        let once = replace_pair_exec(&pieces[i], '~', '1', '/');
        let twice = replace_pair_exec(&once, '~', '0', '~');
        tokens.push(twice);
        i = i + 1;
    }
    assert(tokens@.map_values(|t: Vec<char>| t@) =~= pointer_tokens(v@));
    tokens
}

pub fn follow_exec<'a>(j: &'a Json, tokens: &Vec<Vec<char>>, from: usize) -> (r: Option<&'a Json>)
    requires
        from <= tokens@.len(),
    ensures
        ({
            let toks = tokens@.map_values(|t: Vec<char>| t@).skip(from as int);
            match r {
                Some(v) => follow(j@, toks) == Some(v@),
                None => follow(j@, toks) is None,
            }
        }),
    decreases tokens@.len() - from,
{
    let ghost toks = tokens@.map_values(|t: Vec<char>| t@).skip(from as int);
    if from == tokens.len() {
        assert(toks.len() == 0);
        return Some(j);
    }
    assert(toks[0] == tokens@[from as int]@);
    assert(toks.drop_first() =~= tokens@.map_values(|t: Vec<char>| t@).skip(from + 1));
    let next = step_exec(j, &tokens[from]);
    match next {
        Some(k) => follow_exec(k, tokens, from + 1),
        None => None,
    }
}

fn step_exec<'a>(j: &'a Json, token: &Vec<char>) -> (r: Option<&'a Json>)
    ensures
        match r {
            Some(v) => step(j@, token@) == Some(v@),
            None => step(j@, token@) is None,
        },
{
    match j {
        Json::Object(_) => j.get_chars(token),
        Json::Array(v) => match parse_index_exec(token) {
            Some(i) => if i < v.len() {
                proof {
                    lemma_view_array(*v, i as int);
                }
                Some(&v[i])
            } else {
                None
            },
            None => None,
        },
        _ => None,
    }
}

pub fn parse_index_exec(t: &Vec<char>) -> (r: Option<usize>)
    ensures
        r == parse_index(t@),
{
    if t.len() > 0 && t[0] == '+' {
        return None;
    }
    if t.len() > 0 && t[0] == '0' && t.len() != 1 {
        return None;
    }
    if t.len() == 0 {
        return None;
    }
    assert(t@.subrange(0, t@.len() as int) =~= t@);
    match digits_up_to(t, 0, t.len(), usize::MAX as u64) {
        Some(n) => Some(n as usize),
        None => None,
    }
}

pub fn split_all_exec(v: &Vec<char>, sep: char) -> (out: Vec<Vec<char>>)
    ensures
        out@.len() == split_all(v@, sep).len(),
        forall|k: int| 0 <= k < out@.len() ==> #[trigger] out@[k]@ == split_all(v@, sep)[k],
{
    let mut done: Vec<Vec<char>> = Vec::new();
    let mut cur: Vec<char> = Vec::new();
    let mut i: usize = 0;
    while i < v.len()
        invariant
            i <= v@.len(),
            split_all(v@.take(i as int), sep).len() == done@.len() + 1,
            forall|k: int|
                0 <= k < done@.len() ==> #[trigger] done@[k]@ == split_all(
                    v@.take(i as int),
                    sep,
                )[k],
            cur@ == split_all(v@.take(i as int), sep).last(),
        decreases v@.len() - i,
    {
        let c = v[i];
        assert(v@.take(i + 1).drop_last() =~= v@.take(i as int));
        if c == sep {
            let finished = cur;
            done.push(finished);
            cur = Vec::new();
        } else {
            cur.push(c);
        }
        i = i + 1;
    }
    assert(v@.take(v@.len() as int) =~= v@);
    done.push(cur);
    done
}

pub fn replace_pair_exec(v: &Vec<char>, a: char, b: char, c: char) -> (out: Vec<char>)
    ensures
        out@ == replace_pair(v@, a, b, c),
{
    let mut out: Vec<char> = Vec::new();
    let mut i: usize = 0;
    assert(v@.skip(0) =~= v@);
    while i < v.len()
        invariant
            i <= v@.len(),
            replace_pair(v@, a, b, c) == out@ + replace_pair(v@.skip(i as int), a, b, c),
        decreases v@.len() - i,
    {
        let ghost rest = v@.skip(i as int);
        if i + 1 < v.len() && v[i] == a && v[i + 1] == b {
            assert(rest.skip(2) =~= v@.skip(i + 2));
            out.push(c);
            i = i + 2;
        } else {
            assert(rest.drop_first() =~= v@.skip(i + 1));
            out.push(v[i]);
            i = i + 1;
        }
        assert(replace_pair(v@, a, b, c) =~= out@ + replace_pair(v@.skip(i as int), a, b, c));
    }
    assert(v@.skip(i as int).len() == 0);
    assert(out@ + Seq::<char>::empty() =~= out@);
    out
}

// ---------------------------------------------------------------------------
// Setting members
// ---------------------------------------------------------------------------

/// The index of the first member named `key`, from position `i` on.
pub open spec fn member_pos_from(ms: Seq<(Seq<char>, JsonV)>, key: Seq<char>, i: int) -> Option<int>
    decreases ms.len() - i,
{
    if i < 0 || i >= ms.len() {
        None
    } else if ms[i].0 == key {
        Some(i)
    } else {
        member_pos_from(ms, key, i + 1)
    }
}

pub fn member_pos_exec(ms: &Vec<(String, Json)>, key: &Vec<char>) -> (r: Option<usize>)
    ensures
        match r {
            Some(i) => i < ms@.len() && member_pos_from(members_view(ms@), key@, 0)
                == Some(i as int),
            None => member_pos_from(members_view(ms@), key@, 0) is None,
        },
{
    let ghost mv = members_view(ms@);
    let mut i: usize = 0;
    while i < ms.len()
        invariant
            i <= ms@.len(),
            mv == members_view(ms@),
            member_pos_from(mv, key@, 0) == member_pos_from(mv, key@, i as int),
        decreases ms@.len() - i,
    {
        let k = chars_of(ms[i].0.as_str());
        if seq_eq(&k, key) {
            return Some(i);
        }
        i = i + 1;
    }
    None
}

/// `value[key] = v`: a null becomes an object; in an object the member is
/// replaced, or added when there is none.
pub open spec fn set_member(j: JsonV, key: Seq<char>, v: JsonV) -> JsonV {
    match j {
        JsonV::Null => JsonV::Object(seq![(key, v)]),
        JsonV::Object(ms) => match member_pos_from(ms, key, 0) {
            Some(i) => JsonV::Object(ms.update(i, (key, v))),
            None => JsonV::Object(ms.push((key, v))),
        },
        _ => j,
    }
}

pub open spec fn is_object_or_null(j: JsonV) -> bool {
    j is Null || j is Object
}

pub fn set_member_exec(j: Json, key: &str, v: Json) -> (r: Json)
    requires
        is_object_or_null(j@),
    ensures
        r@ == set_member(j@, key@, v@),
{
    let ghost jv = j@;
    let kv = chars_of(key);
    match j {
        Json::Null => {
            let mut ms: Vec<(String, Json)> = Vec::new();
            ms.push((string_of_chars(&kv), v));
            let r = Json::Object(ms);
            assert(r@ matches JsonV::Object(s) && s =~= seq![(key@, v@)]);
            r
        },
        Json::Object(mut ms) => {
            let ghost mv = members_view(ms@);
            assert(jv matches JsonV::Object(s) && s =~= mv);
            match member_pos_exec(&ms, &kv) {
                Some(i) => {
                    let _ = ms.remove(i);
                    ms.insert(i, (string_of_chars(&kv), v));
                    let r = Json::Object(ms);
                    assert(r@ matches JsonV::Object(s) && s =~= mv.update(i as int, (key@, v@)));
                    r
                },
                None => {
                    ms.push((string_of_chars(&kv), v));
                    let r = Json::Object(ms);
                    assert(r@ matches JsonV::Object(s) && s =~= mv.push((key@, v@)));
                    r
                },
            }
        },
        other => other,
    }
}

} // verus!
