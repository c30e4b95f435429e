//! Normalising the slugs an operator pastes in, and bucket ids.
use vstd::prelude::*;
use crate::text::{
    ascii_lower, chars_of, concat, contains, eq_ignore_case, eq_ignore_case_vec, is_ascii_alnum,
    join, lower, lower_vec, owned, parts, push_joined, push_range, push_str, split_parts,
    starts_with, starts_with_vec, string_of_range, to_ascii_lower_char, trim, trim_bounds,
    trim_char, trim_char_bounds, trim_end_char, trim_start_char, split_state, is_ws, trim_start_ws,
    trim_end_ws,
};

verus! {

// ---------------------------------------------------------------------------
// Bucket ids
// ---------------------------------------------------------------------------

/// What a character of a bucket name becomes in its id: lowercase letters
/// and digits stay, space, `-` and `_` become `-`, anything else is dropped.
pub open spec fn bucket_char(c: char) -> Seq<char> {
    let l = ascii_lower(c);
    if is_ascii_alnum(l) {
        seq![l]
    } else if l == ' ' || l == '-' || l == '_' {
        seq!['-']
    } else {
        Seq::empty()
    }
}

pub open spec fn bucket_chars(s: Seq<char>) -> Seq<char>
    decreases s.len(),
{
    if s.len() == 0 {
        Seq::empty()
    } else {
        bucket_chars(s.drop_last()) + bucket_char(s.last())
    }
}

/// The id of a bucket: its name's characters as `bucket_char` maps them,
/// runs of `-` collapsed and `-` trimmed at both ends; "bucket" when
/// nothing is left.
pub open spec fn bucket_id(name: Seq<char>) -> Seq<char> {
    let collapsed = join(parts(bucket_chars(name), '-'), seq!['-']);
    if collapsed.len() == 0 {
        "bucket"@
    } else {
        collapsed
    }
}

pub fn normalize_bucket_id(name: &str) -> (r: String)
    ensures
        r@ == bucket_id(name@),
{
    let v = chars_of(name);
    let mut out: Vec<char> = Vec::new();
    let mut i: usize = 0;
    while i < v.len()
        invariant
            i <= v@.len(),
            out@ == bucket_chars(v@.take(i as int)),
        decreases v@.len() - i,
    {
        let l = to_ascii_lower_char(v[i]);
        assert(v@.take(i + 1).drop_last() =~= v@.take(i as int));
        if ('a' <= l && l <= 'z') || ('A' <= l && l <= 'Z') || ('0' <= l && l <= '9') {
            out.push(l);
        } else if l == ' ' || l == '-' || l == '_' {
            out.push('-');
        }
        i = i + 1;
        assert(out@ =~= bucket_chars(v@.take(i as int)));
    }
    assert(v@.take(v@.len() as int) =~= v@);
    let pieces = split_parts(&out, '-');
    assert(pieces@.map_values(|p: Vec<char>| p@) =~= parts(out@, '-'));
    let mut r = String::new();
    push_joined(&mut r, &pieces, '-');
    assert(r@ =~= join(parts(bucket_chars(name@), '-'), seq!['-']));
    if r.as_str().unicode_len() == 0 {
        owned("bucket")
    } else {
        r
    }
}

// ---------------------------------------------------------------------------
// start.gg slugs
// ---------------------------------------------------------------------------

/// The first of the known start.gg URL prefixes that `v` starts with, removed.
pub open spec fn strip_site_prefix(v: Seq<char>) -> Seq<char> {
    if starts_with(v, "https://www.start.gg/"@) {
        v.skip("https://www.start.gg/"@.len() as int)
    } else if starts_with(v, "http://www.start.gg/"@) {
        v.skip("http://www.start.gg/"@.len() as int)
    } else if starts_with(v, "https://start.gg/"@) {
        v.skip("https://start.gg/"@.len() as int)
    } else if starts_with(v, "http://start.gg/"@) {
        v.skip("http://start.gg/"@.len() as int)
    } else if starts_with(v, "www.start.gg/"@) {
        v.skip("www.start.gg/"@.len() as int)
    } else if starts_with(v, "start.gg/"@) {
        v.skip("start.gg/"@.len() as int)
    } else {
        v
    }
}

/// A pasted slug or URL: trimmed, its start.gg site prefix removed, and `/`
/// trimmed from both ends.
pub open spec fn sanitized(raw: Seq<char>) -> Seq<char> {
    trim_char(strip_site_prefix(trim(raw)), '/')
}

fn strip_one(v: &Vec<char>, prefix: &str) -> (r: Option<Vec<char>>)
    ensures
        match r {
            Some(rest) => starts_with(v@, prefix@) && rest@ == v@.skip(prefix@.len() as int),
            None => !starts_with(v@, prefix@),
        },
{
    let p = chars_of(prefix);
    if starts_with_vec(v, &p) {
        let mut rest: Vec<char> = Vec::new();
        let mut i = p.len();
        while i < v.len()
            invariant
                p@.len() <= i <= v@.len(),
                rest@ == v@.subrange(p@.len() as int, i as int),
            decreases v@.len() - i,
        {
            rest.push(v[i]);
            i = i + 1;
            assert(rest@ =~= v@.subrange(p@.len() as int, i as int));
        }
        assert(rest@ =~= v@.skip(p@.len() as int));
        Some(rest)
    } else {
        None
    }
}

pub fn sanitize_startgg_slug(raw: &str) -> (r: String)
    ensures
        r@ == sanitized(raw@),
{
    let all = chars_of(raw);
    let (a, b) = trim_bounds(&all);
    let trimmed = string_of_range(&all, a, b);
    let v = chars_of(trimmed.as_str());
    let stripped: Vec<char> = match strip_one(&v, "https://www.start.gg/") {
        Some(rest) => rest,
        None => match strip_one(&v, "http://www.start.gg/") {
            Some(rest) => rest,
            None => match strip_one(&v, "https://start.gg/") {
                Some(rest) => rest,
                None => match strip_one(&v, "http://start.gg/") {
                    Some(rest) => rest,
                    None => match strip_one(&v, "www.start.gg/") {
                        Some(rest) => rest,
                        None => match strip_one(&v, "start.gg/") {
                            Some(rest) => rest,
                            None => v,
                        },
                    },
                },
            },
        },
    };
    assert(stripped@ == strip_site_prefix(trim(raw@)));
    let (i, j) = trim_char_bounds(&stripped, '/');
    string_of_range(&stripped, i, j)
}

/// Whether a slug already starts with `tournament/`, in any case.
pub open spec fn has_tournament_prefix(slug: Seq<char>) -> bool {
    starts_with(lower(slug), "tournament/"@)
}

/// The slug with `tournament/` in front, unless it already starts with it.
pub open spec fn with_tournament_prefix(slug: Seq<char>) -> Seq<char> {
    if has_tournament_prefix(slug) {
        slug
    } else {
        "tournament/"@ + slug
    }
}

pub fn ensure_tournament_prefix(slug: &str) -> (r: String)
    ensures
        r@ == with_tournament_prefix(slug@),
{
    let v = chars_of(slug);
    let l = lower_vec(&v);
    let p = chars_of("tournament/");
    if starts_with_vec(&l, &p) {
        owned(slug)
    } else {
        concat("tournament/", slug)
    }
}

/// `tournament/<key>` for a slug that names a tournament (possibly with more
/// after it); any other non-empty slug with the prefix ensured; "" stays "".
pub open spec fn tournament_slug(raw: Seq<char>) -> Seq<char> {
    let s = sanitized(raw);
    if s.len() == 0 {
        s
    } else {
        let c = with_tournament_prefix(s);
        let ps = parts(c, '/');
        if ps.len() >= 2 && eq_ignore_case(ps[0], "tournament"@) {
            "tournament/"@ + ps[1]
        } else {
            c
        }
    }
}

/// The first `event` segment at or after `i`, among those that have a segment
/// after them.
pub open spec fn event_index_from(ps: Seq<Seq<char>>, i: int) -> Option<int>
    decreases ps.len() - i,
{
    if i < 0 || i >= ps.len() - 1 {
        None
    } else if eq_ignore_case(ps[i], "event"@) {
        Some(i)
    } else {
        event_index_from(ps, i + 1)
    }
}

/// `tournament/<key>/event/<event>` when the slug names an event of a
/// tournament; `None` otherwise.
pub open spec fn event_slug(raw: Seq<char>) -> Option<Seq<char>> {
    let s = sanitized(raw);
    if s.len() == 0 {
        None
    } else {
        let c = with_tournament_prefix(s);
        let ps = parts(c, '/');
        if ps.len() < 4 || !eq_ignore_case(ps[0], "tournament"@) {
            None
        } else {
            match event_index_from(ps, 2) {
                Some(idx) => Some("tournament/"@ + ps[1] + "/event/"@ + ps[idx + 1]),
                None => None,
            }
        }
    }
}

/// The canonical slug's pieces between `/`s.
fn canonical_parts(raw: &str) -> (r: Option<Vec<Vec<char>>>)
    ensures
        match r {
            Some(ps) => sanitized(raw@).len() > 0 && ps@.map_values(|p: Vec<char>| p@) == parts(
                with_tournament_prefix(sanitized(raw@)),
                '/',
            ),
            None => sanitized(raw@).len() == 0,
        },
{
    let s = sanitize_startgg_slug(raw);
    if s.as_str().unicode_len() == 0 {
        return None;
    }
    let c = ensure_tournament_prefix(s.as_str());
    let cv = chars_of(c.as_str());
    let ps = split_parts(&cv, '/');
    assert(ps@.map_values(|p: Vec<char>| p@) =~= parts(with_tournament_prefix(sanitized(raw@)), '/'));
    Some(ps)
}

fn is_word(piece: &Vec<char>, word: &str) -> (r: bool)
    ensures
        r == eq_ignore_case(piece@, word@),
{
    let w = chars_of(word);
    eq_ignore_case_vec(piece, &w)
}

pub fn normalize_tournament_slug(raw: &str) -> (r: String)
    ensures
        r@ == tournament_slug(raw@),
{
    let ps = match canonical_parts(raw) {
        Some(ps) => ps,
        None => {
            return sanitize_startgg_slug(raw);
        },
    };
    let ghost pv = ps@.map_values(|p: Vec<char>| p@);
    if ps.len() >= 2 && is_word(&ps[0], "tournament") {
        let mut r = owned("tournament/");
        push_range(&mut r, &ps[1], 0, ps[1].len());
        assert(ps[1]@.subrange(0, ps[1]@.len() as int) =~= pv[1]);
        r
    } else {
        let s = sanitize_startgg_slug(raw);
        ensure_tournament_prefix(s.as_str())
    }
}

pub fn normalize_event_slug(raw: &str) -> (r: Option<String>)
    ensures
        match r {
            Some(s) => event_slug(raw@) == Some(s@),
            None => event_slug(raw@) is None,
        },
{
    let ps = match canonical_parts(raw) {
        Some(ps) => ps,
        None => {
            return None;
        },
    };
    let ghost pv = ps@.map_values(|p: Vec<char>| p@);
    if ps.len() < 4 || !is_word(&ps[0], "tournament") {
        return None;
    }
    let mut idx: usize = 2;
    while idx < ps.len() - 1
        invariant
            2 <= idx <= ps@.len() - 1,
            ps@.len() >= 4,
            pv == ps@.map_values(|p: Vec<char>| p@),
            pv == parts(with_tournament_prefix(sanitized(raw@)), '/'),
            sanitized(raw@).len() > 0,
            eq_ignore_case(pv[0], "tournament"@),
            event_index_from(pv, 2) == event_index_from(pv, idx as int),
        decreases ps@.len() - idx,
    {
        if is_word(&ps[idx], "event") {
            let mut r = owned("tournament/");
            push_range(&mut r, &ps[1], 0, ps[1].len());
            push_str(&mut r, "/event/");
            push_range(&mut r, &ps[idx + 1], 0, ps[idx + 1].len());
            assert(ps[1]@.subrange(0, ps[1]@.len() as int) =~= pv[1]);
            assert(ps[idx + 1]@.subrange(0, ps[idx + 1]@.len() as int) =~= pv[idx + 1]);
            assert(event_index_from(pv, idx as int) == Some(idx as int));
            assert(r@ =~= "tournament/"@ + pv[1] + "/event/"@ + pv[idx + 1]);
            return Some(r);
        }
        idx = idx + 1;
    }
    None
}

// ---------------------------------------------------------------------------
// What the normal forms promise
// ---------------------------------------------------------------------------

proof fn lemma_lower_concat(a: Seq<char>, b: Seq<char>)
    ensures
        lower(a + b) == lower(a) + lower(b),
{
    assert(lower(a + b) =~= lower(a) + lower(b));
}

proof fn lemma_lower_prefix_word()
    ensures
        lower("tournament/"@) == "tournament/"@,
{
    reveal_strlit("tournament/");
    assert(lower("tournament/"@) =~= "tournament/"@);
}

proof fn lemma_starts_with_concat(a: Seq<char>, b: Seq<char>)
    ensures
        starts_with(a + b, a),
{
    assert((a + b).subrange(0, a.len() as int) =~= a);
}

proof fn lemma_prefixed_has_prefix(s: Seq<char>)
    ensures
        has_tournament_prefix("tournament/"@ + s),
{
    lemma_lower_concat("tournament/"@, s);
    lemma_lower_prefix_word();
    lemma_starts_with_concat("tournament/"@, lower(s));
}

/// Ensuring the `tournament/` prefix gives a slug that has it, and doing it
/// again changes nothing.
pub proof fn law_tournament_prefix_idempotent(slug: Seq<char>)
    ensures
        has_tournament_prefix(with_tournament_prefix(slug)),
        with_tournament_prefix(with_tournament_prefix(slug)) == with_tournament_prefix(slug),
{
    if !has_tournament_prefix(slug) {
        lemma_prefixed_has_prefix(slug);
    }
}

/// The tournament slug is empty exactly when nothing is left of the pasted
/// text once it is cleaned up; otherwise it starts with `tournament/` (in
/// any case).
pub proof fn law_tournament_slug_prefixed(raw: Seq<char>)
    ensures
        (tournament_slug(raw).len() == 0) == (sanitized(raw).len() == 0),
        sanitized(raw).len() > 0 ==> has_tournament_prefix(tournament_slug(raw)),
{
    let s = sanitized(raw);
    if s.len() > 0 {
        let c = with_tournament_prefix(s);
        let ps = parts(c, '/');
        law_tournament_prefix_idempotent(s);
        if ps.len() >= 2 && eq_ignore_case(ps[0], "tournament"@) {
            lemma_prefixed_has_prefix(ps[1]);
            reveal_strlit("tournament/");
        }
    }
}

/// An event slug, when the pasted text names one, lies within the tournament
/// the same text names: it is the tournament slug followed by `/event/`.
pub proof fn law_event_slug_within_tournament(raw: Seq<char>)
    ensures
        event_slug(raw) matches Some(e) ==> starts_with(e, tournament_slug(raw) + "/event/"@),
{
    match event_slug(raw) {
        Some(e) => {
            let s = sanitized(raw);
            let c = with_tournament_prefix(s);
            let ps = parts(c, '/');
            let idx = event_index_from(ps, 2)->0;
            assert(tournament_slug(raw) == "tournament/"@ + ps[1]);
            assert(e == ("tournament/"@ + ps[1] + "/event/"@) + ps[idx + 1]);
            lemma_starts_with_concat("tournament/"@ + ps[1] + "/event/"@, ps[idx + 1]);
        },
        None => {},
    }
}

proof fn lemma_trim_start_char(s: Seq<char>, c: char)
    ensures
        trim_start_char(s, c).len() == 0 || trim_start_char(s, c)[0] != c,
    decreases s.len(),
{
    if s.len() > 0 && s[0] == c {
        lemma_trim_start_char(s.drop_first(), c);
    }
}

proof fn lemma_trim_end_char(s: Seq<char>, c: char)
    ensures
        trim_end_char(s, c).len() <= s.len(),
        trim_end_char(s, c) == s.subrange(0, trim_end_char(s, c).len() as int),
        trim_end_char(s, c).len() == 0 || trim_end_char(s, c).last() != c,
    decreases s.len(),
{
    if s.len() > 0 && s.last() == c {
        lemma_trim_end_char(s.drop_last(), c);
        let t = trim_end_char(s.drop_last(), c);
        assert(s.drop_last().subrange(0, t.len() as int) =~= s.subrange(0, t.len() as int));
    } else {
        assert(s.subrange(0, s.len() as int) =~= s);
    }
}

/// A cleaned-up slug neither starts nor ends with `/`.
pub proof fn law_sanitized_has_no_outer_slash(raw: Seq<char>)
    ensures
        sanitized(raw).len() > 0 ==> sanitized(raw)[0] != '/' && sanitized(raw).last() != '/',
{
    let v = strip_site_prefix(trim(raw));
    let a = trim_start_char(v, '/');
    lemma_trim_start_char(v, '/');
    lemma_trim_end_char(a, '/');
    let b = trim_end_char(a, '/');
    if b.len() > 0 {
        assert(b[0] == a[0]);
    }
}

// ---------------------------------------------------------------------------
// Bucket ids are well formed
// ---------------------------------------------------------------------------

/// A lowercase ASCII letter or a digit.
pub open spec fn is_id_char(c: char) -> bool {
    ('a' <= c && c <= 'z') || ('0' <= c && c <= '9')
}

/// Lowercase letters and digits, at least one.
pub open spec fn is_id_piece(p: Seq<char>) -> bool {
    p.len() > 0 && forall|k: int| 0 <= k < p.len() ==> is_id_char(#[trigger] p[k])
}

/// A well-formed bucket id: non-empty, made of lowercase letters, digits and
/// `-`, with no `-` at either end and never two in a row.
pub open spec fn is_bucket_id(s: Seq<char>) -> bool {
    &&& s.len() > 0
    &&& forall|k: int| 0 <= k < s.len() ==> #[trigger] s[k] == '-' || is_id_char(s[k])
    &&& s[0] != '-'
    &&& s.last() != '-'
    &&& forall|k: int| 0 <= k < s.len() - 1 && #[trigger] s[k] == '-' ==> s[k + 1] != '-'
}

pub open spec fn dash_or_id(s: Seq<char>) -> bool {
    forall|k: int| 0 <= k < s.len() ==> #[trigger] s[k] == '-' || is_id_char(s[k])
}

proof fn lemma_bucket_chars(s: Seq<char>)
    ensures
        dash_or_id(bucket_chars(s)),
    decreases s.len(),
{
    if s.len() > 0 {
        lemma_bucket_chars(s.drop_last());
        let a = bucket_chars(s.drop_last());
        let b = bucket_char(s.last());
        assert(dash_or_id(b));
        assert(bucket_chars(s) == a + b);
        assert forall|k: int| 0 <= k < (a + b).len() implies #[trigger] (a + b)[k] == '-'
            || is_id_char((a + b)[k]) by {
            if k < a.len() {
                assert((a + b)[k] == a[k]);
            } else {
                assert((a + b)[k] == b[k - a.len()]);
            }
        }
    }
}

proof fn lemma_split_pieces(s: Seq<char>)
    requires
        dash_or_id(s),
    ensures
        forall|k: int|
            0 <= k < split_state(s, '-').0.len() ==> is_id_piece(#[trigger] split_state(s, '-').0[k]),
        forall|k: int|
            0 <= k < split_state(s, '-').1.len() ==> is_id_char(#[trigger] split_state(s, '-').1[k]),
    decreases s.len(),
{
    if s.len() > 0 {
        let t = s.drop_last();
        assert(dash_or_id(t)) by {
            assert forall|k: int| 0 <= k < t.len() implies #[trigger] t[k] == '-' || is_id_char(
                t[k],
            ) by {
                assert(t[k] == s[k]);
            }
        }
        lemma_split_pieces(t);
        let (done, cur) = split_state(t, '-');
        assert(s.last() == s[s.len() - 1]);
        if s.last() == '-' {
            if cur.len() > 0 {
                assert(is_id_piece(cur));
                let d2 = done.push(cur);
                assert forall|k: int| 0 <= k < d2.len() implies is_id_piece(#[trigger] d2[k]) by {
                    if k < done.len() {
                        assert(d2[k] == done[k]);
                    }
                }
            }
        } else {
            let c2 = cur.push(s.last());
            assert forall|k: int| 0 <= k < c2.len() implies is_id_char(#[trigger] c2[k]) by {
                if k < cur.len() {
                    assert(c2[k] == cur[k]);
                }
            }
        }
    }
}

proof fn lemma_join_pieces(ps: Seq<Seq<char>>)
    requires
        ps.len() > 0,
        forall|k: int| 0 <= k < ps.len() ==> is_id_piece(#[trigger] ps[k]),
    ensures
        is_bucket_id(join(ps, seq!['-'])),
    decreases ps.len(),
{
    if ps.len() == 1 {
        assert(is_id_piece(ps[0]));
    } else {
        let q = ps.drop_last();
        assert forall|k: int| 0 <= k < q.len() implies is_id_piece(#[trigger] q[k]) by {
            assert(q[k] == ps[k]);
        }
        lemma_join_pieces(q);
        let a = join(q, seq!['-']);
        let last = ps.last();
        assert(is_id_piece(ps[ps.len() - 1]));
        let j = a + seq!['-'] + last;
        assert(join(ps, seq!['-']) == j);
        assert forall|k: int| 0 <= k < j.len() implies #[trigger] j[k] == '-' || is_id_char(j[k]) by {
            if k < a.len() {
                assert(j[k] == a[k]);
            } else if k > a.len() {
                assert(j[k] == last[k - a.len() - 1]);
            }
        }
        assert(j[0] == a[0]);
        assert(j.last() == last[last.len() - 1]);
        assert forall|k: int| 0 <= k < j.len() - 1 && #[trigger] j[k] == '-' implies j[k + 1] != '-' by {
            if k < a.len() - 1 {
                assert(j[k] == a[k]);
                assert(j[k + 1] == a[k + 1]);
            } else if k == a.len() - 1 {
                assert(j[k] == a.last());
            } else if k == a.len() {
                assert(j[k + 1] == last[0]);
            } else {
                assert(j[k] == last[k - a.len() - 1]);
            }
        }
    }
}

/// Every bucket id is well formed, whatever the bucket's name.
pub proof fn law_bucket_id_well_formed(name: Seq<char>)
    ensures
        is_bucket_id(bucket_id(name)),
{
    let b = bucket_chars(name);
    lemma_bucket_chars(name);
    lemma_split_pieces(b);
    let (done, cur) = split_state(b, '-');
    let ps = parts(b, '-');
    assert forall|k: int| 0 <= k < ps.len() implies is_id_piece(#[trigger] ps[k]) by {
        if k < done.len() {
            assert(ps[k] == done[k]);
        } else {
            assert(ps[k] == cur);
            assert(is_id_piece(cur));
        }
    }
    if ps.len() > 0 {
        lemma_join_pieces(ps);
    } else {
        reveal_strlit("bucket");
        assert(join(ps, seq!['-']).len() == 0);
    }
}

proof fn lemma_bucket_chars_keep(x: Seq<char>)
    requires
        dash_or_id(x),
    ensures
        bucket_chars(x) == x,
    decreases x.len(),
{
    if x.len() > 0 {
        let t = x.drop_last();
        assert(dash_or_id(t)) by {
            assert forall|k: int| 0 <= k < t.len() implies #[trigger] t[k] == '-' || is_id_char(t[k]) by {
                assert(t[k] == x[k]);
            }
        }
        lemma_bucket_chars_keep(t);
        let c = x.last();
        assert(c == x[x.len() - 1]);
        assert(bucket_char(c) == seq![c]);
        assert(x =~= t + seq![c]);
    }
}

proof fn lemma_join_push(ps: Seq<Seq<char>>, p: Seq<char>, c: char)
    requires
        p.len() > 0,
    ensures
        join(ps.push(p.push(c)), seq!['-']) == join(ps.push(p), seq!['-']).push(c),
{
    let a = ps.push(p.push(c));
    let b = ps.push(p);
    assert(a.drop_last() =~= ps);
    assert(b.drop_last() =~= ps);
    if ps.len() == 0 {
        assert(join(a, seq!['-']) == a[0]);
        assert(join(b, seq!['-']) == b[0]);
    } else {
        assert(join(a, seq!['-']) =~= join(ps, seq!['-']) + seq!['-'] + p.push(c));
        assert(join(b, seq!['-']) =~= join(ps, seq!['-']) + seq!['-'] + p);
    }
}

/// Splitting a prefix of a well-formed id at `-` and joining the pieces
/// again gives the prefix back.
proof fn lemma_split_join_prefix(x: Seq<char>, n: int)
    requires
        is_bucket_id(x),
        0 <= n <= x.len(),
    ensures
        ({
            let (done, cur) = split_state(x.take(n), '-');
            &&& n == 0 ==> done.len() == 0 && cur.len() == 0
            &&& n > 0 && x[n - 1] != '-' ==> cur.len() > 0 && join(done.push(cur), seq!['-']) == x.take(n)
            &&& n > 0 && x[n - 1] == '-' ==> cur.len() == 0 && done.len() > 0 && join(done, seq!['-'])
                + seq!['-'] == x.take(n)
        }),
    decreases n,
{
    if n > 0 {
        lemma_split_join_prefix(x, n - 1);
        let t = x.take(n - 1);
        let tn = x.take(n);
        assert(tn.drop_last() =~= t);
        assert(tn.last() == x[n - 1]);
        let (done, cur) = split_state(t, '-');
        let c = x[n - 1];
        if c != '-' {
            if cur.len() > 0 {
                lemma_join_push(done, cur, c);
                assert(tn =~= t.push(c));
            } else if n - 1 == 0 {
                assert(done.push(cur.push(c)) =~= seq![seq![c]]);
                assert(join(seq![seq![c]], seq!['-']) == seq![c]);
                assert(tn =~= seq![c]);
            } else {
                let d2 = done.push(cur.push(c));
                assert(d2.drop_last() =~= done);
                assert(cur.push(c) =~= seq![c]);
                assert(join(d2, seq!['-']) =~= join(done, seq!['-']) + seq!['-'] + seq![c]);
                assert(tn =~= t.push(c));
            }
        } else {
            if n - 1 == 0 {
                assert(x[0] != '-');
            } else {
                assert(x[n - 2] != '-') by {
                    if x[n - 2] == '-' {
                        assert(x[n - 2 + 1] != '-');
                    }
                }
                assert(tn =~= t + seq!['-']);
            }
        }
    }
}

/// Normalising a bucket id again changes nothing.
pub proof fn law_bucket_id_idempotent(name: Seq<char>)
    ensures
        bucket_id(bucket_id(name)) == bucket_id(name),
{
    let x = bucket_id(name);
    law_bucket_id_well_formed(name);
    assert(dash_or_id(x));
    lemma_bucket_chars_keep(x);
    lemma_split_join_prefix(x, x.len() as int);
    assert(x.take(x.len() as int) =~= x);
    assert(x[x.len() - 1] == x.last());
    let (done, cur) = split_state(x, '-');
    assert(parts(x, '-') == done.push(cur));
}

// ---------------------------------------------------------------------------
// Splitting at `/`
// ---------------------------------------------------------------------------

pub open spec fn free_of(s: Seq<char>, c: char) -> bool {
    forall|k: int| 0 <= k < s.len() ==> #[trigger] s[k] != c
}

/// Reading characters other than the separator only extends the current piece.
proof fn lemma_split_plain(a: Seq<char>, b: Seq<char>, sep: char)
    requires
        free_of(b, sep),
    ensures
        split_state(a + b, sep) == (split_state(a, sep).0, split_state(a, sep).1 + b),
    decreases b.len(),
{
    if b.len() == 0 {
        assert(a + b =~= a);
        assert(split_state(a, sep).1 + b =~= split_state(a, sep).1);
    } else {
        let b0 = b.drop_last();
        assert(free_of(b0, sep)) by {
            assert forall|k: int| 0 <= k < b0.len() implies #[trigger] b0[k] != sep by {
                assert(b0[k] == b[k]);
            }
        }
        lemma_split_plain(a, b0, sep);
        assert((a + b).drop_last() =~= a + b0);
        assert((a + b).last() == b[b.len() - 1]);
        assert(split_state(a, sep).1 + b =~= (split_state(a, sep).1 + b0).push(b.last()));
    }
}

/// Reading a separator finishes the current piece, if it has anything.
proof fn lemma_split_sep(a: Seq<char>, sep: char)
    ensures
        split_state(a.push(sep), sep) == (
            if split_state(a, sep).1.len() > 0 {
                split_state(a, sep).0.push(split_state(a, sep).1)
            } else {
                split_state(a, sep).0
            },
            Seq::<char>::empty(),
        ),
{
    assert(a.push(sep).drop_last() =~= a);
}

/// The pieces of a split are non-empty and hold no separator.
proof fn lemma_parts_pieces(s: Seq<char>, sep: char)
    ensures
        forall|k: int|
            0 <= k < parts(s, sep).len() ==> (#[trigger] parts(s, sep)[k]).len() > 0 && free_of(
                parts(s, sep)[k],
                sep,
            ),
{
    lemma_split_state_pieces(s, sep);
    let (done, cur) = split_state(s, sep);
    let ps = parts(s, sep);
    assert forall|k: int| 0 <= k < ps.len() implies (#[trigger] ps[k]).len() > 0 && free_of(ps[k], sep) by {
        if k < done.len() {
            assert(ps[k] == done[k]);
        } else {
            assert(ps[k] == cur);
        }
    }
}

proof fn lemma_split_state_pieces(s: Seq<char>, sep: char)
    ensures
        forall|k: int|
            0 <= k < split_state(s, sep).0.len() ==> (#[trigger] split_state(s, sep).0[k]).len() > 0
                && free_of(split_state(s, sep).0[k], sep),
        free_of(split_state(s, sep).1, sep),
    decreases s.len(),
{
    if s.len() > 0 {
        let t = s.drop_last();
        lemma_split_state_pieces(t, sep);
        let (done, cur) = split_state(t, sep);
        if s.last() == sep {
            if cur.len() > 0 {
                let d2 = done.push(cur);
                assert forall|k: int| 0 <= k < d2.len() implies (#[trigger] d2[k]).len() > 0 && free_of(
                    d2[k],
                    sep,
                ) by {
                    if k < done.len() {
                        assert(d2[k] == done[k]);
                    }
                }
            }
        } else {
            let c2 = cur.push(s.last());
            assert(free_of(c2, sep)) by {
                assert forall|k: int| 0 <= k < c2.len() implies #[trigger] c2[k] != sep by {
                    if k < cur.len() {
                        assert(c2[k] == cur[k]);
                    }
                }
            }
        }
    }
}

/// The split of `p0/p1/.../` followed by a last piece, for pieces free of `/`.
proof fn lemma_split_pieces_then(ps: Seq<Seq<char>>, last: Seq<char>)
    requires
        forall|k: int| 0 <= k < ps.len() ==> (#[trigger] ps[k]).len() > 0 && free_of(ps[k], '/'),
        free_of(last, '/'),
    ensures
        split_state(joined_with_slashes(ps) + last, '/') == (ps, last),
    decreases ps.len(),
{
    if ps.len() == 0 {
        assert(joined_with_slashes(ps) + last =~= Seq::<char>::empty() + last);
        lemma_split_plain(Seq::empty(), last, '/');
        assert(Seq::<char>::empty() + last =~= last);
        assert(split_state(Seq::<char>::empty(), '/').1 + last =~= last);
    } else {
        let q = ps.drop_last();
        assert forall|k: int| 0 <= k < q.len() implies (#[trigger] q[k]).len() > 0 && free_of(q[k], '/') by {
            assert(q[k] == ps[k]);
        }
        assert(ps[ps.len() - 1].len() > 0 && free_of(ps[ps.len() - 1], '/'));
        lemma_split_pieces_then(q, ps.last());
        let a = joined_with_slashes(q) + ps.last();
        lemma_split_sep(a, '/');
        assert(joined_with_slashes(ps) =~= a.push('/'));
        lemma_split_plain(a.push('/'), last, '/');
        assert(q.push(ps.last()) =~= ps);
        assert(Seq::<char>::empty() + last =~= last);
    }
}

/// `p0/p1/.../pn/`: every piece followed by a `/`.
pub open spec fn joined_with_slashes(ps: Seq<Seq<char>>) -> Seq<char>
    decreases ps.len(),
{
    if ps.len() == 0 {
        Seq::empty()
    } else {
        joined_with_slashes(ps.drop_last()) + ps.last().push('/')
    }
}

proof fn lemma_event_index_range(ps: Seq<Seq<char>>, i: int)
    ensures
        event_index_from(ps, i) matches Some(j) ==> i <= j && j < ps.len() - 1 && eq_ignore_case(
            ps[j],
            "event"@,
        ),
    decreases ps.len() - i,
{
    if !(i < 0 || i >= ps.len() - 1) && !eq_ignore_case(ps[i], "event"@) {
        lemma_event_index_range(ps, i + 1);
    }
}

proof fn lemma_trim_end_ws_prefix(x: Seq<char>)
    ensures
        trim_end_ws(x).len() <= x.len(),
        trim_end_ws(x) == x.subrange(0, trim_end_ws(x).len() as int),
    decreases x.len(),
{
    if x.len() > 0 && is_ws(x.last()) {
        lemma_trim_end_ws_prefix(x.drop_last());
        assert(trim_end_ws(x) == trim_end_ws(x.drop_last()));
        assert(x.drop_last().subrange(0, trim_end_ws(x).len() as int) =~= x.subrange(
            0,
            trim_end_ws(x).len() as int,
        ));
    } else {
        assert(x.subrange(0, x.len() as int) =~= x);
    }
}

proof fn lemma_trim_end_ws_after(p: Seq<char>, x: Seq<char>)
    requires
        p.len() > 0,
        !is_ws(p.last()),
    ensures
        trim_end_ws(p + x) == p + trim_end_ws(x),
    decreases x.len(),
{
    if x.len() == 0 {
        assert(p + x =~= p);
        assert(p + trim_end_ws(x) =~= p);
    } else {
        assert((p + x).last() == x.last());
        if is_ws(x.last()) {
            assert((p + x).drop_last() =~= p + x.drop_last());
            lemma_trim_end_ws_after(p, x.drop_last());
        }
    }
}

/// The pieces of an event slug: `tournament`, the tournament key, `event`, and
/// the event key.
proof fn lemma_event_slug_pieces(k: Seq<char>, x: Seq<char>)
    requires
        k.len() > 0,
        free_of(k, '/'),
        free_of(x, '/'),
    ensures
        "tournament/"@ + k + "/event/"@ + x == joined_with_slashes(seq!["tournament"@, k, "event"@]) + x,
        split_state(joined_with_slashes(seq!["tournament"@, k, "event"@]) + x, '/') == (
            seq!["tournament"@, k, "event"@],
            x,
        ),
        joined_with_slashes(seq!["tournament"@, k, "event"@]).last() == '/',
        joined_with_slashes(seq!["tournament"@, k, "event"@])[0] == 't',
        joined_with_slashes(seq!["tournament"@, k, "event"@]).drop_last() == joined_with_slashes(
            seq!["tournament"@, k],
        ) + "event"@,
        joined_with_slashes(seq!["tournament"@, k]) == "tournament/"@ + k.push('/'),
{
    reveal_strlit("tournament/");
    reveal_strlit("tournament");
    reveal_strlit("/event/");
    reveal_strlit("event");
    let t = "tournament"@;
    let ev = "event"@;
    let ps = seq![t, k, ev];
    assert(ps.drop_last() =~= seq![t, k]);
    assert(seq![t, k].drop_last() =~= seq![t]);
    assert(seq![t].drop_last() =~= Seq::<Seq<char>>::empty());
    assert(seq![t].last() == t);
    assert(seq![t, k].last() == k);
    assert(ps.last() == ev);
    assert(joined_with_slashes(Seq::<Seq<char>>::empty()) == Seq::<char>::empty());
    assert(joined_with_slashes(seq![t]) =~= Seq::<char>::empty() + t.push('/'));
    assert(joined_with_slashes(seq![t]) =~= t.push('/'));
    assert(joined_with_slashes(seq![t, k]) =~= t.push('/') + k.push('/'));
    assert(joined_with_slashes(ps) =~= t.push('/') + k.push('/') + ev.push('/'));
    assert("tournament/"@ + k + "/event/"@ + x =~= joined_with_slashes(ps) + x);
    assert(joined_with_slashes(ps).drop_last() =~= joined_with_slashes(seq![t, k]) + ev);
    assert(free_of(t, '/'));
    assert(free_of(ev, '/'));
    assert forall|j: int| 0 <= j < ps.len() implies (#[trigger] ps[j]).len() > 0 && free_of(ps[j], '/') by {
        if j == 0 {
            assert(ps[j] == t);
        } else if j == 1 {
            assert(ps[j] == k);
        } else {
            assert(ps[j] == ev);
        }
    }
    lemma_split_pieces_then(ps, x);
}

/// An event slug as the code builds it, from the pieces of the pasted text.
proof fn lemma_event_slug_shape(raw: Seq<char>) -> (kx: (Seq<char>, Seq<char>))
    requires
        event_slug(raw) is Some,
    ensures
        event_slug(raw) == Some("tournament/"@ + kx.0 + "/event/"@ + kx.1),
        tournament_slug(raw) == "tournament/"@ + kx.0,
        kx.0.len() > 0 && free_of(kx.0, '/'),
        kx.1.len() > 0 && free_of(kx.1, '/'),
        no_ws(raw) ==> no_ws(kx.1),
{
    let s = sanitized(raw);
    let c = with_tournament_prefix(s);
    let ps = parts(c, '/');
    lemma_parts_pieces(c, '/');
    lemma_event_index_range(ps, 2);
    let idx = event_index_from(ps, 2)->0;
    if no_ws(raw) {
        lemma_sanitized_no_ws(raw);
        lemma_prefix_no_ws(s);
        lemma_parts_no_ws(c, '/');
        assert(no_ws(ps[idx + 1]));
    }
    (ps[1], ps[idx + 1])
}

proof fn lemma_strip_keeps_t(v: Seq<char>)
    requires
        v.len() > 0,
        v[0] == 't',
    ensures
        strip_site_prefix(v) == v,
{
    reveal_strlit("https://www.start.gg/");
    reveal_strlit("http://www.start.gg/");
    reveal_strlit("https://start.gg/");
    reveal_strlit("http://start.gg/");
    reveal_strlit("www.start.gg/");
    reveal_strlit("start.gg/");
    assert(!starts_with(v, "https://www.start.gg/"@)) by {
        if starts_with(v, "https://www.start.gg/"@) {
            assert(v.subrange(0, 21)[0] == v[0]);
        }
    }
    assert(!starts_with(v, "http://www.start.gg/"@)) by {
        if starts_with(v, "http://www.start.gg/"@) {
            assert(v.subrange(0, 20)[0] == v[0]);
        }
    }
    assert(!starts_with(v, "https://start.gg/"@)) by {
        if starts_with(v, "https://start.gg/"@) {
            assert(v.subrange(0, 17)[0] == v[0]);
        }
    }
    assert(!starts_with(v, "http://start.gg/"@)) by {
        if starts_with(v, "http://start.gg/"@) {
            assert(v.subrange(0, 16)[0] == v[0]);
        }
    }
    assert(!starts_with(v, "www.start.gg/"@)) by {
        if starts_with(v, "www.start.gg/"@) {
            assert(v.subrange(0, 13)[0] == v[0]);
        }
    }
    assert(!starts_with(v, "start.gg/"@)) by {
        if starts_with(v, "start.gg/"@) {
            assert(v.subrange(0, 9)[0] == v[0]);
        }
    }
}

/// The tournament slug of an event slug is the tournament slug of the text it
/// came from; and normalising an event slug that does not end in white space
/// gives it back.
pub proof fn law_event_slug_round_trip(raw: Seq<char>)
    ensures
        event_slug(raw) matches Some(e) ==> tournament_slug(e) == tournament_slug(raw),
        event_slug(raw) matches Some(e) ==> (!is_ws(e.last()) ==> event_slug(e) == Some(e)),
{
    if event_slug(raw) is Some {
        let (k, x) = lemma_event_slug_shape(raw);
        let e = "tournament/"@ + k + "/event/"@ + x;
        lemma_event_slug_pieces(k, x);
        let p = joined_with_slashes(seq!["tournament"@, k, "event"@]);
        reveal_strlit("tournament");
        reveal_strlit("event");
        reveal_strlit("tournament/");
        assert(e == p + x);
        assert(!is_ws(p.last()));
        assert(!is_ws(e[0])) by {
            assert(e[0] == p[0]);
        }
        // White space at the start: none.
        assert(trim_start_ws(e) == e);
        lemma_trim_end_ws_after(p, x);
        lemma_trim_end_ws_prefix(x);
        let x2 = trim_end_ws(x);
        assert(free_of(x2, '/')) by {
            assert forall|j: int| 0 <= j < x2.len() implies #[trigger] x2[j] != '/' by {
                assert(x2[j] == x[j]);
            }
        }
        let v = p + x2;
        assert(trim(e) == v);
        assert(v[0] == 't') by {
            assert(v[0] == p[0]);
        }
        lemma_strip_keeps_t(v);
        assert(trim_start_char(v, '/') == v);
        let t2 = trim_end_char(v, '/');
        lemma_prefixed_has_prefix(k + "/event/"@ + x);
        if x2.len() > 0 {
            assert(v.last() == x2.last());
            assert(x2.last() == x2[x2.len() - 1]);
            assert(t2 == v);
            assert(sanitized(e) == v);
            assert(v =~= "tournament/"@ + (k + "/event/"@ + x2)) by {
                assert(p + x2 =~= "tournament/"@ + k + "/event/"@ + x2) by {
                    lemma_event_slug_pieces(k, x2);
                }
            }
            lemma_prefixed_has_prefix(k + "/event/"@ + x2);
            assert(with_tournament_prefix(v) == v);
            lemma_event_slug_pieces(k, x2);
            let (d, cur) = split_state(v, '/');
            assert(parts(v, '/') == seq!["tournament"@, k, "event"@].push(x2));
            assert(parts(v, '/')[1] == k);
            assert(parts(v, '/')[0] == "tournament"@);
            assert(tournament_slug(e) == "tournament/"@ + k);
            if !is_ws(e.last()) {
                assert(e.last() == x.last());
                assert(x.last() == x[x.len() - 1]);
                assert(x2 == x);
                let ps = parts(v, '/');
                assert(ps[2] == "event"@);
                assert(ps[3] == x);
                assert(eq_ignore_case(ps[2], "event"@));
                assert(event_index_from(ps, 2) == Some(2int));
                assert(event_slug(e) == Some("tournament/"@ + k + "/event/"@ + x));
            }
        } else {
            assert(v =~= p);
            let w = joined_with_slashes(seq!["tournament"@, k]) + "event"@;
            assert(p.drop_last() == w);
            assert(w.last() == 't');
            assert(trim_end_char(p.drop_last(), '/') == p.drop_last());
            assert(t2 == w);
            assert(sanitized(e) == w);
            assert(w =~= "tournament/"@ + (k + "/event"@)) by {
                reveal_strlit("/event");
                reveal_strlit("event");
                reveal_strlit("tournament/");
                assert(joined_with_slashes(seq!["tournament"@, k]) == "tournament/"@ + k.push('/'));
            }
            lemma_prefixed_has_prefix(k + "/event"@);
            assert(with_tournament_prefix(w) == w);
            lemma_split_pieces_then(seq!["tournament"@, k], "event"@);
            assert(parts(w, '/') == seq!["tournament"@, k].push("event"@));
            assert(parts(w, '/')[1] == k);
            assert(tournament_slug(e) == "tournament/"@ + k);
            assert(is_ws(e.last())) by {
                assert(x.len() > 0);
                assert(x2.len() == 0);
                assert(is_ws(x.last()));
                assert(e.last() == x.last());
            }
        }
    }
}

/// Reading more never takes back a finished piece.
proof fn lemma_split_keeps_done(a: Seq<char>, b: Seq<char>, sep: char)
    ensures
        split_state(a, sep).0.len() <= split_state(a + b, sep).0.len(),
        forall|j: int|
            0 <= j < split_state(a, sep).0.len() ==> #[trigger] split_state(a + b, sep).0[j]
                == split_state(a, sep).0[j],
    decreases b.len(),
{
    if b.len() == 0 {
        assert(a + b =~= a);
    } else {
        lemma_split_keeps_done(a, b.drop_last(), sep);
        assert((a + b).drop_last() =~= a + b.drop_last());
        let (d0, c0) = split_state(a + b.drop_last(), sep);
        let d1 = split_state(a + b, sep).0;
        assert forall|j: int| 0 <= j < split_state(a, sep).0.len() implies #[trigger] d1[j]
            == split_state(a, sep).0[j] by {
            assert(d1.len() >= d0.len());
            if d1 != d0 {
                assert(d1 == d0.push(c0));
                assert(d1[j] == d0[j]);
            }
        }
    }
}

/// A tournament slug that is not empty is `tournament/` followed by a key
/// that is not empty and holds no `/`.
pub proof fn law_tournament_slug_shape(raw: Seq<char>)
    ensures
        tournament_slug(raw).len() > 0 ==> ({
            let key = tournament_slug(raw).skip(11);
            &&& tournament_slug(raw) == "tournament/"@ + key
            &&& key.len() > 0
            &&& free_of(key, '/')
        }),
{
    let s = sanitized(raw);
    if s.len() > 0 {
        law_sanitized_has_no_outer_slash(raw);
        reveal_strlit("tournament/");
        reveal_strlit("tournament");
        let c = with_tournament_prefix(s);
        let first: Seq<char> = if has_tournament_prefix(s) {
            s.take(10)
        } else {
            "tournament"@
        };
        let rest: Seq<char> = if has_tournament_prefix(s) {
            s.skip(11)
        } else {
            s
        };
        if has_tournament_prefix(s) {
            let l = lower(s);
            assert(l.subrange(0, 11) == "tournament/"@);
            assert(l.subrange(0, 11)[10] == l[10]);
            assert(l[10] == '/');
            assert(s[10] == '/');
            assert(free_of(first, '/')) by {
                assert forall|j: int| 0 <= j < first.len() implies #[trigger] first[j] != '/' by {
                    assert(l[j] == l.subrange(0, 11)[j]);
                    assert(first[j] == s[j]);
                }
            }
            assert(lower(first) =~= "tournament"@) by {
                assert forall|j: int| 0 <= j < 10 implies #[trigger] lower(first)[j] == "tournament"@[j] by {
                    assert(l[j] == l.subrange(0, 11)[j]);
                    assert(first[j] == s[j]);
                }
            }
            assert(c =~= first.push('/') + rest);
        } else {
            assert(c =~= first.push('/') + rest);
        }
        assert(free_of(first, '/'));
        assert(first.len() > 0);
        assert(lower("tournament"@) =~= "tournament"@);
        assert(eq_ignore_case(first, "tournament"@));
        // `first/` splits into the one piece `first`.
        assert(joined_with_slashes(seq![first]) =~= first.push('/')) by {
            assert(seq![first].drop_last() =~= Seq::<Seq<char>>::empty());
            assert(seq![first].last() == first);
            assert(joined_with_slashes(Seq::<Seq<char>>::empty()) == Seq::<char>::empty());
            assert(joined_with_slashes(seq![first]) =~= Seq::<char>::empty() + first.push('/'));
        }
        assert(forall|j: int| 0 <= j < seq![first].len() ==> (#[trigger] seq![first][j]).len() > 0
            && free_of(seq![first][j], '/'));
        lemma_split_pieces_then(seq![first], Seq::empty());
        assert(joined_with_slashes(seq![first]) + Seq::<char>::empty() =~= first.push('/'));
        lemma_split_keeps_done(first.push('/'), rest, '/');
        assert(c.last() == s.last());
        assert(c.last() != '/');
        assert(c.drop_last().push(c.last()) =~= c);
        let (d, cur) = split_state(c, '/');
        assert(cur.len() > 0);
        assert(d.len() >= 1);
        assert(d[0] == first);
        let ps = parts(c, '/');
        assert(ps == d.push(cur));
        assert(ps.len() >= 2);
        assert(ps[0] == first);
        lemma_parts_pieces(c, '/');
        let key = ps[1];
        assert(tournament_slug(raw) == "tournament/"@ + key);
        assert(("tournament/"@ + key).skip(11) =~= key);
    }
}

// ---------------------------------------------------------------------------
// Text without white space
// ---------------------------------------------------------------------------

/// No character is white space.
pub open spec fn no_ws(s: Seq<char>) -> bool {
    forall|k: int| 0 <= k < s.len() ==> !is_ws(#[trigger] s[k])
}

proof fn lemma_no_ws_sub(s: Seq<char>, a: int, b: int)
    requires
        no_ws(s),
        0 <= a <= b <= s.len(),
    ensures
        no_ws(s.subrange(a, b)),
{
    assert forall|k: int| 0 <= k < s.subrange(a, b).len() implies !is_ws(#[trigger] s.subrange(a, b)[k]) by {
        assert(s.subrange(a, b)[k] == s[a + k]);
    }
}

proof fn lemma_trim_char_no_ws(s: Seq<char>, c: char)
    requires
        no_ws(s),
    ensures
        no_ws(trim_start_char(s, c)),
        no_ws(trim_end_char(s, c)),
    decreases s.len(),
{
    if s.len() > 0 {
        lemma_no_ws_sub(s, 1, s.len() as int);
        assert(s.drop_first() =~= s.subrange(1, s.len() as int));
        lemma_no_ws_sub(s, 0, s.len() - 1);
        assert(s.drop_last() =~= s.subrange(0, s.len() - 1));
        lemma_trim_char_no_ws(s.drop_first(), c);
        lemma_trim_char_no_ws(s.drop_last(), c);
    }
}

/// Cleaning up text without white space leaves no white space.
proof fn lemma_sanitized_no_ws(raw: Seq<char>)
    requires
        no_ws(raw),
    ensures
        no_ws(sanitized(raw)),
{
    if raw.len() > 0 {
        assert(!is_ws(raw[0]));
        assert(!is_ws(raw.last())) by {
            assert(raw.last() == raw[raw.len() - 1]);
        }
    }
    assert(trim_start_ws(raw) == raw);
    assert(trim_end_ws(raw) == raw);
    let v = strip_site_prefix(raw);
    assert(no_ws(v)) by {
        if v != raw {
            let n = raw.len() - v.len();
            assert(0 <= n <= raw.len());
            assert(v =~= raw.subrange(n, raw.len() as int));
            lemma_no_ws_sub(raw, n, raw.len() as int);
        }
    }
    lemma_trim_char_no_ws(v, '/');
    lemma_trim_char_no_ws(trim_start_char(v, '/'), '/');
}

proof fn lemma_prefix_no_ws(s: Seq<char>)
    requires
        no_ws(s),
    ensures
        no_ws(with_tournament_prefix(s)),
{
    if !has_tournament_prefix(s) {
        reveal_strlit("tournament/");
        let p = "tournament/"@ + s;
        assert forall|k: int| 0 <= k < p.len() implies !is_ws(#[trigger] p[k]) by {
            if k >= 11 {
                assert(p[k] == s[k - 11]);
            }
        }
    }
}

proof fn lemma_split_no_ws(s: Seq<char>, sep: char)
    requires
        no_ws(s),
    ensures
        forall|k: int|
            0 <= k < split_state(s, sep).0.len() ==> no_ws(#[trigger] split_state(s, sep).0[k]),
        no_ws(split_state(s, sep).1),
    decreases s.len(),
{
    if s.len() > 0 {
        let t = s.drop_last();
        assert(no_ws(t)) by {
            assert forall|k: int| 0 <= k < t.len() implies !is_ws(#[trigger] t[k]) by {
                assert(t[k] == s[k]);
            }
        }
        lemma_split_no_ws(t, sep);
        let (done, cur) = split_state(t, sep);
        assert(!is_ws(s.last())) by {
            assert(s.last() == s[s.len() - 1]);
        }
        if s.last() == sep {
            if cur.len() > 0 {
                let d2 = done.push(cur);
                assert forall|k: int| 0 <= k < d2.len() implies no_ws(#[trigger] d2[k]) by {
                    if k < done.len() {
                        assert(d2[k] == done[k]);
                    }
                }
            }
        } else {
            let c2 = cur.push(s.last());
            assert forall|k: int| 0 <= k < c2.len() implies !is_ws(#[trigger] c2[k]) by {
                if k < cur.len() {
                    assert(c2[k] == cur[k]);
                }
            }
        }
    }
}

proof fn lemma_parts_no_ws(s: Seq<char>, sep: char)
    requires
        no_ws(s),
    ensures
        forall|k: int| 0 <= k < parts(s, sep).len() ==> no_ws(#[trigger] parts(s, sep)[k]),
{
    lemma_split_no_ws(s, sep);
    let (done, cur) = split_state(s, sep);
    let ps = parts(s, sep);
    assert forall|k: int| 0 <= k < ps.len() implies no_ws(#[trigger] ps[k]) by {
        if k < done.len() {
            assert(ps[k] == done[k]);
        } else {
            assert(ps[k] == cur);
        }
    }
}

/// From text without white space, an event slug never ends in white space,
/// so normalising it again gives it back.
pub proof fn law_event_slug_idempotent_without_ws(raw: Seq<char>)
    requires
        no_ws(raw),
    ensures
        event_slug(raw) matches Some(e) ==> !is_ws(e.last()) && event_slug(e) == Some(e),
{
    if event_slug(raw) is Some {
        let (k, x) = lemma_event_slug_shape(raw);
        let e = "tournament/"@ + k + "/event/"@ + x;
        assert(e.last() == x.last());
        assert(!is_ws(x[x.len() - 1]));
        law_event_slug_round_trip(raw);
    }
}

} // verus!
