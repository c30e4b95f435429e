//! The decisions of paginated fetching, as state machines that the caller
//! drives with each response.
//!
//! A paginated fetch requests page 1, 2, ... of a query, merging every `sets`
//! connection's nodes across pages until each connection has reached its own
//! `pageInfo.totalPages`. When start.gg rejects a request as too complex, the
//! page size shrinks and the fetch restarts from page 1.
use vstd::prelude::*;
use crate::json::{
    as_u64, is_object_or_null, pointer, set_member, set_member_exec, Json, JsonNumber,
    JsonV,
};
use crate::paging::{
    any_sets, has_any_sets, merge_pages, merge_sets_pointers, nodes_at, resolve_sets_pointers,
    sets_pointers, with_suffix, SetsLocation,
};
use crate::text::{
    chars_of, contains, join, occurs_at, occurs_at_exec, str_contains, trim, trim_bounds,
};

verus! {

/// The smallest page size a fetch shrinks to.
pub const MIN_SETS_PAGE_SIZE: u32 = 8;

// ---------------------------------------------------------------------------
// Shrinking the page size
// ---------------------------------------------------------------------------

/// The last position at or before `i` where `p` occurs in `s`.
pub open spec fn last_occurrence_from(s: Seq<char>, p: Seq<char>, i: int) -> Option<int>
    decreases i + 1,
{
    if i < 0 {
        None
    } else if occurs_at(s, p, i) {
        Some(i)
    } else {
        last_occurrence_from(s, p, i - 1)
    }
}

/// `s.rsplit(p).next()`: what follows the last occurrence of `p`, or all of `s`.
pub open spec fn after_last(s: Seq<char>, p: Seq<char>) -> Seq<char> {
    match last_occurrence_from(s, p, s.len() - p.len()) {
        Some(i) => s.skip(i + p.len()),
        None => s,
    }
}

/// `trim_end_matches(['.', ')'])`.
pub open spec fn trim_end_dots(s: Seq<char>) -> Seq<char>
    decreases s.len(),
{
    if s.len() > 0 && (s.last() == '.' || s.last() == ')') {
        trim_end_dots(s.drop_last())
    } else {
        s
    }
}

/// The text of the object count in a "complexity is too high" error.
pub open spec fn reported_count_text(error: Seq<char>) -> Seq<char> {
    trim(trim_end_dots(trim(after_last(error, "actual:"@))))
}

/// The page size to retry with after start.gg refused a request: `None`
/// unless the error is a "complexity is too high" one for which the caller
/// scaled the page size down to fit the reported object count
/// (`scaled_per_page`). A scaled size at or above the current one gives
/// `None`; a smaller one is raised to `MIN_SETS_PAGE_SIZE`, and is used only
/// when that is still below the current size, so every retry uses a strictly
/// smaller page, and a fetch at the smallest size ends with the error.
pub open spec fn shrunk_page_size(error: Seq<char>, scaled_per_page: Option<u32>, current: u32) -> Option<u32> {
    if !contains(error, "complexity is too high"@) {
        None
    } else {
        match scaled_per_page {
            None => None,
            Some(s) => if s >= current {
                None
            } else {
                let r = if s < MIN_SETS_PAGE_SIZE {
                    MIN_SETS_PAGE_SIZE
                } else {
                    s
                };
                if r < current {
                    Some(r)
                } else {
                    None
                }
            },
        }
    }
}

fn last_occurrence_exec(s: &Vec<char>, p: &Vec<char>) -> (r: Option<usize>)
    ensures
        match r {
            Some(i) => last_occurrence_from(s@, p@, s@.len() - p@.len()) == Some(i as int)
                && occurs_at(s@, p@, i as int),
            None => last_occurrence_from(s@, p@, s@.len() - p@.len()) is None,
        },
{
    if p.len() > s.len() {
        assert(last_occurrence_from(s@, p@, s@.len() - p@.len()) is None);
        return None;
    }
    let mut i = s.len() - p.len();
    loop
        invariant
            i <= s@.len() - p@.len(),
            p@.len() <= s@.len(),
            last_occurrence_from(s@, p@, s@.len() - p@.len()) == last_occurrence_from(
                s@,
                p@,
                i as int,
            ),
        decreases i,
    {
        if occurs_at_exec(s, p, i) {
            return Some(i);
        }
        if i == 0 {
            assert(last_occurrence_from(s@, p@, -1) is None);
            return None;
        }
        i = i - 1;
    }
}

/// The characters of the reported count in an error message.
fn count_text(error: &str) -> (t: Vec<char>)
    ensures
        t@ == reported_count_text(error@),
{
    let v = chars_of(error);
    let pat = chars_of("actual:");
    let start = match last_occurrence_exec(&v, &pat) {
        Some(i) => {
            let n = v.len();
            assert(i + pat@.len() <= n);
            i + pat.len()
        },
        None => 0,
    };
    let ghost after = after_last(error@, "actual:"@);
    assert(after =~= v@.subrange(start as int, v@.len() as int));
    let piece = copy_range(&v, start, v.len());
    let (a, b) = trim_bounds(&piece);
    let mut j = b;
    while j > a && (piece[j - 1] == '.' || piece[j - 1] == ')')
        invariant
            a <= j <= b <= piece@.len(),
            trim_end_dots(piece@.subrange(a as int, b as int)) == trim_end_dots(
                piece@.subrange(a as int, j as int),
            ),
        decreases j,
    {
        assert(piece@.subrange(a as int, j as int).drop_last() =~= piece@.subrange(
            a as int,
            j - 1,
        ));
        j = j - 1;
    }
    let inner = copy_range(&piece, a, j);
    let (c, d) = trim_bounds(&inner);
    copy_range(&inner, c, d)
}

fn copy_range(v: &Vec<char>, lo: usize, hi: usize) -> (r: Vec<char>)
    requires
        lo <= hi <= v@.len(),
    ensures
        r@ == v@.subrange(lo as int, hi as int),
{
    let mut r: Vec<char> = Vec::new();
    let mut k = lo;
    while k < hi
        invariant
            lo <= k <= hi <= v@.len(),
            r@ == v@.subrange(lo as int, k as int),
        decreases hi - k,
    {
        r.push(v[k]);
        k = k + 1;
        assert(r@ =~= v@.subrange(lo as int, k as int));
    }
    r
}

/// The text of the object count in a "complexity is too high" error, for the
/// caller to read as a number; `None` for any other error.
pub fn complexity_count_text(error: &str) -> (r: Option<String>)
    ensures
        match r {
            Some(t) => contains(error@, "complexity is too high"@) && t@ == reported_count_text(error@),
            None => !contains(error@, "complexity is too high"@),
        },
{
    if !str_contains(error, "complexity is too high") {
        return None;
    }
    let t = count_text(error);
    Some(crate::text::string_of_chars(&t))
}

/// A smaller page size to retry with after start.gg refused a request, given
/// the page size the caller scaled to the error's reported object count.
pub fn shrink_per_page_from_complexity_error(
    error: &str,
    scaled_per_page: Option<u32>,
    current_per_page: u32,
) -> (r: Option<u32>)
    ensures
        r == shrunk_page_size(error@, scaled_per_page, current_per_page),
        r matches Some(s) ==> MIN_SETS_PAGE_SIZE <= s < current_per_page,
{
    if !str_contains(error, "complexity is too high") {
        return None;
    }
    let s = match scaled_per_page {
        Some(s) => s,
        None => {
            return None;
        },
    };
    if s >= current_per_page {
        return None;
    }
    let r = if s < MIN_SETS_PAGE_SIZE {
        MIN_SETS_PAGE_SIZE
    } else {
        s
    };
    if r < current_per_page {
        Some(r)
    } else {
        None
    }
}

// ---------------------------------------------------------------------------
// One paginated fetch
// ---------------------------------------------------------------------------

/// The largest `pageInfo.totalPages` among the connections, and at least 1.
pub open spec fn max_total_pages(data: JsonV, ps: Seq<Seq<char>>) -> u32
    decreases ps.len(),
{
    if ps.len() == 0 {
        1
    } else {
        let m = max_total_pages(data, ps.drop_last());
        match as_u64_opt(pointer(data, ps.last() + "/pageInfo/totalPages"@)) {
            Some(t) => if (t as u32) > m {
                t as u32
            } else {
                m
            },
            None => m,
        }
    }
}

/// Every connection's page count is at most the largest, which is at least
/// 1 and, when above 1, is one of them.
proof fn lemma_max_total_pages(data: JsonV, ps: Seq<Seq<char>>)
    ensures
        max_total_pages(data, ps) >= 1,
        forall|k: int|
            0 <= k < ps.len() ==> (as_u64_opt(pointer(data, #[trigger] ps[k] + "/pageInfo/totalPages"@)) matches Some(t)
                ==> t as u32 <= max_total_pages(data, ps)),
        max_total_pages(data, ps) == 1 || exists|k: int|
            0 <= k < ps.len() && (as_u64_opt(pointer(data, #[trigger] ps[k] + "/pageInfo/totalPages"@)) matches Some(t)
                && t as u32 == max_total_pages(data, ps)),
    decreases ps.len(),
{
    if ps.len() > 0 {
        let u = ps.drop_last();
        lemma_max_total_pages(data, u);
        assert forall|k: int| 0 <= k < u.len() implies #[trigger] ps[k] == u[k] by {}
        if max_total_pages(data, u) != 1 {
            let k = choose|k: int|
                0 <= k < u.len() && (as_u64_opt(pointer(data, #[trigger] u[k] + "/pageInfo/totalPages"@)) matches Some(t)
                    && t as u32 == max_total_pages(data, u));
            assert(ps[k] == u[k]);
        }
        assert(ps[ps.len() - 1] == ps.last());
    }
}

pub open spec fn as_u64_opt(j: Option<JsonV>) -> Option<u64> {
    match j {
        Some(v) => as_u64(v),
        None => None,
    }
}

pub open spec fn number(n: u64) -> JsonV {
    JsonV::Number(JsonNumber::PosInt(n))
}

/// The variables of a request for `page` at `per_page`.
pub open spec fn page_variables(vars: JsonV, per_page: u32, page: u32) -> JsonV {
    set_member(set_member(vars, "perPage"@, number(per_page as u64)), "page"@, number(page as u64))
}

/// The state of one paginated fetch.
pub struct Paginator {
    pub variables: Json,
    pub per_page: u32,
    pub page: u32,
    pub merged: Option<Json>,
    pub locations: Vec<SetsLocation>,
}

pub struct PaginatorV {
    pub variables: JsonV,
    pub per_page: u32,
    pub page: u32,
    pub merged: Option<JsonV>,
    pub locations: Seq<SetsLocation>,
}

pub open spec fn opt_json(o: Option<Json>) -> Option<JsonV> {
    match o {
        Some(j) => Some(j@),
        None => None,
    }
}

impl View for Paginator {
    type V = PaginatorV;

    open spec fn view(&self) -> PaginatorV {
        PaginatorV {
            variables: self.variables@,
            per_page: self.per_page,
            page: self.page,
            merged: opt_json(self.merged),
            locations: self.locations@,
        }
    }
}

/// What the fetch does next: send a request with these variables, or stop.
pub enum PageStep {
    Request(Json),
    Done(Result<Json, String>),
}

pub enum PageStepV {
    Request(JsonV),
    Done(Result<JsonV, Seq<char>>),
}

pub open spec fn page_step_view(s: PageStep) -> PageStepV {
    match s {
        PageStep::Request(v) => PageStepV::Request(v@),
        PageStep::Done(Ok(j)) => PageStepV::Done(Ok(j@)),
        PageStep::Done(Err(e)) => PageStepV::Done(Err(e@)),
    }
}

pub open spec fn response_view(r: Result<Json, String>) -> Result<JsonV, Seq<char>> {
    match r {
        Ok(j) => Ok(j@),
        Err(e) => Err(e@),
    }
}

/// A fetch at `per_page` (and at least `MIN_SETS_PAGE_SIZE`), starting at page 1.
pub open spec fn restart(st: PaginatorV, per_page: u32) -> PaginatorV {
    PaginatorV {
        variables: page_variables(st.variables, per_page, 1),
        per_page,
        page: 1,
        merged: None,
        locations: st.locations,
    }
}

/// What a response does to a fetch.
pub open spec fn page_transition(
    st: PaginatorV,
    response: Result<JsonV, Seq<char>>,
    scaled_per_page: Option<u32>,
) -> (
    PaginatorV,
    PageStepV,
) {
    match response {
        Err(e) => match shrunk_page_size(e, scaled_per_page, st.per_page) {
            Some(s) => {
                let next = restart(st, s);
                (next, PageStepV::Request(next.variables))
            },
            None => (st, PageStepV::Done(Err(e))),
        },
        Ok(data) => {
            let ps = sets_pointers(data, st.locations);
            let merged = match st.merged {
                None => data,
                Some(t) => merge_pages(t, data, ps),
            };
            if st.page >= max_total_pages(data, ps) || !any_sets(data, st.locations) {
                (PaginatorV { merged: Some(merged), ..st }, PageStepV::Done(Ok(merged)))
            } else {
                let vars = set_member(st.variables, "page"@, number((st.page + 1) as u64));
                (
                    PaginatorV { variables: vars, page: (st.page + 1) as u32, merged: Some(merged), ..st },
                    PageStepV::Request(vars),
                )
            }
        },
    }
}

/// Variables stay an object once the page size has been set; the page size
/// stays at least `MIN_SETS_PAGE_SIZE`, and pages count from 1.
pub open spec fn paginator_inv(st: PaginatorV) -> bool {
    &&& st.variables is Object
    &&& st.per_page >= MIN_SETS_PAGE_SIZE
    &&& st.page >= 1
}

pub proof fn lemma_set_member_object(j: JsonV, key: Seq<char>, v: JsonV)
    requires
        is_object_or_null(j),
    ensures
        set_member(j, key, v) is Object,
{
}

fn number_exec(n: u64) -> (r: Json)
    ensures
        r@ == number(n),
{
    Json::Number(JsonNumber::PosInt(n))
}

fn max_total_pages_exec(data: &Json, pointers: &Vec<String>) -> (r: u32)
    ensures
        r == max_total_pages(data@, pointers@.map_values(|s: String| s@)),
{
    let ghost ps = pointers@.map_values(|s: String| s@);
    let mut m: u32 = 1;
    let mut i: usize = 0;
    while i < pointers.len()
        invariant
            i <= pointers@.len(),
            ps == pointers@.map_values(|s: String| s@),
            m == max_total_pages(data@, ps.take(i as int)),
        decreases pointers@.len() - i,
    {
        assert(ps.take(i + 1).drop_last() =~= ps.take(i as int));
        assert(ps.take(i + 1).last() == pointers@[i as int]@);
        let q = with_suffix(&pointers[i], "/pageInfo/totalPages");
        let total = match data.pointer(q.as_str()) {
            Some(t) => t.as_u64(),
            None => None,
        };
        match total {
            Some(t) => {
                let t32 = t as u32;
                if t32 > m {
                    m = t32;
                }
            },
            None => {},
        }
        i = i + 1;
    }
    assert(ps.take(pointers@.len() as int) =~= ps);
    m
}

impl Paginator {
    /// A fetch of `variables` from page 1 at `initial_per_page` (at least
    /// `MIN_SETS_PAGE_SIZE`), with the variables of its first request.
    pub fn start(variables: Json, initial_per_page: u32, locations: Vec<SetsLocation>) -> (r: (
        Paginator,
        Json,
    ))
        requires
            is_object_or_null(variables@),
        ensures
            r.0@ == (PaginatorV {
                variables: page_variables(
                    variables@,
                    if initial_per_page >= MIN_SETS_PAGE_SIZE {
                        initial_per_page
                    } else {
                        MIN_SETS_PAGE_SIZE
                    },
                    1,
                ),
                per_page: if initial_per_page >= MIN_SETS_PAGE_SIZE {
                    initial_per_page
                } else {
                    MIN_SETS_PAGE_SIZE
                },
                page: 1,
                merged: None,
                locations: locations@,
            }),
            r.1@ == r.0@.variables,
            paginator_inv(r.0@),
    {
        let per_page = if initial_per_page >= MIN_SETS_PAGE_SIZE {
            initial_per_page
        } else {
            MIN_SETS_PAGE_SIZE
        };
        let v1 = set_member_exec(variables, "perPage", number_exec(per_page as u64));
        proof {
            lemma_set_member_object(variables@, "perPage"@, number(per_page as u64));
        }
        let v2 = set_member_exec(v1, "page", number_exec(1));
        let req = v2.clone();
        (Paginator { variables: v2, per_page, page: 1, merged: None, locations }, req)
    }

    /// Takes the response to the last request and says what to do next.
    /// `scaled_per_page` is, for a refused request, the page size scaled to
    /// the object count of the error's `complexity_count_text`, as the
    /// caller computed it; it is not read for data.
    pub fn page_received(&mut self, response: Result<Json, String>, scaled_per_page: Option<u32>) -> (step:
        PageStep)
        requires
            paginator_inv(old(self)@),
        ensures
            (final(self)@, page_step_view(step)) == page_transition(
                old(self)@,
                response_view(response),
                scaled_per_page,
            ),
            paginator_inv(final(self)@),
            final(self)@.per_page <= old(self)@.per_page,
            response is Err ==> (step is Done || final(self)@.per_page < old(self)@.per_page),
    {
        match response {
            Err(e) => match shrink_per_page_from_complexity_error(
                e.as_str(),
                scaled_per_page,
                self.per_page,
            ) {
                Some(s) => {
                    let mut old_vars = Json::Null;
                    std::mem::swap(&mut old_vars, &mut self.variables);
                    let v1 = set_member_exec(old_vars, "perPage", number_exec(s as u64));
                    proof {
                        lemma_set_member_object(old(self)@.variables, "perPage"@, number(s as u64));
                    }
                    let v2 = set_member_exec(v1, "page", number_exec(1));
                    let req = v2.clone();
                    self.variables = v2;
                    self.per_page = s;
                    self.page = 1;
                    self.merged = None;
                    PageStep::Request(req)
                },
                None => PageStep::Done(Err(e)),
            },
            Ok(data) => {
                let pointers = resolve_sets_pointers(&data, &self.locations);
                let total = max_total_pages_exec(&data, &pointers);
                let any = has_any_sets(&data, &self.locations);
                let merged = match self.merged.take() {
                    None => data,
                    Some(target) => merge_sets_pointers(target, &data, &pointers),
                };
                if self.page >= total || !any {
                    let out = merged.clone();
                    self.merged = Some(merged);
                    PageStep::Done(Ok(out))
                } else {
                    let next_page = self.page + 1;
                    let mut old_vars = Json::Null;
                    std::mem::swap(&mut old_vars, &mut self.variables);
                    let v = set_member_exec(old_vars, "page", number_exec(next_page as u64));
                    let req = v.clone();
                    self.variables = v;
                    self.page = next_page;
                    self.merged = Some(merged);
                    PageStep::Request(req)
                }
            },
        }
    }
}

/// The fetch runs to the largest page count that any sets connection
/// reports: after a page of data it asks for the next page exactly when the
/// page has sets and some connection's `pageInfo.totalPages` exceeds the
/// page just fetched; otherwise it stops with the merged data.
pub proof fn law_fetch_runs_to_largest_total_pages(st: PaginatorV, data: JsonV, scaled_per_page: Option<u32>)
    requires
        st.page >= 1,
    ensures
        (page_transition(st, Ok(data), scaled_per_page).1 is Request) <==> (any_sets(data, st.locations)
            && exists|k: int|
            0 <= k < sets_pointers(data, st.locations).len() && (as_u64_opt(
                pointer(data, #[trigger] sets_pointers(data, st.locations)[k] + "/pageInfo/totalPages"@),
            ) matches Some(t) && st.page < t as u32)),
{
    let ps = sets_pointers(data, st.locations);
    lemma_max_total_pages(data, ps);
    if max_total_pages(data, ps) != 1 {
        let k = choose|k: int|
            0 <= k < ps.len() && (as_u64_opt(pointer(data, #[trigger] ps[k] + "/pageInfo/totalPages"@)) matches Some(t)
                && t as u32 == max_total_pages(data, ps));
        assert(0 <= k < ps.len());
    }
}

/// Runs a fetch from `st` on refusals only: each is an error text with the
/// page size the caller scaled for it, fed in order until the fetch stops.
pub open spec fn run_refusals(st: PaginatorV, refusals: Seq<(Seq<char>, Option<u32>)>) -> PageStepV
    decreases refusals.len(),
{
    if refusals.len() == 0 {
        PageStepV::Request(st.variables)
    } else {
        let (st2, step) = page_transition(st, Err(refusals[0].0), refusals[0].1);
        match step {
            PageStepV::Done(_) => step,
            PageStepV::Request(_) => run_refusals(st2, refusals.drop_first()),
        }
    }
}

/// A fetch that start.gg keeps refusing ends, with an error: each refusal
/// either ends it or restarts it at a strictly smaller page size, never below
/// `MIN_SETS_PAGE_SIZE`, so at most `per_page - 7` refusals are needed.
pub proof fn law_refused_fetch_ends(st: PaginatorV, refusals: Seq<(Seq<char>, Option<u32>)>)
    requires
        paginator_inv(st),
        refusals.len() + MIN_SETS_PAGE_SIZE > st.per_page,
    ensures
        run_refusals(st, refusals) matches PageStepV::Done(Err(_)),
    decreases refusals.len(),
{
    let (st2, step) = page_transition(st, Err(refusals[0].0), refusals[0].1);
    match shrunk_page_size(refusals[0].0, refusals[0].1, st.per_page) {
        Some(s) => {
            lemma_set_member_object(st.variables, "perPage"@, number(s as u64));
            assert(paginator_inv(st2));
            law_refused_fetch_ends(st2, refusals.drop_first());
        },
        None => {},
    }
}

// ---------------------------------------------------------------------------
// Trying several queries
// ---------------------------------------------------------------------------

/// The search over several (query, variables) attempts for one that yields
/// sets. An attempt that succeeds without any sets is kept as the answer in
/// case no later attempt finds any; if none succeeds, the errors are joined.
pub struct BestSetsSearch {
    pub attempt_count: usize,
    pub next: usize,
    pub empty_result: Option<Json>,
    pub errors: Vec<String>,
}

pub struct SearchV {
    pub attempt_count: usize,
    pub next: usize,
    pub empty_result: Option<JsonV>,
    pub errors: Seq<Seq<char>>,
}

impl View for BestSetsSearch {
    type V = SearchV;

    open spec fn view(&self) -> SearchV {
        SearchV {
            attempt_count: self.attempt_count,
            next: self.next,
            empty_result: opt_json(self.empty_result),
            errors: self.errors@.map_values(|e: String| e@),
        }
    }
}

pub enum SearchStep {
    /// Run the attempt with this index.
    Attempt(usize),
    Finished(Result<Json, String>),
}

pub enum SearchStepV {
    Attempt(usize),
    Finished(Result<JsonV, Seq<char>>),
}

pub open spec fn search_step_view(s: SearchStep) -> SearchStepV {
    match s {
        SearchStep::Attempt(i) => SearchStepV::Attempt(i),
        SearchStep::Finished(r) => SearchStepV::Finished(response_view(r)),
    }
}

/// The answer when no attempt is left.
pub open spec fn search_answer(st: SearchV) -> Result<JsonV, Seq<char>> {
    match st.empty_result {
        Some(j) => Ok(j),
        None => Err(join(st.errors, " | "@)),
    }
}

pub open spec fn next_or_finish(st: SearchV) -> (SearchV, SearchStepV) {
    if st.next < st.attempt_count {
        (st, SearchStepV::Attempt(st.next))
    } else {
        (st, SearchStepV::Finished(search_answer(st)))
    }
}

/// What the outcome of the current attempt does to the search.
pub open spec fn search_transition(
    st: SearchV,
    outcome: Result<JsonV, Seq<char>>,
    locs: Seq<SetsLocation>,
) -> (SearchV, SearchStepV) {
    match outcome {
        Ok(data) => if any_sets(data, locs) {
            (SearchV { next: (st.next + 1) as usize, ..st }, SearchStepV::Finished(Ok(data)))
        } else {
            next_or_finish(
                SearchV {
                    next: (st.next + 1) as usize,
                    empty_result: match st.empty_result {
                        Some(j) => Some(j),
                        None => Some(data),
                    },
                    ..st
                },
            )
        },
        Err(e) => next_or_finish(
            SearchV { next: (st.next + 1) as usize, errors: st.errors.push(e), ..st },
        ),
    }
}

fn join_errors(errors: &Vec<String>) -> (r: String)
    ensures
        r@ == join(errors@.map_values(|e: String| e@), " | "@),
{
    let mut pieces: Vec<Vec<char>> = Vec::new();
    let mut i: usize = 0;
    while i < errors.len()
        invariant
            i <= errors@.len(),
            pieces@.len() == i,
            forall|k: int| 0 <= k < i ==> (#[trigger] pieces@[k])@ == errors@[k]@,
        decreases errors@.len() - i,
    {
        pieces.push(chars_of(errors[i].as_str()));
        i = i + 1;
    }
    assert(pieces@.map_values(|p: Vec<char>| p@) =~= errors@.map_values(|e: String| e@));
    let sep = chars_of(" | ");
    let mut r = String::new();
    crate::text::push_joined_with(&mut r, &pieces, &sep);
    assert(r@ =~= join(errors@.map_values(|e: String| e@), " | "@));
    r
}

impl BestSetsSearch {
    /// A search over `attempt_count` attempts, and its first step.
    pub fn start(attempt_count: usize) -> (r: (BestSetsSearch, SearchStep))
        ensures
            (r.0@, search_step_view(r.1)) == next_or_finish(
                SearchV {
                    attempt_count,
                    next: 0,
                    empty_result: None,
                    errors: Seq::empty(),
                },
            ),
    {
        let s = BestSetsSearch { attempt_count, next: 0, empty_result: None, errors: Vec::new() };
        assert(s@.errors =~= Seq::<Seq<char>>::empty());
        let step = s.next_step();
        (s, step)
    }

    fn next_step(&self) -> (step: SearchStep)
        ensures
            (self@, search_step_view(step)) == next_or_finish(self@),
    {
        if self.next < self.attempt_count {
            SearchStep::Attempt(self.next)
        } else {
            match &self.empty_result {
                Some(j) => SearchStep::Finished(Ok(j.clone())),
                None => SearchStep::Finished(Err(join_errors(&self.errors))),
            }
        }
    }

    /// Takes the outcome of the current attempt and says what to do next.
    pub fn attempt_finished(&mut self, outcome: Result<Json, String>, locations: &Vec<SetsLocation>) -> (step:
        SearchStep)
        requires
            old(self)@.next < usize::MAX,
        ensures
            (final(self)@, search_step_view(step)) == search_transition(
                old(self)@,
                response_view(outcome),
                locations@,
            ),
    {
        self.next = self.next + 1;
        match outcome {
            Ok(data) => {
                if has_any_sets(&data, locations) {
                    return SearchStep::Finished(Ok(data));
                }
                if self.empty_result.is_none() {
                    self.empty_result = Some(data);
                }
                self.next_step()
            },
            Err(e) => {
                let ghost e0 = self.errors@;
                self.errors.push(e);
                assert(self@.errors =~= old(self)@.errors.push(e@));
                self.next_step()
            },
        }
    }
}

// ---------------------------------------------------------------------------
// What a whole search answers
// ---------------------------------------------------------------------------

/// The first outcome that has data with sets.
pub open spec fn first_with_sets(outs: Seq<Result<JsonV, Seq<char>>>, locs: Seq<SetsLocation>) -> Option<
    JsonV,
>
    decreases outs.len(),
{
    if outs.len() == 0 {
        None
    } else {
        match outs[0] {
            Ok(d) => if any_sets(d, locs) {
                Some(d)
            } else {
                first_with_sets(outs.drop_first(), locs)
            },
            Err(_) => first_with_sets(outs.drop_first(), locs),
        }
    }
}

/// The first outcome that has data.
pub open spec fn first_ok(outs: Seq<Result<JsonV, Seq<char>>>) -> Option<JsonV>
    decreases outs.len(),
{
    if outs.len() == 0 {
        None
    } else {
        match outs[0] {
            Ok(d) => Some(d),
            Err(_) => first_ok(outs.drop_first()),
        }
    }
}

/// The errors among the outcomes, in order.
pub open spec fn errors_of(outs: Seq<Result<JsonV, Seq<char>>>) -> Seq<Seq<char>>
    decreases outs.len(),
{
    if outs.len() == 0 {
        Seq::empty()
    } else {
        match outs[0] {
            Ok(_) => errors_of(outs.drop_first()),
            Err(e) => seq![e] + errors_of(outs.drop_first()),
        }
    }
}

/// What a search over attempts with these outcomes answers: the first data
/// with sets; else the first data (an empty answer is trusted); else every
/// error, joined with ` | `.
pub open spec fn best_sets(outs: Seq<Result<JsonV, Seq<char>>>, locs: Seq<SetsLocation>) -> Result<
    JsonV,
    Seq<char>,
> {
    match first_with_sets(outs, locs) {
        Some(d) => Ok(d),
        None => match first_ok(outs) {
            Some(d) => Ok(d),
            None => Err(join(errors_of(outs), " | "@)),
        },
    }
}

/// Runs the search from `st`, feeding it the outcomes in order until it
/// finishes.
pub open spec fn run_search(st: SearchV, outs: Seq<Result<JsonV, Seq<char>>>, locs: Seq<SetsLocation>) -> SearchStepV
    decreases outs.len(),
{
    if outs.len() == 0 {
        next_or_finish(st).1
    } else {
        let (st2, step) = search_transition(st, outs[0], locs);
        match step {
            SearchStepV::Finished(r) => SearchStepV::Finished(r),
            SearchStepV::Attempt(_) => run_search(st2, outs.drop_first(), locs),
        }
    }
}

/// A search started over attempts with these outcomes.
pub open spec fn search_over(outs: Seq<Result<JsonV, Seq<char>>>, locs: Seq<SetsLocation>) -> SearchStepV {
    run_search(
        SearchV {
            attempt_count: outs.len() as usize,
            next: 0,
            empty_result: None,
            errors: Seq::empty(),
        },
        outs,
        locs,
    )
}

proof fn lemma_run_search(st: SearchV, outs: Seq<Result<JsonV, Seq<char>>>, locs: Seq<SetsLocation>)
    requires
        st.next + outs.len() == st.attempt_count,
        st.attempt_count <= usize::MAX,
    ensures
        run_search(st, outs, locs) == SearchStepV::Finished(
            match first_with_sets(outs, locs) {
                Some(d) => Ok(d),
                None => match st.empty_result {
                    Some(d) => Ok(d),
                    None => match first_ok(outs) {
                        Some(d) => Ok(d),
                        None => Err(join(st.errors + errors_of(outs), " | "@)),
                    },
                },
            },
        ),
    decreases outs.len(),
{
    if outs.len() == 0 {
        assert(st.errors + errors_of(outs) =~= st.errors);
    } else {
        let rest = outs.drop_first();
        match outs[0] {
            Ok(d) => {
                if !any_sets(d, locs) {
                    let st2 = SearchV {
                        next: (st.next + 1) as usize,
                        empty_result: match st.empty_result {
                            Some(j) => Some(j),
                            None => Some(d),
                        },
                        ..st
                    };
                    lemma_run_search(st2, rest, locs);
                    assert(errors_of(outs) == errors_of(rest));
                }
            },
            Err(e) => {
                let st2 = SearchV { next: (st.next + 1) as usize, errors: st.errors.push(e), ..st };
                lemma_run_search(st2, rest, locs);
                assert(st2.errors + errors_of(rest) =~= st.errors + errors_of(outs));
            },
        }
    }
}

/// A search over several attempts answers with the first that finds sets;
/// when none does, with the first that succeeded (its empty answer is
/// trusted); when none succeeded, with all their errors in order.
pub proof fn law_search_answers_best(outs: Seq<Result<JsonV, Seq<char>>>, locs: Seq<SetsLocation>)
    requires
        outs.len() <= usize::MAX,
    ensures
        search_over(outs, locs) == SearchStepV::Finished(best_sets(outs, locs)),
{
    let st = SearchV {
        attempt_count: outs.len() as usize,
        next: 0,
        empty_result: None,
        errors: Seq::empty(),
    };
    lemma_run_search(st, outs, locs);
    assert(st.errors + errors_of(outs) =~= errors_of(outs));
}

} // verus!
