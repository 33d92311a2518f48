//! Searches by type: what the service is asked, what is made of its answer, and which
//! answers are kept.
use crate::failure::{refuse, Failure};
use crate::text::make::{
    cat3, copy_opt, copy_strings, join, join_strs, joined, own, prefix_all, prefix_step, same,
    strings, strings_push,
};
use crate::text::number::{decimal, show};
use crate::text::pieces::{line_list, lines};
use crate::text::scan::{opt_str, opt_string};
use vstd::prelude::*;

verus! {

broadcast use strings_push;

/// The number of answers that are kept.
pub const CACHED_SEARCHES: usize = 64;

/// A declaration whose type fits.
#[derive(Debug)]
pub struct TypeSearchHit {
    pub name: String,
    pub signature: String,
    pub module: Option<String>,
    pub doc: Option<String>,
}

/// The contents of a [`TypeSearchHit`].
pub struct TypeHitView {
    pub name: Seq<char>,
    pub signature: Seq<char>,
    pub module: Option<Seq<char>>,
    pub doc: Option<Seq<char>>,
}

impl View for TypeSearchHit {
    type V = TypeHitView;

    open spec fn view(&self) -> TypeHitView {
        TypeHitView {
            name: self.name@,
            signature: self.signature@,
            module: opt_string(self.module),
            doc: opt_string(self.doc),
        }
    }
}

/// The contents of a list of declarations.
pub open spec fn type_hits(list: Seq<TypeSearchHit>) -> Seq<TypeHitView> {
    list.map_values(|h: TypeSearchHit| h@)
}

fn copy_type_hits(list: &Vec<TypeSearchHit>) -> (r: Vec<TypeSearchHit>)
    ensures
        type_hits(r@) == type_hits(list@),
{
    let ghost views = type_hits(list@);
    let mut out: Vec<TypeSearchHit> = Vec::new();
    assert(type_hits(out@) =~= views.take(0));
    for i in 0..list.len()
        invariant
            views == type_hits(list@),
            type_hits(out@) == views.take(i as int),
    {
        proof {
            prefix_step(views, i as int);
        }
        let h = &list[i];
        let copied = TypeSearchHit {
            name: own(h.name.as_str()),
            signature: own(h.signature.as_str()),
            module: copy_opt(&h.module),
            doc: copy_opt(&h.doc),
        };
        let ghost before = out@;
        out.push(copied);
        assert(copied@ == views[i as int]);
        assert(type_hits(out@) =~= type_hits(before).push(copied@));
    }
    proof {
        prefix_all(views);
    }
    out
}

/// The outcome of a search by type.
#[derive(Debug)]
pub struct TypeSearchResult {
    pub hits: Vec<TypeSearchHit>,
    pub count: usize,
    pub detail: String,
    pub suggestions: Vec<String>,
    pub error: Option<String>,
}

/// The contents of a [`TypeSearchResult`].
pub struct TypeResultView {
    pub hits: Seq<TypeHitView>,
    pub count: usize,
    pub detail: Seq<char>,
    pub suggestions: Seq<Seq<char>>,
    pub error: Option<Seq<char>>,
}

impl View for TypeSearchResult {
    type V = TypeResultView;

    open spec fn view(&self) -> TypeResultView {
        TypeResultView {
            hits: type_hits(self.hits@),
            count: self.count,
            detail: self.detail@,
            suggestions: strings(self.suggestions@),
            error: opt_string(self.error),
        }
    }
}

impl TypeSearchResult {
    /// A copy.
    pub fn copy(&self) -> (r: Self)
        ensures
            r@ == self@,
    {
        TypeSearchResult {
            hits: copy_type_hits(&self.hits),
            count: self.count,
            detail: own(self.detail.as_str()),
            suggestions: copy_strings(&self.suggestions),
            error: copy_opt(&self.error),
        }
    }
}

/// What the service answers.
#[derive(Debug)]
pub struct TypeSearchResponse {
    pub ok: bool,
    pub detail: String,
    pub count: usize,
    pub hits: Vec<TypeSearchHit>,
    pub version: u64,
}

/// The contents of a [`TypeSearchResponse`].
pub struct ResponseView {
    pub ok: bool,
    pub detail: Seq<char>,
    pub count: usize,
    pub hits: Seq<TypeHitView>,
    pub version: u64,
}

impl View for TypeSearchResponse {
    type V = ResponseView;

    open spec fn view(&self) -> ResponseView {
        ResponseView {
            ok: self.ok,
            detail: self.detail@,
            count: self.count,
            hits: type_hits(self.hits@),
            version: self.version,
        }
    }
}

/// An answer that is kept, under its query and what its candidates hash to.
#[derive(Debug)]
pub struct CachedSearch {
    pub query: String,
    pub candidates: String,
    pub result: TypeSearchResult,
}

/// The contents of a [`CachedSearch`].
pub struct CachedView {
    pub query: Seq<char>,
    pub candidates: Seq<char>,
    pub result: TypeResultView,
}

impl View for CachedSearch {
    type V = CachedView;

    open spec fn view(&self) -> CachedView {
        CachedView {
            query: self.query@,
            candidates: self.candidates@,
            result: self.result@,
        }
    }
}

/// The contents of the answers that are kept.
pub open spec fn cached_views(list: Seq<CachedSearch>) -> Seq<CachedView> {
    list.map_values(|c: CachedSearch| c@)
}

/// The place from `i` on of the answer that is kept under a key.
pub open spec fn place_from(
    list: Seq<CachedView>,
    query: Seq<char>,
    candidates: Seq<char>,
    i: int,
) -> Option<int>
    decreases list.len() - i,
{
    if i >= list.len() {
        None
    } else if list[i].query == query && list[i].candidates == candidates {
        Some(i)
    } else {
        place_from(list, query, candidates, i + 1)
    }
}

/// The answer that is kept under a key.
pub open spec fn kept(list: Seq<CachedView>, query: Seq<char>, candidates: Seq<char>) -> Option<
    TypeResultView,
> {
    match place_from(list, query, candidates, 0) {
        Some(i) => Some(list[i].result),
        None => None,
    }
}

/// The answers that are kept once another one has come. Where there is no more room,
/// all earlier ones are dropped.
pub open spec fn keeping(list: Seq<CachedView>, entry: CachedView) -> Seq<CachedView> {
    let room = if list.len() >= CACHED_SEARCHES {
        Seq::empty()
    } else {
        list
    };
    match place_from(room, entry.query, entry.candidates, 0) {
        Some(i) => room.update(i, entry),
        None => room.push(entry),
    }
}

proof fn place_is_first(list: Seq<CachedView>, query: Seq<char>, candidates: Seq<char>, i: int)
    requires
        0 <= i,
    ensures
        match place_from(list, query, candidates, i) {
            Some(k) => i <= k < list.len() && list[k].query == query && list[k].candidates
                == candidates && forall|j: int|
                i <= j < k ==> !((#[trigger] list[j]).query == query && list[j].candidates
                    == candidates),
            None => forall|j: int|
                i <= j < list.len() ==> !((#[trigger] list[j]).query == query && list[j].candidates
                    == candidates),
        },
    decreases list.len() - i,
{
    if i < list.len() && !(list[i].query == query && list[i].candidates == candidates) {
        place_is_first(list, query, candidates, i + 1);
    }
}

/// An answer that came is the one that is given from then on, and never more than the
/// limit are kept.
pub proof fn answers_are_kept(list: Seq<CachedView>, entry: CachedView)
    requires
        list.len() <= CACHED_SEARCHES,
    ensures
        kept(keeping(list, entry), entry.query, entry.candidates) == Some(entry.result),
        keeping(list, entry).len() <= CACHED_SEARCHES,
{
    let room = if list.len() >= CACHED_SEARCHES {
        Seq::empty()
    } else {
        list
    };
    place_is_first(room, entry.query, entry.candidates, 0);
    place_is_first(keeping(list, entry), entry.query, entry.candidates, 0);
    let after = keeping(list, entry);
    match place_from(room, entry.query, entry.candidates, 0) {
        Some(i) => {
            assert(after[i] == entry);
            assert forall|j: int| 0 <= j < i implies !((#[trigger] after[j]).query == entry.query
                && after[j].candidates == entry.candidates) by {
                assert(after[j] == room[j]);
            }
        },
        None => {
            assert(after[room.len() as int] == entry);
            assert forall|j: int| 0 <= j < room.len() implies !((#[trigger] after[j]).query
                == entry.query && after[j].candidates == entry.candidates) by {
                assert(after[j] == room[j]);
            }
        },
    }
}

/// A query on one line.
pub open spec fn on_one_line(query: Seq<char>) -> Seq<char> {
    joined(line_list(query), " "@)
}

/// Computes [`on_one_line`].
pub fn flatten_query(query: &str) -> (r: String)
    ensures
        r@ == on_one_line(query@),
{
    join_strs(&lines(query), " ")
}

/// What an answer amounts to.
pub open spec fn outcome(response: ResponseView, suggestions: Seq<Seq<char>>) -> TypeResultView {
    if response.ok {
        TypeResultView {
            hits: response.hits,
            count: response.count,
            detail: response.detail,
            suggestions,
            error: None,
        }
    } else {
        TypeResultView {
            hits: Seq::empty(),
            count: 0,
            detail: Seq::empty(),
            suggestions,
            error: Some(response.detail),
        }
    }
}

fn outcome_of(response: TypeSearchResponse, suggestions: Vec<String>) -> (r: TypeSearchResult)
    ensures
        r@ == outcome(response@, strings(suggestions@)),
{
    if response.ok {
        TypeSearchResult {
            hits: response.hits,
            count: response.count,
            detail: response.detail,
            suggestions,
            error: None,
        }
    } else {
        let hits: Vec<TypeSearchHit> = Vec::new();
        assert(type_hits(hits@) =~= Seq::empty());
        TypeSearchResult {
            hits,
            count: 0,
            detail: String::new(),
            suggestions,
            error: Some(response.detail),
        }
    }
}

/// The side of the service that the searches see: the number of the last request, and
/// the answers that are kept.
#[derive(Debug)]
pub struct TypeSearchWorker {
    pub version: u64,
    pub cache: Vec<CachedSearch>,
}

/// The view of an outcome.
pub open spec fn result_view(r: Result<TypeSearchResult, Failure>) -> Result<
    TypeResultView,
    Seq<char>,
> {
    match r {
        Ok(v) => Ok(v@),
        Err(e) => Err(e@),
    }
}

/// The view of an optional outcome.
pub open spec fn opt_result(r: Option<TypeSearchResult>) -> Option<TypeResultView> {
    match r {
        Some(v) => Some(v@),
        None => None,
    }
}

impl TypeSearchWorker {
    /// No more answers are kept than there is room for.
    pub open spec fn valid(&self) -> bool {
        self.cache.len() <= CACHED_SEARCHES
    }

    /// A worker that has not been asked anything.
    pub fn new() -> (r: Self)
        ensures
            r.valid(),
            r.version == 0,
            cached_views(r.cache@) == Seq::<CachedView>::empty(),
    {
        let cache: Vec<CachedSearch> = Vec::new();
        assert(cached_views(cache@) =~= Seq::<CachedView>::empty());
        TypeSearchWorker { version: 0, cache }
    }

    fn place(&self, query: &str, candidates: &str) -> (r: Option<usize>)
        ensures
            match r {
                Some(i) => i < self.cache.len() && place_from(
                    cached_views(self.cache@),
                    query@,
                    candidates@,
                    0,
                ) == Some(i as int),
                None => place_from(cached_views(self.cache@), query@, candidates@, 0) is None,
            },
    {
        let ghost views = cached_views(self.cache@);
        assert(views.len() == self.cache.len());
        for i in 0..self.cache.len()
            invariant
                views == cached_views(self.cache@),
                views.len() == self.cache.len(),
                place_from(views, query@, candidates@, 0) == place_from(
                    views,
                    query@,
                    candidates@,
                    i as int,
                ),
        {
            assert(views[i as int] == self.cache@[i as int]@);
            if same(self.cache[i].query.as_str(), query) && same(
                self.cache[i].candidates.as_str(),
                candidates,
            ) {
                return Some(i);
            }
        }
        None
    }

    /// The answer that is kept for a query, put on one line, and its candidates.
    pub fn lookup(&self, query: &str, candidates: &str) -> (r: Option<TypeSearchResult>)
        ensures
            opt_result(r) == kept(cached_views(self.cache@), on_one_line(query@), candidates@),
    {
        let flat = flatten_query(query);
        match self.place(flat.as_str(), candidates) {
            Some(i) => {
                assert(cached_views(self.cache@)[i as int] == self.cache@[i as int]@);
                Some(self.cache[i].result.copy())
            },
            None => None,
        }
    }

    /// The number of the next request.
    pub fn next_version(&mut self) -> (r: u64)
        requires
            old(self).version < u64::MAX,
        ensures
            r == old(self).version + 1,
            final(self).version == r,
            final(self).cache == old(self).cache,
    {
        self.version = self.version + 1;
        self.version
    }

    /// Takes the answer to the last request and keeps it. An answer to another request
    /// is refused and not kept.
    pub fn accept(
        &mut self,
        query: &str,
        candidates: &str,
        suggestions: Vec<String>,
        response: TypeSearchResponse,
    ) -> (r: Result<TypeSearchResult, Failure>)
        requires
            old(self).valid(),
        ensures
            final(self).valid(),
            final(self).version == old(self).version,
            if response.version == old(self).version {
                &&& result_view(r) == Ok::<TypeResultView, Seq<char>>(
                    outcome(response@, strings(suggestions@)),
                )
                &&& cached_views(final(self).cache@) == keeping(
                    cached_views(old(self).cache@),
                    CachedView {
                        query: on_one_line(query@),
                        candidates: candidates@,
                        result: outcome(response@, strings(suggestions@)),
                    },
                )
            } else {
                &&& result_view(r) == Err::<TypeResultView, Seq<char>>(
                    "stale type search response"@,
                )
                &&& final(self).cache == old(self).cache
            },
    {
        if response.version != self.version {
            return refuse("stale type search response");
        }
        let ghost start = cached_views(self.cache@);
        assert(start.len() == self.cache.len());
        let result = outcome_of(response, suggestions);
        if self.cache.len() >= CACHED_SEARCHES {
            self.cache = Vec::new();
            assert(cached_views(self.cache@) =~= Seq::<CachedView>::empty());
        }
        let ghost room = cached_views(self.cache@);
        assert(room.len() == self.cache.len());
        let flat = flatten_query(query);
        let found = self.place(flat.as_str(), candidates);
        let entry = CachedSearch {
            query: flat,
            candidates: own(candidates),
            result: result.copy(),
        };
        let ghost view = entry@;
        let ghost before = self.cache@;
        match found {
            Some(i) => {
                self.cache.set(i, entry);
                assert(cached_views(self.cache@) =~= room.update(i as int, view));
            },
            None => {
                self.cache.push(entry);
                assert(cached_views(self.cache@) =~= room.push(view));
            },
        }
        Ok(result)
    }
}

/// How long each part of the start took.
pub open spec fn startup_parts(list: Seq<(Seq<char>, u64)>) -> Seq<Seq<char>> {
    list.map_values(|p: (Seq<char>, u64)| p.0 + "="@ + decimal(p.1 as nat) + "ms"@)
}

/// The contents of the parts of a start.
pub open spec fn part_views(list: Seq<(String, u64)>) -> Seq<(Seq<char>, u64)> {
    list.map_values(|p: (String, u64)| (p.0@, p.1))
}

/// What is told of a start.
pub open spec fn startup_text(list: Seq<(Seq<char>, u64)>) -> Seq<char> {
    let text = joined(startup_parts(list), " "@);
    if text.len() == 0 {
        "type search ready"@
    } else {
        text
    }
}

/// What is told of a start, or that it went wrong. `shown` is the answer as it came.
pub fn startup_detail(ok: bool, detail: Option<&str>, parts: &Vec<(String, u64)>, shown: &str) -> (r:
    Result<String, Failure>)
    ensures
        match r {
            Ok(text) => ok && opt_str(detail) == Some("ready"@) && text@ == startup_text(
                part_views(parts@),
            ),
            Err(e) => !(ok && opt_str(detail) == Some("ready"@)) && e@
                == "unexpected type search startup response: "@ + shown@,
        },
{
    let ready = match detail {
        Some(d) => same(d, "ready"),
        None => false,
    };
    if !ok || !ready {
        return refuse(
            crate::text::make::cat2("unexpected type search startup response: ", shown).as_str(),
        );
    }
    let ghost views = part_views(parts@);
    let ghost wanted = startup_parts(views);
    let mut list: Vec<String> = Vec::new();
    assert(strings(list@) =~= wanted.take(0));
    for i in 0..parts.len()
        invariant
            views == part_views(parts@),
            wanted == startup_parts(views),
            strings(list@) == wanted.take(i as int),
    {
        proof {
            prefix_step(wanted, i as int);
        }
        assert(views[i as int] == (parts@[i as int].0@, parts@[i as int].1));
        let mut text = cat3(parts[i].0.as_str(), "=", show(parts[i].1).as_str());
        crate::text::make::push_str(&mut text, "ms");
        list.push(text);
    }
    proof {
        prefix_all(wanted);
    }
    let text = join(&list, " ");
    if text.as_str().is_empty() {
        Ok(own("type search ready"))
    } else {
        Ok(text)
    }
}

} // verus!
