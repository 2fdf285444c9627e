//! What the tools that search, build and run tell, in terms of what they were replied.
use crate::error::ErrorView;
use crate::json::{
    int_at, int_member, lookup, pair_of, text_member, text_or_empty, triple_of, JsonView,
};
use crate::lists::lemma_filter_map_is;
use crate::models::{
    DiagnosticMessageView, LeanFinderResultView, LeanSearchResultView, LoogleResultView,
    PremiseResultView, RunResultView, StateSearchResultView,
};
use crate::protocol::{ends_well, followed, ReplyView, RequestView, WebReplyView};
use crate::text::{
    contains_of, decimal_of, find_of, join_of, lemma_first_from, lemma_lines_unbroken,
    lemma_split_join, lines_of, lowercase_of, number_of, occurs_at, split_of, trim_of,
};
use crate::tools::limited_code;
use crate::tools::answers::{counted_from_one, fault, hearing, unheard, Heard};
use crate::tools::lake_build::{
    build_dialogue, combined, error_line, error_lines, last_lines, logged, progress_in, progress_of,
    BuildSaid,
};
use crate::tools::lookups::before_or_zero;
use crate::tools::multi_attempt::severity_text;
use crate::tools::run_code::{
    context_above, message_behind, messages_behind, run_dialogue, run_of, CodeView, RunSaid,
};
use crate::tools::search::{
    dotted, finder_dialogue, finder_entries, finder_hit, finder_hits, hit_of, hits_of, in_words,
    leansearch_dialogue, loogle_dialogue, loogle_hit, loogle_hits, name_in_url, premise_dialogue,
    premise_hit, premise_hits, state_dialogue, state_hit, state_hits, FinderSaid, LeanSearchSaid,
    LoogleSaid, PremiseSaid, StateSaid,
};
use vstd::prelude::*;

verus! {

// ---------------------------------------------------------------------------
// Searching
// ---------------------------------------------------------------------------

/// What a service comes to that gave no answer.
pub open spec fn service_fault(service: Seq<char>, r: ReplyView) -> ErrorView {
    ErrorView::Other(
        match r {
            ReplyView::Web(WebReplyView::NoClient(words)) => "Failed to build HTTP client: "@
                + words,
            ReplyView::Web(WebReplyView::Refused(status)) => service + " returned status "@
                + status,
            ReplyView::Web(WebReplyView::NotJson(words)) => service + " JSON parse error: "@
                + words,
            ReplyView::Web(WebReplyView::NotSent(words)) => service + " HTTP error: "@ + words,
            ReplyView::Failed(words) => service + " HTTP error: "@ + words,
            _ => service + " HTTP error: "@,
        },
    )
}

/// The list that is the member `key` of a value; none where there is no such list.
pub open spec fn list_in(v: JsonView, key: Seq<char>) -> Seq<JsonView> {
    match v.member(key) {
        Some(JsonView::Array(items)) => items,
        _ => Seq::empty(),
    }
}

/// A value itself where it is a list.
pub open spec fn list_itself(v: JsonView) -> Seq<JsonView> {
    match v {
        JsonView::Array(items) => items,
        _ => Seq::empty(),
    }
}

/// Whether a value holds two members and no others.
pub open spec fn holds_two(
    v: JsonView,
    a: Seq<char>,
    x: JsonView,
    b: Seq<char>,
    y: JsonView,
) -> bool {
    &&& v matches JsonView::Object(members) && members.len() == 2
    &&& v.member(a) == Some(x)
    &&& v.member(b) == Some(y)
}

/// A pair holds both of its members.
proof fn lemma_holds_two(a: Seq<char>, x: JsonView, b: Seq<char>, y: JsonView)
    requires
        a != b,
    ensures
        holds_two(pair_of(a, x, b, y), a, x, b, y),
        holds_two(pair_of(a, x, b, y), b, y, a, x),
{
    reveal_with_fuel(lookup, 3);
    let members = seq![(a, x), (b, y)];
    assert(members.skip(1) =~= seq![(b, y)]);
}

/// A text that is the concatenation of others, in parts.
pub proof fn lemma_dotted_told(v: JsonView)
    ensures
        v matches JsonView::Str(s) ==> dotted(v) == s,
        v matches JsonView::Array(parts) ==> dotted(v) == join_of(
            parts.filter(|p: JsonView| p is Str).map_values(|p: JsonView| p->Str_0),
            "."@,
        ),
        !(v is Str) && !(v is Array) ==> dotted(v).len() == 0,
{
    if let JsonView::Array(parts) = v {
        lemma_filter_map_is(
            parts,
            |p: JsonView| p.text(),
            |p: JsonView| p is Str,
            |p: JsonView| p->Str_0,
        );
    }
}

/// Whether an entry of LeanSearch names a declaration and its module.
pub open spec fn names_declaration(entry: JsonView) -> bool {
    entry.member("result"@) matches Some(v) && v.member("name"@) is Some && v.member(
        "module_name"@,
    ) is Some
}

/// Whether a hit tells what an entry of LeanSearch says.
pub open spec fn hit_told(entry: JsonView, hit: LeanSearchResultView) -> bool {
    let v = entry.member("result"@)->0;
    &&& hit.name == dotted(v.member("name"@)->0)
    &&& hit.module_name == dotted(v.member("module_name"@)->0)
    &&& hit.kind == text_member(v, "kind"@)
    &&& hit.type_ is Some <==> v.member("type"@) is Some
    &&& v.member("type"@) matches Some(JsonView::Str(words)) ==> hit.type_ == Some(words)
    &&& v.member("type"@) matches Some(t) ==> hit.type_ == Some(in_words(t))
}

/// The hits of LeanSearch are those of the first query's entries that name a declaration
/// and its module, all of them in their order.
pub open spec fn search_hits_told(answer: JsonView, hits: Seq<LeanSearchResultView>) -> bool {
    let results = list_in(answer, "results"@);
    let entries = if results.len() == 0 {
        Seq::empty()
    } else {
        list_itself(results[0])
    };
    let named = entries.filter(|e: JsonView| names_declaration(e));
    &&& hits.len() == named.len()
    &&& forall|i: int| 0 <= i < hits.len() ==> hit_told(named[i], #[trigger] hits[i])
}

/// What passes a filter was let through by it.
pub proof fn lemma_passed<A>(s: Seq<A>, keep: spec_fn(A) -> bool)
    ensures
        forall|i: int| 0 <= i < s.filter(keep).len() ==> keep(#[trigger] s.filter(keep)[i]),
    decreases s.len(),
{
    reveal(Seq::filter);
    if s.len() > 0 {
        lemma_passed(s.drop_last(), keep);
    }
}

/// All hits of LeanSearch are told.
pub proof fn lemma_search_hits(answer: JsonView)
    ensures
        search_hits_told(answer, hits_of(answer)),
{
    let results = list_in(answer, "results"@);
    let entries = if results.len() == 0 {
        Seq::empty()
    } else {
        list_itself(results[0])
    };
    let keep = |e: JsonView| names_declaration(e);
    let named = entries.filter(keep);
    assert(crate::tools::search::entries_in(answer) == entries);
    lemma_passed(entries, keep);
    lemma_filter_map_is(entries, |e: JsonView| hit_of(e), keep, |e: JsonView| hit_of(e)->0);
    assert forall|i: int| 0 <= i < hits_of(answer).len() implies hit_told(
        named[i],
        #[trigger] hits_of(answer)[i],
    ) by {
        assert(keep(named[i]));
    }
}

/// How a search with LeanSearch is to end.
pub open spec fn leansearch_told(query: Seq<char>, num_results: nat, url: Seq<char>) -> spec_fn(
    Heard,
    LeanSearchSaid,
) -> bool {
    |h: Heard, o: LeanSearchSaid|
        {
            &&& h.len() == 1
            &&& h[0].0 matches RequestView::PostJson { url: at, body } && at == url + "/search"@
                && holds_two(
                body,
                "query"@,
                JsonView::Array(seq![JsonView::Str(query)]),
                "num_results"@,
                JsonView::Str(decimal_of(num_results)),
            )
            &&& match h[0].1 {
                ReplyView::Web(WebReplyView::Answer(v)) => o is Ok && search_hits_told(
                    v,
                    o->Ok_0.items,
                ),
                _ => o is Err && o->Err_0 == service_fault("LeanSearch"@, h[0].1),
            }
        }
}

/// A search with LeanSearch tells all hits that were answered.
pub proof fn lemma_leansearch_tells(query: Seq<char>, num_results: nat, url: Seq<char>)
    ensures
        ends_well(
            leansearch_dialogue(query, num_results, url),
            hearing(),
            unheard(),
            leansearch_told(query, num_results, url),
        ),
{
    reveal_with_fuel(ends_well, 3);
    assert forall|v: JsonView| search_hits_told(v, #[trigger] hits_of(v)) by {
        lemma_search_hits(v);
    }
    assert("num_results"@ != "query"@) by {
        reveal_strlit("num_results");
        reveal_strlit("query");
        assert("num_results"@.len() == 11 && "query"@.len() == 5);
    }
    lemma_holds_two(
        "num_results"@,
        JsonView::Str(decimal_of(num_results)),
        "query"@,
        JsonView::Array(seq![JsonView::Str(query)]),
    );
    lemma_words_end();
}

/// Nothing stands behind words to which nothing is added.
proof fn lemma_words_end()
    ensures
        forall|s: Seq<char>| #[trigger] (s + Seq::<char>::empty()) == s,
{
    assert forall|s: Seq<char>| #[trigger] (s + Seq::<char>::empty()) == s by {
        assert(s + Seq::<char>::empty() =~= s);
    }
}

/// The first of some entries, as many as are wanted.
pub open spec fn first_entries(s: Seq<JsonView>, n: nat) -> Seq<JsonView> {
    if n < s.len() {
        s.take(n as int)
    } else {
        s
    }
}

/// Whether hits tell those of some entries that name a declaration, its type and its
/// module, all of them in their order.
pub open spec fn loogle_hits_told(entries: Seq<JsonView>, hits: Seq<LoogleResultView>) -> bool {
    let named = entries.filter(
        |e: JsonView|
            text_member(e, "name"@) is Some && text_member(e, "type"@) is Some && text_member(
                e,
                "module"@,
            ) is Some,
    );
    &&& hits.len() == named.len()
    &&& forall|i: int|
        0 <= i < hits.len() ==> {
            let hit = #[trigger] hits[i];
            &&& Some(hit.name) == text_member(named[i], "name"@)
            &&& Some(hit.type_) == text_member(named[i], "type"@)
            &&& Some(hit.module) == text_member(named[i], "module"@)
        }
}

/// All hits of Loogle among the first entries are told.
pub proof fn lemma_loogle_hits(answer: JsonView, n: nat)
    ensures
        loogle_hits_told(first_entries(list_in(answer, "hits"@), n), loogle_hits(answer, n)),
{
    let entries = first_entries(list_in(answer, "hits"@), n);
    let keep = |e: JsonView|
        text_member(e, "name"@) is Some && text_member(e, "type"@) is Some && text_member(
            e,
            "module"@,
        ) is Some;
    let named = entries.filter(keep);
    lemma_passed(entries, keep);
    let f = |e: JsonView| loogle_hit(e);
    lemma_filter_map_is(entries, f, keep, |e: JsonView| loogle_hit(e)->0);
    let all = list_in(answer, "hits"@);
    assert(all.take(all.len() as int) =~= all);
    assert(loogle_hits(answer, n) =~= entries.filter_map(f));
    assert forall|i: int| 0 <= i < loogle_hits(answer, n).len() implies ({
        let hit = #[trigger] loogle_hits(answer, n)[i];
        &&& Some(hit.name) == text_member(named[i], "name"@)
        &&& Some(hit.type_) == text_member(named[i], "type"@)
        &&& Some(hit.module) == text_member(named[i], "module"@)
    }) by {
        assert(keep(named[i]));
    }
}

/// How a search with Loogle is to end.
pub open spec fn loogle_told(query: Seq<char>, num_results: nat, url: Seq<char>) -> spec_fn(
    Heard,
    LoogleSaid,
) -> bool {
    |h: Heard, o: LoogleSaid|
        {
            &&& h.len() == 1
            &&& h[0].0 == (RequestView::GetJson { url: url + "/json"@, pairs: seq![("q"@, query)] })
            &&& match h[0].1 {
                ReplyView::Web(WebReplyView::Answer(v)) => match v.member("error"@) {
                    Some(JsonView::Str(words)) => o is Err && o->Err_0 == ErrorView::Other(
                        "Loogle error: "@ + words,
                    ),
                    _ => o is Ok && loogle_hits_told(
                        first_entries(list_in(v, "hits"@), num_results),
                        o->Ok_0.items,
                    ),
                },
                _ => o is Err && o->Err_0 == service_fault("Loogle"@, h[0].1),
            }
        }
}

/// A search with Loogle tells the hits that were answered.
pub proof fn lemma_loogle_tells(query: Seq<char>, num_results: nat, url: Seq<char>)
    ensures
        ends_well(
            loogle_dialogue(query, num_results, url),
            hearing(),
            unheard(),
            loogle_told(query, num_results, url),
        ),
{
    reveal_with_fuel(ends_well, 3);
    assert forall|v: JsonView|
        loogle_hits_told(
            first_entries(list_in(v, "hits"@), num_results),
            #[trigger] loogle_hits(v, num_results),
        ) by {
        lemma_loogle_hits(v, num_results);
    }
    lemma_words_end();
}

/// Whether a URL of Mathlib's documentation asks for a name: the name stands between the
/// first `pattern=` and the first `#doc` behind it, and is not empty.
pub open spec fn asks_for(url: Seq<char>, name: Seq<char>) -> bool {
    exists|i: int, n: int|
        {
            &&& #[trigger] occurs_at(url, "pattern="@, i)
            &&& forall|j: int| 0 <= j < i ==> !#[trigger] occurs_at(url, "pattern="@, j)
            &&& #[trigger] occurs_at(url.skip(i + 8), "#doc"@, n)
            &&& forall|j: int| 0 <= j < n ==> !#[trigger] occurs_at(url.skip(i + 8), "#doc"@, j)
            &&& n > 0
            &&& name == url.subrange(i + 8, i + 8 + n)
        }
}

/// The name in a URL is the one that it asks for.
pub proof fn lemma_name_in_url(url: Seq<char>, name: Seq<char>)
    ensures
        name_in_url(url) == Some(name) <==> asks_for(url, name),
{
    reveal_strlit("pattern=");
    assert("pattern="@.len() == 8);
    lemma_first_from(url, "pattern="@, 0);
    if let Some(i) = find_of(url, "pattern="@) {
        let after = url.skip(i + 8);
        lemma_first_from(after, "#doc"@, 0);
        if let Some(n) = find_of(after, "#doc"@) {
            assert(occurs_at(url, "pattern="@, i));
            assert(occurs_at(after, "#doc"@, n));
            assert(after.take(n) =~= url.subrange(i + 8, i + 8 + n));
            if asks_for(url, name) {
                let (i2, n2) = choose|i2: int, n2: int|
                    {
                        &&& #[trigger] occurs_at(url, "pattern="@, i2)
                        &&& forall|j: int| 0 <= j < i2
                            ==> !#[trigger] occurs_at(url, "pattern="@, j)
                        &&& #[trigger] occurs_at(url.skip(i2 + 8), "#doc"@, n2)
                        &&& forall|j: int|
                            0 <= j < n2 ==> !#[trigger] occurs_at(url.skip(i2 + 8), "#doc"@, j)
                        &&& n2 > 0
                        &&& name == url.subrange(i2 + 8, i2 + 8 + n2)
                    };
                assert(i2 == i);
                assert(n2 == n);
            }
        }
    }
}

/// Whether hits tell those of some entries whose URL is one of Mathlib's documentation and
/// asks for a name, all of them in their order.
pub open spec fn finder_hits_told(entries: Seq<JsonView>, hits: Seq<LeanFinderResultView>) -> bool {
    let named = entries.filter(
        |e: JsonView|
            text_member(e, "url"@) matches Some(u) && contains_of(u, "mathlib4_docs"@)
                && name_in_url(u) is Some,
    );
    &&& hits.len() == named.len()
    &&& forall|i: int|
        0 <= i < hits.len() ==> {
            let hit = #[trigger] hits[i];
            &&& Some(hit.full_name) == name_in_url(text_member(named[i], "url"@)->0)
            &&& hit.formal_statement == text_or_empty(text_member(named[i], "formal_statement"@))
            &&& hit.informal_statement == text_or_empty(
                text_member(named[i], "informal_statement"@),
            )
        }
}

/// The entries of an answer of Lean Finder: its results, or the answer itself.
pub open spec fn entries_found(answer: JsonView) -> Seq<JsonView> {
    match answer.member("results"@) {
        Some(JsonView::Array(items)) => items,
        _ => list_itself(answer),
    }
}

/// All hits of Lean Finder are told.
pub proof fn lemma_finder_hits(answer: JsonView)
    ensures
        finder_hits_told(entries_found(answer), finder_hits(answer)),
{
    let entries = entries_found(answer);
    let keep = |e: JsonView|
        text_member(e, "url"@) matches Some(u) && contains_of(u, "mathlib4_docs"@) && name_in_url(u)
            is Some;
    let named = entries.filter(keep);
    lemma_passed(entries, keep);
    assert(finder_entries(answer) == entries);
    lemma_filter_map_is(entries, |e: JsonView| finder_hit(e), keep, |e: JsonView| finder_hit(e)->0);
    assert forall|i: int| 0 <= i < finder_hits(answer).len() implies ({
        let hit = #[trigger] finder_hits(answer)[i];
        &&& Some(hit.full_name) == name_in_url(text_member(named[i], "url"@)->0)
        &&& hit.formal_statement == text_or_empty(text_member(named[i], "formal_statement"@))
        &&& hit.informal_statement == text_or_empty(text_member(named[i], "informal_statement"@))
    }) by {
        assert(keep(named[i]));
    }
}

/// How a search with Lean Finder is to end.
pub open spec fn finder_told(query: Seq<char>, num_results: nat, url: Seq<char>) -> spec_fn(
    Heard,
    FinderSaid,
) -> bool {
    |h: Heard, o: FinderSaid|
        {
            &&& h.len() == 1
            &&& h[0].0 matches RequestView::PostJson { url: at, body } && at == url && holds_two(
                body,
                "inputs"@,
                JsonView::Str(query),
                "top_k"@,
                JsonView::PosInt(num_results as u64),
            )
            &&& match h[0].1 {
                ReplyView::Web(WebReplyView::Answer(v)) => o is Ok && finder_hits_told(
                    entries_found(v),
                    o->Ok_0.items,
                ),
                _ => o is Err && o->Err_0 == service_fault("LeanFinder"@, h[0].1),
            }
        }
}

/// A search with Lean Finder tells the hits that were answered.
pub proof fn lemma_finder_tells(query: Seq<char>, num_results: nat, url: Seq<char>)
    ensures
        ends_well(
            finder_dialogue(query, num_results, url),
            hearing(),
            unheard(),
            finder_told(query, num_results, url),
        ),
{
    reveal_with_fuel(ends_well, 3);
    assert forall|v: JsonView| finder_hits_told(entries_found(v), #[trigger] finder_hits(v)) by {
        lemma_finder_hits(v);
    }
    assert("inputs"@ != "top_k"@) by {
        reveal_strlit("inputs");
        reveal_strlit("top_k");
        assert("inputs"@.len() == 6 && "top_k"@.len() == 5);
    }
    lemma_holds_two(
        "inputs"@,
        JsonView::Str(query),
        "top_k"@,
        JsonView::PosInt(num_results as u64),
    );
    lemma_words_end();
}

/// Whether the first goal at a place (from 1) was looked for, and what came of it.
pub open spec fn goal_looked_for(h: Heard, path: Seq<char>, line: u32, column: u32) -> bool {
    &&& h.len() >= 1 && h[0].0 == (RequestView::OpenFile { path })
    &&& h[0].1 is Done ==> h.len() >= 2 && h[1].0 == (RequestView::Goal {
        path,
        line: before_or_zero(line),
        column: before_or_zero(column),
    })
}

/// The goal that is searched for, if any came: the first.
pub open spec fn goal_heard(h: Heard) -> Option<Seq<char>> {
    if h[0].1 is Done {
        match h[1].1 {
            ReplyView::Texts(goals) => if goals.len() > 0 {
                Some(goals[0])
            } else {
                None
            },
            _ => None,
        }
    } else {
        None
    }
}

/// What it comes to that no goal came.
pub open spec fn goal_fault(h: Heard, line: u32, column: u32) -> ErrorView {
    if h[0].1 is Done {
        if h[1].1 is Texts {
            ErrorView::NoGoals { line: line as nat, column: column as nat }
        } else {
            fault("get_goal"@, h[1].1)
        }
    } else {
        fault("open_file"@, h[0].1)
    }
}

/// Whether hits tell those of some entries that have a name, all of them in their order.
pub open spec fn state_hits_told(entries: Seq<JsonView>, hits: Seq<StateSearchResultView>) -> bool {
    let named = entries.filter(|e: JsonView| text_member(e, "name"@) is Some);
    &&& hits.len() == named.len()
    &&& forall|i: int|
        0 <= i < hits.len() ==> Some((#[trigger] hits[i]).name) == text_member(named[i], "name"@)
}

/// All hits of a search for a proof state are told.
pub proof fn lemma_state_hits(answer: JsonView)
    ensures
        state_hits_told(list_itself(answer), state_hits(answer)),
{
    let entries = list_itself(answer);
    let keep = |e: JsonView| text_member(e, "name"@) is Some;
    let named = entries.filter(keep);
    lemma_passed(entries, keep);
    lemma_filter_map_is(entries, |e: JsonView| state_hit(e), keep, |e: JsonView| state_hit(e)->0);
    reveal(Seq::filter);
    assert forall|i: int| 0 <= i < state_hits(answer).len() implies Some(
        (#[trigger] state_hits(answer)[i]).name,
    ) == text_member(named[i], "name"@) by {
        assert(keep(named[i]));
    }
}

/// How a search for a proof state is to end.
pub open spec fn state_told(
    path: Seq<char>,
    line: u32,
    column: u32,
    num_results: nat,
    url: Seq<char>,
) -> spec_fn(Heard, StateSaid) -> bool {
    |h: Heard, o: StateSaid|
        {
            &&& goal_looked_for(h, path, line, column)
            &&& match goal_heard(h) {
                Some(goal) => {
                    &&& h.len() == 3
                    &&& h[2].0 == (RequestView::GetJson {
                        url: url + "/api/search"@,
                        pairs: seq![
                            ("query"@, goal),
                            ("results"@, decimal_of(num_results)),
                            ("rev"@, "v4.22.0"@),
                        ],
                    })
                    &&& match h[2].1 {
                        ReplyView::Web(WebReplyView::Answer(v)) => o is Ok && state_hits_told(
                            list_itself(v),
                            o->Ok_0.items,
                        ),
                        _ => o is Err && o->Err_0 == service_fault("StateSearch"@, h[2].1),
                    }
                },
                None => o is Err && o->Err_0 == goal_fault(h, line, column),
            }
        }
}

/// A search for a proof state searches for the first goal and tells the hits.
pub proof fn lemma_state_tells(
    path: Seq<char>,
    line: u32,
    column: u32,
    num_results: nat,
    url: Seq<char>,
)
    ensures
        ends_well(
            state_dialogue(path, line, column, num_results, url),
            hearing(),
            unheard(),
            state_told(path, line, column, num_results, url),
        ),
{
    reveal_with_fuel(ends_well, 5);
    reveal_with_fuel(followed, 4);
    assert forall|v: JsonView| state_hits_told(list_itself(v), #[trigger] state_hits(v)) by {
        lemma_state_hits(v);
    }
    lemma_words_end();
}

/// Whether premises are the strings among some entries, all of them in their order.
pub open spec fn premises_told(entries: Seq<JsonView>, hits: Seq<PremiseResultView>) -> bool {
    let named = entries.filter(|e: JsonView| e is Str);
    &&& hits.len() == named.len()
    &&& forall|i: int|
        0 <= i < hits.len() ==> JsonView::Str((#[trigger] hits[i]).name) == named[i]
}

/// All premises are told.
pub proof fn lemma_premise_hits(answer: JsonView)
    ensures
        premises_told(list_itself(answer), premise_hits(answer)),
{
    let entries = list_itself(answer);
    let keep = |e: JsonView| e is Str;
    let named = entries.filter(keep);
    lemma_passed(entries, keep);
    lemma_filter_map_is(entries, |e: JsonView| premise_hit(e), keep, |e: JsonView|
        premise_hit(e)->0);
    reveal(Seq::filter);
    assert forall|i: int| 0 <= i < premise_hits(answer).len() implies JsonView::Str(
        (#[trigger] premise_hits(answer)[i]).name,
    ) == named[i] by {
        assert(keep(named[i]));
    }
}

/// Whether a request asks for so many premises for a goal, and none beside the known ones.
pub open spec fn asks_premises(body: JsonView, goal: Seq<char>, num_results: nat) -> bool {
    &&& body matches JsonView::Object(members) && members.len() == 3
    &&& body.member("state"@) == Some(JsonView::Str(goal))
    &&& body.member("k"@) == Some(JsonView::PosInt(num_results as u64))
    &&& body.member("new_premises"@) == Some(JsonView::Array(Seq::empty()))
}

/// How a search for premises is to end.
pub open spec fn premise_search_told(
    path: Seq<char>,
    line: u32,
    column: u32,
    num_results: nat,
    url: Seq<char>,
) -> spec_fn(Heard, PremiseSaid) -> bool {
    |h: Heard, o: PremiseSaid|
        {
            &&& goal_looked_for(h, path, line, column)
            &&& match goal_heard(h) {
                Some(goal) => {
                    &&& h.len() == 3
                    &&& h[2].0 matches RequestView::PostJson { url: at, body } && at == url
                        + "/retrieve"@ && asks_premises(body, goal, num_results)
                    &&& match h[2].1 {
                        ReplyView::Web(WebReplyView::Answer(v)) => o is Ok && premises_told(
                            list_itself(v),
                            o->Ok_0.items,
                        ),
                        _ => o is Err && o->Err_0 == service_fault("HammerPremise"@, h[2].1),
                    }
                },
                None => o is Err && o->Err_0 == goal_fault(h, line, column),
            }
        }
}

/// A search for premises searches for the first goal and tells the premises.
pub proof fn lemma_premise_tells(
    path: Seq<char>,
    line: u32,
    column: u32,
    num_results: nat,
    url: Seq<char>,
)
    ensures
        ends_well(
            premise_dialogue(path, line, column, num_results, url),
            hearing(),
            unheard(),
            premise_search_told(path, line, column, num_results, url),
        ),
{
    reveal_with_fuel(ends_well, 5);
    reveal_with_fuel(followed, 4);
    assert forall|v: JsonView| premises_told(list_itself(v), #[trigger] premise_hits(v)) by {
        lemma_premise_hits(v);
    }
    assert forall|goal: Seq<char>|
        asks_premises(
            #[trigger] triple_of(
                "k"@,
                JsonView::PosInt(num_results as u64),
                "new_premises"@,
                JsonView::Array(Seq::empty()),
                "state"@,
                JsonView::Str(goal),
            ),
            goal,
            num_results,
        ) by {
        let a = JsonView::PosInt(num_results as u64);
        let b = JsonView::Array(Seq::empty());
        let c = JsonView::Str(goal);
        reveal_strlit("k");
        reveal_strlit("new_premises");
        reveal_strlit("state");
        reveal_with_fuel(lookup, 4);
        let members = seq![("k"@, a), ("new_premises"@, b), ("state"@, c)];
        assert(members.skip(1) =~= seq![("new_premises"@, b), ("state"@, c)]);
        assert(members.skip(1).skip(1) =~= seq![("state"@, c)]);
        assert("k"@.len() == 1 && "new_premises"@.len() == 12 && "state"@.len() == 5);
    }
    lemma_words_end();
}

// ---------------------------------------------------------------------------
// Building
// ---------------------------------------------------------------------------

/// The words of a failure; none where the reply is of another kind.
pub open spec fn words_of(r: ReplyView) -> Seq<char> {
    match r {
        ReplyView::Failed(words) => words,
        _ => Seq::empty(),
    }
}

/// All that a program wrote: what it wrote on each of its two outputs, where it wrote
/// anything there, with a line break between.
pub proof fn lemma_combined_told(stdout: Seq<char>, stderr: Seq<char>)
    ensures
        combined(stdout, stderr) == join_of(
            seq![stdout, stderr].filter(|s: Seq<char>| s.len() > 0),
            "\n"@,
        ),
{
    reveal_with_fuel(join_of, 3);
    let keep = |s: Seq<char>| s.len() > 0;
    let both = seq![stdout, stderr];
    reveal(Seq::filter);
    reveal_with_fuel(Seq::filter, 4);
    assert(both.drop_last() =~= seq![stdout]);
    assert(both.drop_last().drop_last() =~= Seq::empty());
    if stdout.len() > 0 && stderr.len() > 0 {
        assert(both.filter(keep) =~= both);
    } else if stdout.len() > 0 {
        assert(both.filter(keep) =~= seq![stdout]);
    } else if stderr.len() > 0 {
        assert(both.filter(keep) =~= seq![stderr]);
    } else {
        assert(both.filter(keep) =~= Seq::empty());
        assert(combined(stdout, stderr) =~= Seq::empty());
    }
}

/// A log begins with what was in it and ends with what was added, with a line break
/// between where there was anything.
pub proof fn lemma_logged_told(log: Seq<char>, more: Seq<char>)
    ensures
        log.len() == 0 ==> logged(log, more) == more,
        log.len() > 0 ==> {
            &&& logged(log, more).len() == log.len() + 1 + more.len()
            &&& logged(log, more).take(log.len() as int) == log
            &&& logged(log, more)[log.len() as int] == '\n'
            &&& logged(log, more).skip((log.len() + 1) as int) == more
        },
{
    reveal_strlit("\n");
    if log.len() > 0 {
        assert(logged(log, more).take(log.len() as int) =~= log);
        assert(logged(log, more).skip((log.len() + 1) as int) =~= more);
    }
}

/// Of an output, the last lines are told, as many as are wanted, or all of it.
pub proof fn lemma_last_lines_told(output: Seq<char>, n: usize)
    ensures
        n == 0 ==> last_lines(output, n).len() == 0,
        0 < n && lines_of(output).len() <= n ==> last_lines(output, n) == output,
        0 < n < lines_of(output).len() ==> split_of(last_lines(output, n), '\n') == lines_of(
            output,
        ).skip(lines_of(output).len() - n),
{
    let ls = lines_of(output);
    if 0 < n < ls.len() {
        reveal_strlit("\n");
        assert("\n"@ =~= seq!['\n']);
        lemma_lines_unbroken(output);
        lemma_split_join(ls.skip(ls.len() - n), '\n');
    }
}

/// The lines that speak of an error, in any case, are told without the white space around
/// them, all of them in their order.
pub proof fn lemma_error_lines_told(output: Seq<char>)
    ensures
        error_lines(output) == lines_of(output).filter(
            |l: Seq<char>| contains_of(lowercase_of(l), "error"@),
        ).map_values(|l: Seq<char>| trim_of(l)),
{
    lemma_filter_map_is(
        lines_of(output),
        |l: Seq<char>| error_line(l),
        |l: Seq<char>| contains_of(lowercase_of(l), "error"@),
        |l: Seq<char>| trim_of(l),
    );
}

/// The matches that tell two numbers of 64 bits are told, all of them in their order.
pub proof fn lemma_progress_told(ms: Seq<Seq<Option<Seq<char>>>>)
    ensures
        progress_of(ms) == ms.filter(
            |m: Seq<Option<Seq<char>>>|
                m.len() > 2 && (m[1] matches Some(a) && number_of(a) is Some) && (m[2] matches Some(
                    b,
                ) && number_of(b) is Some),
        ).map_values(
            |m: Seq<Option<Seq<char>>>| (number_of(m[1]->0)->0, number_of(m[2]->0)->0),
        ),
{
    lemma_filter_map_is(
        ms,
        |m: Seq<Option<Seq<char>>>| progress_in(m),
        |m: Seq<Option<Seq<char>>>|
            m.len() > 2 && (m[1] matches Some(a) && number_of(a) is Some) && (m[2] matches Some(b)
                && number_of(b) is Some),
        |m: Seq<Option<Seq<char>>>| (number_of(m[1]->0)->0, number_of(m[2]->0)->0),
    );
}

/// The request that runs `lake`.
pub open spec fn lake(args: Seq<Seq<char>>) -> RequestView {
    RequestView::RunCommand { program: "lake"@, args }
}

/// What it comes to that `lake` could not be run.
pub open spec fn lake_fault(r: ReplyView) -> ErrorView {
    ErrorView::Other("Failed to run `lake`: "@ + words_of(r))
}

/// Whether a build is told that began with request number `k`, after `log` was written: the
/// cache is fetched and the project built, whatever came of the cache. Success is that of
/// the build, and errors are told only where it failed.
pub open spec fn built_told(h: Heard, k: int, log: Seq<char>, keep: usize, o: BuildSaid) -> bool {
    let log1 = logged(
        log,
        match h[k].1 {
            ReplyView::Command { stdout, stderr, .. } => combined(stdout, stderr),
            _ => "cache get warning: "@ + ("Failed to run `lake`: "@ + words_of(h[k].1)),
        },
    );
    &&& h.len() == k + 2
    &&& h[k].0 == lake(seq!["exe"@, "cache"@, "get"@])
    &&& h[k + 1].0 == lake(seq!["build"@, "--verbose"@])
    &&& match h[k + 1].1 {
        ReplyView::Command { success, stdout, stderr, .. } => {
            let log2 = logged(log1, combined(stdout, stderr));
            &&& o is Ok
            &&& o->Ok_0.success == success
            &&& o->Ok_0.output == last_lines(log2, keep)
            &&& success ==> o->Ok_0.errors.len() == 0
            &&& !success ==> o->Ok_0.errors == error_lines(log2)
        },
        _ => o is Err && o->Err_0 == lake_fault(h[k + 1].1),
    }
}

/// How `lean_build` is to end.
pub open spec fn build_told(clean: bool, keep: usize) -> spec_fn(Heard, BuildSaid) -> bool {
    |h: Heard, o: BuildSaid|
        if clean {
            &&& h.len() >= 1
            &&& h[0].0 == lake(seq!["clean"@])
            &&& match h[0].1 {
                ReplyView::Command { success, stdout, stderr, .. } => {
                    let log = combined(stdout, stderr);
                    if success {
                        built_told(h, 1, log, keep, o)
                    } else {
                        &&& h.len() == 1
                        &&& o is Ok
                        &&& !o->Ok_0.success
                        &&& o->Ok_0.output == last_lines(log, keep)
                        &&& o->Ok_0.errors == seq!["lake clean failed: "@ + log]
                    }
                },
                _ => h.len() == 1 && o is Err && o->Err_0 == lake_fault(h[0].1),
            }
        } else {
            built_told(h, 0, Seq::empty(), keep, o)
        }
}

/// `lean_build` runs `lake` and tells what came of it.
pub proof fn lemma_build_tells(clean: bool, keep: usize)
    ensures
        ends_well(build_dialogue(clean, keep), hearing(), unheard(), build_told(clean, keep)),
{
    reveal_with_fuel(ends_well, 5);
}

// ---------------------------------------------------------------------------
// Running code
// ---------------------------------------------------------------------------

/// Whether a diagnostic speaks of the code: it has a range, and does not start on one of
/// the `context` lines that stand before the code.
pub open spec fn speaks_of_code(d: JsonView, context: usize) -> bool {
    &&& d.member("fullRange"@) is Some || d.member("range"@) is Some
    &&& !(context > 0 && (int_at(ranged(d), "start"@, "line"@, 0) as usize) < context)
}

/// The full range of a diagnostic, or else its range.
pub open spec fn ranged(d: JsonView) -> JsonView {
    match d.member("fullRange"@) {
        Some(r) => r,
        None => d.member("range"@)->0,
    }
}

/// The number of a diagnostic's severity; one that bears none is an error.
pub open spec fn severity_in(d: JsonView) -> i32 {
    match int_member(d, "severity"@) {
        Some(n) => n as i32,
        None => 1,
    }
}

/// Whether the name of a severity belongs to its number.
pub open spec fn severity_named(number: i32, name: Seq<char>) -> bool {
    &&& name == "error"@ <==> number == 1
    &&& name == "warning"@ <==> number == 2
    &&& name == "info"@ <==> number == 3
    &&& name == "hint"@ <==> number == 4
}

/// Each severity has a name of its own.
pub proof fn lemma_severity_named(number: i32)
    ensures
        severity_named(number, severity_text(number)),
{
    reveal_strlit("error");
    reveal_strlit("warning");
    reveal_strlit("info");
    reveal_strlit("hint");
    reveal_strlit("unknown");
    assert("error"@.len() == 5 && "warning"@.len() == 7 && "info"@.len() == 4);
    assert("hint"@.len() == 4 && "unknown"@.len() == 7);
    assert("info"@[0] == 'i' && "hint"@[0] == 'h');
    assert("warning"@[0] == 'w' && "unknown"@[0] == 'u');
}

/// Whether a message tells what a diagnostic says of the code.
pub open spec fn code_message_told(d: JsonView, context: usize, m: DiagnosticMessageView) -> bool {
    let line = int_at(ranged(d), "start"@, "line"@, 0);
    let column = int_at(ranged(d), "start"@, "character"@, 0);
    &&& m.message == text_or_empty(text_member(d, "message"@))
    &&& severity_named(severity_in(d), m.severity)
    &&& counted_from_one(m.column, column)
    &&& context <= i64::MAX && context <= line < i64::MAX ==> m.line == line - context + 1
}

/// Whether a run is told: all diagnostics that speak of the code, in their order, and
/// success where none of them is an error.
pub open spec fn run_result_told(raw: JsonView, context: usize, v: RunResultView) -> bool {
    let kept = list_in(raw, "diagnostics"@).filter(|d: JsonView| speaks_of_code(d, context));
    &&& v.diagnostics.len() == kept.len()
    &&& forall|i: int|
        0 <= i < kept.len() ==> code_message_told(kept[i], context, #[trigger] v.diagnostics[i])
    &&& v.success <==> forall|i: int| 0 <= i < kept.len() ==> severity_in(#[trigger] kept[i]) != 1
}

/// All that was said of the code is told.
pub proof fn lemma_run_told(raw: JsonView, context: usize)
    ensures
        run_result_told(raw, context, run_of(raw, context)),
{
    let ds = list_in(raw, "diagnostics"@);
    let keep = |d: JsonView| speaks_of_code(d, context);
    let kept = ds.filter(keep);
    let f = |d: JsonView| message_behind(d, context);
    lemma_passed(ds, keep);
    lemma_filter_map_is(ds, f, keep, |d: JsonView| message_behind(d, context)->0);
    let v = run_of(raw, context);
    assert(v.diagnostics == messages_behind(ds, context));
    assert forall|i: int| 0 <= i < kept.len() implies code_message_told(
        kept[i],
        context,
        #[trigger] v.diagnostics[i],
    ) by {
        assert(keep(kept[i]));
        lemma_severity_named(severity_in(kept[i]));
    }
    if v.success {
        assert forall|i: int| 0 <= i < kept.len() implies severity_in(#[trigger] kept[i]) != 1 by {
            assert(code_message_told(kept[i], context, v.diagnostics[i]));
            assert(v.diagnostics[i].severity != "error"@);
        }
    } else {
        let i = choose|i: int|
            0 <= i < v.diagnostics.len() && (#[trigger] v.diagnostics[i]).severity == "error"@;
        assert(code_message_told(kept[i], context, v.diagnostics[i]));
        assert(severity_in(kept[i]) == 1);
    }
}

/// Whether some code was written with request number `k`, looked at and told; the file is
/// closed and removed at the end, whatever came of the code.
pub open spec fn code_run_told(
    h: Heard,
    k: int,
    path: Seq<char>,
    content: Seq<char>,
    context: usize,
    o: RunSaid,
) -> bool {
    &&& h.len() >= k + 1
    &&& h[k].0 == (RequestView::WriteFile { path, content })
    &&& if h[k].1 is Done {
        &&& h.len() >= k + 4
        &&& h[h.len() - 2].0 == (RequestView::CloseFile { path })
        &&& h.last().0 == (RequestView::RemoveFile { path })
        &&& h[k + 1].0 == (RequestView::OpenFile { path })
        &&& if h[k + 1].1 is Done {
            &&& h.len() == k + 5
            &&& h[k + 2].0 == (RequestView::Diagnostics {
                path,
                start_line: None,
                end_line: None,
                bounded: true,
            })
            &&& match h[k + 2].1 {
                ReplyView::Value(raw) => o is Ok && run_result_told(raw, context, o->Ok_0),
                _ => o is Err && o->Err_0 == fault("get_diagnostics"@, h[k + 2].1),
            }
        } else {
            h.len() == k + 4 && o is Err && o->Err_0 == fault("open_file"@, h[k + 1].1)
        }
    } else {
        h.len() == k + 1 && o is Err && o->Err_0 == ErrorView::Other(
            "Error writing code snippet: "@ + words_of(h[k].1),
        )
    }
}

/// How `lean_run_code` is to end.
pub open spec fn run_code_told(path: Seq<char>, c: CodeView) -> spec_fn(Heard, RunSaid) -> bool {
    |h: Heard, o: RunSaid|
        {
            &&& h.len() >= 1
            &&& h[0].0 == (RequestView::MakeDirectory { path: ".lake/_mcp"@ })
            &&& if h[0].1 is Done {
                match c.context_path {
                    None => code_run_told(
                        h,
                        1,
                        path,
                        limited_code(c.code, c.heartbeats),
                        0,
                        o,
                    ),
                    Some(p) => {
                        &&& h.len() >= 2
                        &&& h[1].0 == (RequestView::ReadFile { path: p })
                        &&& match h[1].1 {
                            ReplyView::Text(context) => code_run_told(
                                h,
                                2,
                                path,
                                context_above(context) + c.code,
                                lines_of(context).len() as usize,
                                o,
                            ),
                            _ => {
                                &&& h.len() == 3
                                &&& h[2].0 == (RequestView::FullPath { path: p })
                                &&& o is Err
                                &&& o->Err_0 == ErrorView::Other(
                                    "Error reading file_context '"@ + match h[2].1 {
                                        ReplyView::Text(full) => full,
                                        _ => p,
                                    } + "': "@ + words_of(h[1].1),
                                )
                            },
                        }
                    },
                }
            } else {
                h.len() == 1 && o is Err && o->Err_0 == ErrorView::Other(
                    "Error creating .lake/_mcp dir: "@ + words_of(h[0].1),
                )
            }
        }
}

/// `lean_run_code` runs the code and tells what was said of it.
pub proof fn lemma_run_code_tells(path: Seq<char>, c: CodeView)
    ensures
        ends_well(run_dialogue(path, c), hearing(), unheard(), run_code_told(path, c)),
{
    assert forall|raw: JsonView, n: usize| run_result_told(raw, n, #[trigger] run_of(raw, n)) by {
        lemma_run_told(raw, n);
    }
    reveal_with_fuel(ends_well, 9);
}

/// A file's content as it stands before code is the content itself, with a line break at
/// its end where it has none and is not empty.
pub proof fn lemma_context_told(context: Seq<char>)
    ensures
        context.len() == 0 || context.last() == '\n' ==> context_above(context) == context,
        context.len() > 0 && context.last() != '\n' ==> {
            &&& context_above(context).len() == context.len() + 1
            &&& context_above(context).take(context.len() as int) == context
            &&& context_above(context).last() == '\n'
        },
{
    if context.len() > 0 && context.last() != '\n' {
        assert(context_above(context).take(context.len() as int) =~= context);
    }
}

/// Before code stands the limit on elaboration, on a line of its own: the one that is
/// wanted, or 400000. None is put before code that speaks of the limit itself, or where the
/// limit is 0.
pub proof fn lemma_limit_told(code: Seq<char>, setting: Option<Seq<char>>)
    ensures
        ({
            let limit = match setting {
                Some(s) => s,
                None => "400000"@,
            };
            let r = limited_code(code, setting);
            if limit == "0"@ || contains_of(code, "maxHeartbeats"@) {
                r == code
            } else {
                let line = "set_option maxHeartbeats "@ + limit;
                &&& r.take(line.len() as int) == line
                &&& code.len() == 0 ==> r == line
                &&& code.len() > 0 ==> r.len() == line.len() + 1 + code.len()
                    && r[line.len() as int] == '\n' && r.skip((line.len() + 1) as int) == code
            }
        }),
{
    reveal_strlit("\n");
    let limit = match setting {
        Some(s) => s,
        None => "400000"@,
    };
    let r = limited_code(code, setting);
    let line = "set_option maxHeartbeats "@ + limit;
    if !(limit == "0"@ || contains_of(code, "maxHeartbeats"@)) {
        assert(r.take(line.len() as int) =~= line);
        if code.len() > 0 {
            assert(r.skip((line.len() + 1) as int) =~= code);
        }
    }
}

} // verus!
