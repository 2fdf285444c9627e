//! The search services: LeanSearch, Loogle, Lean Finder, and the searches for
//! a proof state.
use crate::error::{result_view, ErrorView, LeanToolError};
use crate::json::{
    contents, items_member, json_members, json_of, json_text, lemma_object_view, lookup,
    member_contents, pair, pair_of, text_member, text_or_empty, triple, triple_of, value_content,
    value_parts, value_text, views, Json, JsonView, ValueParts,
};
use crate::lists::{lemma_filter_map_next, lemma_take_all, lemma_views_push};
use crate::models::{
    all_views, opt_text, LeanFinderResult, LeanFinderResultView, LeanFinderResults,
    LeanFinderResultsView, LeanSearchResult, LeanSearchResultView, LeanSearchResults,
    LeanSearchResultsView, LoogleResult, LoogleResultView, LoogleResults, LoogleResultsView,
    PremiseResult, PremiseResultView, PremiseResults, PremiseResultsView, StateSearchResult,
    StateSearchResultView, StateSearchResults, StateSearchResultsView,
};
use crate::position::{before_of, number_before};
use crate::protocol::{
    begins, followed, lemma_followed, lsp_error, lsp_failure, pair_texts, waiting_first, Call,
    Dialogue, Reply, ReplyView, Request, RequestView, Turn, Waiting, Waits, WebReply, WebReplyView,
};
use crate::text::{
    chars_of, contains_of, decimal, decimal_of, find, find_of, glue, glue3, join, join_of,
    same_text, str_contains, text_of, texts,
};
use vstd::prelude::*;
use vstd::slice::slice_subrange;
use vstd::string::*;

verus! {

// ---------------------------------------------------------------------------
// Settings
// ---------------------------------------------------------------------------

/// Where the search services are, without a slash at the end.
#[derive(Debug, PartialEq, Eq)]
pub struct SearchConfig {
    pub leansearch_url: String,
    pub loogle_url: String,
    pub leanfinder_url: String,
    pub state_search_url: String,
    pub hammer_premise_url: String,
}

/// What a [`SearchConfig`] says.
pub struct SearchConfigView {
    pub leansearch_url: Seq<char>,
    pub loogle_url: Seq<char>,
    pub leanfinder_url: Seq<char>,
    pub state_search_url: Seq<char>,
    pub hammer_premise_url: Seq<char>,
}

impl View for SearchConfig {
    type V = SearchConfigView;

    open spec fn view(&self) -> SearchConfigView {
        SearchConfigView {
            leansearch_url: self.leansearch_url@,
            loogle_url: self.loogle_url@,
            leanfinder_url: self.leanfinder_url@,
            state_search_url: self.state_search_url@,
            hammer_premise_url: self.hammer_premise_url@,
        }
    }
}

/// A setting, or what stands in for it.
pub open spec fn setting_or(setting: Option<Seq<char>>, default: Seq<char>) -> Seq<char> {
    match setting {
        Some(s) => s,
        None => default,
    }
}

/// A setting, or what stands in for it.
fn or_default(setting: Option<String>, default: &str) -> (r: String)
    ensures
        r@ == setting_or(opt_text(setting), default@),
{
    match setting {
        Some(s) => s,
        None => default.to_owned(),
    }
}

impl SearchConfig {
    /// Where the search services are: where the user's settings say, or else
    /// where they are known to be.
    pub fn with_settings(
        leansearch: Option<String>,
        loogle: Option<String>,
        leanfinder: Option<String>,
        state_search: Option<String>,
        hammer_premise: Option<String>,
    ) -> (r: SearchConfig)
        ensures
            r@ == (SearchConfigView {
                leansearch_url: setting_or(opt_text(leansearch), "https://leansearch.net"@),
                loogle_url: setting_or(opt_text(loogle), "https://loogle.lean-lang.org"@),
                leanfinder_url: setting_or(
                    opt_text(leanfinder),
                    "https://bxrituxuhpc70w8w.us-east-1.aws.endpoints.huggingface.cloud"@,
                ),
                state_search_url: setting_or(
                    opt_text(state_search),
                    "https://premise-search.com"@,
                ),
                hammer_premise_url: setting_or(
                    opt_text(hammer_premise),
                    "http://leanpremise.net"@,
                ),
            }),
    {
        SearchConfig {
            leansearch_url: or_default(leansearch, "https://leansearch.net"),
            loogle_url: or_default(loogle, "https://loogle.lean-lang.org"),
            leanfinder_url: or_default(
                leanfinder,
                "https://bxrituxuhpc70w8w.us-east-1.aws.endpoints.huggingface.cloud",
            ),
            state_search_url: or_default(state_search, "https://premise-search.com"),
            hammer_premise_url: or_default(hammer_premise, "http://leanpremise.net"),
        }
    }
}

// ---------------------------------------------------------------------------
// Answers
// ---------------------------------------------------------------------------

/// The answer of a service, or what went wrong.
pub open spec fn answer_of(service: Seq<char>, r: ReplyView) -> Result<JsonView, ErrorView> {
    match r {
        ReplyView::Web(WebReplyView::Answer(v)) => Ok(v),
        ReplyView::Web(WebReplyView::NoClient(e)) => Err(
            ErrorView::Other("Failed to build HTTP client: "@ + e),
        ),
        ReplyView::Web(WebReplyView::Refused(status)) => Err(
            ErrorView::Other(service + " returned status "@ + status),
        ),
        ReplyView::Web(WebReplyView::NotJson(e)) => Err(
            ErrorView::Other(service + " JSON parse error: "@ + e),
        ),
        ReplyView::Web(WebReplyView::NotSent(e)) => Err(
            ErrorView::Other(service + " HTTP error: "@ + e),
        ),
        _ => Err(ErrorView::Other(service + " HTTP error: "@ + r.trouble())),
    }
}

/// What the answer of a service holds, or what went wrong.
pub open spec fn answer_content(r: Result<serde_json::Value, LeanToolError>) -> Result<
    JsonView,
    ErrorView,
> {
    match r {
        Ok(v) => Ok(value_content(v)),
        Err(e) => Err(e@),
    }
}

/// The answer of a service, or what went wrong.
pub fn take_answer(service: &str, reply: Reply) -> (r: Result<serde_json::Value, LeanToolError>)
    ensures
        answer_content(r) == answer_of(service@, reply@),
{
    let words = match reply {
        Reply::Web(WebReply::Answer(v)) => return Ok(v),
        Reply::Web(WebReply::NoClient(e)) => glue("Failed to build HTTP client: ", e.as_str()),
        Reply::Web(WebReply::Refused(status)) => glue3(
            service,
            " returned status ",
            status.as_str(),
        ),
        Reply::Web(WebReply::NotJson(e)) => glue3(service, " JSON parse error: ", e.as_str()),
        Reply::Web(WebReply::NotSent(e)) => glue3(service, " HTTP error: ", e.as_str()),
        other => glue3(service, " HTTP error: ", other.message().as_str()),
    };
    Err(LeanToolError::Other(words))
}

/// The answer of a service as the library's value, or what went wrong.
pub fn read_answer(service: &str, reply: Reply) -> (r: Result<Json, LeanToolError>)
    ensures
        result_view(r) == answer_of(service@, reply@),
{
    match take_answer(service, reply) {
        Ok(v) => Ok(json_of(v)),
        Err(e) => Err(e),
    }
}

// ---------------------------------------------------------------------------
// LeanSearch
// ---------------------------------------------------------------------------

/// The strings among some values.
pub open spec fn strings_in(items: Seq<JsonView>) -> Seq<Seq<char>> {
    items.filter_map(|v: JsonView| v.text())
}

/// A name that is given as a string or as its parts.
pub open spec fn dotted(v: JsonView) -> Seq<char> {
    match v {
        JsonView::Str(s) => s,
        JsonView::Array(items) => join_of(strings_in(items), "."@),
        _ => Seq::empty(),
    }
}

/// A name that is given as a string or as its parts.
pub fn join_dot_segments(v: &Json) -> (r: String)
    ensures
        r@ == dotted(v@),
{
    if let Some(s) = v.as_str() {
        return s.to_owned();
    }
    match v.as_array() {
        Some(items) => {
            let ghost all = views(items@);
            let ghost f = |v: JsonView| v.text();
            let mut parts: Vec<String> = Vec::new();
            proof {
                assert(texts(parts@) =~= all.take(0).filter_map(f));
            }
            for i in 0..items.len()
                invariant
                    all == views(items@),
                    f == (|v: JsonView| v.text()),
                    texts(parts@) == all.take(i as int).filter_map(f),
            {
                proof {
                    lemma_filter_map_next(all, f, i as int);
                    assert(all[i as int] == items@[i as int]@);
                }
                if let Some(s) = items[i].as_str() {
                    let ghost before = parts@;
                    parts.push(s.to_owned());
                    proof {
                        assert(texts(parts@) =~= texts(before).push(s@));
                    }
                }
            }
            proof {
                lemma_take_all(all);
            }
            join(&parts, ".")
        },
        None => String::new(),
    }
}

/// A value in words: a string as it is, any other value as `text`.
pub open spec fn worded(v: JsonView, text: Seq<char>) -> Seq<char> {
    match v {
        JsonView::Str(s) => s,
        _ => text,
    }
}

/// A value in words: a string as it is, any other value as its JSON text.
pub open spec fn in_words(v: JsonView) -> Seq<char> {
    worded(v, json_text(v))
}

/// A value in words, where `text` is its JSON text.
pub fn word_value(v: &Json, text: String) -> (r: String)
    ensures
        r@ == worded(v@, text@),
{
    match v {
        Json::Str(s) => s.clone(),
        _ => text,
    }
}

/// A value in words: a string as it is, any other value as its JSON text.
pub fn value_as_string(v: serde_json::Value) -> (r: String)
    ensures
        r@ == in_words(value_content(v)),
{
    let text = value_text(&v);
    word_value(&json_of(v), text)
}

/// The hit that an entry of an answer stands for; none where it has no name or
/// no module.
pub open spec fn hit_of(entry: JsonView) -> Option<LeanSearchResultView> {
    match entry.member("result"@) {
        Some(v) => match (v.member("name"@), v.member("module_name"@)) {
            (Some(name), Some(module)) => Some(
                LeanSearchResultView {
                    name: dotted(name),
                    module_name: dotted(module),
                    kind: text_member(v, "kind"@),
                    type_: match v.member("type"@) {
                        Some(t) => Some(in_words(t)),
                        None => None,
                    },
                },
            ),
            _ => None,
        },
        None => None,
    }
}

/// The entries of an answer to one query.
pub open spec fn entries_in(answer: JsonView) -> Seq<JsonView> {
    match items_member(answer, "results"@) {
        Some(results) => if results.len() > 0 {
            match results[0].items() {
                Some(entries) => entries,
                None => Seq::empty(),
            }
        } else {
            Seq::empty()
        },
        None => Seq::empty(),
    }
}

/// The hits of an answer to one query.
pub open spec fn hits_of(answer: JsonView) -> Seq<LeanSearchResultView> {
    entries_in(answer).filter_map(|e: JsonView| hit_of(e))
}

/// The members of an object; none for any other value.
fn members_within(v: serde_json::Value) -> (r: Vec<(String, serde_json::Value)>)
    ensures
        value_content(v) matches JsonView::Object(members) ==> member_contents(r@) == members,
        !(value_content(v) is Object) ==> r@.len() == 0,
{
    match value_parts(v) {
        ValueParts::Object(members) => members,
        _ => Vec::new(),
    }
}

/// The items of an array; none for any other value.
fn items_within(v: serde_json::Value) -> (r: Vec<serde_json::Value>)
    ensures
        value_content(v) matches JsonView::Array(items) ==> contents(r@) == items,
        !(value_content(v) is Array) ==> r@.len() == 0,
{
    match value_parts(v) {
        ValueParts::Array(items) => items,
        _ => Vec::new(),
    }
}

/// Takes the member `key` out of a value.
fn take_member(v: serde_json::Value, key: &str) -> (r: Option<serde_json::Value>)
    ensures
        match r {
            Some(m) => value_content(v).member(key@) == Some(value_content(m)),
            None => value_content(v).member(key@) is None,
        },
{
    let ghost content = value_content(v);
    let members = members_within(v);
    let ghost all = member_contents(members@);
    proof {
        assert(all.skip(0) == all);
    }
    for member in it: members
        invariant
            all == member_contents(it.seq()),
            content == value_content(v),
            content.member(key@) == lookup(all.skip(it.index() as int), key@),
    {
        proof {
            assert(all[it.index() as int] == (member.0@, value_content(member.1)));
            assert(all.skip(it.index() as int)[0] == all[it.index() as int]);
            assert(all.skip(it.index() as int).skip(1) == all.skip(it.index() + 1));
        }
        if same_text(member.0.as_str(), key) {
            return Some(member.1);
        }
    }
    None
}

/// The JSON text of the member `key`.
fn member_text(members: &[(String, serde_json::Value)], key: &str) -> (r: Option<String>)
    ensures
        match r {
            Some(
                t) => lookup(member_contents(members@),
                key@) matches Some(m) && t@ == json_text(m,
            ),
            None => lookup(member_contents(members@), key@) is None,
        },
{
    let ghost all = member_contents(members@);
    proof {
        assert(all.skip(0) == all);
    }
    for i in 0..members.len()
        invariant
            all == member_contents(members@),
            lookup(all, key@) == lookup(all.skip(i as int), key@),
    {
        proof {
            assert(all.skip(i as int)[0] == all[i as int]);
            assert(all.skip(i as int).skip(1) == all.skip(i + 1));
        }
        if same_text(members[i].0.as_str(), key) {
            return Some(value_text(&members[i].1));
        }
    }
    None
}

/// The hit that an entry of an answer stands for.
fn read_hit(entry: serde_json::Value) -> (r: Option<LeanSearchResult>)
    ensures
        match r {
            Some(h) => hit_of(value_content(entry)) == Some(h@),
            None => hit_of(value_content(entry)) is None,
        },
{
    let members = match take_member(entry, "result") {
        Some(v) => members_within(v),
        None => return None,
    };
    let type_text = member_text(&members, "type");
    let members = json_members(members);
    proof {
        lemma_object_view(members);
    }
    let v = Json::Object(members);
    let name = match v.get("name") {
        Some(n) => n,
        None => return None,
    };
    let module = match v.get("module_name") {
        Some(m) => m,
        None => return None,
    };
    let kind = match v.text_member("kind") {
        Some(k) => Some(k.to_owned()),
        None => None,
    };
    let type_ = match (v.get("type"), type_text) {
        (Some(t), Some(text)) => Some(word_value(t, text)),
        _ => None,
    };
    Some(
        LeanSearchResult {
            name: join_dot_segments(name),
            module_name: join_dot_segments(module),
            kind,
            type_,
        },
    )
}

/// The entries of an answer to one query.
fn take_entries(answer: serde_json::Value) -> (r: Vec<serde_json::Value>)
    ensures
        contents(r@) == entries_in(value_content(answer)),
{
    let mut results = match take_member(answer, "results") {
        Some(v) => items_within(v),
        None => Vec::new(),
    };
    let ghost all = contents(results@);
    let entries = if results.len() == 0 {
        Vec::new()
    } else {
        proof {
            assert(all[0] == value_content(results@[0]));
        }
        items_within(results.remove(0))
    };
    proof {
        if entries@.len() == 0 {
            assert(contents(entries@) =~= Seq::empty());
        }
    }
    entries
}

/// The hits of an answer to one query.
pub fn parse_leansearch_results(answer: serde_json::Value) -> (r: Vec<LeanSearchResult>)
    ensures
        all_views(r@) == hits_of(value_content(answer)),
{
    let entries = take_entries(answer);
    let ghost all = contents(entries@);
    let ghost f = |e: JsonView| hit_of(e);
    let mut out: Vec<LeanSearchResult> = Vec::new();
    proof {
        assert(all_views(out@) =~= all.take(0).filter_map(f));
    }
    for entry in it: entries
        invariant
            all == contents(it.seq()),
            f == (|e: JsonView| hit_of(e)),
            all_views(out@) == all.take(it.index() as int).filter_map(f),
    {
        proof {
            lemma_filter_map_next(all, f, it.index() as int);
            assert(all[it.index() as int] == value_content(entry));
        }
        if let Some(h) = read_hit(entry) {
            let ghost before = out@;
            out.push(h);
            proof {
                lemma_views_push(before, h);
            }
        }
    }
    proof {
        lemma_take_all(all);
    }
    out
}

/// What LeanSearch comes to.
pub type LeanSearchSaid = Result<LeanSearchResultsView, ErrorView>;

/// After the service answered.
pub open spec fn leansearch_answered() -> Waiting<LeanSearchSaid> {
    |r: ReplyView|
        Dialogue::Finish(
            match answer_of("LeanSearch"@, r) {
                Ok(v) => Ok(LeanSearchResultsView { items: hits_of(v) }),
                Err(e) => Err(e),
            },
        )
}

/// The whole of a search with LeanSearch.
pub open spec fn leansearch_dialogue(
    query: Seq<char>,
    num_results: nat,
    url: Seq<char>,
) -> Dialogue<LeanSearchSaid> {
    Dialogue::Ask(
        RequestView::PostJson {
            url: url + "/search"@,
            body: pair_of(
                "num_results"@,
                JsonView::Str(decimal_of(num_results)),
                "query"@,
                JsonView::Array(seq![JsonView::Str(query)]),
            ),
        },
        leansearch_answered(),
    )
}

/// A search with LeanSearch at work.
pub enum LeanSearchCall {
    /// Waits for the service.
    Asking,
}

impl Waits for LeanSearchCall {
    type Out = Result<LeanSearchResults, LeanToolError>;

    type Said = LeanSearchSaid;

    open spec fn said(o: Self::Out) -> LeanSearchSaid {
        result_view(o)
    }

    open spec fn valid(self) -> bool {
        true
    }

    open spec fn waiting(self) -> Waiting<LeanSearchSaid> {
        leansearch_answered()
    }

    open spec fn admits(self, r: ReplyView) -> bool {
        true
    }
}

impl Call for LeanSearchCall {
    fn accepts(&self, reply: &Reply) -> (r: bool) {
        true
    }

    fn resume(self, reply: Reply) -> (t: Turn<Self, Self::Out>) {
        match take_answer("LeanSearch", reply) {
            Ok(v) => Turn::Done(Ok(LeanSearchResults { items: parse_leansearch_results(v) })),
            Err(e) => Turn::Done(Err(e)),
        }
    }
}

/// Searches Mathlib with LeanSearch, in natural language.
pub fn handle_leansearch(query: &str, num_results: usize, config: &SearchConfig) -> (t: Turn<
    LeanSearchCall,
    Result<LeanSearchResults, LeanToolError>,
>)
    ensures
        begins(t, leansearch_dialogue(query@, num_results as nat, config@.leansearch_url)),
{
    let mut queries: Vec<Json> = Vec::new();
    queries.push(Json::Str(query.to_owned()));
    proof {
        crate::json::lemma_array_view(queries);
        assert(views(queries@) =~= seq![JsonView::Str(query@)]);
    }
    let body = pair(
        "num_results",
        Json::Str(decimal(num_results as u64)),
        "query",
        Json::Array(queries),
    );
    let url = glue(config.leansearch_url.as_str(), "/search");
    Turn::Ask(Request::PostJson { url, body }, LeanSearchCall::Asking)
}

// ---------------------------------------------------------------------------
// Loogle
// ---------------------------------------------------------------------------

/// The hit that an entry of an answer stands for; none where its name, its type
/// or its module is missing.
pub open spec fn loogle_hit(hit: JsonView) -> Option<LoogleResultView> {
    match (text_member(hit, "name"@), text_member(hit, "type"@), text_member(hit, "module"@)) {
        (Some(name), Some(type_), Some(module)) => Some(LoogleResultView { name, type_, module }),
        _ => None,
    }
}

/// The hits among the first `num_results` entries of an answer.
pub open spec fn loogle_hits(answer: JsonView, num_results: nat) -> Seq<LoogleResultView> {
    match items_member(answer, "hits"@) {
        Some(hits) => hits.take(
            if num_results <= hits.len() {
                num_results as int
            } else {
                hits.len() as int
            },
        ).filter_map(|h: JsonView| loogle_hit(h)),
        None => Seq::empty(),
    }
}

/// The hits among the first `num_results` entries of an answer.
pub fn parse_loogle_results(answer: &Json, num_results: usize) -> (r: Vec<LoogleResult>)
    ensures
        all_views(r@) == loogle_hits(answer@, num_results as nat),
{
    let mut out: Vec<LoogleResult> = Vec::new();
    proof {
        assert(all_views(out@) =~= Seq::empty());
    }
    let hits = match answer.items_member("hits") {
        Some(hits) => hits,
        None => return out,
    };
    let n: usize = if num_results <= hits.len() {
        num_results
    } else {
        hits.len()
    };
    let ghost all = views(hits@).take(n as int);
    let ghost f = |h: JsonView| loogle_hit(h);
    for i in 0..n
        invariant
            n <= hits@.len(),
            all == views(hits@).take(n as int),
            f == (|h: JsonView| loogle_hit(h)),
            all_views(out@) == all.take(i as int).filter_map(f),
    {
        let hit = &hits[i];
        proof {
            lemma_filter_map_next(all, f, i as int);
            assert(all[i as int] == hit@);
        }
        if let Some(name) = hit.text_member("name") {
            if let Some(type_) = hit.text_member("type") {
                if let Some(module) = hit.text_member("module") {
                    let ghost before = out@;
                    out.push(
                        LoogleResult {
                            name: name.to_owned(),
                            type_: type_.to_owned(),
                            module: module.to_owned(),
                        },
                    );
                    proof {
                        lemma_views_push(before, out@.last());
                    }
                }
            }
        }
    }
    proof {
        lemma_take_all(all);
    }
    out
}

/// What Loogle comes to.
pub type LoogleSaid = Result<LoogleResultsView, ErrorView>;

/// After the service answered.
pub open spec fn loogle_answered(num_results: nat) -> Waiting<LoogleSaid> {
    |r: ReplyView|
        Dialogue::Finish(
            match answer_of("Loogle"@, r) {
                Ok(v) => match text_member(v, "error"@) {
                    Some(e) => Err(ErrorView::Other("Loogle error: "@ + e)),
                    None => Ok(LoogleResultsView { items: loogle_hits(v, num_results) }),
                },
                Err(e) => Err(e),
            },
        )
}

/// The whole of a search with Loogle.
pub open spec fn loogle_dialogue(query: Seq<char>, num_results: nat, url: Seq<char>) -> Dialogue<
    LoogleSaid,
> {
    Dialogue::Ask(
        RequestView::GetJson { url: url + "/json"@, pairs: seq![("q"@, query)] },
        loogle_answered(num_results),
    )
}

/// A search with Loogle, which waits for the service.
pub struct LoogleCall {
    pub num_results: usize,
}

impl Waits for LoogleCall {
    type Out = Result<LoogleResults, LeanToolError>;

    type Said = LoogleSaid;

    open spec fn said(o: Self::Out) -> LoogleSaid {
        result_view(o)
    }

    open spec fn valid(self) -> bool {
        true
    }

    open spec fn waiting(self) -> Waiting<LoogleSaid> {
        loogle_answered(self.num_results as nat)
    }

    open spec fn admits(self, r: ReplyView) -> bool {
        true
    }
}

impl Call for LoogleCall {
    fn accepts(&self, reply: &Reply) -> (r: bool) {
        true
    }

    fn resume(self, reply: Reply) -> (t: Turn<Self, Self::Out>) {
        match read_answer("Loogle", reply) {
            Ok(v) => match v.text_member("error") {
                Some(e) => Turn::Done(Err(LeanToolError::Other(glue("Loogle error: ", e)))),
                None => Turn::Done(
                    Ok(LoogleResults { items: parse_loogle_results(&v, self.num_results) }),
                ),
            },
            Err(e) => Turn::Done(Err(e)),
        }
    }
}

/// Searches Mathlib with Loogle, by type signature.
pub fn handle_loogle_remote(query: &str, num_results: usize, config: &SearchConfig) -> (t: Turn<
    LoogleCall,
    Result<LoogleResults, LeanToolError>,
>)
    ensures
        begins(t, loogle_dialogue(query@, num_results as nat, config@.loogle_url)),
{
    let mut pairs: Vec<(String, String)> = Vec::new();
    pairs.push(("q".to_owned(), query.to_owned()));
    proof {
        assert(pair_texts(pairs@) =~= seq![("q"@, query@)]);
    }
    let url = glue(config.loogle_url.as_str(), "/json");
    Turn::Ask(Request::GetJson { url, pairs }, LoogleCall { num_results })
}

// ---------------------------------------------------------------------------
// Lean Finder
// ---------------------------------------------------------------------------

/// The name that a URL asks for: what stands between `pattern=` and the `#doc`
/// that follows it.
pub open spec fn name_in_url(url: Seq<char>) -> Option<Seq<char>> {
    match find_of(url, "pattern="@) {
        Some(i) => {
            let after = url.skip(i + "pattern="@.len());
            match find_of(after, "#doc"@) {
                Some(n) => if n > 0 {
                    Some(after.take(n))
                } else {
                    None
                },
                None => None,
            }
        },
        None => None,
    }
}

/// The name that a URL asks for.
pub fn extract_name_from_url(url: &str) -> (r: Option<String>)
    ensures
        opt_text(r) == name_in_url(url@),
{
    let cs = chars_of(url);
    let key = chars_of("pattern=");
    match find(&cs, &key) {
        Some(i) => {
            let n: usize = cs.len();
            let after = slice_subrange(&cs, i + key.len(), n);
            proof {
                assert(after@ =~= url@.skip(i + "pattern="@.len()));
            }
            match find(after, &chars_of("#doc")) {
                Some(n) => if n > 0 {
                    let name = slice_subrange(after, 0, n);
                    proof {
                        assert(name@ =~= after@.take(n as int));
                    }
                    Some(text_of(name))
                } else {
                    None
                },
                None => None,
            }
        },
        None => None,
    }
}

/// The hit that an entry of an answer stands for; none where it is not one of
/// Mathlib's documentation or asks for no name.
pub open spec fn finder_hit(entry: JsonView) -> Option<LeanFinderResultView> {
    match text_member(entry, "url"@) {
        Some(url) => if contains_of(url, "mathlib4_docs"@) {
            match name_in_url(url) {
                Some(full_name) => Some(
                    LeanFinderResultView {
                        full_name,
                        formal_statement: text_or_empty(text_member(entry, "formal_statement"@)),
                        informal_statement: text_or_empty(
                            text_member(entry, "informal_statement"@),
                        ),
                    },
                ),
                None => None,
            }
        } else {
            None
        },
        None => None,
    }
}

/// The entries of an answer, which holds a list or is one.
pub open spec fn finder_entries(answer: JsonView) -> Seq<JsonView> {
    match items_member(answer, "results"@) {
        Some(items) => items,
        None => match answer.items() {
            Some(items) => items,
            None => Seq::empty(),
        },
    }
}

/// The hits of an answer.
pub open spec fn finder_hits(answer: JsonView) -> Seq<LeanFinderResultView> {
    finder_entries(answer).filter_map(|e: JsonView| finder_hit(e))
}

/// The hit that an entry of an answer stands for.
fn read_finder_hit(entry: &Json) -> (r: Option<LeanFinderResult>)
    ensures
        match r {
            Some(h) => finder_hit(entry@) == Some(h@),
            None => finder_hit(entry@) is None,
        },
{
    let url = match entry.text_member("url") {
        Some(url) => url,
        None => return None,
    };
    if !str_contains(url, "mathlib4_docs") {
        return None;
    }
    let full_name = match extract_name_from_url(url) {
        Some(name) => name,
        None => return None,
    };
    let formal_statement = match entry.text_member("formal_statement") {
        Some(s) => s.to_owned(),
        None => String::new(),
    };
    let informal_statement = match entry.text_member("informal_statement") {
        Some(s) => s.to_owned(),
        None => String::new(),
    };
    Some(LeanFinderResult { full_name, formal_statement, informal_statement })
}

/// The hits of an answer.
pub fn parse_leanfinder_results(answer: &Json) -> (r: Vec<LeanFinderResult>)
    ensures
        all_views(r@) == finder_hits(answer@),
{
    let none: Vec<Json> = Vec::new();
    proof {
        assert(views(none@) =~= Seq::empty());
    }
    let entries = match answer.items_member("results") {
        Some(items) => items,
        None => match answer.as_array() {
            Some(items) => items,
            None => &none,
        },
    };
    let ghost all = views(entries@);
    let ghost f = |e: JsonView| finder_hit(e);
    let mut out: Vec<LeanFinderResult> = Vec::new();
    proof {
        assert(all_views(out@) =~= all.take(0).filter_map(f));
    }
    for i in 0..entries.len()
        invariant
            all == views(entries@),
            f == (|e: JsonView| finder_hit(e)),
            all_views(out@) == all.take(i as int).filter_map(f),
    {
        proof {
            lemma_filter_map_next(all, f, i as int);
            assert(all[i as int] == entries@[i as int]@);
        }
        if let Some(h) = read_finder_hit(&entries[i]) {
            let ghost before = out@;
            out.push(h);
            proof {
                lemma_views_push(before, h);
            }
        }
    }
    proof {
        lemma_take_all(all);
    }
    out
}

/// What Lean Finder comes to.
pub type FinderSaid = Result<LeanFinderResultsView, ErrorView>;

/// After the service answered.
pub open spec fn finder_answered() -> Waiting<FinderSaid> {
    |r: ReplyView|
        Dialogue::Finish(
            match answer_of("LeanFinder"@, r) {
                Ok(v) => Ok(LeanFinderResultsView { items: finder_hits(v) }),
                Err(e) => Err(e),
            },
        )
}

/// The whole of a search with Lean Finder.
pub open spec fn finder_dialogue(query: Seq<char>, num_results: nat, url: Seq<char>) -> Dialogue<
    FinderSaid,
> {
    Dialogue::Ask(
        RequestView::PostJson {
            url,
            body: pair_of(
                "inputs"@,
                JsonView::Str(query),
                "top_k"@,
                JsonView::PosInt(num_results as u64),
            ),
        },
        finder_answered(),
    )
}

/// A search with Lean Finder, which waits for the service.
pub struct LeanFinderCall;

impl Waits for LeanFinderCall {
    type Out = Result<LeanFinderResults, LeanToolError>;

    type Said = FinderSaid;

    open spec fn said(o: Self::Out) -> FinderSaid {
        result_view(o)
    }

    open spec fn valid(self) -> bool {
        true
    }

    open spec fn waiting(self) -> Waiting<FinderSaid> {
        finder_answered()
    }

    open spec fn admits(self, r: ReplyView) -> bool {
        true
    }
}

impl Call for LeanFinderCall {
    fn accepts(&self, reply: &Reply) -> (r: bool) {
        true
    }

    fn resume(self, reply: Reply) -> (t: Turn<Self, Self::Out>) {
        Turn::Done(
            match read_answer("LeanFinder", reply) {
                Ok(v) => Ok(LeanFinderResults { items: parse_leanfinder_results(&v) }),
                Err(e) => Err(e),
            },
        )
    }
}

/// Searches Mathlib with Lean Finder, by meaning.
pub fn handle_leanfinder(query: &str, num_results: usize, config: &SearchConfig) -> (t: Turn<
    LeanFinderCall,
    Result<LeanFinderResults, LeanToolError>,
>)
    ensures
        begins(t, finder_dialogue(query@, num_results as nat, config@.leanfinder_url)),
{
    let body = pair(
        "inputs",
        Json::Str(query.to_owned()),
        "top_k",
        Json::PosInt(num_results as u64),
    );
    Turn::Ask(
        Request::PostJson { url: config.leanfinder_url.clone(), body },
        LeanFinderCall,
    )
}

// ---------------------------------------------------------------------------
// The first goal at a place
// ---------------------------------------------------------------------------

/// What the search for a goal comes to.
pub type GoalFoundSaid = Result<Seq<char>, ErrorView>;

/// After the goals came.
pub open spec fn first_goal_told(line: u32, column: u32) -> Waiting<GoalFoundSaid> {
    |r: ReplyView|
        Dialogue::Finish(
            match r {
                ReplyView::Texts(goals) => if goals.len() > 0 {
                    Ok(goals[0])
                } else {
                    Err(ErrorView::NoGoals { line: line as nat, column: column as nat })
                },
                _ => Err(lsp_failure("get_goal"@, r.trouble())),
            },
        )
}

/// After the file was opened.
pub open spec fn first_goal_opened(path: Seq<char>, line: u32, column: u32) -> Waiting<
    GoalFoundSaid,
> {
    |r: ReplyView|
        if r is Done {
            Dialogue::Ask(
                RequestView::Goal { path, line: before_of(line), column: before_of(column) },
                first_goal_told(line, column),
            )
        } else {
            Dialogue::Finish(Err(lsp_failure("open_file"@, r.trouble())))
        }
}

/// The first goal at a place (from 1) of a file.
pub open spec fn first_goal_dialogue(path: Seq<char>, line: u32, column: u32) -> Dialogue<
    GoalFoundSaid,
> {
    Dialogue::Ask(RequestView::OpenFile { path }, first_goal_opened(path, line, column))
}

/// The search for a goal at work.
pub enum FirstGoalCall {
    /// Waits until the file is open.
    Opening { path: String, line: u32, column: u32 },
    /// Waits for the goals.
    Asking { line: u32, column: u32 },
}

impl Waits for FirstGoalCall {
    type Out = Result<String, LeanToolError>;

    type Said = GoalFoundSaid;

    open spec fn said(o: Self::Out) -> GoalFoundSaid {
        match o {
            Ok(s) => Ok(s@),
            Err(e) => Err(e@),
        }
    }

    open spec fn valid(self) -> bool {
        true
    }

    open spec fn waiting(self) -> Waiting<GoalFoundSaid> {
        match self {
            FirstGoalCall::Opening { path, line, column } => first_goal_opened(
                path@,
                line,
                column,
            ),
            FirstGoalCall::Asking { line, column } => first_goal_told(line, column),
        }
    }

    open spec fn admits(self, r: ReplyView) -> bool {
        true
    }
}

impl Call for FirstGoalCall {
    fn accepts(&self, reply: &Reply) -> (r: bool) {
        true
    }

    fn resume(self, reply: Reply) -> (t: Turn<Self, Self::Out>) {
        match self {
            FirstGoalCall::Opening { path, line, column } => match reply.done() {
                Ok(_) => Turn::Ask(
                    Request::Goal {
                        path,
                        line: number_before(line),
                        column: number_before(column),
                    },
                    FirstGoalCall::Asking { line, column },
                ),
                Err(m) => Turn::Done(Err(lsp_error("open_file", m))),
            },
            FirstGoalCall::Asking { line, column } => match reply.texts() {
                Ok(goals) => {
                    proof {
                        assert(texts(goals@).len() == goals@.len());
                    }
                    if goals.len() > 0 {
                        proof {
                            assert(texts(goals@)[0] == goals@[0]@);
                        }
                        Turn::Done(Ok(goals[0].clone()))
                    } else {
                        Turn::Done(Err(LeanToolError::NoGoals { line, column }))
                    }
                },
                Err(m) => Turn::Done(Err(lsp_error("get_goal", m))),
            },
        }
    }
}

/// The first goal at a place (from 1) of a file.
pub fn get_first_goal(file_path: &str, line: u32, column: u32) -> (t: Turn<
    FirstGoalCall,
    Result<String, LeanToolError>,
>)
    ensures
        begins(t, first_goal_dialogue(file_path@, line, column)),
{
    let path = file_path.to_owned();
    Turn::Ask(
        Request::OpenFile { path: path.clone() },
        FirstGoalCall::Opening { path, line, column },
    )
}

// ---------------------------------------------------------------------------
// Lemmas for a proof state
// ---------------------------------------------------------------------------

/// The hit that an entry of an answer stands for.
pub open spec fn state_hit(entry: JsonView) -> Option<StateSearchResultView> {
    match text_member(entry, "name"@) {
        Some(name) => Some(StateSearchResultView { name }),
        None => None,
    }
}

/// The hits of an answer.
pub open spec fn state_hits(answer: JsonView) -> Seq<StateSearchResultView> {
    match answer.items() {
        Some(items) => items.filter_map(|e: JsonView| state_hit(e)),
        None => Seq::empty(),
    }
}

/// The hits of an answer.
pub fn parse_state_search_results(answer: &Json) -> (r: Vec<StateSearchResult>)
    ensures
        all_views(r@) == state_hits(answer@),
{
    let mut out: Vec<StateSearchResult> = Vec::new();
    proof {
        assert(all_views(out@) =~= Seq::empty());
    }
    let entries = match answer.as_array() {
        Some(items) => items,
        None => return out,
    };
    let ghost all = views(entries@);
    let ghost f = |e: JsonView| state_hit(e);
    for i in 0..entries.len()
        invariant
            all == views(entries@),
            f == (|e: JsonView| state_hit(e)),
            all_views(out@) == all.take(i as int).filter_map(f),
    {
        proof {
            lemma_filter_map_next(all, f, i as int);
            assert(all[i as int] == entries@[i as int]@);
        }
        if let Some(name) = entries[i].text_member("name") {
            let ghost before = out@;
            out.push(StateSearchResult { name: name.to_owned() });
            proof {
                lemma_views_push(before, out@.last());
            }
        }
    }
    proof {
        lemma_take_all(all);
    }
    out
}

/// What the search for a proof state comes to.
pub type StateSaid = Result<StateSearchResultsView, ErrorView>;

/// After the service answered.
pub open spec fn state_answered() -> Waiting<StateSaid> {
    |r: ReplyView|
        Dialogue::Finish(
            match answer_of("StateSearch"@, r) {
                Ok(v) => Ok(StateSearchResultsView { items: state_hits(v) }),
                Err(e) => Err(e),
            },
        )
}

/// Searches for a goal that was looked for.
pub open spec fn state_with(num_results: nat, url: Seq<char>) -> spec_fn(
    GoalFoundSaid,
) -> Dialogue<StateSaid> {
    |res: GoalFoundSaid|
        match res {
            Ok(goal) => Dialogue::Ask(
                RequestView::GetJson {
                    url: url + "/api/search"@,
                    pairs: seq![
                        ("query"@, goal),
                        ("results"@, decimal_of(num_results)),
                        ("rev"@, "v4.22.0"@),
                    ],
                },
                state_answered(),
            ),
            Err(e) => Dialogue::Finish(Err(e)),
        }
}

/// The whole of a search for the proof state at a place (from 1) of a file.
pub open spec fn state_dialogue(
    path: Seq<char>,
    line: u32,
    column: u32,
    num_results: nat,
    url: Seq<char>,
) -> Dialogue<StateSaid> {
    followed(first_goal_dialogue(path, line, column), state_with(num_results, url))
}

/// A search for a proof state at work.
pub enum StateSearchCall {
    /// Waits for the goal.
    Finding { call: FirstGoalCall, num_results: usize, url: String },
    /// Waits for the service.
    Asking,
}

impl Waits for StateSearchCall {
    type Out = Result<StateSearchResults, LeanToolError>;

    type Said = StateSaid;

    open spec fn said(o: Self::Out) -> StateSaid {
        result_view(o)
    }

    open spec fn valid(self) -> bool {
        true
    }

    open spec fn waiting(self) -> Waiting<StateSaid> {
        match self {
            StateSearchCall::Finding { call, num_results, url } => waiting_first(
                call.waiting(),
                state_with(num_results as nat, url@),
            ),
            StateSearchCall::Asking => state_answered(),
        }
    }

    open spec fn admits(self, r: ReplyView) -> bool {
        true
    }
}

impl StateSearchCall {
    /// Goes on with the search for the goal.
    fn found(
        t: Turn<FirstGoalCall, Result<String, LeanToolError>>,
        num_results: usize,
        url: String,
    ) -> (r: Turn<StateSearchCall, Result<StateSearchResults, LeanToolError>>)
        ensures
            forall|d: Dialogue<GoalFoundSaid>| #[trigger]
                begins(t, d) ==> begins(r, followed(d, state_with(num_results as nat, url@))),
    {
        match t {
            Turn::Ask(q, call) => {
                proof {
                    lemma_followed(q@, call.waiting(), state_with(num_results as nat, url@));
                }
                Turn::Ask(q, StateSearchCall::Finding { call, num_results, url })
            },
            Turn::Done(Ok(goal)) => {
                let mut pairs: Vec<(String, String)> = Vec::new();
                pairs.push(("query".to_owned(), goal));
                pairs.push(("results".to_owned(), decimal(num_results as u64)));
                pairs.push(("rev".to_owned(), "v4.22.0".to_owned()));
                proof {
                    assert(pair_texts(pairs@) =~= seq![
                        ("query"@, goal@),
                        ("results"@, decimal_of(num_results as nat)),
                        ("rev"@, "v4.22.0"@),
                    ]);
                }
                let url = glue(url.as_str(), "/api/search");
                Turn::Ask(Request::GetJson { url, pairs }, StateSearchCall::Asking)
            },
            Turn::Done(Err(e)) => Turn::Done(Err(e)),
        }
    }
}

impl Call for StateSearchCall {
    fn accepts(&self, reply: &Reply) -> (r: bool) {
        true
    }

    fn resume(self, reply: Reply) -> (t: Turn<Self, Self::Out>) {
        match self {
            StateSearchCall::Finding { call, num_results, url } => StateSearchCall::found(
                call.resume(reply),
                num_results,
                url,
            ),
            StateSearchCall::Asking => Turn::Done(
                match read_answer("StateSearch", reply) {
                    Ok(v) => Ok(StateSearchResults { items: parse_state_search_results(&v) }),
                    Err(e) => Err(e),
                },
            ),
        }
    }
}

/// Searches for lemmas that close the first goal at a place of a file. `line`
/// and `column` count from 1.
pub fn handle_state_search(
    file_path: &str,
    line: u32,
    column: u32,
    num_results: usize,
    config: &SearchConfig,
) -> (t: Turn<StateSearchCall, Result<StateSearchResults, LeanToolError>>)
    ensures
        begins(
            t,
            state_dialogue(
                file_path@,
                line,
                column,
                num_results as nat,
                config@.state_search_url,
            ),
        ),
{
    StateSearchCall::found(
        get_first_goal(file_path, line, column),
        num_results,
        config.state_search_url.clone(),
    )
}

// ---------------------------------------------------------------------------
// Premises for a proof state
// ---------------------------------------------------------------------------

/// The premise that an entry of an answer stands for.
pub open spec fn premise_hit(entry: JsonView) -> Option<PremiseResultView> {
    match entry.text() {
        Some(name) => Some(PremiseResultView { name }),
        None => None,
    }
}

/// The premises of an answer.
pub open spec fn premise_hits(answer: JsonView) -> Seq<PremiseResultView> {
    match answer.items() {
        Some(items) => items.filter_map(|e: JsonView| premise_hit(e)),
        None => Seq::empty(),
    }
}

/// The premises of an answer.
pub fn parse_premise_results(answer: &Json) -> (r: Vec<PremiseResult>)
    ensures
        all_views(r@) == premise_hits(answer@),
{
    let mut out: Vec<PremiseResult> = Vec::new();
    proof {
        assert(all_views(out@) =~= Seq::empty());
    }
    let entries = match answer.as_array() {
        Some(items) => items,
        None => return out,
    };
    let ghost all = views(entries@);
    let ghost f = |e: JsonView| premise_hit(e);
    for i in 0..entries.len()
        invariant
            all == views(entries@),
            f == (|e: JsonView| premise_hit(e)),
            all_views(out@) == all.take(i as int).filter_map(f),
    {
        proof {
            lemma_filter_map_next(all, f, i as int);
            assert(all[i as int] == entries@[i as int]@);
        }
        if let Some(name) = entries[i].as_str() {
            let ghost before = out@;
            out.push(PremiseResult { name: name.to_owned() });
            proof {
                lemma_views_push(before, out@.last());
            }
        }
    }
    proof {
        lemma_take_all(all);
    }
    out
}

/// What the search for premises comes to.
pub type PremiseSaid = Result<PremiseResultsView, ErrorView>;

/// After the service answered.
pub open spec fn premise_answered() -> Waiting<PremiseSaid> {
    |r: ReplyView|
        Dialogue::Finish(
            match answer_of("HammerPremise"@, r) {
                Ok(v) => Ok(PremiseResultsView { items: premise_hits(v) }),
                Err(e) => Err(e),
            },
        )
}

/// Searches premises for a goal that was looked for.
pub open spec fn premise_with(num_results: nat, url: Seq<char>) -> spec_fn(
    GoalFoundSaid,
) -> Dialogue<PremiseSaid> {
    |res: GoalFoundSaid|
        match res {
            Ok(goal) => Dialogue::Ask(
                RequestView::PostJson {
                    url: url + "/retrieve"@,
                    body: triple_of(
                        "k"@,
                        JsonView::PosInt(num_results as u64),
                        "new_premises"@,
                        JsonView::Array(Seq::empty()),
                        "state"@,
                        JsonView::Str(goal),
                    ),
                },
                premise_answered(),
            ),
            Err(e) => Dialogue::Finish(Err(e)),
        }
}

/// The whole of a search of premises for the proof state at a place (from 1) of
/// a file.
pub open spec fn premise_dialogue(
    path: Seq<char>,
    line: u32,
    column: u32,
    num_results: nat,
    url: Seq<char>,
) -> Dialogue<PremiseSaid> {
    followed(first_goal_dialogue(path, line, column), premise_with(num_results, url))
}

/// A search of premises at work.
pub enum PremiseCall {
    /// Waits for the goal.
    Finding { call: FirstGoalCall, num_results: usize, url: String },
    /// Waits for the service.
    Asking,
}

impl Waits for PremiseCall {
    type Out = Result<PremiseResults, LeanToolError>;

    type Said = PremiseSaid;

    open spec fn said(o: Self::Out) -> PremiseSaid {
        result_view(o)
    }

    open spec fn valid(self) -> bool {
        true
    }

    open spec fn waiting(self) -> Waiting<PremiseSaid> {
        match self {
            PremiseCall::Finding { call, num_results, url } => waiting_first(
                call.waiting(),
                premise_with(num_results as nat, url@),
            ),
            PremiseCall::Asking => premise_answered(),
        }
    }

    open spec fn admits(self, r: ReplyView) -> bool {
        true
    }
}

impl PremiseCall {
    /// Goes on with the search for the goal.
    fn found(
        t: Turn<FirstGoalCall, Result<String, LeanToolError>>,
        num_results: usize,
        url: String,
    ) -> (r: Turn<PremiseCall, Result<PremiseResults, LeanToolError>>)
        ensures
            forall|d: Dialogue<GoalFoundSaid>| #[trigger]
                begins(t, d) ==> begins(r, followed(d, premise_with(num_results as nat, url@))),
    {
        match t {
            Turn::Ask(q, call) => {
                proof {
                    lemma_followed(q@, call.waiting(), premise_with(num_results as nat, url@));
                }
                Turn::Ask(q, PremiseCall::Finding { call, num_results, url })
            },
            Turn::Done(Ok(goal)) => {
                let none: Vec<Json> = Vec::new();
                proof {
                    crate::json::lemma_array_view(none);
                    assert(views(none@) =~= Seq::empty());
                }
                let body = triple(
                    "k",
                    Json::PosInt(num_results as u64),
                    "new_premises",
                    Json::Array(none),
                    "state",
                    Json::Str(goal),
                );
                let url = glue(url.as_str(), "/retrieve");
                Turn::Ask(Request::PostJson { url, body }, PremiseCall::Asking)
            },
            Turn::Done(Err(e)) => Turn::Done(Err(e)),
        }
    }
}

impl Call for PremiseCall {
    fn accepts(&self, reply: &Reply) -> (r: bool) {
        true
    }

    fn resume(self, reply: Reply) -> (t: Turn<Self, Self::Out>) {
        match self {
            PremiseCall::Finding { call, num_results, url } => PremiseCall::found(
                call.resume(reply),
                num_results,
                url,
            ),
            PremiseCall::Asking => Turn::Done(
                match read_answer("HammerPremise", reply) {
                    Ok(v) => Ok(PremiseResults { items: parse_premise_results(&v) }),
                    Err(e) => Err(e),
                },
            ),
        }
    }
}

/// Searches premises for the first goal at a place of a file. `line` and
/// `column` count from 1.
pub fn handle_hammer_premise(
    file_path: &str,
    line: u32,
    column: u32,
    num_results: usize,
    config: &SearchConfig,
) -> (t: Turn<PremiseCall, Result<PremiseResults, LeanToolError>>)
    ensures
        begins(
            t,
            premise_dialogue(
                file_path@,
                line,
                column,
                num_results as nat,
                config@.hammer_premise_url,
            ),
        ),
{
    PremiseCall::found(
        get_first_goal(file_path, line, column),
        num_results,
        config.hammer_premise_url.clone(),
    )
}

/// A service is where the user's setting says, and else where it is known to be.
pub proof fn lemma_setting_told(setting: Option<Seq<char>>, known: Seq<char>)
    ensures
        setting matches Some(s) ==> setting_or(setting, known) == s,
        setting is None ==> setting_or(setting, known) == known,
{
}

} // verus!
