//! `lean_completions`: what can stand at a place of a file.
use crate::error::{result_view, ErrorView, LeanToolError};
use crate::json::{int_member, text_member, views, Json, JsonView};
use crate::lists::{lemma_filter_map_next, lemma_take_all, lemma_views_push};
use crate::models::{
    all_views, opt_text, CompletionItem, CompletionItemView, CompletionsResult,
    CompletionsResultView,
};
use crate::order::{
    comes_before, in_order, inserted, lemma_inserted_at, lemma_sorted_in_order,
    lemma_sorted_permutes, lemma_sorted_stable, lemma_text_irreflexive, lemma_text_total,
    lemma_text_transitive, ranks, sorted_of, text_before,
};
use crate::position::{prior_number, prior_of};
use crate::protocol::{
    begins, followed, lemma_followed, lsp_error, lsp_failure, name_at, name_texts, nth_name,
    waiting_first, Call, Dialogue, Reply, ReplyView, Request, RequestView, Turn, Waiting, Waits,
};
use crate::text::{
    char_in, chars_of, contains_of, is_space, is_whitespace, lowercase_of, split, split_of,
    starts_with_of, str_contains, str_starts_with, text_of, texts, to_lower,
};
use crate::tools::file::{file_dialogue, open_and_read, FileRead, ReadSaid};
use vstd::prelude::*;
use vstd::slice::slice_subrange;
use vstd::string::*;

verus! {

// ---------------------------------------------------------------------------
// The prefix
// ---------------------------------------------------------------------------

/// Whether a character ends what is being completed.
pub open spec fn is_delimiter(c: char) -> bool {
    is_space(c) || "()[]{},:;."@.contains(c)
}

/// What stands behind the last delimiter.
pub open spec fn last_token(s: Seq<char>) -> Seq<char>
    decreases s.len(),
{
    if s.len() == 0 || is_delimiter(s.last()) {
        Seq::empty()
    } else {
        last_token(s.drop_last()).push(s.last())
    }
}

/// What stands in a line before a column (from 1, in characters); the whole line
/// where the column lies beyond it or is 0.
pub open spec fn text_up_to(line: Seq<char>, column: u32) -> Seq<char> {
    if 1 <= column && column - 1 <= line.len() {
        line.take(column - 1)
    } else {
        line
    }
}

/// What a completion at a place (from 1) begins with, in lower case. It is empty
/// behind a dot.
pub open spec fn prefix_of(content: Seq<char>, line: u32, column: u32) -> Seq<char> {
    let lines = split_of(content, '\n');
    if line == 0 || line > lines.len() {
        Seq::empty()
    } else {
        let before = text_up_to(lines[line - 1], column);
        if before.len() > 0 && before.last() == '.' {
            Seq::empty()
        } else {
            lowercase_of(last_token(before))
        }
    }
}

/// What stands behind the last delimiter is an end of the text that holds none, and
/// either all of the text or right behind a delimiter.
pub proof fn lemma_last_token(s: Seq<char>)
    ensures
        ({
            let t = last_token(s);
            let k = s.len() - t.len();
            &&& 0 <= k
            &&& t == s.skip(k)
            &&& forall|i: int| k <= i < s.len() ==> !is_delimiter(#[trigger] s[i])
            &&& k > 0 ==> is_delimiter(s[k - 1])
        }),
    decreases s.len(),
{
    if s.len() > 0 && !is_delimiter(s.last()) {
        let init = s.drop_last();
        lemma_last_token(init);
        let t = last_token(init);
        let k = init.len() - t.len();
        assert(last_token(s) =~= s.skip(k));
        assert forall|i: int| k <= i < s.len() implies !is_delimiter(#[trigger] s[i]) by {
            if i < init.len() {
                assert(init[i] == s[i]);
            }
        }
        if k > 0 {
            assert(init[k - 1] == s[k - 1]);
        }
    } else {
        assert(last_token(s) =~= s.skip(s.len() as int));
    }
}

/// The characters that end what is being completed: white space, brackets, and
/// `,`, `:`, `;` and `.`.
pub proof fn lemma_delimiters(c: char)
    ensures
        is_delimiter(c) <==> is_space(c) || c == '(' || c == ')' || c == '[' || c == ']' || c == '{'
            || c == '}' || c == ',' || c == ':' || c == ';' || c == '.',
{
    reveal_strlit("()[]{},:;.");
    let s = "()[]{},:;."@;
    assert(s.len() == 10);
    assert(s[0] == '(' && s[1] == ')' && s[2] == '[' && s[3] == ']' && s[4] == '{' && s[5] == '}');
    assert(s[6] == ',' && s[7] == ':' && s[8] == ';' && s[9] == '.');
}

/// What is completed is the end of what stands before the column, in lower case; behind
/// a dot, and where there is no such line, it is empty.
pub proof fn lemma_prefix_told(content: Seq<char>, line: u32, column: u32)
    ensures
        ({
            let lines = split_of(content, '\n');
            if 1 <= line <= lines.len() {
                let text = lines[line - 1];
                let before = if 1 <= column <= text.len() + 1 {
                    text.take(column - 1)
                } else {
                    text
                };
                prefix_of(content, line, column) == if before.len() > 0 && before.last() == '.' {
                    Seq::empty()
                } else {
                    lowercase_of(last_token(before))
                }
            } else {
                prefix_of(content, line, column).len() == 0
            }
        }),
{
}

/// What stands behind the last delimiter.
fn token_behind(s: &[char]) -> (r: &[char])
    ensures
        r@ == last_token(s@),
{
    let delimiters = chars_of("()[]{},:;.");
    let mut n: usize = s.len();
    proof {
        assert(s@.take(n as int) =~= s@);
        assert(last_token(s@.take(n as int)) + s@.skip(n as int) =~= last_token(s@));
    }
    while n > 0 && !is_whitespace(s[n - 1]) && !char_in(s[n - 1], &delimiters)
        invariant
            n <= s@.len(),
            delimiters@ == "()[]{},:;."@,
            last_token(s@) == last_token(s@.take(n as int)) + s@.skip(n as int),
        decreases n,
    {
        proof {
            let t = s@.take(n as int);
            assert(t.drop_last() =~= s@.take(n - 1));
            assert(t.last() == s@[n - 1]);
            assert(seq![s@[n - 1]] + s@.skip(n as int) =~= s@.skip(n - 1));
            assert(last_token(s@.take(n - 1)).push(s@[n - 1]) + s@.skip(n as int) =~= last_token(
                s@.take(n - 1),
            ) + s@.skip(n - 1));
        }
        n = n - 1;
    }
    let r = slice_subrange(s, n, s.len());
    proof {
        assert(r@ =~= s@.skip(n as int));
        if n > 0 {
            assert(s@.take(n as int).last() == s@[n - 1]);
        }
        assert(last_token(s@.take(n as int)) =~= Seq::empty());
        assert(Seq::<char>::empty() + s@.skip(n as int) =~= s@.skip(n as int));
    }
    r
}

/// What a completion at a place (from 1) begins with, in lower case.
pub fn extract_prefix(content: &str, line: u32, column: u32) -> (r: String)
    ensures
        r@ == prefix_of(content@, line, column),
{
    let lines = split(content, '\n');
    proof {
        assert(texts(lines@).len() == lines@.len());
    }
    if line == 0 || line as usize > lines.len() {
        return String::new();
    }
    let text = lines[(line - 1) as usize].as_str();
    proof {
        assert(texts(lines@)[line - 1] == text@);
    }
    let all = chars_of(text);
    let before = if column >= 1 && (column - 1) as usize <= all.len() {
        slice_subrange(&all, 0, (column - 1) as usize)
    } else {
        slice_subrange(&all, 0, all.len())
    };
    proof {
        assert(before@ =~= text_up_to(text@, column));
    }
    if before.len() > 0 && before[before.len() - 1] == '.' {
        return String::new();
    }
    to_lower(text_of(token_behind(before)).as_str())
}

// ---------------------------------------------------------------------------
// The order of completions
// ---------------------------------------------------------------------------

/// How far a label (in lower case) is from a prefix: it begins with it, it
/// contains it, or neither.
pub open spec fn rank_of(label: Seq<char>, prefix: Seq<char>) -> u8 {
    if starts_with_of(label, prefix) {
        0
    } else if contains_of(label, prefix) {
        1
    } else {
        2
    }
}

/// What a label (in lower case) is sorted by.
pub fn sort_key<'a>(label_lower: &'a str, prefix: &str) -> (r: (u8, &'a str))
    ensures
        r.0 == rank_of(label_lower@, prefix@),
        r.1@ == label_lower@,
{
    if str_starts_with(label_lower, prefix) {
        (0, label_lower)
    } else if str_contains(label_lower, prefix) {
        (1, label_lower)
    } else {
        (2, label_lower)
    }
}

/// Whether one key comes before another: by the rank, and then by the text.
pub open spec fn key_before(a: (u8, Seq<char>), b: (u8, Seq<char>)) -> bool {
    a.0 < b.0 || (a.0 == b.0 && text_before(a.1, b.1))
}

/// What a completion is sorted by.
pub open spec fn key_of(item: CompletionItemView, prefix: Seq<char>) -> (u8, Seq<char>) {
    let lower = lowercase_of(item.label);
    (rank_of(lower, prefix), lower)
}

/// Whether one completion comes before another.
pub open spec fn item_before(prefix: Seq<char>) -> spec_fn(
    CompletionItemView,
    CompletionItemView,
) -> bool {
    |a: CompletionItemView, b: CompletionItemView| key_before(key_of(a, prefix), key_of(b, prefix))
}

/// The order of completions is an order by rank.
pub proof fn lemma_items_ranked(prefix: Seq<char>)
    ensures
        ranks(item_before(prefix)),
{
    let before = item_before(prefix);
    assert forall|a: CompletionItemView| !#[trigger] before(a, a) by {
        lemma_text_irreflexive(key_of(a, prefix).1);
    }
    assert forall|a: CompletionItemView, b: CompletionItemView| #[trigger]
        before(a, b) implies !before(b, a) by {
        let (x, y) = (key_of(a, prefix).1, key_of(b, prefix).1);
        if text_before(x, y) && text_before(y, x) {
            lemma_text_transitive(x, y, x);
            lemma_text_irreflexive(x);
        }
    }
    assert forall|a: CompletionItemView, b: CompletionItemView, c: CompletionItemView| #[trigger]
        before(a, b) implies #[trigger] before(a, c) || before(c, b) by {
        let (x, y, z) = (key_of(a, prefix), key_of(b, prefix), key_of(c, prefix));
        lemma_text_total(x.1, z.1);
        if text_before(z.1, x.1) && text_before(x.1, y.1) {
            lemma_text_transitive(z.1, x.1, y.1);
        }
    }
}

/// The completions in the order in which they are told: those that begin with
/// the prefix, those that contain it, and the others; within each group by the
/// label, without regard to case.
pub open spec fn completions_sorted(items: Seq<CompletionItemView>, prefix: Seq<char>) -> Seq<
    CompletionItemView,
> {
    sorted_of(items, item_before(prefix))
}

/// Sorting completions keeps them all and puts them in order.
pub proof fn lemma_completions_sorted(items: Seq<CompletionItemView>, prefix: Seq<char>)
    ensures
        completions_sorted(items, prefix).to_multiset() == items.to_multiset(),
        in_order(completions_sorted(items, prefix), item_before(prefix)),
{
    lemma_items_ranked(prefix);
    lemma_sorted_permutes(items, item_before(prefix));
    lemma_sorted_in_order(items, item_before(prefix));
}

/// Whether the label of a completion is `label`, without regard to case.
pub open spec fn labelled(label: Seq<char>) -> spec_fn(CompletionItemView) -> bool {
    |i: CompletionItemView| lowercase_of(i.label) == label
}

/// Sorting completions leaves those of one label in the order in which they
/// came.
pub proof fn lemma_completions_stable(
    items: Seq<CompletionItemView>,
    prefix: Seq<char>,
    label: Seq<char>,
)
    ensures
        completions_sorted(items, prefix).filter(labelled(label)) == items.filter(labelled(label)),
{
    lemma_text_irreflexive(label);
    lemma_sorted_stable(items, item_before(prefix), labelled(label));
}

/// Of two completions, the one comes before the other whose label begins with the
/// prefix, or else holds it, where the other's does not; where both do alike, the one
/// whose label comes first. Case does not matter.
pub proof fn lemma_completion_order(
    prefix: Seq<char>,
    a: CompletionItemView,
    b: CompletionItemView,
)
    ensures
        ({
            let (x, y) = (lowercase_of(a.label), lowercase_of(b.label));
            let begins = |l: Seq<char>| prefix.len() <= l.len() && l.take(prefix.len() as int)
                == prefix;
            let holds = |l: Seq<char>|
                exists|i: int|
                    0 <= i && i + prefix.len() <= l.len() && #[trigger] l.subrange(
                        i,
                        i + prefix.len(),
                    ) == prefix;
            (item_before(prefix))(a, b) <==> if begins(x) != begins(y) {
                begins(x)
            } else if begins(x) || holds(x) == holds(y) {
                text_before(x, y)
            } else {
                holds(x)
            }
        }),
{
    let holds = |l: Seq<char>|
        exists|i: int|
            0 <= i && i + prefix.len() <= l.len() && #[trigger] l.subrange(i, i + prefix.len())
                == prefix;
    assert forall|l: Seq<char>| #[trigger] contains_of(l, prefix) <==> holds(l) by {
        if contains_of(l, prefix) {
            let i = choose|i: int| crate::text::occurs_at(l, prefix, i);
            assert(l.subrange(i, i + prefix.len()) == prefix);
        }
        if holds(l) {
            let i = choose|i: int|
                0 <= i && i + prefix.len() <= l.len() && #[trigger] l.subrange(i, i + prefix.len())
                    == prefix;
            assert(crate::text::occurs_at(l, prefix, i));
        }
    }
    assert(contains_of(lowercase_of(a.label), prefix) <==> holds(lowercase_of(a.label)));
    assert(contains_of(lowercase_of(b.label), prefix) <==> holds(lowercase_of(b.label)));
}

/// A completion with its key.
struct Keyed {
    rank: u8,
    lower: Vec<char>,
    item: CompletionItem,
}

/// What some completions with keys are.
spec fn items_in(v: Seq<Keyed>) -> Seq<CompletionItemView> {
    v.map_values(|k: Keyed| k.item@)
}

/// Whether the keys are those of the completions.
spec fn keys_right(v: Seq<Keyed>, prefix: Seq<char>) -> bool {
    forall|i: int|
        0 <= i < v.len() ==> key_of((#[trigger] v[i]).item@, prefix) == (v[i].rank, v[i].lower@)
}

/// Puts a completion in where it belongs.
fn put_in(v: &mut Vec<Keyed>, k: Keyed, Ghost(prefix): Ghost<Seq<char>>)
    requires
        keys_right(old(v)@, prefix),
        key_of(k.item@, prefix) == (k.rank, k.lower@),
    ensures
        keys_right(final(v)@, prefix),
        items_in(final(v)@) == inserted(items_in(old(v)@), k.item@, item_before(prefix)),
{
    let ghost s = items_in(v@);
    let ghost x = k.item@;
    let mut at: usize = v.len();
    while at > 0 && (k.rank < v[at - 1].rank || (k.rank == v[at - 1].rank && comes_before(
        &k.lower,
        &v[at - 1].lower,
    )))
        invariant
            at <= v@.len(),
            s == items_in(v@),
            x == k.item@,
            keys_right(v@, prefix),
            key_of(k.item@, prefix) == (k.rank, k.lower@),
            forall|j: int| at <= j < s.len() ==> (item_before(prefix))(x, #[trigger] s[j]),
        decreases at,
    {
        proof {
            assert(s[at - 1] == v@[at - 1].item@);
        }
        at = at - 1;
    }
    proof {
        if at > 0 {
            assert(s[at - 1] == v@[at - 1].item@);
        }
        lemma_inserted_at(s, x, item_before(prefix), at as int);
    }
    v.insert(at, k);
    proof {
        assert(items_in(v@) =~= s.insert(at as int, x));
    }
}

/// The completions in the order in which they are told.
pub fn sort_completions(items: Vec<CompletionItem>, prefix: &str) -> (r: Vec<CompletionItem>)
    ensures
        all_views(r@) == completions_sorted(all_views(items@), prefix@),
{
    let ghost all = all_views(items@);
    let ghost before = item_before(prefix@);
    let mut keyed: Vec<Keyed> = Vec::new();
    proof {
        assert(items_in(keyed@) =~= sorted_of(all.take(0), before));
    }
    for item in it: items
        invariant
            all == all_views(it.seq()),
            before == item_before(prefix@),
            keys_right(keyed@, prefix@),
            items_in(keyed@) == sorted_of(all.take(it.index() as int), before),
    {
        proof {
            let n = it.index() as int;
            assert(all.take(n + 1).drop_last() =~= all.take(n));
            assert(all.take(n + 1).last() == item@);
        }
        let lower = to_lower(item.label.as_str());
        let rank: u8 = sort_key(lower.as_str(), prefix).0;
        put_in(
            &mut keyed,
            Keyed { rank, lower: chars_of(lower.as_str()), item },
            Ghost(prefix@),
        );
    }
    proof {
        lemma_take_all(all);
    }
    let ghost sorted = items_in(keyed@);
    let mut out: Vec<CompletionItem> = Vec::new();
    for k in it: keyed
        invariant
            sorted == items_in(it.seq()),
            all_views(out@) == sorted.take(it.index() as int),
    {
        let ghost so_far = out@;
        out.push(k.item);
        proof {
            lemma_views_push(so_far, out@.last());
            assert(sorted.take(it.index() + 1) =~= sorted.take(it.index() as int).push(
                sorted[it.index() as int],
            ));
        }
    }
    proof {
        lemma_take_all(sorted);
    }
    out
}

// ---------------------------------------------------------------------------
// The tool
// ---------------------------------------------------------------------------

/// A completion whose kind is still a number.
pub struct CandidateView {
    pub label: Seq<char>,
    pub kind: Option<i32>,
    pub detail: Option<Seq<char>>,
}

/// The completion that an item of the language server stands for; none where it
/// has no label.
pub open spec fn candidate_of(c: JsonView) -> Option<CandidateView> {
    match text_member(c, "label"@) {
        Some(label) => Some(
            CandidateView {
                label,
                kind: match int_member(c, "kind"@) {
                    Some(k) => Some(k as i32),
                    None => None,
                },
                detail: text_member(c, "detail"@),
            },
        ),
        None => None,
    }
}

/// A completion whose kind is still a number.
pub struct Candidate {
    pub label: String,
    pub kind: Option<i32>,
    pub detail: Option<String>,
}

impl View for Candidate {
    type V = CandidateView;

    open spec fn view(&self) -> CandidateView {
        CandidateView { label: self.label@, kind: self.kind, detail: opt_text(self.detail) }
    }
}

/// The completions that some items of the language server stand for.
pub open spec fn candidates_of(raw: Seq<JsonView>) -> Seq<CandidateView> {
    raw.filter_map(|c: JsonView| candidate_of(c))
}

/// The completions that some items of the language server stand for.
pub fn candidates(raw: &[Json]) -> (r: Vec<Candidate>)
    ensures
        all_views(r@) == candidates_of(views(raw@)),
{
    let ghost all = views(raw@);
    let ghost f = |c: JsonView| candidate_of(c);
    let mut out: Vec<Candidate> = Vec::new();
    proof {
        assert(all_views(out@) =~= all.take(0).filter_map(f));
    }
    for i in 0..raw.len()
        invariant
            all == views(raw@),
            f == (|c: JsonView| candidate_of(c)),
            all_views(out@) == all.take(i as int).filter_map(f),
    {
        let c = &raw[i];
        proof {
            lemma_filter_map_next(all, f, i as int);
            assert(all[i as int] == c@);
        }
        if let Some(label) = c.text_member("label") {
            let ghost before = out@;
            let kind: Option<i32> = match c.int_member("kind") {
                Some(k) => Some(k as i32),
                None => None,
            };
            let detail = match c.text_member("detail") {
                Some(d) => Some(d.to_owned()),
                None => None,
            };
            out.push(Candidate { label: label.to_owned(), kind, detail });
            proof {
                lemma_views_push(before, out@.last());
            }
        }
    }
    proof {
        lemma_take_all(all);
    }
    out
}

/// The kinds of some completions.
pub open spec fn kinds_of(cs: Seq<CandidateView>) -> Seq<Option<i32>> {
    cs.map_values(|c: CandidateView| c.kind)
}

/// The kinds of some completions.
fn kinds(cs: &[Candidate]) -> (r: Vec<Option<i32>>)
    ensures
        r@ == kinds_of(all_views(cs@)),
{
    let mut out: Vec<Option<i32>> = Vec::new();
    for i in 0..cs.len()
        invariant
            out@ == kinds_of(all_views(cs@)).take(i as int),
    {
        out.push(cs[i].kind);
        proof {
            assert(kinds_of(all_views(cs@)).take(i + 1) =~= kinds_of(all_views(cs@)).take(
                i as int,
            ).push(cs@[i as int].kind));
        }
    }
    proof {
        lemma_take_all(kinds_of(all_views(cs@)));
    }
    out
}

/// Completions with the names of their kinds.
pub open spec fn items_named(cs: Seq<CandidateView>, names: Seq<Option<Seq<char>>>) -> Seq<
    CompletionItemView,
> {
    Seq::new(
        cs.len(),
        |i: int|
            CompletionItemView {
                label: cs[i].label,
                kind: if cs[i].kind is Some {
                    name_at(names, i)
                } else {
                    None
                },
                detail: cs[i].detail,
            },
    )
}

/// Completions with the names of their kinds.
fn name_items(cs: &[Candidate], names: &[Option<String>]) -> (r: Vec<CompletionItem>)
    ensures
        all_views(r@) == items_named(all_views(cs@), name_texts(names@)),
{
    let ghost all = items_named(all_views(cs@), name_texts(names@));
    let mut out: Vec<CompletionItem> = Vec::new();
    for i in 0..cs.len()
        invariant
            all == items_named(all_views(cs@), name_texts(names@)),
            all_views(out@) == all.take(i as int),
    {
        let ghost before = out@;
        let kind = if cs[i].kind.is_some() {
            nth_name(names, i)
        } else {
            None
        };
        let detail = match &cs[i].detail {
            Some(d) => Some(d.clone()),
            None => None,
        };
        out.push(CompletionItem { label: cs[i].label.clone(), kind, detail });
        proof {
            lemma_views_push(before, out@.last());
            assert(out@.last()@ == all[i as int]);
            assert(all.take(i + 1) =~= all.take(i as int).push(all[i as int]));
        }
    }
    proof {
        lemma_take_all(all);
    }
    out
}

/// At most `max` of the items.
pub open spec fn at_most<T>(s: Seq<T>, max: usize) -> Seq<T> {
    if max < s.len() {
        s.take(max as int)
    } else {
        s
    }
}

/// What `lean_completions` comes to.
pub type CompletionsSaid = Result<CompletionsResultView, ErrorView>;

/// After the names of the kinds came.
pub open spec fn completions_named(
    cs: Seq<CandidateView>,
    prefix: Seq<char>,
    max: usize,
) -> Waiting<CompletionsSaid> {
    |r: ReplyView|
        Dialogue::Finish(
            Ok(
                CompletionsResultView {
                    items: at_most(
                        completions_sorted(items_named(cs, r.names_told()), prefix),
                        max,
                    ),
                },
            ),
        )
}

/// After the completions came.
pub open spec fn completions_told(
    content: Seq<char>,
    line: u32,
    column: u32,
    max: usize,
) -> Waiting<CompletionsSaid> {
    |r: ReplyView|
        match r {
            ReplyView::Values(raw) => {
                let cs = candidates_of(raw);
                if cs.len() == 0 {
                    Dialogue::Finish(Ok(CompletionsResultView { items: Seq::empty() }))
                } else {
                    Dialogue::Ask(
                        RequestView::KindNames { kinds: kinds_of(cs) },
                        completions_named(cs, prefix_of(content, line, column), max),
                    )
                }
            },
            _ => Dialogue::Finish(Err(lsp_failure("get_completions"@, r.trouble()))),
        }
}

/// Asks for the completions in a file that was read.
pub open spec fn completions_within(path: Seq<char>, line: u32, column: u32, max: usize) -> spec_fn(
    ReadSaid,
) -> Dialogue<CompletionsSaid> {
    |res: ReadSaid|
        match res {
            Ok(content) => Dialogue::Ask(
                RequestView::Completions {
                    path,
                    line: prior_of(line),
                    column: prior_of(column),
                },
                completions_told(content, line, column, max),
            ),
            Err(e) => Dialogue::Finish(Err(e)),
        }
}

/// The whole of `lean_completions`.
pub open spec fn completions_dialogue(
    path: Seq<char>,
    line: u32,
    column: u32,
    max: usize,
) -> Dialogue<CompletionsSaid> {
    followed(file_dialogue(path), completions_within(path, line, column, max))
}

/// `lean_completions` at work.
pub enum CompletionsCall {
    /// Waits for the content of the file.
    Reading { call: FileRead, path: String, line: u32, column: u32, max: usize },
    /// Waits for the completions.
    Asking { content: String, line: u32, column: u32, max: usize },
    /// Waits for the names of the kinds.
    Naming { cs: Vec<Candidate>, prefix: String, max: usize },
}

impl Waits for CompletionsCall {
    type Out = Result<CompletionsResult, LeanToolError>;

    type Said = CompletionsSaid;

    open spec fn said(o: Self::Out) -> CompletionsSaid {
        result_view(o)
    }

    open spec fn valid(self) -> bool {
        true
    }

    open spec fn waiting(self) -> Waiting<CompletionsSaid> {
        match self {
            CompletionsCall::Reading { call, path, line, column, max } => waiting_first(
                call.waiting(),
                completions_within(path@, line, column, max),
            ),
            CompletionsCall::Asking { content, line, column, max } => completions_told(
                content@,
                line,
                column,
                max,
            ),
            CompletionsCall::Naming { cs, prefix, max } => completions_named(
                all_views(cs@),
                prefix@,
                max,
            ),
        }
    }

    open spec fn admits(self, r: ReplyView) -> bool {
        true
    }
}

impl CompletionsCall {
    /// Goes on with the reading.
    fn read(
        t: Turn<FileRead, Result<String, LeanToolError>>,
        path: String,
        line: u32,
        column: u32,
        max: usize,
    ) -> (r: Turn<CompletionsCall, Result<CompletionsResult, LeanToolError>>)
        ensures
            forall|d: Dialogue<ReadSaid>| #[trigger]
                begins(t, d) ==> begins(
                    r,
                    followed(d, completions_within(path@, line, column, max)),
                ),
    {
        match t {
            Turn::Ask(q, call) => {
                proof {
                    lemma_followed(
                        q@,
                        call.waiting(),
                        completions_within(path@, line, column, max),
                    );
                }
                Turn::Ask(q, CompletionsCall::Reading { call, path, line, column, max })
            },
            Turn::Done(Ok(content)) => Turn::Ask(
                Request::Completions {
                    path,
                    line: prior_number(line),
                    column: prior_number(column),
                },
                CompletionsCall::Asking { content, line, column, max },
            ),
            Turn::Done(Err(e)) => Turn::Done(Err(e)),
        }
    }
}

impl Call for CompletionsCall {
    fn accepts(&self, reply: &Reply) -> (r: bool) {
        true
    }

    fn resume(self, reply: Reply) -> (t: Turn<Self, Self::Out>) {
        match self {
            CompletionsCall::Reading { call, path, line, column, max } => CompletionsCall::read(
                call.resume(reply),
                path,
                line,
                column,
                max,
            ),
            CompletionsCall::Asking { content, line, column, max } => match reply.values() {
                Ok(raw) => {
                    let cs = candidates(&raw);
                    proof {
                        assert(all_views(cs@).len() == cs@.len());
                    }
                    if cs.len() == 0 {
                        let items: Vec<CompletionItem> = Vec::new();
                        proof {
                            assert(all_views(items@) =~= Seq::empty());
                        }
                        return Turn::Done(Ok(CompletionsResult { items }));
                    }
                    let prefix = extract_prefix(content.as_str(), line, column);
                    Turn::Ask(
                        Request::KindNames { kinds: kinds(&cs) },
                        CompletionsCall::Naming { cs, prefix, max },
                    )
                },
                Err(m) => Turn::Done(Err(lsp_error("get_completions", m))),
            },
            CompletionsCall::Naming { cs, prefix, max } => {
                let items = name_items(&cs, &reply.names_told());
                let mut items = sort_completions(items, prefix.as_str());
                let ghost before = items@;
                if max < items.len() {
                    items.truncate(max);
                    proof {
                        assert(all_views(items@) =~= all_views(before).take(max as int));
                    }
                }
                Turn::Done(Ok(CompletionsResult { items }))
            },
        }
    }
}

/// What can stand at a place of a file, at most `max_completions` of it. `line`
/// and `column` count from 1.
pub fn handle_lean_completions(
    file_path: &str,
    line: u32,
    column: u32,
    max_completions: usize,
) -> (t: Turn<CompletionsCall, Result<CompletionsResult, LeanToolError>>)
    ensures
        begins(t, completions_dialogue(file_path@, line, column, max_completions)),
{
    CompletionsCall::read(
        open_and_read(file_path),
        file_path.to_owned(),
        line,
        column,
        max_completions,
    )
}

} // verus!
