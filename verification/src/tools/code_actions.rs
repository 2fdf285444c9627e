//! `lean_code_actions`: the code actions for a line of a file.
use crate::error::{result_view, ErrorView, LeanToolError};
use crate::json::{
    int_at, items_member, member_views, nat_or, text_member, text_or_empty, uint_at, views, Json,
    JsonView,
};
use crate::lists::{lemma_filter_map_is, lemma_filter_map_next, lemma_take_all, lemma_views_push};
use crate::models::{
    all_views, CodeAction, CodeActionEdit, CodeActionEditView, CodeActionView, CodeActionsResult,
    CodeActionsResultView,
};
use crate::position::{before_of, from_one, full_range, full_range_of, number_before, one_based};
use crate::protocol::{
    begins, lsp_error, lsp_failure, Call, Dialogue, Reply, ReplyView, Request, RequestView, Turn,
    Waiting, Waits,
};
use crate::text::same_text;
use vstd::prelude::*;
use vstd::string::*;

verus! {

// ---------------------------------------------------------------------------
// Ranges
// ---------------------------------------------------------------------------

/// A range: the line and column of its start, and those of its end, from 0.
pub type LspRange = (u32, u32, u32, u32);

/// The range of a diagnostic, its numbers as those of 32 bits, where it meets a
/// line.
pub open spec fn range_on(d: JsonView, line: u32) -> Option<LspRange> {
    match full_range(d) {
        Some(r) => {
            let sl = nat_or(uint_at(r, "start"@, "line"@), 0) as u32;
            let sc = nat_or(uint_at(r, "start"@, "character"@), 0) as u32;
            let el = nat_or(uint_at(r, "end"@, "line"@), 0) as u32;
            let ec = nat_or(uint_at(r, "end"@, "character"@), 0) as u32;
            if sl <= line && el >= line {
                Some((sl, sc, el, ec))
            } else {
                None
            }
        },
        None => None,
    }
}

/// The ranges of the diagnostics that meet a line.
pub open spec fn ranges_on(ds: Seq<JsonView>, line: u32) -> Seq<LspRange> {
    ds.filter_map(|d: JsonView| range_on(d, line))
}

/// A number of a range, and 0 where it is not given.
fn bound(range: &Json, a: &str, b: &str) -> (r: u32)
    ensures
        r == nat_or(uint_at(range@, a@, b@), 0) as u32,
{
    match range.uint_at(a, b) {
        Some(n) => n as u32,
        None => 0,
    }
}

/// The ranges of the diagnostics that meet a line (from 0).
pub fn extract_diagnostic_ranges(diagnostics: &[Json], target_line: u32) -> (r: Vec<LspRange>)
    ensures
        r@ == ranges_on(views(diagnostics@), target_line),
{
    let ghost ds = views(diagnostics@);
    let ghost f = |d: JsonView| range_on(d, target_line);
    let mut ranges: Vec<LspRange> = Vec::new();
    proof {
        assert(ranges@ =~= ds.take(0).filter_map(f));
    }
    for i in 0..diagnostics.len()
        invariant
            ds == views(diagnostics@),
            f == (|d: JsonView| range_on(d, target_line)),
            ranges@ == ds.take(i as int).filter_map(f),
    {
        proof {
            lemma_filter_map_next(ds, f, i as int);
            assert(ds[i as int] == diagnostics@[i as int]@);
        }
        if let Some(r) = full_range_of(&diagnostics[i]) {
            let start_line: u32 = bound(r, "start", "line");
            let start_col: u32 = bound(r, "start", "character");
            let end_line: u32 = bound(r, "end", "line");
            let end_col: u32 = bound(r, "end", "character");
            if start_line <= target_line && end_line >= target_line {
                ranges.push((start_line, start_col, end_line, end_col));
            }
        }
    }
    proof {
        lemma_take_all(ds);
    }
    ranges
}

// ---------------------------------------------------------------------------
// Titles
// ---------------------------------------------------------------------------

/// All diagnostics whose lines meet the line are asked about, in their order, each with
/// its range.
pub proof fn lemma_ranges_told(ds: Seq<JsonView>, line: u32)
    ensures
        ranges_on(ds, line) == ds.filter(
            |d: JsonView|
                {
                    let r = full_range(d)->0;
                    &&& d.member("fullRange"@) is Some || d.member("range"@) is Some
                    &&& nat_or(uint_at(r, "start"@, "line"@), 0) as u32 <= line
                    &&& line <= nat_or(uint_at(r, "end"@, "line"@), 0) as u32
                },
        ).map_values(
            |d: JsonView|
                {
                    let r = full_range(d)->0;
                    (
                        nat_or(uint_at(r, "start"@, "line"@), 0) as u32,
                        nat_or(uint_at(r, "start"@, "character"@), 0) as u32,
                        nat_or(uint_at(r, "end"@, "line"@), 0) as u32,
                        nat_or(uint_at(r, "end"@, "character"@), 0) as u32,
                    )
                },
        ),
{
    let keep = |d: JsonView|
        {
            let r = full_range(d)->0;
            &&& d.member("fullRange"@) is Some || d.member("range"@) is Some
            &&& nat_or(uint_at(r, "start"@, "line"@), 0) as u32 <= line
            &&& line <= nat_or(uint_at(r, "end"@, "line"@), 0) as u32
        };
    let image = |d: JsonView|
        {
            let r = full_range(d)->0;
            (
                nat_or(uint_at(r, "start"@, "line"@), 0) as u32,
                nat_or(uint_at(r, "start"@, "character"@), 0) as u32,
                nat_or(uint_at(r, "end"@, "line"@), 0) as u32,
                nat_or(uint_at(r, "end"@, "character"@), 0) as u32,
            )
        };
    lemma_filter_map_is(ds, |d: JsonView| range_on(d, line), keep, image);
}

/// The title of an action; empty where it has none.
pub open spec fn title_of(action: JsonView) -> Seq<char> {
    text_or_empty(text_member(action, "title"@))
}

/// Whether one of some actions has a title.
pub open spec fn has_title(actions: Seq<JsonView>, title: Seq<char>) -> bool {
    exists|i: int| 0 <= i < actions.len() && title_of(#[trigger] actions[i]) == title
}

/// Some actions and one more, where it has a title that none of them has.
pub open spec fn with_action(kept: Seq<JsonView>, action: JsonView) -> Seq<JsonView> {
    if title_of(action).len() == 0 || has_title(kept, title_of(action)) {
        kept
    } else {
        kept.push(action)
    }
}

/// Some actions and more of them, each title once.
pub open spec fn with_actions(kept: Seq<JsonView>, actions: Seq<JsonView>) -> Seq<JsonView>
    decreases actions.len(),
{
    if actions.len() == 0 {
        kept
    } else {
        with_action(with_actions(kept, actions.drop_last()), actions.last())
    }
}

/// Whether each action has a title, and no two the same.
pub open spec fn titles_unique(actions: Seq<JsonView>) -> bool {
    &&& forall|i: int| 0 <= i < actions.len() ==> title_of(#[trigger] actions[i]).len() > 0
    &&& forall|i: int, j: int|
        0 <= i < j < actions.len() ==> title_of(#[trigger] actions[i]) != title_of(
            #[trigger] actions[j],
        )
}

/// Taking in more actions keeps titles unique.
pub proof fn lemma_titles_unique(kept: Seq<JsonView>, actions: Seq<JsonView>)
    requires
        titles_unique(kept),
    ensures
        titles_unique(with_actions(kept, actions)),
    decreases actions.len(),
{
    if actions.len() > 0 {
        lemma_titles_unique(kept, actions.drop_last());
    }
}

/// Whatever title an action has is taken in.
pub proof fn lemma_titles_kept(kept: Seq<JsonView>, actions: Seq<JsonView>, i: int)
    requires
        0 <= i < actions.len(),
        title_of(actions[i]).len() > 0,
    ensures
        has_title(with_actions(kept, actions), title_of(actions[i])),
    decreases actions.len(),
{
    let init = with_actions(kept, actions.drop_last());
    let all = with_actions(kept, actions);
    if i < actions.len() - 1 {
        lemma_titles_kept(kept, actions.drop_last(), i);
        let j = choose|j: int| 0 <= j < init.len() && title_of(init[j]) == title_of(actions[i]);
        assert(all[j] == init[j]);
    } else if !has_title(init, title_of(actions[i])) {
        assert(all[all.len() - 1] == actions[i]);
    }
}

/// Whether one of some actions has a title.
fn title_known(actions: &[Json], title: &str) -> (r: bool)
    ensures
        r == has_title(views(actions@), title@),
{
    for i in 0..actions.len()
        invariant
            forall|j: int| 0 <= j < i ==> title_of(#[trigger] views(actions@)[j]) != title@,
    {
        proof {
            assert(views(actions@)[i as int] == actions@[i as int]@);
        }
        let known = match actions[i].text_member("title") {
            Some(t) => same_text(t, title),
            None => {
                proof {
                    reveal_strlit("");
                    assert(""@ =~= Seq::<char>::empty());
                }
                same_text("", title)
            },
        };
        if known {
            return true;
        }
    }
    false
}

/// Takes in more actions, each title once.
pub fn take_in(kept: Vec<Json>, actions: Vec<Json>) -> (r: Vec<Json>)
    ensures
        views(r@) == with_actions(views(kept@), views(actions@)),
{
    let ghost start = views(kept@);
    let ghost all = views(actions@);
    let mut kept = kept;
    for action in it: actions
        invariant
            all == views(it.seq()),
            views(kept@) == with_actions(start, all.take(it.index() as int)),
    {
        proof {
            let n = it.index() as int;
            assert(all.take(n + 1).drop_last() =~= all.take(n));
            assert(all.take(n + 1).last() == action@);
        }
        let title = match action.text_member("title") {
            Some(t) => t.to_owned(),
            None => String::new(),
        };
        if title.as_str().unicode_len() > 0 && !title_known(&kept, title.as_str()) {
            let ghost before = kept@;
            kept.push(action);
            proof {
                lemma_views_push(before, kept@.last());
            }
        }
    }
    proof {
        lemma_take_all(all);
    }
    kept
}

// ---------------------------------------------------------------------------
// Edits
// ---------------------------------------------------------------------------

/// Of some actions, those with a title are kept that come first with it, in their order:
/// one is left out only where it has no title, or where an earlier one has the same. The
/// places of those that are kept are handed back.
pub proof fn lemma_first_titles(actions: Seq<JsonView>) -> (places: Seq<int>)
    ensures
        places.len() == with_actions(Seq::empty(), actions).len(),
        forall|k: int|
            0 <= k < places.len() ==> 0 <= #[trigger] places[k] < actions.len() && with_actions(
                Seq::empty(),
                actions,
            )[k] == actions[places[k]],
        forall|k: int, l: int| 0 <= k < l < places.len() ==> places[k] < places[l],
        forall|j: int|
            0 <= j < actions.len() ==> (places.contains(j) <==> {
                &&& title_of(#[trigger] actions[j]).len() > 0
                &&& forall|i: int| 0 <= i < j
                    ==> title_of(#[trigger] actions[i]) != title_of(actions[j])
            }),
    decreases actions.len(),
{
    let kept = with_actions(Seq::empty(), actions);
    if actions.len() == 0 {
        Seq::empty()
    } else {
        let init = actions.drop_last();
        let before = lemma_first_titles(init);
        let kept0 = with_actions(Seq::empty(), init);
        let last = actions.len() - 1;
        let title = title_of(actions[last]);
        assert(has_title(kept0, title) && title.len() > 0 <==> (title.len() > 0 && exists|i: int|
            0 <= i < last && title_of(#[trigger] actions[i]) == title)) by {
            if has_title(kept0, title) {
                let k = choose|k: int| 0 <= k < kept0.len() && title_of(#[trigger] kept0[k])
                    == title;
                assert(kept0[k] == init[before[k]]);
                assert(title_of(actions[before[k]]) == title);
            }
            if title.len() > 0 && exists|i: int| 0 <= i < last
                && title_of(#[trigger] actions[i]) == title {
                let i = choose|i: int| 0 <= i < last && title_of(#[trigger] actions[i]) == title;
                lemma_title_kept(init, i, before);
            }
        }
        let places = if title.len() == 0 || has_title(kept0, title) {
            before
        } else {
            before.push(last)
        };
        assert forall|j: int| 0 <= j < actions.len() implies (places.contains(j) <==> {
            &&& title_of(#[trigger] actions[j]).len() > 0
            &&& forall|i: int| 0 <= i < j
                ==> title_of(#[trigger] actions[i]) != title_of(actions[j])
        }) by {
            if before.contains(j) {
                let k = choose|k: int| 0 <= k < before.len() && before[k] == j;
                assert(places[k] == j);
                assert(j < last);
            }
            if places.contains(j) && !before.contains(j) {
                let k = choose|k: int| 0 <= k < places.len() && places[k] == j;
                assert(k == before.len());
            }
            if j < last {
                assert(init[j] == actions[j]);
                assert forall|i: int| 0 <= i < j implies init[i] == actions[i] by {}
            } else {
                if places.len() > before.len() {
                    assert(places[before.len() as int] == j);
                }
            }
        }
        places
    }
}

/// The title of an action is that of one that is kept, or of none before it.
proof fn lemma_title_kept(actions: Seq<JsonView>, i: int, places: Seq<int>)
    requires
        0 <= i < actions.len(),
        title_of(actions[i]).len() > 0,
        places.len() == with_actions(Seq::empty(), actions).len(),
        forall|k: int|
            0 <= k < places.len() ==> 0 <= #[trigger] places[k] < actions.len() && with_actions(
                Seq::empty(),
                actions,
            )[k] == actions[places[k]],
        forall|j: int|
            0 <= j < actions.len() ==> (places.contains(j) <==> {
                &&& title_of(#[trigger] actions[j]).len() > 0
                &&& forall|i: int| 0 <= i < j
                    ==> title_of(#[trigger] actions[i]) != title_of(actions[j])
            }),
    ensures
        has_title(with_actions(Seq::empty(), actions), title_of(actions[i])),
    decreases i,
{
    let kept = with_actions(Seq::empty(), actions);
    if places.contains(i) {
        let k = choose|k: int| 0 <= k < places.len() && places[k] == i;
        assert(kept[k] == actions[places[k]]);
    } else {
        let e = choose|e: int| 0 <= e < i && title_of(#[trigger] actions[e])
            == title_of(actions[i]);
        lemma_title_kept(actions, e, places);
    }
}

/// Actions can be added in one go.
pub proof fn lemma_actions_together(kept: Seq<JsonView>, a: Seq<JsonView>, b: Seq<JsonView>)
    ensures
        with_actions(with_actions(kept, a), b) == with_actions(kept, a + b),
    decreases b.len(),
{
    if b.len() == 0 {
        assert(a + b =~= a);
    } else {
        lemma_actions_together(kept, a, b.drop_last());
        assert((a + b).drop_last() =~= a + b.drop_last());
        assert((a + b).last() == b.last());
    }
}

/// The edit (from 1) that a text edit of the language server stands for; none
/// where it has no range or no text.
pub open spec fn edit_of(edit: JsonView) -> Option<CodeActionEditView> {
    match (edit.member("range"@), text_member(edit, "newText"@)) {
        (Some(r), Some(new_text)) => Some(
            CodeActionEditView {
                new_text,
                start_line: one_based(int_at(r, "start"@, "line"@, 0)) as i64,
                start_column: one_based(int_at(r, "start"@, "character"@, 0)) as i64,
                end_line: one_based(int_at(r, "end"@, "line"@, 0)) as i64,
                end_column: one_based(int_at(r, "end"@, "character"@, 0)) as i64,
            },
        ),
        _ => None,
    }
}

/// The edits in a list, where there is one.
pub open spec fn edits_in(list: Option<Seq<JsonView>>) -> Seq<CodeActionEditView> {
    match list {
        Some(edits) => edits.filter_map(|e: JsonView| edit_of(e)),
        None => Seq::empty(),
    }
}

/// All edits of a list that have a range and a text are told, in their order: the text,
/// and the places (from 1) at which the range starts and ends.
pub proof fn lemma_edits_told(list: Seq<JsonView>)
    ensures
        edits_in(Some(list)) == list.filter(
            |e: JsonView| e.member("range"@) is Some && text_member(e, "newText"@) is Some,
        ).map_values(|e: JsonView| edit_of(e)->0),
        forall|e: JsonView|
            e.member("range"@) is Some && text_member(e, "newText"@) is Some ==> {
                let m = #[trigger] edit_of(e)->0;
                let r = e.member("range"@)->0;
                let sl = int_at(r, "start"@, "line"@, 0);
                let sc = int_at(r, "start"@, "character"@, 0);
                let el = int_at(r, "end"@, "line"@, 0);
                let ec = int_at(r, "end"@, "character"@, 0);
                &&& Some(m.new_text) == text_member(e, "newText"@)
                &&& sl < i64::MAX ==> m.start_line == sl + 1
                &&& sc < i64::MAX ==> m.start_column == sc + 1
                &&& el < i64::MAX ==> m.end_line == el + 1
                &&& ec < i64::MAX ==> m.end_column == ec + 1
            },
{
    lemma_filter_map_is(
        list,
        |e: JsonView| edit_of(e),
        |e: JsonView| e.member("range"@) is Some && text_member(e, "newText"@) is Some,
        |e: JsonView| edit_of(e)->0,
    );
}

/// The edits of some changes to documents.
pub open spec fn document_edits(changes: Seq<JsonView>) -> Seq<CodeActionEditView>
    decreases changes.len(),
{
    if changes.len() == 0 {
        Seq::empty()
    } else {
        document_edits(changes.drop_last()) + edits_in(items_member(changes.last(), "edits"@))
    }
}

/// The edits of changes by URI.
pub open spec fn uri_edits(changes: Seq<(Seq<char>, JsonView)>) -> Seq<CodeActionEditView>
    decreases changes.len(),
{
    if changes.len() == 0 {
        Seq::empty()
    } else {
        uri_edits(changes.drop_last()) + edits_in(changes.last().1.items())
    }
}

/// The edits of an action: those of its changes to documents, and those of its
/// changes by URI.
pub open spec fn edits_of(action: JsonView) -> Seq<CodeActionEditView> {
    let documents = match action.member2("edit"@, "documentChanges"@) {
        Some(v) => match v.items() {
            Some(changes) => document_edits(changes),
            None => Seq::empty(),
        },
        None => Seq::empty(),
    };
    let uris = match action.member2("edit"@, "changes"@) {
        Some(v) => match v.members() {
            Some(changes) => uri_edits(changes),
            None => Seq::empty(),
        },
        None => Seq::empty(),
    };
    documents + uris
}

/// The edit (from 1) that a text edit of the language server stands for.
pub fn convert_text_edit(edit: &Json) -> (r: Option<CodeActionEdit>)
    ensures
        match r {
            Some(e) => edit_of(edit@) == Some(e@),
            None => edit_of(edit@) is None,
        },
{
    let range = match edit.get("range") {
        Some(r) => r,
        None => return None,
    };
    let new_text = match edit.text_member("newText") {
        Some(t) => t,
        None => return None,
    };
    Some(
        CodeActionEdit {
            new_text: new_text.to_owned(),
            start_line: from_one(range.int_at("start", "line")),
            start_column: from_one(range.int_at("start", "character")),
            end_line: from_one(range.int_at("end", "line")),
            end_column: from_one(range.int_at("end", "character")),
        },
    )
}

/// Appends the edits of a list, where there is one.
fn add_edits(out: &mut Vec<CodeActionEdit>, list: Option<&Vec<Json>>)
    ensures
        all_views(final(out)@) == all_views(old(out)@) + edits_in(
            match list {
                Some(v) => Some(views(v@)),
                None => None,
            },
        ),
{
    let ghost start = all_views(out@);
    if let Some(edits) = list {
        let ghost all = views(edits@);
        let ghost f = |e: JsonView| edit_of(e);
        proof {
            assert(start + all.take(0).filter_map(f) =~= start);
        }
        for i in 0..edits.len()
            invariant
                all == views(edits@),
                f == (|e: JsonView| edit_of(e)),
                all_views(out@) == start + all.take(i as int).filter_map(f),
        {
            proof {
                lemma_filter_map_next(all, f, i as int);
                assert(all[i as int] == edits@[i as int]@);
            }
            if let Some(e) = convert_text_edit(&edits[i]) {
                let ghost before = out@;
                out.push(e);
                proof {
                    lemma_views_push(before, e);
                    assert(start + all.take(i as int).filter_map(f).push(e@) =~= (start
                        + all.take(i as int).filter_map(f)).push(e@));
                }
            }
        }
        proof {
            lemma_take_all(all);
        }
    } else {
        proof {
            assert(start + Seq::<CodeActionEditView>::empty() =~= start);
        }
    }
}

/// The edits of an action.
pub fn extract_edits(action: &Json) -> (r: Vec<CodeActionEdit>)
    ensures
        all_views(r@) == edits_of(action@),
{
    let mut edits: Vec<CodeActionEdit> = Vec::new();
    proof {
        assert(all_views(edits@) =~= Seq::empty());
    }
    let changes = match action.get2("edit", "documentChanges") {
        Some(v) => v.as_array(),
        None => None,
    };
    if let Some(changes) = changes {
        let ghost all = views(changes@);
        for i in 0..changes.len()
            invariant
                all == views(changes@),
                all_views(edits@) == document_edits(all.take(i as int)),
        {
            proof {
                assert(all.take(i + 1).drop_last() =~= all.take(i as int));
                assert(all.take(i + 1).last() == changes@[i as int]@);
            }
            add_edits(&mut edits, changes[i].items_member("edits"));
        }
        proof {
            lemma_take_all(all);
        }
    }
    let ghost documents = all_views(edits@);
    let changes = match action.get2("edit", "changes") {
        Some(v) => v.as_object(),
        None => None,
    };
    if let Some(changes) = changes {
        let ghost all = member_views(changes@);
        proof {
            assert(documents + uri_edits(all.take(0)) =~= documents);
        }
        for i in 0..changes.len()
            invariant
                all == member_views(changes@),
                all_views(edits@) == documents + uri_edits(all.take(i as int)),
        {
            proof {
                assert(all.take(i + 1).drop_last() =~= all.take(i as int));
                assert(all.take(i + 1).last() == (changes@[i as int].0@, changes@[i as int].1@));
            }
            let ghost so_far = uri_edits(all.take(i as int));
            let list = changes[i].1.as_array();
            add_edits(&mut edits, list);
            proof {
                let more = edits_in(changes@[i as int].1@.items());
                assert(documents + so_far + more =~= documents + (so_far + more));
            }
        }
        proof {
            lemma_take_all(all);
        }
    } else {
        proof {
            assert(documents + Seq::<CodeActionEditView>::empty() =~= documents);
        }
    }
    edits
}

/// What an action says.
pub open spec fn action_of(action: JsonView) -> CodeActionView {
    CodeActionView {
        title: title_of(action),
        is_preferred: match action.member("isPreferred"@) {
            Some(v) => v.boolean() == Some(true),
            None => false,
        },
        edits: edits_of(action),
    }
}

/// What an action says.
pub fn read_action(action: &Json) -> (r: CodeAction)
    ensures
        r@ == action_of(action@),
{
    let title = match action.text_member("title") {
        Some(t) => t.to_owned(),
        None => String::new(),
    };
    let is_preferred = match action.get("isPreferred") {
        Some(v) => match v.as_bool() {
            Some(b) => b,
            None => false,
        },
        None => false,
    };
    CodeAction { title, is_preferred, edits: extract_edits(action) }
}

// ---------------------------------------------------------------------------
// The tool
// ---------------------------------------------------------------------------

/// The edits of changes to documents are those of each change, one after the other.
pub proof fn lemma_document_edits(changes: Seq<JsonView>)
    ensures
        document_edits(changes) == changes.map_values(
            |c: JsonView| edits_in(items_member(c, "edits"@)),
        ).flatten(),
    decreases changes.len(),
{
    let f = |c: JsonView| edits_in(items_member(c, "edits"@));
    let all = changes.map_values(f);
    all.lemma_flatten_and_flatten_alt_are_equivalent();
    if changes.len() > 0 {
        let init = changes.drop_last();
        lemma_document_edits(init);
        init.map_values(f).lemma_flatten_and_flatten_alt_are_equivalent();
        assert(all.drop_last() =~= init.map_values(f));
    }
}

/// The edits of changes by URI are those of each URI, one after the other.
pub proof fn lemma_uri_edits(changes: Seq<(Seq<char>, JsonView)>)
    ensures
        uri_edits(changes) == changes.map_values(
            |c: (Seq<char>, JsonView)| edits_in(c.1.items()),
        ).flatten(),
    decreases changes.len(),
{
    let f = |c: (Seq<char>, JsonView)| edits_in(c.1.items());
    let all = changes.map_values(f);
    all.lemma_flatten_and_flatten_alt_are_equivalent();
    if changes.len() > 0 {
        let init = changes.drop_last();
        lemma_uri_edits(init);
        init.map_values(f).lemma_flatten_and_flatten_alt_are_equivalent();
        assert(all.drop_last() =~= init.map_values(f));
    }
}

/// An action is told with its title, with whether it is preferred, and with all edits
/// of its changes to documents and of its changes by URI.
pub proof fn lemma_action_told(action: JsonView)
    ensures
        text_member(action, "title"@) matches Some(t) ==> action_of(action).title == t,
        action_of(action).is_preferred <==> action.member("isPreferred"@) == Some(
            JsonView::Bool(true),
        ),
        ({
            let documents = match action.member2("edit"@, "documentChanges"@) {
                Some(JsonView::Array(changes)) => document_edits(changes),
                _ => Seq::empty(),
            };
            let uris = match action.member2("edit"@, "changes"@) {
                Some(JsonView::Object(changes)) => uri_edits(changes),
                _ => Seq::empty(),
            };
            action_of(action).edits == documents + uris
        }),
{
}

/// What `lean_code_actions` comes to.
pub type ActionsSaid = Result<CodeActionsResultView, ErrorView>;

/// After an action was resolved.
pub open spec fn action_resolved(
    actions: Seq<JsonView>,
    i: nat,
    done: Seq<CodeActionView>,
) -> Waiting<ActionsSaid>
    decreases actions.len() - i, 0nat,
{
    |r: ReplyView|
        match r {
            ReplyView::Value(action) => if i < actions.len() {
                resolve_from(actions, i + 1, done.push(action_of(action)))
            } else {
                Dialogue::Finish(Ok(CodeActionsResultView { actions: done }))
            },
            _ => Dialogue::Finish(Err(lsp_failure("get_code_action_resolve"@, r.trouble()))),
        }
}

/// Reads the actions from number `i` on; one that came without edits is first
/// resolved.
pub open spec fn resolve_from(
    actions: Seq<JsonView>,
    i: nat,
    done: Seq<CodeActionView>,
) -> Dialogue<ActionsSaid>
    decreases actions.len() - i, 1nat,
{
    if i >= actions.len() {
        Dialogue::Finish(Ok(CodeActionsResultView { actions: done }))
    } else if actions[i as int].member("edit"@) is Some {
        resolve_from(actions, i + 1, done.push(action_of(actions[i as int])))
    } else {
        Dialogue::Ask(
            RequestView::ResolveAction { action: actions[i as int] },
            action_resolved(actions, i, done),
        )
    }
}

/// After the actions for a range came.
pub open spec fn actions_told(
    path: Seq<char>,
    ranges: Seq<LspRange>,
    i: nat,
    kept: Seq<JsonView>,
) -> Waiting<ActionsSaid>
    decreases ranges.len() - i, 0nat,
{
    |r: ReplyView|
        match r {
            ReplyView::Values(actions) => if i < ranges.len() {
                collect_from(path, ranges, i + 1, with_actions(kept, actions))
            } else {
                resolve_from(kept, 0, Seq::empty())
            },
            _ => Dialogue::Finish(Err(lsp_failure("get_code_actions"@, r.trouble()))),
        }
}

/// Asks for the actions for the ranges from number `i` on, and then reads them.
pub open spec fn collect_from(
    path: Seq<char>,
    ranges: Seq<LspRange>,
    i: nat,
    kept: Seq<JsonView>,
) -> Dialogue<ActionsSaid>
    decreases ranges.len() - i, 1nat,
{
    if i >= ranges.len() {
        resolve_from(kept, 0, Seq::empty())
    } else {
        let range = ranges[i as int];
        Dialogue::Ask(
            RequestView::CodeActions {
                path,
                from_line: range.0,
                from_column: range.1,
                to_line: range.2,
                to_column: range.3,
            },
            actions_told(path, ranges, i, kept),
        )
    }
}

/// After the diagnostics came.
pub open spec fn actions_diagnosed(path: Seq<char>, line: u32) -> Waiting<ActionsSaid> {
    |r: ReplyView|
        match r {
            ReplyView::Value(raw) => {
                let all = match items_member(raw, "diagnostics"@) {
                    Some(ds) => ds,
                    None => Seq::empty(),
                };
                collect_from(path, ranges_on(all, before_of(line)), 0, Seq::empty())
            },
            _ => Dialogue::Finish(Err(lsp_failure("get_diagnostics"@, r.trouble()))),
        }
}

/// After the file was opened.
pub open spec fn actions_opened(path: Seq<char>, line: u32) -> Waiting<ActionsSaid> {
    |r: ReplyView|
        if r is Done {
            Dialogue::Ask(
                RequestView::Diagnostics {
                    path,
                    start_line: Some(before_of(line)),
                    end_line: Some(before_of(line)),
                    bounded: true,
                },
                actions_diagnosed(path, line),
            )
        } else {
            Dialogue::Finish(Err(lsp_failure("open_file"@, r.trouble())))
        }
}

/// The whole of `lean_code_actions`: the actions for the ranges of the
/// diagnostics on the line, each title once.
pub open spec fn actions_dialogue(path: Seq<char>, line: u32) -> Dialogue<ActionsSaid> {
    Dialogue::Ask(RequestView::OpenFile { path }, actions_opened(path, line))
}

/// `lean_code_actions` at work.
pub enum CodeActionsCall {
    /// Waits until the file is open.
    Opening { path: String, line: u32 },
    /// Waits for the diagnostics.
    Diagnosing { path: String, line: u32 },
    /// Waits for the actions for a range.
    Collecting { path: String, ranges: Vec<LspRange>, index: usize, kept: Vec<Json> },
    /// Waits for an action to be resolved.
    Resolving { actions: Vec<Json>, index: usize, done: Vec<CodeAction> },
}

impl Waits for CodeActionsCall {
    type Out = Result<CodeActionsResult, LeanToolError>;

    type Said = ActionsSaid;

    open spec fn said(o: Self::Out) -> ActionsSaid {
        result_view(o)
    }

    open spec fn valid(self) -> bool {
        match self {
            CodeActionsCall::Collecting { ranges, index, .. } => index < ranges@.len(),
            CodeActionsCall::Resolving { actions, index, .. } => index < actions@.len(),
            _ => true,
        }
    }

    open spec fn waiting(self) -> Waiting<ActionsSaid> {
        match self {
            CodeActionsCall::Opening { path, line } => actions_opened(path@, line),
            CodeActionsCall::Diagnosing { path, line } => actions_diagnosed(path@, line),
            CodeActionsCall::Collecting { path, ranges, index, kept } => actions_told(
                path@,
                ranges@,
                index as nat,
                views(kept@),
            ),
            CodeActionsCall::Resolving { actions, index, done } => action_resolved(
                views(actions@),
                index as nat,
                all_views(done@),
            ),
        }
    }

    open spec fn admits(self, r: ReplyView) -> bool {
        true
    }
}

impl CodeActionsCall {
    /// Reads actions up to the first that must be resolved.
    fn resolve(actions: Vec<Json>, index: usize, done: Vec<CodeAction>) -> (t: Turn<
        CodeActionsCall,
        Result<CodeActionsResult, LeanToolError>,
    >)
        requires
            index <= actions@.len(),
        ensures
            begins(t, resolve_from(views(actions@), index as nat, all_views(done@))),
    {
        let ghost all = views(actions@);
        let ghost start = resolve_from(all, index as nat, all_views(done@));
        let mut index: usize = index;
        let mut done = done;
        while index < actions.len() && actions[index].get("edit").is_some()
            invariant
                index <= actions@.len(),
                all == views(actions@),
                start == resolve_from(all, index as nat, all_views(done@)),
            decreases actions@.len() - index,
        {
            let ghost before = done@;
            done.push(read_action(&actions[index]));
            proof {
                assert(all[index as int] == actions@[index as int]@);
                lemma_views_push(before, done@.last());
            }
            index = index + 1;
        }
        if index < actions.len() {
            proof {
                assert(all[index as int] == actions@[index as int]@);
            }
            Turn::Ask(
                Request::ResolveAction { action: actions[index].duplicate() },
                CodeActionsCall::Resolving { actions, index, done },
            )
        } else {
            Turn::Done(Ok(CodeActionsResult { actions: done }))
        }
    }

    /// Asks for the actions for the next range.
    fn collect(path: String, ranges: Vec<LspRange>, index: usize, kept: Vec<Json>) -> (t: Turn<
        CodeActionsCall,
        Result<CodeActionsResult, LeanToolError>,
    >)
        requires
            index <= ranges@.len(),
        ensures
            begins(t, collect_from(path@, ranges@, index as nat, views(kept@))),
    {
        if index < ranges.len() {
            let range = ranges[index];
            let q = Request::CodeActions {
                path: path.clone(),
                from_line: range.0,
                from_column: range.1,
                to_line: range.2,
                to_column: range.3,
            };
            Turn::Ask(q, CodeActionsCall::Collecting { path, ranges, index, kept })
        } else {
            let done: Vec<CodeAction> = Vec::new();
            proof {
                assert(all_views(done@) =~= Seq::empty());
            }
            CodeActionsCall::resolve(kept, 0, done)
        }
    }
}

impl Call for CodeActionsCall {
    fn accepts(&self, reply: &Reply) -> (r: bool) {
        true
    }

    fn resume(self, reply: Reply) -> (t: Turn<Self, Self::Out>) {
        match self {
            CodeActionsCall::Opening { path, line } => match reply.done() {
                Ok(_) => {
                    let lsp_line: u32 = number_before(line);
                    Turn::Ask(
                        Request::Diagnostics {
                            path: path.clone(),
                            start_line: Some(lsp_line),
                            end_line: Some(lsp_line),
                            bounded: true,
                        },
                        CodeActionsCall::Diagnosing { path, line },
                    )
                },
                Err(m) => Turn::Done(Err(lsp_error("open_file", m))),
            },
            CodeActionsCall::Diagnosing { path, line } => match reply.value() {
                Ok(raw) => {
                    let none: Vec<Json> = Vec::new();
                    proof {
                        assert(views(none@) =~= Seq::empty());
                    }
                    let all = match raw.items_member("diagnostics") {
                        Some(ds) => ds,
                        None => &none,
                    };
                    let ranges = extract_diagnostic_ranges(all, number_before(line));
                    CodeActionsCall::collect(path, ranges, 0, Vec::new())
                },
                Err(m) => Turn::Done(Err(lsp_error("get_diagnostics", m))),
            },
            CodeActionsCall::Collecting { path, ranges, index, kept } => match reply.values() {
                Ok(actions) => {
                    let kept = take_in(kept, actions);
                    assert(index < ranges.len());
                    CodeActionsCall::collect(path, ranges, index + 1, kept)
                },
                Err(m) => Turn::Done(Err(lsp_error("get_code_actions", m))),
            },
            CodeActionsCall::Resolving { actions, index, done } => match reply.value() {
                Ok(action) => {
                    let mut done = done;
                    let ghost before = done@;
                    assert(index < actions.len());
                    done.push(read_action(&action));
                    proof {
                        lemma_views_push(before, done@.last());
                    }
                    CodeActionsCall::resolve(actions, index + 1, done)
                },
                Err(m) => Turn::Done(Err(lsp_error("get_code_action_resolve", m))),
            },
        }
    }
}

/// The code actions for a line (from 1) of a file.
pub fn handle_code_actions(file_path: &str, line: u32) -> (t: Turn<
    CodeActionsCall,
    Result<CodeActionsResult, LeanToolError>,
>)
    ensures
        begins(t, actions_dialogue(file_path@, line)),
{
    let path = file_path.to_owned();
    Turn::Ask(Request::OpenFile { path: path.clone() }, CodeActionsCall::Opening { path, line })
}

} // verus!
