//! What profiling tells of a theorem, in terms of its file and of what the profiler wrote.
use crate::error::ErrorView;
use crate::lists::lemma_filter_map_is;
use crate::patterns::{declared_name, escaped, header_of, is_match_of, regex_matches};
use crate::protocol::{ends_well, ReplyView, RequestView};
use crate::text::{
    byte_len, byte_take, contains_of, decimal_of, ends_with_of, join_of, lemma_split_behind,
    lemma_split_join, lines_of, split_of, starts_with_of, trim_end_of, trim_of, trim_start_set_of,
};
use crate::tools::answers::{hearing, unheard, Heard};
use crate::tools::findings::{lemma_passed, words_of};
use crate::tools::lake_build::combined;
use crate::tools::profile::{
    about_of, all_noted, bullet_space_of, bulleted, bullets_of, categories_of, category_of,
    comment_open, header_end_from, header_stops, is_reported, items_between, lemma_place, line_for,
    next_declaration, opens_proof, profile_dialogue, profile_of, proof_line_from, shown_text,
    subject_of, summary_from, summary_line, tactic_of, taken, theorem_source, theorem_start, timed,
    trace_of, traces_of, untimed, with_step, CategoryTimeView, ProfileSaid, ProofItemView,
    ProofTimesView, SubjectView, TimesView, TraceEntryView,
};
use vstd::prelude::*;

verus! {

// ---------------------------------------------------------------------------
// The theorem's own file
// ---------------------------------------------------------------------------

/// A block comment is open where one began on an earlier line and has not ended since.
pub proof fn lemma_comment_told(lines: Seq<Seq<char>>, n: int)
    requires
        0 <= n <= lines.len(),
    ensures
        comment_open(lines, n) <==> exists|k: int|
            0 <= k < n && contains_of(#[trigger] lines[k], "/-"@) && forall|j: int|
                k <= j < n ==> !contains_of(#[trigger] lines[j], "-/"@),
    decreases n,
{
    if n > 0 {
        lemma_comment_told(lines, n - 1);
        if comment_open(lines, n) {
            if comment_open(lines, n - 1) {
                let k = choose|k: int|
                    0 <= k < n - 1 && contains_of(#[trigger] lines[k], "/-"@) && forall|j: int|
                        k <= j < n - 1 ==> !contains_of(#[trigger] lines[j], "-/"@);
                assert(contains_of(lines[k], "/-"@));
                assert forall|j: int| k <= j < n implies !contains_of(
                    #[trigger] lines[j],
                    "-/"@,
                ) by {}
            } else {
                assert(contains_of(lines[n - 1], "/-"@));
            }
        }
        if exists|k: int|
            0 <= k < n && contains_of(#[trigger] lines[k], "/-"@) && forall|j: int|
                k <= j < n ==> !contains_of(#[trigger] lines[j], "-/"@) {
            let k = choose|k: int|
                0 <= k < n && contains_of(#[trigger] lines[k], "/-"@) && forall|j: int|
                    k <= j < n ==> !contains_of(#[trigger] lines[j], "-/"@);
            assert(!contains_of(lines[n - 1], "-/"@));
            if k < n - 1 {
                assert(contains_of(lines[k], "/-"@));
            }
        }
    }
}

/// Whether a line ends the header: outside of comments, it is neither blank nor a comment
/// nor of the header, and begins a declaration.
pub open spec fn ends_header(lines: Seq<Seq<char>>, i: int) -> bool {
    let s = trim_of(lines[i]);
    &&& !comment_open(lines, i + 1)
    &&& s.len() > 0
    &&& !starts_with_of(s, "--"@)
    &&& !header_of(lines[i])
    &&& !starts_with_of(s, "namespace"@)
    &&& !starts_with_of(s, "section"@)
    &&& declared_name(lines[i]) is Some || starts_with_of(s, "@["@) || starts_with_of(
        s,
        "private "@,
    ) || starts_with_of(s, "protected "@)
}

/// The header goes up to the first line that ends it, or to the end of the file.
pub proof fn lemma_header_told(lines: Seq<Seq<char>>, i: int)
    requires
        0 <= i <= lines.len(),
    ensures
        i <= header_end_from(lines, i) <= lines.len(),
        header_end_from(lines, i) < lines.len() ==> ends_header(lines, header_end_from(lines, i)),
        forall|j: int| i <= j < header_end_from(lines, i) ==> !#[trigger] ends_header(lines, j),
    decreases lines.len() - i,
{
    if i < lines.len() {
        assert(header_stops(lines, i) == ends_header(lines, i));
        if !header_stops(lines, i) {
            lemma_header_told(lines, i + 1);
        }
    }
}

/// A declaration goes up to the next line that declares a name, or to the end of the file.
pub proof fn lemma_declaration_end(lines: Seq<Seq<char>>, i: int)
    requires
        0 <= i <= lines.len(),
    ensures
        i <= next_declaration(lines, i) <= lines.len(),
        next_declaration(lines, i) < lines.len() ==> declared_name(
            lines[next_declaration(lines, i)],
        ) is Some,
        forall|j: int|
            i <= j < next_declaration(lines, i) ==> declared_name(#[trigger] lines[j]) is None,
    decreases lines.len() - i,
{
    if i < lines.len() && declared_name(lines[i]) is None {
        lemma_declaration_end(lines, i + 1);
    }
}

/// The theorem's own file: all lines of the header, an empty line, and all lines of the
/// declaration.
pub proof fn lemma_own_file(lines: Seq<Seq<char>>, target_line: int)
    requires
        1 <= target_line <= lines.len(),
        forall|i: int| 0 <= i < lines.len() ==> !(#[trigger] lines[i]).contains('\n'),
    ensures
        ({
            let end = header_end_from(lines, 0);
            let header = if end == 0 {
                seq![Seq::<char>::empty()]
            } else {
                lines.take(end)
            };
            split_of(theorem_source(lines, target_line), '\n') == header + seq![
                Seq::<char>::empty(),
            ] + lines.subrange(target_line - 1, next_declaration(lines, target_line)) + seq![
                Seq::<char>::empty(),
            ]
        }),
{
    reveal_strlit("\n");
    reveal_strlit("\n\n");
    assert("\n"@ =~= seq!['\n']);
    lemma_header_told(lines, 0);
    lemma_declaration_end(lines, target_line);
    let h = header_end_from(lines, 0);
    let header = lines.take(h);
    let own = lines.subrange(target_line - 1, next_declaration(lines, target_line));
    let above = join_of(header, "\n"@);
    let below = join_of(own, "\n"@);
    assert forall|i: int| 0 <= i < header.len() implies !(#[trigger] header[i]).contains('\n') by {
        assert(!lines[i].contains('\n'));
    }
    assert forall|i: int| 0 <= i < own.len() implies !(#[trigger] own[i]).contains('\n') by {
        assert(!lines[target_line - 1 + i].contains('\n'));
    }
    if h > 0 {
        lemma_split_join(header, '\n');
    } else {
        assert(above =~= Seq::empty());
        assert(split_of(above, '\n') =~= seq![Seq::<char>::empty()]);
    }
    lemma_split_join(own, '\n');
    let once = above.push('\n');
    let twice = once.push('\n');
    assert(once.drop_last() =~= above);
    assert(twice.drop_last() =~= once);
    let rest = below.push('\n');
    assert(rest.drop_last() =~= below);
    lemma_split_behind(twice, rest, '\n');
    let source = theorem_source(lines, target_line);
    assert(source =~= twice + rest);
    assert(split_of(once, '\n') == split_of(above, '\n').push(Seq::empty()));
    assert(split_of(twice, '\n') == split_of(once, '\n').push(Seq::empty()));
    assert(split_of(twice, '\n').drop_last() =~= split_of(above, '\n').push(Seq::empty()));
    assert(split_of(rest, '\n') == own.push(Seq::empty()));
    assert(split_of(above, '\n').push(Seq::empty()) + own.push(Seq::empty()) =~= split_of(
        above,
        '\n',
    ) + seq![Seq::<char>::empty()] + own + seq![Seq::<char>::empty()]);
}

/// A proof begins behind the first line that has `:= by` or ends in ` by`, white space
/// aside.
pub proof fn lemma_proof_begins(lines: Seq<Seq<char>>, i: int)
    requires
        0 <= i <= lines.len(),
    ensures
        ({
            let opens = |l: Seq<char>|
                contains_of(l, ":= by"@) || ends_with_of(trim_end_of(l), " by"@);
            match proof_line_from(lines, i) {
                Some(k) => i <= k < lines.len() && opens(lines[k]) && forall|j: int|
                    i <= j < k ==> !opens(#[trigger] lines[j]),
                None => forall|j: int| i <= j < lines.len() ==> !opens(#[trigger] lines[j]),
            }
        }),
    decreases lines.len() - i,
{
    if i < lines.len() && !opens_proof(lines[i]) {
        lemma_proof_begins(lines, i + 1);
    }
}

/// What is taken off the start of a text are characters of a set, and what is left begins
/// with none of them.
pub proof fn lemma_start_taken(s: Seq<char>, set: Seq<char>)
    ensures
        ({
            let left = trim_start_set_of(s, set);
            let n = s.len() - left.len();
            &&& 0 <= n
            &&& left == s.skip(n)
            &&& forall|i: int| 0 <= i < n ==> set.contains(#[trigger] s[i])
            &&& left.len() > 0 ==> !set.contains(left[0])
        }),
    decreases s.len(),
{
    if s.len() > 0 && set.contains(s[0]) {
        lemma_start_taken(s.skip(1), set);
        let left = trim_start_set_of(s, set);
        let n = s.len() - left.len();
        assert(s.skip(1).skip(n - 1) =~= s.skip(n));
        assert forall|i: int| 0 <= i < n implies set.contains(#[trigger] s[i]) by {
            if i > 0 {
                assert(s.skip(1)[i - 1] == s[i]);
            }
        }
    } else {
        assert(s.skip(0) =~= s);
    }
}

/// The marks of a list, and with blanks what stands before an item.
pub proof fn lemma_bullets(c: char)
    ensures
        bullets_of().contains(c) <==> c == '*' || c == '-' || c == '\u{b7}',
        bullet_space_of().contains(c) <==> c == '*' || c == '-' || c == '\u{b7}' || c == ' ' || c
            == '\t',
{
    let b = bullets_of();
    let s = bullet_space_of();
    assert(b[0] == '\u{b7}' && b[1] == '*' && b[2] == '-');
    assert(s[0] == '\u{b7}' && s[1] == '*' && s[2] == '-' && s[3] == ' ' && s[4] == '\t');
}

/// Whether a line has an item: it is neither blank nor a comment.
pub open spec fn has_item(line: Seq<char>) -> bool {
    trim_of(line).len() > 0 && !starts_with_of(trim_of(line), "--"@)
}

/// Whether an item tells what stands on a line.
pub open spec fn item_told(line: Seq<char>, item: ProofItemView) -> bool {
    let s = trim_of(line);
    &&& item.content == trim_start_set_of(s, bullet_space_of())
    &&& item.is_bullet <==> s[0] == '*' || s[0] == '-' || s[0] == '\u{b7}'
}

/// The items of some lines: one for each line that has one, in their order, and no others.
pub proof fn lemma_items_told(lines: Seq<Seq<char>>, from: int, to: int)
    requires
        0 <= from <= to <= lines.len() <= usize::MAX,
    ensures
        ({
            let items = items_between(lines, from, to);
            &&& forall|a: int|
                0 <= a < items.len() ==> {
                    let item = #[trigger] items[a];
                    &&& from < item.line_no <= to
                    &&& has_item(lines[item.line_no - 1])
                    &&& item_told(lines[item.line_no - 1], item)
                }
            &&& forall|a: int, b: int|
                0 <= a < b < items.len() ==> (#[trigger] items[a]).line_no < (
                #[trigger] items[b]).line_no
            &&& forall|k: int|
                from <= k < to && has_item(#[trigger] lines[k]) ==> exists|a: int|
                    0 <= a < items.len() && (#[trigger] items[a]).line_no == k + 1
        }),
    decreases to - from,
{
    let items = items_between(lines, from, to);
    if from < to {
        lemma_items_told(lines, from, to - 1);
        let before = items_between(lines, from, to - 1);
        let line = lines[to - 1];
        if has_item(line) {
            lemma_bullets(trim_of(line)[0]);
            assert(items[before.len() as int].line_no == to);
        }
        assert forall|a: int| 0 <= a < items.len() implies ({
            let item = #[trigger] items[a];
            &&& from < item.line_no <= to
            &&& has_item(lines[item.line_no - 1])
            &&& item_told(lines[item.line_no - 1], item)
        }) by {
            if a < before.len() {
                assert(items[a] == before[a]);
            }
        }
        assert forall|k: int| from <= k < to && has_item(#[trigger] lines[k]) implies exists|a: int|
            0 <= a < items.len() && (#[trigger] items[a]).line_no == k + 1 by {
            if k < to - 1 {
                let a = choose|a: int|
                    0 <= a < before.len() && (#[trigger] before[a]).line_no == k + 1;
                assert(items[a].line_no == k + 1);
            }
        }
    }
}

// ---------------------------------------------------------------------------
// What the profiler wrote
// ---------------------------------------------------------------------------

/// The summary begins with the first line that has its words, or not at all.
pub proof fn lemma_summary_begins(lines: Seq<Seq<char>>, i: int)
    requires
        0 <= i <= lines.len(),
    ensures
        i <= summary_from(lines, i) <= lines.len(),
        summary_from(lines, i) < lines.len() ==> contains_of(
            lines[summary_from(lines, i)],
            "cumulative profiling times:"@,
        ),
        forall|j: int|
            i <= j < summary_from(lines, i) ==> !contains_of(
                #[trigger] lines[j],
                "cumulative profiling times:"@,
            ),
    decreases lines.len() - i,
{
    if i < lines.len() && !summary_line(lines[i]) {
        lemma_summary_begins(lines, i + 1);
    }
}

/// A group of a match; empty where it took no part.
pub open spec fn group_or_empty(m: Seq<Option<Seq<char>>>, i: int) -> Seq<char> {
    if i < m.len() && m[i] is Some {
        m[i]->0
    } else {
        Seq::empty()
    }
}

/// Whether a step tells what a line of the profiler says.
pub open spec fn step_told(line: Seq<char>, step: TraceEntryView) -> bool {
    let m = regex_matches(r"^(\s*)\[([^\]]+)\]\s+\[([\d.]+)\]\s+(.+)$"@, line)[0];
    &&& step.depth == (byte_len(group_or_empty(m, 1)) / 2) as usize
    &&& step.class == group_or_empty(m, 2)
    &&& step.seconds == group_or_empty(m, 3)
    &&& step.message == group_or_empty(m, 4)
}

/// The steps are those of the lines above the summary that match, all of them in their
/// order.
pub proof fn lemma_steps_told(lines: Seq<Seq<char>>)
    ensures
        ({
            let told = lines.take(summary_from(lines, 0)).filter(
                |l: Seq<char>|
                    regex_matches(r"^(\s*)\[([^\]]+)\]\s+\[([\d.]+)\]\s+(.+)$"@, l).len() > 0,
            );
            &&& traces_of(lines).len() == told.len()
            &&& forall|i: int|
                0 <= i < told.len() ==> step_told(told[i], #[trigger] traces_of(lines)[i])
        }),
{
    let above = lines.take(summary_from(lines, 0));
    let keep = |l: Seq<char>|
        regex_matches(r"^(\s*)\[([^\]]+)\]\s+\[([\d.]+)\]\s+(.+)$"@, l).len() > 0;
    lemma_passed(above, keep);
    lemma_filter_map_is(
        above,
        |l: Seq<char>| trace_of(l),
        keep,
        |l: Seq<char>| trace_of(l)->0,
    );
    let told = above.filter(keep);
    assert forall|i: int| 0 <= i < told.len() implies step_told(
        told[i],
        #[trigger] traces_of(lines)[i],
    ) by {
        assert(keep(told[i]));
    }
}

/// Whether a time tells what a line of the summary says.
pub open spec fn time_told(line: Seq<char>, time: CategoryTimeView) -> bool {
    let m = regex_matches(r"^\s+(\S+(?:\s+\S+)*)\s+([\d.]+)(ms|s)$"@, line)[0];
    &&& time.category == group_or_empty(m, 1)
    &&& time.time == group_or_empty(m, 2)
    &&& time.unit == group_or_empty(m, 3)
}

/// The times of the summary's lines, all of them in their order.
pub open spec fn summary_times(lines: Seq<Seq<char>>) -> Seq<CategoryTimeView> {
    lines.skip(summary_from(lines, 0)).filter_map(|l: Seq<char>| category_of(l))
}

/// The times are those of the summary's lines that match.
pub proof fn lemma_times_told(lines: Seq<Seq<char>>)
    ensures
        categories_of(lines) == all_noted(summary_times(lines)),
        ({
            let told = lines.skip(summary_from(lines, 0)).filter(
                |l: Seq<char>|
                    !contains_of(l, "cumulative profiling times:"@) && regex_matches(
                        r"^\s+(\S+(?:\s+\S+)*)\s+([\d.]+)(ms|s)$"@,
                        l,
                    ).len() > 0,
            );
            &&& summary_times(lines).len() == told.len()
            &&& forall|i: int|
                0 <= i < told.len() ==> time_told(told[i], #[trigger] summary_times(lines)[i])
        }),
{
    let below = lines.skip(summary_from(lines, 0));
    let keep = |l: Seq<char>|
        !contains_of(l, "cumulative profiling times:"@) && regex_matches(
            r"^\s+(\S+(?:\s+\S+)*)\s+([\d.]+)(ms|s)$"@,
            l,
        ).len() > 0;
    lemma_passed(below, keep);
    lemma_filter_map_is(
        below,
        |l: Seq<char>| category_of(l),
        keep,
        |l: Seq<char>| category_of(l)->0,
    );
    let told = below.filter(keep);
    assert forall|i: int| 0 <= i < told.len() implies time_told(
        told[i],
        #[trigger] summary_times(lines)[i],
    ) by {
        assert(keep(told[i]));
    }
}

/// Nothing is noted that was not given.
pub proof fn lemma_noted_given(times: Seq<CategoryTimeView>)
    ensures
        forall|k: int|
            0 <= k < all_noted(times).len() ==> times.contains(#[trigger] all_noted(times)[k]),
    decreases times.len(),
{
    if times.len() > 0 {
        let init = times.drop_last();
        lemma_noted_given(init);
        lemma_place(all_noted(init), times.last().category, 0);
        assert(times[times.len() - 1] == times.last());
        assert forall|k: int| 0 <= k < all_noted(times).len() implies times.contains(
            #[trigger] all_noted(times)[k],
        ) by {
            let x = all_noted(times)[k];
            if x != times.last() {
                assert(all_noted(init)[k] == x);
                assert(init.contains(x));
                let j = choose|j: int| 0 <= j < init.len() && init[j] == x;
                assert(times[j] == x);
            }
        }
    }
}

/// All categories are told to the user but these five.
pub proof fn lemma_reported(category: Seq<char>)
    ensures
        is_reported(category) <==> category != "parsing"@ && category != "import"@ && category
            != "linting"@ && category != "initialization"@ && category != "interpretation"@,
{
    let hidden = seq![
        "import"@,
        "initialization"@,
        "parsing"@,
        "interpretation"@,
        "linting"@,
    ];
    assert(hidden[0] == "import"@ && hidden[1] == "initialization"@ && hidden[2] == "parsing"@);
    assert(hidden[3] == "interpretation"@ && hidden[4] == "linting"@);
}

// ---------------------------------------------------------------------------
// Steps and lines
// ---------------------------------------------------------------------------

/// Whether a step is the proof itself: it is one of the theorem's value.
pub open spec fn is_value(traces: Seq<TraceEntryView>, about: Seq<bool>, i: int) -> bool {
    traces[i].class == "Elab.definition.value"@ && i < about.len() && about[i]
}

/// Whether a step is a part of the proof that was done on its own.
pub open spec fn is_async(traces: Seq<TraceEntryView>, name: Seq<char>, i: int) -> bool {
    traces[i].class == "Elab.async"@ && contains_of(traces[i].message, "proof of "@ + name)
}

/// Whether a step is the last before step `n` that is the proof itself.
pub open spec fn last_value(
    traces: Seq<TraceEntryView>,
    about: Seq<bool>,
    v: int,
    n: int,
) -> bool {
    &&& 0 <= v < n
    &&& is_value(traces, about, v)
    &&& forall|w: int| v < w < n ==> !#[trigger] is_value(traces, about, w)
}

/// Whether a step stands behind the beginning of the proof and is a tactic.
pub open spec fn is_tactic(
    traces: Seq<TraceEntryView>,
    about: Seq<bool>,
    name: Seq<char>,
    i: int,
) -> bool {
    &&& !is_value(traces, about, i) && !is_async(traces, name, i)
    &&& exists|v: int| 0 <= v < i && #[trigger] is_value(traces, about, v)
    &&& traces[i].class == "Elab.step"@
    &&& !starts_with_of(traces[i].message, "expected type:"@)
}

/// Whether the proof ends before a step: the step is nested no further than the proof.
pub open spec fn ends_proof(
    traces: Seq<TraceEntryView>,
    about: Seq<bool>,
    name: Seq<char>,
    i: int,
) -> bool {
    &&& !is_value(traces, about, i) && !is_async(traces, name, i)
    &&& exists|v: int|
        #[trigger] last_value(traces, about, v, i) && traces[i].depth <= traces[v].depth
}

/// Whether the time of a step counts for the whole proof, before step `n`: the step is the
/// proof itself or a part done on its own, and the proof did not begin anew behind it.
pub open spec fn counts(
    traces: Seq<TraceEntryView>,
    about: Seq<bool>,
    name: Seq<char>,
    i: int,
    n: int,
) -> bool {
    &&& is_value(traces, about, i) || is_async(traces, name, i)
    &&& forall|w: int| i < w < n ==> !#[trigger] is_value(traces, about, w)
}

/// The lines that have a step before step `j`.
pub open spec fn laid_before(lines: Seq<(usize, usize)>, j: int) -> Seq<(usize, usize)> {
    lines.filter(|p: (usize, usize)| p.1 < j)
}

/// The line that is found for step `j`.
pub open spec fn line_found(
    traces: Seq<TraceEntryView>,
    items: Seq<ProofItemView>,
    lines: Seq<(usize, usize)>,
    j: int,
) -> Option<usize> {
    line_for(
        tactic_of(traces[j].message),
        bulleted(traces[j].message),
        items,
        taken(laid_before(lines, j)),
        0,
    )
}

/// Whether the steps before step `n` are laid out: the steps that count for the whole proof
/// are known, and each tactic that is nested as far as the first is laid over the line that
/// is found for it, where one is.
pub open spec fn laid_out(
    traces: Seq<TraceEntryView>,
    about: Seq<bool>,
    name: Seq<char>,
    items: Seq<ProofItemView>,
    st: TimesView,
    n: int,
) -> bool {
    &&& st.value_depth is None <==> forall|v: int|
        0 <= v < n ==> !#[trigger] is_value(traces, about, v)
    &&& st.value_depth matches Some(d) ==> exists|v: int|
        #[trigger] last_value(traces, about, v, n) && traces[v].depth == d
    &&& forall|a: int, b: int| 0 <= a < b < st.total_of.len() ==> st.total_of[a] < st.total_of[b]
    &&& forall|a: int|
        0 <= a < st.total_of.len() ==> (#[trigger] st.total_of[a]) < n && counts(
            traces,
            about,
            name,
            st.total_of[a] as int,
            n,
        )
    &&& forall|j: int|
        0 <= j < n && #[trigger] counts(traces, about, name, j, n) ==> st.total_of.contains(
            j as usize,
        )
    &&& st.tactic_depth is None <==> forall|j: int|
        0 <= j < n ==> !#[trigger] is_tactic(traces, about, name, j)
    &&& st.tactic_depth matches Some(d) ==> exists|t: int|
        {
            &&& 0 <= t < n
            &&& #[trigger] is_tactic(traces, about, name, t)
            &&& traces[t].depth == d
            &&& forall|j: int| 0 <= j < t ==> !#[trigger] is_tactic(traces, about, name, j)
        }
    &&& forall|a: int, b: int|
        0 <= a < b < st.lines.len() ==> (#[trigger] st.lines[a]).1 < (#[trigger] st.lines[b]).1
    &&& forall|a: int|
        0 <= a < st.lines.len() ==> {
            let p = #[trigger] st.lines[a];
            &&& p.1 < n
            &&& is_tactic(traces, about, name, p.1 as int)
            &&& st.tactic_depth == Some(traces[p.1 as int].depth)
            &&& line_found(traces, items, st.lines, p.1 as int) == Some(p.0)
        }
    &&& forall|j: int|
        0 <= j < n && #[trigger] is_tactic(traces, about, name, j) && st.tactic_depth == Some(
            traces[j].depth,
        ) ==> match line_found(traces, items, st.lines, j) {
            Some(line) => st.lines.contains((line, j as usize)),
            None => forall|a: int| 0 <= a < st.lines.len() ==> (#[trigger] st.lines[a]).1 != j,
        }
}

/// Lines that were laid out stay so with one more behind them.
proof fn lemma_laid_before(lines: Seq<(usize, usize)>, p: (usize, usize), j: int)
    requires
        p.1 >= j,
    ensures
        laid_before(lines.push(p), j) == laid_before(lines, j),
{
    reveal(Seq::filter);
    assert(lines.push(p).drop_last() =~= lines);
}

/// All lines are laid out before a step that is behind all of theirs.
proof fn lemma_laid_all(lines: Seq<(usize, usize)>, n: int)
    requires
        forall|a: int| 0 <= a < lines.len() ==> (#[trigger] lines[a]).1 < n,
    ensures
        laid_before(lines, n) == lines,
    decreases lines.len(),
{
    reveal(Seq::filter);
    if lines.len() > 0 {
        assert(lines[lines.len() - 1].1 < n);
        assert forall|a: int| 0 <= a < lines.drop_last().len() implies (
        #[trigger] lines.drop_last()[a]).1 < n by {
            assert(lines[a].1 < n);
        }
        lemma_laid_all(lines.drop_last(), n);
        assert(lines.drop_last().push(lines.last()) =~= lines);
    }
}

/// A step that is no tactic changes nothing of the lines.
proof fn lemma_lines_stay(
    traces: Seq<TraceEntryView>,
    about: Seq<bool>,
    name: Seq<char>,
    items: Seq<ProofItemView>,
    st: TimesView,
    next: TimesView,
    i: int,
)
    requires
        0 <= i < traces.len() <= usize::MAX,
        laid_out(traces, about, name, items, st, i),
        !is_tactic(traces, about, name, i),
        next.lines == st.lines,
        next.tactic_depth == st.tactic_depth,
        next.value_depth is None <==> forall|v: int|
            0 <= v < i + 1 ==> !#[trigger] is_value(traces, about, v),
        next.value_depth matches Some(d) ==> exists|v: int|
            #[trigger] last_value(traces, about, v, i + 1) && traces[v].depth == d,
        forall|a: int, b: int| 0 <= a < b < next.total_of.len()
            ==> next.total_of[a] < next.total_of[b],
        forall|a: int|
            0 <= a < next.total_of.len() ==> (#[trigger] next.total_of[a]) < i + 1 && counts(
                traces,
                about,
                name,
                next.total_of[a] as int,
                i + 1,
            ),
        forall|j: int|
            0 <= j < i + 1 && #[trigger] counts(traces, about, name, j, i + 1)
                ==> next.total_of.contains(j as usize),
    ensures
        laid_out(traces, about, name, items, next, i + 1),
{
    if st.tactic_depth is Some {
        let t = choose|t: int|
            {
                &&& 0 <= t < i
                &&& #[trigger] is_tactic(traces, about, name, t)
                &&& traces[t].depth == st.tactic_depth->0
                &&& forall|j: int| 0 <= j < t ==> !#[trigger] is_tactic(traces, about, name, j)
            };
        assert(0 <= t < i + 1);
    }
}

/// Each step is laid out, up to the end of the proof. Where that is, is handed back.
pub proof fn lemma_steps_laid(
    traces: Seq<TraceEntryView>,
    about: Seq<bool>,
    name: Seq<char>,
    items: Seq<ProofItemView>,
    st: TimesView,
    i: int,
) -> (n: int)
    requires
        0 <= i <= traces.len() <= usize::MAX,
        laid_out(traces, about, name, items, st, i),
        forall|j: int| 0 <= j < i ==> !#[trigger] ends_proof(traces, about, name, j),
    ensures
        i <= n <= traces.len(),
        n < traces.len() ==> ends_proof(traces, about, name, n),
        forall|j: int| 0 <= j < n ==> !#[trigger] ends_proof(traces, about, name, j),
        laid_out(traces, about, name, items, timed(traces, about, name, items, st, i), n),
    decreases traces.len() - i,
{
    if i >= traces.len() {
        i
    } else {
        let e = traces[i];
        if is_value(traces, about, i) {
            let next = TimesView { value_depth: Some(e.depth), total_of: seq![i as usize], ..st };
            assert(last_value(traces, about, i, i + 1));
            assert forall|j: int|
                0 <= j < i + 1 && #[trigger] counts(traces, about, name, j, i + 1)
                implies next.total_of.contains(j as usize) by {
                assert(next.total_of[0] == i as usize);
            }
            lemma_lines_stay(traces, about, name, items, st, next, i);
            lemma_steps_laid(traces, about, name, items, next, i + 1)
        } else {
            if st.value_depth is Some {
                let v = choose|v: int|
                    #[trigger] last_value(traces, about, v, i) && traces[v].depth
                        == st.value_depth->0;
                assert(last_value(traces, about, v, i + 1));
            }
            assert forall|j: int| 0 <= j < i implies #[trigger] counts(traces, about, name, j, i)
                == counts(traces, about, name, j, i + 1) by {}
            if is_async(traces, name, i) {
                let next = TimesView { total_of: st.total_of.push(i as usize), ..st };
                assert forall|j: int|
                    0 <= j < i + 1 && #[trigger] counts(traces, about, name, j, i + 1)
                    implies next.total_of.contains(j as usize) by {
                    if j < i {
                        assert(counts(traces, about, name, j, i));
                        let a = choose|a: int|
                            0 <= a < st.total_of.len() && st.total_of[a] == j as usize;
                        assert(next.total_of[a] == j as usize);
                    } else {
                        assert(next.total_of[st.total_of.len() as int] == i as usize);
                    }
                }
                assert forall|a: int| 0 <= a < next.total_of.len() implies (
                #[trigger] next.total_of[a]) < i + 1 && counts(
                    traces,
                    about,
                    name,
                    next.total_of[a] as int,
                    i + 1,
                ) by {
                    if a < st.total_of.len() {
                        assert(counts(traces, about, name, st.total_of[a] as int, i));
                    }
                }
                lemma_lines_stay(traces, about, name, items, st, next, i);
                lemma_steps_laid(traces, about, name, items, next, i + 1)
            } else {
                assert forall|a: int| 0 <= a < st.total_of.len() implies (
                #[trigger] st.total_of[a]) < i + 1 && counts(
                    traces,
                    about,
                    name,
                    st.total_of[a] as int,
                    i + 1,
                ) by {
                    assert(counts(traces, about, name, st.total_of[a] as int, i));
                }
                assert forall|j: int|
                    0 <= j < i + 1 && #[trigger] counts(traces, about, name, j, i + 1)
                    implies st.total_of.contains(j as usize) by {
                    assert(counts(traces, about, name, j, i));
                }
                match st.value_depth {
                    None => {
                        lemma_lines_stay(traces, about, name, items, st, st, i);
                        lemma_steps_laid(traces, about, name, items, st, i + 1)
                    },
                    Some(d) => {
                        let v = choose|v: int|
                            #[trigger] last_value(traces, about, v, i) && traces[v].depth == d;
                        if e.depth <= d {
                            assert(last_value(traces, about, v, i));
                            assert(ends_proof(traces, about, name, i));
                            i
                        } else {
                            assert(!ends_proof(traces, about, name, i)) by {
                                if ends_proof(traces, about, name, i) {
                                    let w = choose|w: int|
                                        #[trigger] last_value(traces, about, w, i)
                                            && traces[i].depth <= traces[w].depth;
                                    assert(w == v);
                                }
                            }
                            let next = with_step(e, i as usize, items, st);
                            assert(is_value(traces, about, v));
                            lemma_step_laid(traces, about, name, items, st, i);
                            lemma_steps_laid(traces, about, name, items, next, i + 1)
                        }
                    },
                }
            }
        }
    }
}

/// A step behind the beginning of the proof is laid out.
proof fn lemma_step_laid(
    traces: Seq<TraceEntryView>,
    about: Seq<bool>,
    name: Seq<char>,
    items: Seq<ProofItemView>,
    st: TimesView,
    i: int,
)
    requires
        0 <= i < traces.len() <= usize::MAX,
        laid_out(traces, about, name, items, st, i),
        !is_value(traces, about, i),
        !is_async(traces, name, i),
        st.value_depth is Some,
        exists|v: int| #[trigger]
            last_value(traces, about, v, i + 1) && traces[v].depth == st.value_depth->0,
        forall|a: int|
            0 <= a < st.total_of.len() ==> (#[trigger] st.total_of[a]) < i + 1 && counts(
                traces,
                about,
                name,
                st.total_of[a] as int,
                i + 1,
            ),
        forall|j: int|
            0 <= j < i + 1 && #[trigger] counts(traces, about, name, j, i + 1)
                ==> st.total_of.contains(j as usize),
    ensures
        laid_out(traces, about, name, items, with_step(traces[i], i as usize, items, st), i + 1),
{
    let e = traces[i];
    let next = with_step(e, i as usize, items, st);
    let v = choose|v: int| #[trigger]
        last_value(traces, about, v, i + 1) && traces[v].depth == st.value_depth->0;
    assert(is_value(traces, about, v));
    assert(v < i);
    if !is_tactic(traces, about, name, i) {
        lemma_lines_stay(traces, about, name, items, st, st, i);
    } else {
        let depth = match st.tactic_depth {
            Some(d) => d,
            None => e.depth,
        };
        assert(next.tactic_depth == Some(depth));
        if st.tactic_depth is Some {
            let t = choose|t: int|
                {
                    &&& 0 <= t < i
                    &&& #[trigger] is_tactic(traces, about, name, t)
                    &&& traces[t].depth == depth
                    &&& forall|j: int| 0 <= j < t ==> !#[trigger] is_tactic(traces, about, name, j)
                };
            assert(0 <= t < i + 1);
        } else {
            assert(is_tactic(traces, about, name, i));
            if st.lines.len() > 0 {
                assert(is_tactic(traces, about, name, st.lines[0].1 as int));
            }
        }
        lemma_laid_all(st.lines, i);
        assert(next.lines == st.lines || (next.lines.len() == st.lines.len() + 1
            && next.lines.drop_last() == st.lines && next.lines.last().1 == i)) by {
            if next.lines != st.lines {
                assert(next.lines.drop_last() =~= st.lines);
            }
        }
        assert forall|j: int| 0 <= j <= i implies #[trigger] laid_before(next.lines, j)
            == laid_before(st.lines, j) by {
            if next.lines != st.lines {
                assert(next.lines =~= st.lines.push(next.lines.last()));
                lemma_laid_before(st.lines, next.lines.last(), j);
            }
        }
        assert forall|a: int| 0 <= a < next.lines.len() implies ({
            let p = #[trigger] next.lines[a];
            &&& p.1 < i + 1
            &&& is_tactic(traces, about, name, p.1 as int)
            &&& next.tactic_depth == Some(traces[p.1 as int].depth)
            &&& line_found(traces, items, next.lines, p.1 as int) == Some(p.0)
        }) by {
            if a < st.lines.len() {
                assert(next.lines[a] == st.lines[a]);
                let j = st.lines[a].1 as int;
                assert(laid_before(next.lines, j) == laid_before(st.lines, j));
            } else {
                assert(laid_before(next.lines, i) == laid_before(st.lines, i));
            }
        }
        assert forall|j: int|
            0 <= j < i + 1 && #[trigger] is_tactic(traces, about, name, j) && next.tactic_depth
                == Some(traces[j].depth) implies (match line_found(traces, items, next.lines, j) {
            Some(line) => next.lines.contains((line, j as usize)),
            None => forall|a: int| 0 <= a < next.lines.len() ==> (#[trigger] next.lines[a]).1 != j,
        }) by {
            assert(laid_before(next.lines, j) == laid_before(st.lines, j));
            if j < i {
                assert(st.tactic_depth is Some);
                match line_found(traces, items, st.lines, j) {
                    Some(line) => {
                        let a = choose|a: int|
                            0 <= a < st.lines.len() && st.lines[a] == (line, j as usize);
                        assert(next.lines[a] == (line, j as usize));
                    },
                    None => {},
                }
            } else {
                if next.lines.len() > st.lines.len() {
                    assert(next.lines[st.lines.len() as int] == next.lines.last());
                }
            }
        }
    }
}

/// What is told of a proof: its steps are laid out up to its end.
pub proof fn lemma_proof_laid(
    traces: Seq<TraceEntryView>,
    about: Seq<bool>,
    name: Seq<char>,
    items: Seq<ProofItemView>,
) -> (n: int)
    requires
        traces.len() <= usize::MAX,
    ensures
        0 <= n <= traces.len(),
        n < traces.len() ==> ends_proof(traces, about, name, n),
        forall|j: int| 0 <= j < n ==> !#[trigger] ends_proof(traces, about, name, j),
        laid_out(traces, about, name, items, timed(traces, about, name, items, untimed(), 0), n),
{
    lemma_steps_laid(traces, about, name, items, untimed(), 0)
}

/// The tactic of a message is its first line, without white space around it and without
/// the marks before it; it is one behind a mark where the message begins with one.
pub proof fn lemma_tactic_told(message: Seq<char>)
    ensures
        lines_of(message).len() > 0 ==> tactic_of(message) == trim_start_set_of(
            trim_of(lines_of(message)[0]),
            bullet_space_of(),
        ),
        bulleted(message) <==> tactic_of(message).len() > 0 && trim_of(message).len() > 0 && (
        trim_of(message)[0] == '*' || trim_of(message)[0] == '-' || trim_of(message)[0]
            == '\u{b7}'),
{
    if trim_of(message).len() > 0 {
        lemma_bullets(trim_of(message)[0]);
    }
}

// ---------------------------------------------------------------------------
// Profiling
// ---------------------------------------------------------------------------

/// Whether a theorem was found at a line (from 1) of a file.
pub open spec fn subject_told(
    content: Seq<char>,
    theorem_line: u32,
    subject: Result<SubjectView, ErrorView>,
) -> bool {
    let lines = lines_of(content);
    if 1 <= theorem_line <= lines.len() {
        match declared_name(lines[theorem_line - 1]) {
            Some(name) => {
                let own = lines_of(theorem_source(lines, theorem_line as int));
                match proof_line_from(own, 0) {
                    Some(k) => {
                        &&& subject is Ok
                        &&& subject->Ok_0.theorem_line == theorem_line
                        &&& subject->Ok_0.source_start == theorem_start(lines)
                        &&& subject->Ok_0.name == name
                        &&& subject->Ok_0.source == theorem_source(lines, theorem_line as int)
                        &&& subject->Ok_0.items == items_between(own, k + 1, own.len() as int)
                    },
                    None => subject is Err && subject->Err_0 == ErrorView::Other(
                        "No 'by' proof found in theorem"@,
                    ),
                }
            },
            None => subject is Err && subject->Err_0 == ErrorView::Other(
                "No theorem/lemma/def at line "@ + decimal_of(theorem_line as nat),
            ),
        }
    } else {
        subject is Err && subject->Err_0 == (ErrorView::LineOutOfRange {
            line: theorem_line as nat,
            total: lines.len(),
        })
    }
}

/// Whether what the profiler wrote of a theorem is told.
pub open spec fn profile_told(subject: SubjectView, output: Seq<char>, p: ProofTimesView) -> bool {
    let about = p.traces.map_values(
        |e: TraceEntryView| is_match_of(r"\b"@ + escaped(subject.name) + r"\b"@, e.message),
    );
    let times = timed(p.traces, about, subject.name, subject.items, untimed(), 0);
    &&& p.theorem_line == subject.theorem_line
    &&& p.source_start == subject.source_start
    &&& p.source_lines == lines_of(subject.source)
    &&& p.traces == traces_of(lines_of(output))
    &&& p.lines == times.lines
    &&& p.total_of == times.total_of
    &&& p.categories == categories_of(lines_of(output)).filter(
        |t: CategoryTimeView| is_reported(t.category),
    )
}

/// What the profiler wrote of a theorem is told.
pub proof fn lemma_profile_told(subject: SubjectView, output: Seq<char>)
    ensures
        profile_told(subject, output, profile_of(subject, output)),
{
    let all = categories_of(lines_of(output));
    let keep = |t: CategoryTimeView| is_reported(t.category);
    let image = |t: CategoryTimeView| t;
    let f = |t: CategoryTimeView|
        if is_reported(t.category) {
            Some(t)
        } else {
            None
        };
    lemma_filter_map_is(all, f, keep, image);
    assert(all.filter(keep).map_values(image) =~= all.filter(keep));
    let p = profile_of(subject, output);
    assert(p.categories =~= all.filter(keep));
    let about = p.traces.map_values(
        |e: TraceEntryView| is_match_of(r"\b"@ + escaped(subject.name) + r"\b"@, e.message),
    );
    assert(about =~= about_of(p.traces, subject.name));
}

/// How profiling is to end: the theorem's own file is written, profiled and removed.
pub open spec fn profiling_told(
    path: Seq<char>,
    theorem_line: u32,
    temp_path: Seq<char>,
    seconds: Seq<char>,
) -> spec_fn(Heard, ProfileSaid) -> bool {
    |h: Heard, o: ProfileSaid|
        {
            &&& h.len() >= 1
            &&& h[0].0 == (RequestView::ReadPath { path })
            &&& match h[0].1 {
                ReplyView::Text(content) => match subject_of(content, theorem_line) {
                    Err(e) => h.len() == 1 && o is Err && o->Err_0 == e,
                    Ok(subject) => {
                        &&& h.len() >= 2
                        &&& h[1].0 == (RequestView::WriteFile {
                            path: temp_path,
                            content: subject.source,
                        })
                        &&& if h[1].1 is Done {
                            &&& h.len() == 4
                            &&& h[2].0 == (RequestView::RunLimited {
                                program: "lake"@,
                                args: seq![
                                    "env"@,
                                    "lean"@,
                                    "--profile"@,
                                    "-Dtrace.profiler=true"@,
                                    "-Dtrace.profiler.threshold=0"@,
                                ],
                                file: temp_path,
                                seconds,
                            })
                            &&& h[3].0 == (RequestView::RemoveFile { path: temp_path })
                            &&& match h[2].1 {
                                ReplyView::Command { stdout, stderr, .. } => o is Ok
                                    && profile_told(subject, combined(stdout, stderr), o->Ok_0),
                                ReplyView::TimedOut => o is Err && o->Err_0
                                    == ErrorView::LspTimeout(
                                    "Profiling timed out after "@ + seconds + "s"@,
                                ),
                                ReplyView::Interrupted(words) => o is Err && o->Err_0
                                    == ErrorView::Other("lean --profile failed: "@ + words),
                                _ => o is Err && o->Err_0 == ErrorView::Other(
                                    "Failed to run `lake env lean`: "@ + words_of(h[2].1),
                                ),
                            }
                        } else {
                            h.len() == 2 && o is Err && o->Err_0 == ErrorView::Other(
                                "Failed to write temp file: "@ + words_of(h[1].1),
                            )
                        }
                    },
                },
                _ => h.len() == 1 && o is Err && o->Err_0 == ErrorView::InvalidPath(
                    path + ": "@ + words_of(h[0].1),
                ),
            }
        }
}

/// Profiling tells what the profiler wrote of the theorem.
pub proof fn lemma_profiling_tells(
    path: Seq<char>,
    theorem_line: u32,
    temp_path: Seq<char>,
    seconds: Seq<char>,
)
    ensures
        ends_well(
            profile_dialogue(path, theorem_line, temp_path, seconds),
            hearing(),
            unheard(),
            profiling_told(path, theorem_line, temp_path, seconds),
        ),
        forall|content: Seq<char>|
            subject_told(content, theorem_line, #[trigger] subject_of(content, theorem_line)),
{
    assert forall|subject: SubjectView, output: Seq<char>|
        profile_told(subject, output, #[trigger] profile_of(subject, output)) by {
        lemma_profile_told(subject, output);
    }
    reveal_with_fuel(ends_well, 6);
}

/// What is shown of a line is the line without white space around it, or its first bytes,
/// no more than 60.
pub proof fn lemma_shown_told(lines: Seq<Seq<char>>, line: int)
    requires
        1 <= line <= lines.len(),
    ensures
        byte_len(trim_of(lines[line - 1])) <= 60 ==> shown_text(lines, line) == trim_of(
            lines[line - 1],
        ),
        byte_len(trim_of(lines[line - 1])) > 60 ==> shown_text(lines, line) == byte_take(
            trim_of(lines[line - 1]),
            60,
        ),
{
}

} // verus!
