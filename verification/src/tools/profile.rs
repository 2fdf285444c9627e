//! How long the lines of a proof take.
//!
//! A theorem is written to a file of its own, below the header of its file, and
//! Lean's profiler is run on it. What the profiler writes is then laid over the
//! lines of the proof. Times are kept as they were written.
use crate::error::{ErrorView, LeanToolError};
use crate::lists::{lemma_filter_map_next, lemma_take_all, lemma_views_push};
use crate::models::{all_views, opt_text};
use crate::patterns::{
    all_matches, declared_name, escape, escaped, find_group, group, group_of, header_of,
    is_header_line, is_match, is_match_of, match_texts, regex_matches, DECLARATION_PATTERN,
};
use crate::protocol::{
    begins, Call, Dialogue, Reply, ReplyView, Request, RequestView, Turn, Waiting, Waits,
};
use crate::text::{
    at_boundary, borrowed, byte_len, byte_take, char_in, chars_of, contains_of, decimal, decimal_of,
    ends_with, ends_with_of, glue, glue3, is_boundary, join_of, lemma_decimal_value,
    lemma_split_behind, lemma_split_join, lines, lines_of, owned, same_text, split_of, starts_with,
    starts_with_of, str_bytes, str_contains, str_prefix, str_starts_with, strs, text_of, texts,
    trim, trim_end, trim_end_of, trim_of, trim_start_set, trim_start_set_of, without_cr,
};
use crate::tools::lake_build::{combine, combined};
use std::collections::HashSet;
use vstd::prelude::*;
use vstd::slice::slice_subrange;
use vstd::string::*;

verus! {

broadcast use vstd::std_specs::hash::group_hash_axioms;

// ---------------------------------------------------------------------------
// The theorem and the header of its file
// ---------------------------------------------------------------------------

/// Whether a block comment is open behind the first `n` lines.
pub open spec fn comment_open(lines: Seq<Seq<char>>, n: int) -> bool
    decreases n,
{
    if n <= 0 || n > lines.len() {
        false
    } else {
        let line = lines[n - 1];
        (comment_open(lines, n - 1) || contains_of(line, "/-"@)) && !contains_of(line, "-/"@)
    }
}

/// Whether a line begins a declaration.
pub open spec fn begins_declaration(line: Seq<char>) -> bool {
    let s = trim_of(line);
    ||| declared_name(line) is Some
    ||| starts_with_of(s, "@["@)
    ||| starts_with_of(s, "private "@)
    ||| starts_with_of(s, "protected "@)
}

/// Whether a line outside of comments is one of a header, or empty, or a comment.
pub open spec fn of_header(line: Seq<char>) -> bool {
    let s = trim_of(line);
    ||| s.len() == 0
    ||| starts_with_of(s, "--"@)
    ||| header_of(line)
    ||| starts_with_of(s, "namespace"@)
    ||| starts_with_of(s, "section"@)
}

/// Whether the header ends before line `i` (from 0), if it goes that far.
pub open spec fn header_stops(lines: Seq<Seq<char>>, i: int) -> bool {
    !comment_open(lines, i + 1) && !of_header(lines[i]) && begins_declaration(lines[i])
}

/// The first line from `i` on before which the header ends.
pub open spec fn header_end_from(lines: Seq<Seq<char>>, i: int) -> int
    decreases lines.len() - i,
{
    if i >= lines.len() {
        lines.len() as int
    } else if header_stops(lines, i) {
        i
    } else {
        header_end_from(lines, i + 1)
    }
}

/// How many lines the header of a file has.
pub fn find_header_end(lines: &[&str]) -> (r: usize)
    ensures
        r == header_end_from(strs(lines@), 0),
        r <= lines@.len(),
{
    let ghost all = strs(lines@);
    let mut in_block = false;
    for i in 0..lines.len()
        invariant
            all == strs(lines@),
            in_block == comment_open(all, i as int),
            header_end_from(all, 0) == header_end_from(all, i as int),
    {
        let line = lines[i];
        proof {
            assert(all[i as int] == line@);
            assert(all[(i + 1) - 1] == line@);
        }
        let cs = chars_of(line);
        let s = text_of(trim(&cs));
        if str_contains(line, "/-") {
            in_block = true;
        }
        if str_contains(line, "-/") {
            in_block = false;
        }
        let kept = in_block || s.as_str().unicode_len() == 0 || str_starts_with(s.as_str(), "--")
            || is_header_line(line) || str_starts_with(s.as_str(), "namespace")
            || str_starts_with(s.as_str(), "section");
        if !kept && (is_match(DECLARATION_PATTERN, line) || str_starts_with(s.as_str(), "@[")
            || str_starts_with(s.as_str(), "private ") || str_starts_with(
            s.as_str(),
            "protected ",
        )) {
            return i;
        }
    }
    lines.len()
}

/// The first line from `i` on that declares something.
pub open spec fn next_declaration(lines: Seq<Seq<char>>, i: int) -> int
    decreases lines.len() - i,
{
    if i >= lines.len() {
        lines.len() as int
    } else if declared_name(lines[i]) is Some {
        i
    } else {
        next_declaration(lines, i + 1)
    }
}

/// Where the theorem that begins at line `start` (from 0) ends: before the next
/// declaration, or at the end of the file.
pub fn find_theorem_end(lines: &[&str], start: usize) -> (r: usize)
    requires
        start < usize::MAX,
    ensures
        r == next_declaration(strs(lines@), start + 1),
        start < lines@.len() ==> start < r <= lines@.len(),
{
    let ghost all = strs(lines@);
    let mut i: usize = start + 1;
    while i < lines.len()
        invariant
            all == strs(lines@),
            start < i,
            start < lines@.len() ==> i <= lines@.len(),
            next_declaration(all, start + 1) == next_declaration(all, i as int),
        decreases lines@.len() - i,
    {
        proof {
            assert(all[i as int] == lines@[i as int]@);
        }
        if is_match(DECLARATION_PATTERN, lines[i]) {
            return i;
        }
        i = i + 1;
    }
    lines.len()
}

/// The header of a file and one of its declarations, as a file of their own.
pub open spec fn theorem_source(lines: Seq<Seq<char>>, target_line: int) -> Seq<char> {
    join_of(lines.take(header_end_from(lines, 0)), "\n"@) + "\n\n"@ + join_of(
        lines.subrange(target_line - 1, next_declaration(lines, target_line)),
        "\n"@,
    ) + "\n"@
}

/// The line (from 1) of that file on which the declaration begins: it stands behind
/// the header and an empty line, and behind two empty lines where there is no header.
pub open spec fn theorem_start(lines: Seq<Seq<char>>) -> usize {
    let header_end = header_end_from(lines, 0) as usize;
    if header_end == 0 {
        3
    } else {
        header_end.wrapping_add(2)
    }
}

/// A header has no more lines than its file.
proof fn lemma_header_end(lines: Seq<Seq<char>>, i: int)
    requires
        0 <= i <= lines.len(),
    ensures
        i <= header_end_from(lines, i) <= lines.len(),
    decreases lines.len() - i,
{
    if i < lines.len() && !header_stops(lines, i) {
        lemma_header_end(lines, i + 1);
    }
}

/// The next declaration is in the file or at its end.
proof fn lemma_next_declaration(lines: Seq<Seq<char>>, i: int)
    requires
        0 <= i <= lines.len(),
    ensures
        i <= next_declaration(lines, i) <= lines.len(),
    decreases lines.len() - i,
{
    if i < lines.len() && declared_name(lines[i]) is None {
        lemma_next_declaration(lines, i + 1);
    }
}

/// In the file of its own, the line on which a declaration begins is the one that
/// it has in the file it comes from.
pub proof fn lemma_theorem_starts(lines: Seq<Seq<char>>, target_line: int)
    requires
        1 <= target_line <= lines.len(),
        lines.len() + 2 <= usize::MAX,
        forall|i: int| 0 <= i < lines.len() ==> !(#[trigger] lines[i]).contains('\n'),
    ensures
        theorem_start(lines) <= lines_of(theorem_source(lines, target_line)).len(),
        lines_of(theorem_source(lines, target_line))[theorem_start(lines) - 1] == without_cr(
            lines[target_line - 1],
        ),
{
    reveal_strlit("\n");
    reveal_strlit("\n\n");
    assert("\n"@ =~= seq!['\n']);
    lemma_header_end(lines, 0);
    lemma_next_declaration(lines, target_line);
    let h = header_end_from(lines, 0);
    let header = lines.take(h);
    let own = lines.subrange(target_line - 1, next_declaration(lines, target_line));
    let above = join_of(header, "\n"@);
    let below = join_of(own, "\n"@);
    assert forall|i: int| 0 <= i < header.len() implies !(#[trigger] header[i]).contains('\n') by {
        assert(!lines[i].contains('\n'));
    }
    assert forall|i: int| 0 <= i < own.len() implies !(#[trigger] own[i]).contains('\n') by {
        assert(!lines[target_line - 1 + i].contains('\n'));
    }
    if h > 0 {
        lemma_split_join(header, '\n');
    }
    lemma_split_join(own, '\n');
    assert(split_of(above, '\n').len() == if h == 0 {
        1
    } else {
        h
    });
    let once = above.push('\n');
    let twice = once.push('\n');
    assert(once.drop_last() =~= above);
    assert(twice.drop_last() =~= once);
    let rest = below.push('\n');
    assert(rest.drop_last() =~= below);
    lemma_split_behind(twice, rest, '\n');
    let source = theorem_source(lines, target_line);
    assert(source =~= twice + rest);
    let pieces = split_of(source, '\n');
    let n = theorem_start(lines) - 1;
    assert(split_of(once, '\n') == split_of(above, '\n').push(Seq::empty()));
    assert(split_of(twice, '\n') == split_of(once, '\n').push(Seq::empty()));
    assert(n == split_of(above, '\n').len() + 1);
    assert(split_of(rest, '\n') == own.push(Seq::empty()));
    assert(pieces[n] == own[0]);
    assert(pieces.len() > n + 1);
    assert(pieces.last().len() == 0);
}

/// Some lines as one text.
fn joined(lines: &[&str], from: usize, to: usize) -> (r: String)
    requires
        from <= to <= lines@.len(),
    ensures
        r@ == join_of(strs(lines@).subrange(from as int, to as int), "\n"@),
{
    let ghost all = strs(lines@);
    let mut part: Vec<String> = Vec::new();
    for i in from..to
        invariant
            from <= to <= lines@.len(),
            all == strs(lines@),
            texts(part@) == all.subrange(from as int, i as int),
    {
        let ghost before = part@;
        part.push(lines[i].to_owned());
        proof {
            assert(texts(part@) =~= texts(before).push(all[i as int]));
            assert(all.subrange(from as int, i + 1) =~= all.subrange(from as int, i as int).push(
                all[i as int],
            ));
        }
    }
    crate::text::join(&part, "\n")
}

/// The header of a file and the declaration at a line (from 1), as a file of
/// their own, with the declaration's name and the line (from 1) on which it
/// begins there.
pub fn extract_theorem_source(lines: &[&str], target_line: usize) -> (r: Result<
    (String, String, usize),
    LeanToolError,
>)
    requires
        1 <= target_line <= lines@.len(),
    ensures
        match r {
            Ok((source, name, start)) => {
                &&& declared_name(lines@[target_line - 1]@) == Some(name@)
                &&& source@ == theorem_source(strs(lines@), target_line as int)
                &&& start == theorem_start(strs(lines@))
            },
            Err(e) => {
                &&& declared_name(lines@[target_line - 1]@) is None
                &&& e@ == ErrorView::Other(
                    "No theorem/lemma/def at line "@ + decimal_of(target_line as nat),
                )
            },
        },
{
    let name = match find_group(DECLARATION_PATTERN, lines[target_line - 1], 2) {
        Some(name) => name,
        None => {
            return Err(
                LeanToolError::Other(
                    glue("No theorem/lemma/def at line ", decimal(target_line as u64).as_str()),
                ),
            );
        },
    };
    let header_end: usize = find_header_end(lines);
    let theorem_end: usize = find_theorem_end(lines, target_line - 1);
    proof {
        assert(strs(lines@).subrange(0, header_end as int) =~= strs(lines@).take(
            header_end as int,
        ));
    }
    let header = joined(lines, 0, header_end);
    let theorem = joined(lines, target_line - 1, theorem_end);
    let above = glue(header.as_str(), "\n\n");
    let source = glue3(above.as_str(), theorem.as_str(), "\n");
    let start: usize = if header_end == 0 {
        3
    } else {
        header_end.wrapping_add(2)
    };
    Ok((source, name, start))
}

/// Whether a proof begins behind a line.
pub open spec fn opens_proof(line: Seq<char>) -> bool {
    contains_of(line, ":= by"@) || ends_with_of(trim_end_of(line), " by"@)
}

/// The first line from `i` on behind which a proof begins.
pub open spec fn proof_line_from(lines: Seq<Seq<char>>, i: int) -> Option<int>
    decreases lines.len() - i,
{
    if i >= lines.len() {
        None
    } else if opens_proof(lines[i]) {
        Some(i)
    } else {
        proof_line_from(lines, i + 1)
    }
}

/// The first line (from 0) of a proof.
pub fn find_proof_start(source_lines: &[&str]) -> (r: Result<usize, LeanToolError>)
    ensures
        match r {
            Ok(n) => n >= 1 && proof_line_from(strs(source_lines@), 0) == Some(n - 1),
            Err(e) => {
                &&& proof_line_from(strs(source_lines@), 0) is None
                &&& e@ == ErrorView::Other("No 'by' proof found in theorem"@)
            },
        },
{
    let ghost all = strs(source_lines@);
    for i in 0..source_lines.len()
        invariant
            all == strs(source_lines@),
            proof_line_from(all, 0) == proof_line_from(all, i as int),
    {
        let line = source_lines[i];
        proof {
            assert(all[i as int] == line@);
        }
        let cs = chars_of(line);
        if str_contains(line, ":= by") || ends_with(trim_end(&cs), &chars_of(" by")) {
            return Ok(i + 1);
        }
    }
    Err(LeanToolError::Other("No 'by' proof found in theorem".to_owned()))
}

// ---------------------------------------------------------------------------
// The lines of a proof
// ---------------------------------------------------------------------------

/// A line of a proof.
#[derive(Debug, PartialEq, Eq)]
pub struct ProofItem {
    /// The line, from 1.
    pub line_no: usize,
    /// What stands on it, without bullets.
    pub content: String,
    /// Whether it begins with a bullet.
    pub is_bullet: bool,
}

/// What a [`ProofItem`] says.
pub struct ProofItemView {
    pub line_no: usize,
    pub content: Seq<char>,
    pub is_bullet: bool,
}

impl View for ProofItem {
    type V = ProofItemView;

    open spec fn view(&self) -> ProofItemView {
        ProofItemView {
            line_no: self.line_no,
            content: self.content@,
            is_bullet: self.is_bullet,
        }
    }
}

/// The bullets.
pub open spec fn bullets_of() -> Seq<char> {
    seq!['\u{b7}', '*', '-']
}

/// The bullets and the blanks that follow them.
pub open spec fn bullet_space_of() -> Seq<char> {
    seq!['\u{b7}', '*', '-', ' ', '\t']
}

/// The bullets.
fn bullets() -> (r: Vec<char>)
    ensures
        r@ == bullets_of(),
{
    let r: Vec<char> = vec!['\u{b7}', '*', '-'];
    assert(r@ =~= bullets_of());
    r
}

/// The bullets and the blanks that follow them.
fn bullet_space() -> (r: Vec<char>)
    ensures
        r@ == bullet_space_of(),
{
    let r: Vec<char> = vec!['\u{b7}', '*', '-', ' ', '\t'];
    assert(r@ =~= bullet_space_of());
    r
}

/// The item that a line stands for; none where it is empty or a comment.
pub open spec fn item_of(line: Seq<char>, line_no: usize) -> Option<ProofItemView> {
    let s = trim_of(line);
    if s.len() == 0 || starts_with_of(s, "--"@) {
        None
    } else {
        Some(
            ProofItemView {
                line_no,
                content: trim_start_set_of(s, bullet_space_of()),
                is_bullet: bullets_of().contains(s[0]),
            },
        )
    }
}

/// The items of the lines from `i` to `to`.
pub open spec fn items_between(lines: Seq<Seq<char>>, i: int, to: int) -> Seq<ProofItemView>
    decreases to - i,
{
    if i >= to {
        Seq::empty()
    } else {
        match item_of(lines[to - 1], to as usize) {
            Some(item) => items_between(lines, i, to - 1).push(item),
            None => items_between(lines, i, to - 1),
        }
    }
}

/// The items of the lines from line `proof_start` (from 0) on.
pub fn build_proof_items(source_lines: &[&str], proof_start: usize) -> (r: Vec<ProofItem>)
    ensures
        all_views(r@) == items_between(
            strs(source_lines@),
            proof_start as int,
            source_lines@.len() as int,
        ),
{
    let ghost all = strs(source_lines@);
    let mut items: Vec<ProofItem> = Vec::new();
    proof {
        assert(all_views(items@) =~= Seq::empty());
    }
    let mut i: usize = proof_start;
    while i < source_lines.len()
        invariant
            all == strs(source_lines@),
            proof_start <= i,
            proof_start <= source_lines@.len() ==> i <= source_lines@.len(),
            proof_start > source_lines@.len() ==> i == proof_start,
            all_views(items@) == items_between(all, proof_start as int, i as int),
        decreases source_lines@.len() - i,
    {
        let line = source_lines[i];
        proof {
            assert(all[(i + 1) - 1] == line@);
            assert((i + 1) as usize == i + 1);
        }
        let cs = chars_of(line);
        let s = trim(&cs);
        if s.len() > 0 && !starts_with(s, &chars_of("--")) {
            let ghost before = items@;
            let item = ProofItem {
                line_no: i + 1,
                content: text_of(trim_start_set(s, &bullet_space())),
                is_bullet: char_in(s[0], &bullets()),
            };
            items.push(item);
            proof {
                lemma_views_push(before, item);
            }
        }
        i = i + 1;
    }
    proof {
        if proof_start > source_lines@.len() {
            assert(items_between(all, proof_start as int, source_lines@.len() as int)
                =~= Seq::empty());
        }
    }
    items
}

/// The first 25 characters of a text.
pub open spec fn head_of(s: Seq<char>) -> Seq<char> {
    if s.len() <= 25 {
        s
    } else {
        s.take(25)
    }
}

/// The first 25 characters of a text.
fn head(s: &[char]) -> (r: &[char])
    ensures
        r@ == head_of(s@),
{
    if s.len() <= 25 {
        s
    } else {
        let r = slice_subrange(s, 0, 25);
        proof {
            assert(r@ =~= s@.take(25));
        }
        r
    }
}

/// Whether a tactic may stand on a line.
pub open spec fn suits(tactic: Seq<char>, is_bullet: bool, item: ProofItemView) -> bool {
    if is_bullet {
        item.is_bullet
    } else {
        item.content.len() > 0 && (starts_with_of(tactic, head_of(item.content))
            || starts_with_of(item.content, head_of(tactic)))
    }
}

/// The first line from item `i` on that is not used yet and on which a tactic
/// may stand.
pub open spec fn line_for(
    tactic: Seq<char>,
    is_bullet: bool,
    items: Seq<ProofItemView>,
    used: Set<usize>,
    i: int,
) -> Option<usize>
    decreases items.len() - i,
{
    if i >= items.len() {
        None
    } else if !used.contains(items[i].line_no) && suits(tactic, is_bullet, items[i]) {
        Some(items[i].line_no)
    } else {
        line_for(tactic, is_bullet, items, used, i + 1)
    }
}

/// A step is laid over the first line that is free and fits it: a bullet over a
/// bullet, any other tactic over a line that is not empty, where one of the two
/// begins as the other does. Where there is no such line, it is laid over none.
pub proof fn lemma_first_fitting_line(
    tactic: Seq<char>,
    is_bullet: bool,
    items: Seq<ProofItemView>,
    used: Set<usize>,
    i: int,
)
    requires
        0 <= i <= items.len(),
    ensures
        ({
            let free = |item: ProofItemView|
                !used.contains(item.line_no) && if is_bullet {
                    item.is_bullet
                } else {
                    item.content.len() > 0 && (starts_with_of(tactic, head_of(item.content))
                        || starts_with_of(item.content, head_of(tactic)))
                };
            match line_for(tactic, is_bullet, items, used, i) {
                Some(line) => exists|k: int|
                    i <= k < items.len() && items[k].line_no == line && free(items[k]) && (forall|
                        j: int,
                    |
                        i <= j < k ==> !free(#[trigger] items[j])),
                None => forall|j: int| i <= j < items.len() ==> !free(#[trigger] items[j]),
            }
        }),
    decreases items.len() - i,
{
    if i < items.len() {
        lemma_first_fitting_line(tactic, is_bullet, items, used, i + 1);
    }
}

/// The first line that is not used yet and on which a tactic may stand.
pub fn match_line(tactic: &str, is_bullet: bool, items: &[ProofItem], used: &HashSet<usize>) -> (r:
    Option<usize>)
    ensures
        r == line_for(tactic@, is_bullet, all_views(items@), used@, 0),
{
    let ghost all = all_views(items@);
    let cs = chars_of(tactic);
    for i in 0..items.len()
        invariant
            all == all_views(items@),
            cs@ == tactic@,
            line_for(tactic@, is_bullet, all, used@, 0) == line_for(
                tactic@,
                is_bullet,
                all,
                used@,
                i as int,
            ),
    {
        let item = &items[i];
        proof {
            assert(all[i as int] == item@);
        }
        let fits = if is_bullet {
            item.is_bullet
        } else {
            let content = chars_of(item.content.as_str());
            content.len() > 0 && (starts_with(&cs, head(&content)) || starts_with(
                &content,
                head(&cs),
            ))
        };
        if !used.contains(&item.line_no) && fits {
            return Some(item.line_no);
        }
    }
    None
}

// ---------------------------------------------------------------------------
// What the profiler writes
// ---------------------------------------------------------------------------

/// A step of the profiler: its indentation, its class, its time in seconds and
/// its message are the groups.
pub const TRACE_PATTERN: &'static str = r"^(\s*)\[([^\]]+)\]\s+\[([\d.]+)\]\s+(.+)$";

/// A line of the profiler's summary: the category, the time and its unit are the
/// groups.
pub const CATEGORY_PATTERN: &'static str = r"^\s+(\S+(?:\s+\S+)*)\s+([\d.]+)(ms|s)$";

/// A step of the profiler.
#[derive(Debug, PartialEq, Eq)]
pub struct TraceEntry {
    /// How far the step is nested.
    pub depth: usize,
    /// What kind of step it is.
    pub class: String,
    /// How many seconds it took, as it was written.
    pub seconds: String,
    /// What the step is about.
    pub message: String,
}

/// What a [`TraceEntry`] says.
pub struct TraceEntryView {
    pub depth: usize,
    pub class: Seq<char>,
    pub seconds: Seq<char>,
    pub message: Seq<char>,
}

impl View for TraceEntry {
    type V = TraceEntryView;

    open spec fn view(&self) -> TraceEntryView {
        TraceEntryView {
            depth: self.depth,
            class: self.class@,
            seconds: self.seconds@,
            message: self.message@,
        }
    }
}

/// The time of a category.
#[derive(Debug, PartialEq, Eq)]
pub struct CategoryTime {
    /// The category.
    pub category: String,
    /// The time, as it was written.
    pub time: String,
    /// Its unit, `ms` or `s`.
    pub unit: String,
}

/// What a [`CategoryTime`] says.
pub struct CategoryTimeView {
    pub category: Seq<char>,
    pub time: Seq<char>,
    pub unit: Seq<char>,
}

impl View for CategoryTime {
    type V = CategoryTimeView;

    open spec fn view(&self) -> CategoryTimeView {
        CategoryTimeView { category: self.category@, time: self.time@, unit: self.unit@ }
    }
}

/// A group of a match, and the empty text where it is missing.
pub open spec fn group_text_of(m: Seq<Option<Seq<char>>>, i: int) -> Seq<char> {
    match group_of(m, i) {
        Some(s) => s,
        None => Seq::empty(),
    }
}

/// The groups of a match.
pub open spec fn groups_of(m: Seq<Option<String>>) -> Seq<Option<Seq<char>>> {
    m.map_values(|g: Option<String>| opt_text(g))
}

/// A group of a match, and the empty text where it is missing.
fn group_text(m: &[Option<String>], i: usize) -> (r: String)
    ensures
        r@ == group_text_of(groups_of(m@), i as int),
{
    match group(m, i) {
        Some(s) => s,
        None => String::new(),
    }
}

/// The step that a match of [`TRACE_PATTERN`] stands for. Two bytes of
/// indentation are one level.
pub open spec fn step_in(m: Seq<Option<Seq<char>>>) -> TraceEntryView {
    TraceEntryView {
        depth: (byte_len(group_text_of(m, 1)) / 2) as usize,
        class: group_text_of(m, 2),
        seconds: group_text_of(m, 3),
        message: group_text_of(m, 4),
    }
}

/// The step that a match of [`TRACE_PATTERN`] stands for.
pub fn trace_in_match(m: &[Option<String>]) -> (r: TraceEntry)
    ensures
        r@ == step_in(groups_of(m@)),
{
    let indent = group_text(m, 1);
    TraceEntry {
        depth: str_bytes(indent.as_str()) / 2,
        class: group_text(m, 2),
        seconds: group_text(m, 3),
        message: group_text(m, 4),
    }
}

/// The time that a match of [`CATEGORY_PATTERN`] stands for.
pub open spec fn time_in(m: Seq<Option<Seq<char>>>) -> CategoryTimeView {
    CategoryTimeView {
        category: group_text_of(m, 1),
        time: group_text_of(m, 2),
        unit: group_text_of(m, 3),
    }
}

/// The time that a match of [`CATEGORY_PATTERN`] stands for.
pub fn category_in_match(m: &[Option<String>]) -> (r: CategoryTime)
    ensures
        r@ == time_in(groups_of(m@)),
{
    CategoryTime { category: group_text(m, 1), time: group_text(m, 2), unit: group_text(m, 3) }
}

/// The step that a line stands for.
pub open spec fn trace_of(line: Seq<char>) -> Option<TraceEntryView> {
    if is_match_of(TRACE_PATTERN@, line) {
        Some(step_in(regex_matches(TRACE_PATTERN@, line)[0]))
    } else {
        None
    }
}

/// The time that a line of the summary stands for.
pub open spec fn category_of(line: Seq<char>) -> Option<CategoryTimeView> {
    if !summary_line(line) && is_match_of(CATEGORY_PATTERN@, line) {
        Some(time_in(regex_matches(CATEGORY_PATTERN@, line)[0]))
    } else {
        None
    }
}

/// Whether the summary begins with a line.
pub open spec fn summary_line(line: Seq<char>) -> bool {
    contains_of(line, "cumulative profiling times:"@)
}

/// The first line from `i` on with which the summary begins.
pub open spec fn summary_from(lines: Seq<Seq<char>>, i: int) -> int
    decreases lines.len() - i,
{
    if i >= lines.len() {
        lines.len() as int
    } else if summary_line(lines[i]) {
        i
    } else {
        summary_from(lines, i + 1)
    }
}

/// The steps in what the profiler wrote.
pub open spec fn traces_of(lines: Seq<Seq<char>>) -> Seq<TraceEntryView> {
    lines.take(summary_from(lines, 0)).filter_map(|l: Seq<char>| trace_of(l))
}

/// Where a category stands among some times, from `i` on.
pub open spec fn place_of(times: Seq<CategoryTimeView>, category: Seq<char>, i: int) -> Option<int>
    decreases times.len() - i,
{
    if i >= times.len() {
        None
    } else if times[i].category == category {
        Some(i)
    } else {
        place_of(times, category, i + 1)
    }
}

/// Some times with one more, which takes the place of an earlier one of its
/// category.
pub open spec fn noted(times: Seq<CategoryTimeView>, t: CategoryTimeView) -> Seq<CategoryTimeView> {
    match place_of(times, t.category, 0) {
        Some(i) => times.update(i, t),
        None => times.push(t),
    }
}

/// Some times, of which only the last counts for each category.
pub open spec fn all_noted(times: Seq<CategoryTimeView>) -> Seq<CategoryTimeView>
    decreases times.len(),
{
    if times.len() == 0 {
        Seq::empty()
    } else {
        noted(all_noted(times.drop_last()), times.last())
    }
}

/// The times in what the profiler wrote.
pub open spec fn categories_of(lines: Seq<Seq<char>>) -> Seq<CategoryTimeView> {
    all_noted(lines.skip(summary_from(lines, 0)).filter_map(|l: Seq<char>| category_of(l)))
}

/// The first match of a pattern in a text.
fn first_match(pattern: &str, text: &str) -> (r: Option<Vec<Option<String>>>)
    ensures
        match r {
            Some(m) => is_match_of(pattern@, text@) && groups_of(m@) == regex_matches(
                pattern@,
                text@,
            )[0],
            None => !is_match_of(pattern@, text@),
        },
{
    let mut ms = all_matches(pattern, text);
    let ghost found = ms@;
    proof {
        assert(match_texts(found).len() == found.len());
    }
    if ms.len() > 0 {
        proof {
            assert(match_texts(found)[0] == found[0]@.map_values(
                |g: Option<String>| opt_text(g),
            ));
        }
        Some(ms.swap_remove(0))
    } else {
        None
    }
}

/// Notes a time.
fn note(times: &mut Vec<CategoryTime>, t: CategoryTime)
    ensures
        all_views(final(times)@) == noted(all_views(old(times)@), t@),
{
    let ghost all = all_views(times@);
    let n: usize = times.len();
    let mut i: usize = 0;
    while i < n && !same_text(times[i].category.as_str(), t.category.as_str())
        invariant
            all == all_views(times@),
            n == times@.len(),
            i <= n,
            place_of(all, t@.category, 0) == place_of(all, t@.category, i as int),
        decreases n - i,
    {
        proof {
            assert(all[i as int] == times@[i as int]@);
        }
        i = i + 1;
    }
    let ghost before = times@;
    if i < n {
        proof {
            assert(all[i as int] == times@[i as int]@);
        }
        times.set(i, t);
        proof {
            assert(all_views(times@) =~= all_views(before).update(i as int, t@));
        }
    } else {
        times.push(t);
        proof {
            lemma_views_push(before, t);
        }
    }
}

/// The steps and the times of the categories in what the profiler wrote.
pub fn parse_output(output: &str) -> (r: (Vec<TraceEntry>, Vec<CategoryTime>))
    ensures
        all_views(r.0@) == traces_of(lines_of(output@)),
        all_views(r.1@) == categories_of(lines_of(output@)),
{
    let ls = lines(output);
    let n: usize = ls.len();
    let ghost all = lines_of(output@);
    let ghost f = |l: Seq<char>| trace_of(l);
    let ghost g = |l: Seq<char>| category_of(l);
    let mut traces: Vec<TraceEntry> = Vec::new();
    let mut times: Vec<CategoryTime> = Vec::new();
    proof {
        assert(all_views(traces@) =~= all.take(0).filter_map(f));
    }
    let mut i: usize = 0;
    while i < n && !str_contains(ls[i].as_str(), "cumulative profiling times:")
        invariant
            n == ls@.len(),
            texts(ls@) == all,
            i <= n,
            f == (|l: Seq<char>| trace_of(l)),
            summary_from(all, 0) == summary_from(all, i as int),
            all_views(traces@) == all.take(i as int).filter_map(f),
        decreases n - i,
    {
        proof {
            lemma_filter_map_next(all, f, i as int);
            assert(all[i as int] == ls@[i as int]@);
        }
        if let Some(m) = first_match(TRACE_PATTERN, ls[i].as_str()) {
            let ghost before = traces@;
            let entry = trace_in_match(&m);
            traces.push(entry);
            proof {
                lemma_views_push(before, entry);
            }
        }
        i = i + 1;
    }
    proof {
        assert(i < n ==> all[i as int] == ls@[i as int]@);
        assert(summary_from(all, 0) == i);
    }
    let ghost start = i as int;
    let ghost rest = all.skip(start);
    proof {
        assert(all_views(times@) =~= all_noted(rest.take(0).filter_map(g)));
    }
    while i < n
        invariant
            n == ls@.len(),
            texts(ls@) == all,
            0 <= start <= i <= n,
            rest == all.skip(start),
            g == (|l: Seq<char>| category_of(l)),
            all_views(times@) == all_noted(rest.take(i - start).filter_map(g)),
        decreases n - i,
    {
        proof {
            lemma_filter_map_next(rest, g, i - start);
            assert(rest[i - start] == ls@[i as int]@);
        }
        let line = ls[i].as_str();
        let ghost so_far = rest.take(i - start).filter_map(g);
        if !str_contains(line, "cumulative profiling times:") {
            if let Some(m) = first_match(CATEGORY_PATTERN, line) {
                let t = category_in_match(&m);
                proof {
                    let more = so_far.push(t@);
                    assert(more.drop_last() =~= so_far);
                }
                note(&mut times, t);
            }
        }
        i = i + 1;
    }
    proof {
        lemma_take_all(rest);
    }
    (traces, times)
}

/// Whether a category is told to the user.
pub open spec fn is_reported(category: Seq<char>) -> bool {
    !seq![
        "import"@,
        "initialization"@,
        "parsing"@,
        "interpretation"@,
        "linting"@,
    ].contains(category)
}

/// Whether a category is told to the user.
fn reported(category: &str) -> (r: bool)
    ensures
        r == is_reported(category@),
{
    let ghost skipped = seq![
        "import"@,
        "initialization"@,
        "parsing"@,
        "interpretation"@,
        "linting"@,
    ];
    let r = !same_text(category, "import") && !same_text(category, "initialization") && !same_text(
        category,
        "parsing",
    ) && !same_text(category, "interpretation") && !same_text(category, "linting");
    proof {
        assert(skipped[0] == "import"@);
        assert(skipped[1] == "initialization"@);
        assert(skipped[2] == "parsing"@);
        assert(skipped[3] == "interpretation"@);
        assert(skipped[4] == "linting"@);
    }
    r
}

/// The times that are told to the user, where they are long enough.
pub fn reported_categories(times: Vec<CategoryTime>) -> (r: Vec<CategoryTime>)
    ensures
        all_views(r@) == all_views(times@).filter_map(
            |t: CategoryTimeView|
                if is_reported(t.category) {
                    Some(t)
                } else {
                    None
                },
        ),
{
    let ghost all = all_views(times@);
    let ghost f = |t: CategoryTimeView|
        if is_reported(t.category) {
            Some(t)
        } else {
            None
        };
    let mut out: Vec<CategoryTime> = Vec::new();
    proof {
        assert(all_views(out@) =~= all.take(0).filter_map(f));
    }
    for t in it: times
        invariant
            all == all_views(it.seq()),
            f == (|t: CategoryTimeView|
                if is_reported(t.category) {
                    Some(t)
                } else {
                    None
                }),
            all_views(out@) == all.take(it.index()).filter_map(f),
    {
        proof {
            lemma_filter_map_next(all, f, it.index());
            assert(all[it.index()] == t@);
        }
        if reported(t.category.as_str()) {
            let ghost before = out@;
            out.push(t);
            proof {
                lemma_views_push(before, t);
            }
        }
    }
    proof {
        lemma_take_all(all);
    }
    out
}

// ---------------------------------------------------------------------------
// Which step belongs to which line
// ---------------------------------------------------------------------------

/// Which steps belong to which lines of a proof.
#[derive(Debug, PartialEq, Eq)]
pub struct LineTimes {
    /// Lines (from 1) of the proof, each with the step that tells its time.
    pub lines: Vec<(usize, usize)>,
    /// The steps of which the longest tells the time of the whole proof.
    pub total_of: Vec<usize>,
}

/// Which steps belong to which lines, and what the search for them goes by.
pub struct TimesView {
    /// How far the proof itself is nested, once it has begun.
    pub value_depth: Option<usize>,
    /// How far its tactics are nested, once there was one.
    pub tactic_depth: Option<usize>,
    /// Lines of the proof, each with the step that tells its time.
    pub lines: Seq<(usize, usize)>,
    /// The steps of which the longest tells the time of the whole proof.
    pub total_of: Seq<usize>,
}

/// Before the first step.
pub open spec fn untimed() -> TimesView {
    TimesView {
        value_depth: None,
        tactic_depth: None,
        lines: Seq::empty(),
        total_of: Seq::empty(),
    }
}

/// The lines that have a step.
pub open spec fn taken(lines: Seq<(usize, usize)>) -> Set<usize> {
    lines.map_values(|p: (usize, usize)| p.0).to_set()
}

/// The first line of a text.
pub open spec fn first_line_of(s: Seq<char>) -> Seq<char> {
    let ls = lines_of(s);
    if ls.len() > 0 {
        ls[0]
    } else {
        Seq::empty()
    }
}

/// The tactic that a message begins with.
pub open spec fn tactic_of(message: Seq<char>) -> Seq<char> {
    trim_start_set_of(trim_of(first_line_of(message)), bullet_space_of())
}

/// Whether a message is about a tactic behind a bullet.
pub open spec fn bulleted(message: Seq<char>) -> bool {
    let s = trim_of(message);
    tactic_of(message).len() > 0 && s.len() > 0 && bullets_of().contains(s[0])
}

/// Whether a step is about a tactic.
pub open spec fn tactic_step(e: TraceEntryView) -> bool {
    e.class == "Elab.step"@ && !starts_with_of(e.message, "expected type:"@)
}

/// Lays step `i`, which is part of the proof, over a line.
pub open spec fn with_step(
    e: TraceEntryView,
    i: usize,
    items: Seq<ProofItemView>,
    st: TimesView,
) -> TimesView {
    if tactic_step(e) {
        let depth = match st.tactic_depth {
            Some(d) => d,
            None => e.depth,
        };
        let st = TimesView { tactic_depth: Some(depth), ..st };
        if e.depth == depth {
            match line_for(tactic_of(e.message), bulleted(e.message), items, taken(st.lines), 0) {
                Some(line) => TimesView { lines: st.lines.push((line, i)), ..st },
                None => st,
            }
        } else {
            st
        }
    } else {
        st
    }
}

/// Whether step `i` is the proof itself.
pub open spec fn value_step(traces: Seq<TraceEntryView>, about: Seq<bool>, i: int) -> bool {
    traces[i].class == "Elab.definition.value"@ && i < about.len() && about[i]
}

/// Whether a step is a part of the proof that was done on its own.
pub open spec fn async_step(e: TraceEntryView, name: Seq<char>) -> bool {
    e.class == "Elab.async"@ && contains_of(e.message, "proof of "@ + name)
}

/// Lays the steps from `i` on over the lines of a proof. `about` says which
/// steps are about the theorem. The search ends with the first step that is
/// nested no further than the proof itself.
pub open spec fn timed(
    traces: Seq<TraceEntryView>,
    about: Seq<bool>,
    name: Seq<char>,
    items: Seq<ProofItemView>,
    st: TimesView,
    i: int,
) -> TimesView
    decreases traces.len() - i,
{
    if i < 0 || i >= traces.len() {
        st
    } else {
        let e = traces[i];
        if value_step(traces, about, i) {
            timed(
                traces,
                about,
                name,
                items,
                TimesView {
                    value_depth: Some(e.depth),
                    total_of: seq![i as usize],
                    ..st
                },
                i + 1,
            )
        } else if async_step(e, name) {
            timed(
                traces,
                about,
                name,
                items,
                TimesView { total_of: st.total_of.push(i as usize), ..st },
                i + 1,
            )
        } else {
            match st.value_depth {
                None => timed(traces, about, name, items, st, i + 1),
                Some(d) => if e.depth <= d {
                    st
                } else {
                    timed(traces, about, name, items, with_step(e, i as usize, items, st), i + 1)
                },
            }
        }
    }
}

/// The tactic that a message begins with, and whether it stands behind a bullet.
fn read_tactic(message: &str) -> (r: (String, bool))
    ensures
        r.0@ == tactic_of(message@),
        r.1 == bulleted(message@),
{
    let ls = lines(message);
    let first = if ls.len() > 0 {
        proof {
            assert(texts(ls@)[0] == ls@[0]@);
        }
        chars_of(ls[0].as_str())
    } else {
        let none: Vec<char> = Vec::new();
        proof {
            assert(texts(ls@).len() == 0);
            assert(none@ =~= Seq::<char>::empty());
        }
        none
    };
    let tactic = trim_start_set(trim(&first), &bullet_space());
    let all = chars_of(message);
    let s = trim(&all);
    let behind = tactic.len() > 0 && s.len() > 0 && char_in(s[0], &bullets());
    (text_of(tactic), behind)
}

/// One more line that has a step.
proof fn lemma_taken_push(lines: Seq<(usize, usize)>, p: (usize, usize))
    ensures
        taken(lines.push(p)) == taken(lines).insert(p.0),
{
    let firsts = lines.map_values(|p: (usize, usize)| p.0);
    let more = lines.push(p).map_values(|p: (usize, usize)| p.0);
    assert(more =~= firsts.push(p.0));
    assert forall|x: usize| more.to_set().contains(x) == firsts.to_set().insert(p.0).contains(
        x,
    ) by {
        if firsts.contains(x) {
            let j = choose|j: int| 0 <= j < firsts.len() && firsts[j] == x;
            assert(more[j] == x);
        }
        assert(more[firsts.len() as int] == p.0);
    }
    assert(more.to_set() =~= firsts.to_set().insert(p.0));
}

/// Lays the steps of the profiler over the lines of a proof. `about` says which
/// steps are about the theorem.
pub fn attribute_times(
    traces: &[TraceEntry],
    about: &[bool],
    name: &str,
    items: &[ProofItem],
) -> (r: LineTimes)
    requires
        about@.len() == traces@.len(),
    ensures
        r.lines@ == timed(
            all_views(traces@),
            about@,
            name@,
            all_views(items@),
            untimed(),
            0,
        ).lines,
        r.total_of@ == timed(
            all_views(traces@),
            about@,
            name@,
            all_views(items@),
            untimed(),
            0,
        ).total_of,
{
    let ghost ts = all_views(traces@);
    let ghost its = all_views(items@);
    let ghost mut st = untimed();
    let apart = glue("proof of ", name);
    let mut out: Vec<(usize, usize)> = Vec::new();
    let mut total_of: Vec<usize> = Vec::new();
    let mut value_depth: Option<usize> = None;
    let mut tactic_depth: Option<usize> = None;
    let mut used: HashSet<usize> = HashSet::new();
    let mut ended = false;
    let mut i: usize = 0;
    proof {
        assert(taken(Seq::<(usize, usize)>::empty()) =~= Set::<usize>::empty());
        assert(used@ =~= Set::<usize>::empty());
    }
    while i < traces.len() && !ended
        invariant
            about@.len() == traces@.len(),
            i <= traces@.len(),
            ts == all_views(traces@),
            its == all_views(items@),
            apart@ == "proof of "@ + name@,
            st == (TimesView { value_depth, tactic_depth, lines: out@, total_of: total_of@ }),
            used@ == taken(out@),
            !ended ==> timed(ts, about@, name@, its, untimed(), 0) == timed(
                ts,
                about@,
                name@,
                its,
                st,
                i as int,
            ),
            ended ==> timed(ts, about@, name@, its, untimed(), 0) == st,
        decreases
                traces@.len() - i,
                if ended {
                    0int
                } else {
                    1int
                },
    {
        let entry = &traces[i];
        proof {
            assert(ts[i as int] == entry@);
        }
        if same_text(entry.class.as_str(), "Elab.definition.value") && about[i] {
            value_depth = Some(entry.depth);
            total_of = Vec::new();
            total_of.push(i);
            proof {
                assert(total_of@ =~= seq![i]);
                st = TimesView { value_depth, total_of: total_of@, ..st };
            }
            i = i + 1;
        } else if same_text(entry.class.as_str(), "Elab.async") && str_contains(
            entry.message.as_str(),
            apart.as_str(),
        ) {
            total_of.push(i);
            proof {
                st = TimesView { total_of: total_of@, ..st };
            }
            i = i + 1;
        } else {
            match value_depth {
                None => {
                    i = i + 1;
                },
                Some(d) => if entry.depth <= d {
                    ended = true;
                } else {
                    let ghost was = st;
                    if same_text(entry.class.as_str(), "Elab.step") && !str_starts_with(
                        entry.message.as_str(),
                        "expected type:",
                    ) {
                        let depth: usize = match tactic_depth {
                            Some(d) => d,
                            None => entry.depth,
                        };
                        tactic_depth = Some(depth);
                        proof {
                            st = TimesView { tactic_depth, ..st };
                        }
                        if entry.depth == depth {
                            let (tactic, is_bullet) = read_tactic(entry.message.as_str());
                            if let Some(line) = match_line(
                                tactic.as_str(),
                                is_bullet,
                                items,
                                &used,
                            ) {
                                proof {
                                    lemma_taken_push(out@, (line, i));
                                    st = TimesView { lines: out@.push((line, i)), ..st };
                                }
                                out.push((line, i));
                                used.insert(line);
                            }
                        }
                    }
                    proof {
                        assert(st == with_step(entry@, i, its, was));
                    }
                    i = i + 1;
                },
            }
        }
    }
    LineTimes { lines: out, total_of }
}

/// A pattern that finds a name as a word of its own.
pub open spec fn name_pattern_of(name: Seq<char>) -> Seq<char> {
    r"\b"@ + escaped(name) + r"\b"@
}

/// Which steps are about a theorem.
pub open spec fn about_of(traces: Seq<TraceEntryView>, name: Seq<char>) -> Seq<bool> {
    traces.map_values(|e: TraceEntryView| is_match_of(name_pattern_of(name), e.message))
}

/// Lays the steps of the profiler over the lines of a theorem's proof.
pub fn extract_line_times(traces: &[TraceEntry], name: &str, proof_items: &[ProofItem]) -> (r:
    LineTimes)
    ensures
        r.lines@ == timed(
            all_views(traces@),
            about_of(all_views(traces@), name@),
            name@,
            all_views(proof_items@),
            untimed(),
            0,
        ).lines,
        r.total_of@ == timed(
            all_views(traces@),
            about_of(all_views(traces@), name@),
            name@,
            all_views(proof_items@),
            untimed(),
            0,
        ).total_of,
{
    let pattern = glue3(r"\b", escape(name).as_str(), r"\b");
    let ghost all = about_of(all_views(traces@), name@);
    let mut about: Vec<bool> = Vec::new();
    for i in 0..traces.len()
        invariant
            pattern@ == name_pattern_of(name@),
            all == about_of(all_views(traces@), name@),
            about@ == all.take(i as int),
    {
        let found = is_match(pattern.as_str(), traces[i].message.as_str());
        about.push(found);
        proof {
            assert(all_views(traces@)[i as int] == traces@[i as int]@);
            assert(found == all[i as int]);
            assert(all.take(i + 1) =~= all.take(i as int).push(all[i as int]));
        }
    }
    proof {
        assert(about@ =~= all);
    }
    attribute_times(traces, &about, name, proof_items)
}

/// Whether some lines are laid out with the steps before `i`: no line twice, and
/// each step a tactic of the same nesting, in the order of the profiler.
pub open spec fn lines_settled(traces: Seq<TraceEntryView>, st: TimesView, i: int) -> bool {
    &&& forall|a: int, b: int|
        0 <= a < b < st.lines.len() ==> (#[trigger] st.lines[a]).0 != (#[trigger] st.lines[b]).0
            && st.lines[a].1 < st.lines[b].1
    &&& forall|a: int|
        0 <= a < st.lines.len() ==> (#[trigger] st.lines[a]).1 < i && tactic_step(
            traces[st.lines[a].1 as int],
        ) && st.tactic_depth == Some(traces[st.lines[a].1 as int].depth)
}

/// Steps that are laid over a proof's lines never share a line, are all tactics
/// of one nesting, and keep the profiler's order.
pub proof fn lemma_times_settled(
    traces: Seq<TraceEntryView>,
    about: Seq<bool>,
    name: Seq<char>,
    items: Seq<ProofItemView>,
)
    requires
        traces.len() <= usize::MAX,
    ensures
        lines_settled(
            traces,
            timed(traces, about, name, items, untimed(), 0),
            traces.len() as int,
        ),
{
    lemma_timed_settled(traces, about, name, items, untimed(), 0);
}

/// Each further step keeps the lines settled.
proof fn lemma_timed_settled(
    traces: Seq<TraceEntryView>,
    about: Seq<bool>,
    name: Seq<char>,
    items: Seq<ProofItemView>,
    st: TimesView,
    i: int,
)
    requires
        0 <= i <= traces.len() <= usize::MAX,
        lines_settled(traces, st, i),
    ensures
        lines_settled(
            traces,
            timed(traces, about, name, items, st, i),
            traces.len() as int,
        ),
    decreases traces.len() - i,
{
    if i < traces.len() {
        let e = traces[i];
        if value_step(traces, about, i) {
            let next = TimesView {
                value_depth: Some(e.depth),
                total_of: seq![i as usize],
                ..st
            };
            lemma_timed_settled(traces, about, name, items, next, i + 1);
        } else if async_step(e, name) {
            let next = TimesView { total_of: st.total_of.push(i as usize), ..st };
            lemma_timed_settled(traces, about, name, items, next, i + 1);
        } else {
            match st.value_depth {
                None => lemma_timed_settled(traces, about, name, items, st, i + 1),
                Some(d) => if e.depth > d {
                    let next = with_step(e, i as usize, items, st);
                    if next.lines.len() > st.lines.len() {
                        let line = next.lines.last().0;
                        lemma_line_unused(
                            tactic_of(e.message),
                            bulleted(e.message),
                            items,
                            taken(st.lines),
                            0,
                        );
                        assert forall|a: int| 0 <= a < st.lines.len() implies (
                        #[trigger] st.lines[a]).0 != line by {
                            let firsts = st.lines.map_values(|p: (usize, usize)| p.0);
                            assert(firsts[a] == st.lines[a].0);
                            assert(firsts.contains(st.lines[a].0));
                        }
                    }
                    lemma_timed_settled(traces, about, name, items, next, i + 1);
                },
            }
        }
    }
}

/// The line that is found for a tactic is not used yet.
proof fn lemma_line_unused(
    tactic: Seq<char>,
    is_bullet: bool,
    items: Seq<ProofItemView>,
    used: Set<usize>,
    i: int,
)
    ensures
        line_for(tactic, is_bullet, items, used, i) matches Some(line) ==> !used.contains(line),
    decreases items.len() - i,
{
    if i < items.len() {
        lemma_line_unused(tactic, is_bullet, items, used, i + 1);
    }
}

/// What is found of a category is its time.
pub proof fn lemma_place(times: Seq<CategoryTimeView>, category: Seq<char>, i: int)
    requires
        0 <= i,
    ensures
        match place_of(times, category, i) {
            Some(j) => i <= j < times.len() && times[j].category == category,
            None => forall|j: int|
                i <= j < times.len() ==> (#[trigger] times[j]).category != category,
        },
    decreases times.len() - i,
{
    if i < times.len() {
        lemma_place(times, category, i + 1);
    }
}

/// No category is noted twice, and each with the last time that was given for
/// it.
pub proof fn lemma_last_time_counts(times: Seq<CategoryTimeView>)
    ensures
        forall|a: int, b: int|
            0 <= a < b < all_noted(times).len() ==> (#[trigger] all_noted(times)[a]).category != (
            #[trigger] all_noted(times)[b]).category,
        forall|i: int|
            0 <= i < times.len() && (forall|j: int|
                i < j < times.len() ==> (#[trigger] times[j]).category != times[i].category)
                ==> all_noted(times).contains(#[trigger] times[i]),
    decreases times.len(),
{
    if times.len() > 0 {
        let before = times.drop_last();
        let t = times.last();
        let kept = all_noted(before);
        lemma_last_time_counts(before);
        lemma_place(kept, t.category, 0);
        assert forall|i: int|
            0 <= i < times.len() && (forall|j: int|
                i < j < times.len() ==> (#[trigger] times[j]).category != times[i].category)
            implies all_noted(times).contains(#[trigger] times[i]) by {
            if i < before.len() {
                assert(before[i] == times[i]);
                assert(times[times.len() - 1].category != times[i].category);
                assert forall|j: int| i < j < before.len() implies (#[trigger] before[j]).category
                    != before[i].category by {
                    assert(before[j] == times[j]);
                }
                assert(kept.contains(before[i]));
                let k = choose|k: int| 0 <= k < kept.len() && kept[k] == before[i];
                assert(all_noted(times)[k] == times[i]);
            } else {
                match place_of(kept, t.category, 0) {
                    Some(k) => {
                        assert(all_noted(times)[k] == t);
                    },
                    None => {
                        assert(all_noted(times)[kept.len() as int] == t);
                    },
                }
            }
        }
    }
}

// ---------------------------------------------------------------------------
// What is told
// ---------------------------------------------------------------------------

/// What the profiler says of a theorem.
#[derive(Debug, PartialEq, Eq)]
pub struct ProofTimes {
    /// The line (from 1) on which the theorem begins in its file.
    pub theorem_line: usize,
    /// The line (from 1) on which it begins in the file of its own.
    pub source_start: usize,
    /// The lines of the file of its own.
    pub source_lines: Vec<String>,
    /// The steps of the profiler.
    pub traces: Vec<TraceEntry>,
    /// Which of them belong to which lines of the file of its own.
    pub times: LineTimes,
    /// The times of the categories that are told.
    pub categories: Vec<CategoryTime>,
}

/// What [`ProofTimes`] say.
pub struct ProofTimesView {
    pub theorem_line: usize,
    pub source_start: usize,
    pub source_lines: Seq<Seq<char>>,
    pub traces: Seq<TraceEntryView>,
    pub lines: Seq<(usize, usize)>,
    pub total_of: Seq<usize>,
    pub categories: Seq<CategoryTimeView>,
}

impl View for ProofTimes {
    type V = ProofTimesView;

    open spec fn view(&self) -> ProofTimesView {
        ProofTimesView {
            theorem_line: self.theorem_line,
            source_start: self.source_start,
            source_lines: texts(self.source_lines@),
            traces: all_views(self.traces@),
            lines: self.times.lines@,
            total_of: self.times.total_of@,
            categories: all_views(self.categories@),
        }
    }
}

/// What the user is shown of a line: its text, of which no more than 60 bytes.
pub open spec fn shown_text(lines: Seq<Seq<char>>, line: int) -> Seq<char> {
    if 1 <= line <= lines.len() {
        let t = trim_of(lines[line - 1]);
        if byte_len(t) > 60 {
            byte_take(t, 60)
        } else {
            t
        }
    } else {
        Seq::empty()
    }
}

/// Whether a line can be cut where it has to be.
pub open spec fn shown_fits(lines: Seq<Seq<char>>, line: int) -> bool {
    1 <= line <= lines.len() && byte_len(trim_of(lines[line - 1])) > 60 ==> is_boundary(
        trim_of(lines[line - 1]),
        60,
    )
}

impl ProofTimes {
    /// The line of the theorem's file (from 1) that a line of the file of its own
    /// stands for.
    pub fn line_in_file(&self, line: usize) -> (r: i64)
        ensures
            r == (line as i64).wrapping_add(
                (self@.theorem_line as i64).wrapping_sub(self@.source_start as i64),
            ),
    {
        let offset: i64 = (self.theorem_line as i64).wrapping_sub(self.source_start as i64);
        (line as i64).wrapping_add(offset)
    }

    /// Whether a line can be shown.
    pub fn text_fits(&self, line: usize) -> (r: bool)
        ensures
            r == shown_fits(self@.source_lines, line as int),
    {
        if 1 <= line && line <= self.source_lines.len() {
            proof {
                assert(texts(self.source_lines@)[line - 1] == self.source_lines@[line - 1]@);
            }
            let t = text_of(trim(&chars_of(self.source_lines[line - 1].as_str())));
            str_bytes(t.as_str()) <= 60 || at_boundary(t.as_str(), 60)
        } else {
            true
        }
    }

    /// What the user is shown of a line.
    pub fn text_at(&self, line: usize) -> (r: String)
        requires
            shown_fits(self@.source_lines, line as int),
        ensures
            r@ == shown_text(self@.source_lines, line as int),
    {
        if 1 <= line && line <= self.source_lines.len() {
            proof {
                assert(texts(self.source_lines@)[line - 1] == self.source_lines@[line - 1]@);
            }
            let t = text_of(trim(&chars_of(self.source_lines[line - 1].as_str())));
            if str_bytes(t.as_str()) > 60 {
                str_prefix(t.as_str(), 60).to_owned()
            } else {
                t
            }
        } else {
            String::new()
        }
    }
}

// ---------------------------------------------------------------------------
// The tool
// ---------------------------------------------------------------------------

/// What profiling comes to.
pub type ProfileSaid = Result<ProofTimesView, ErrorView>;

/// A theorem that is profiled.
pub struct SubjectView {
    pub theorem_line: usize,
    pub source_start: usize,
    pub name: Seq<char>,
    pub source: Seq<char>,
    pub items: Seq<ProofItemView>,
}

/// The theorem at a line (from 1) of a file, or what is wrong with it.
pub open spec fn subject_of(content: Seq<char>, theorem_line: u32) -> Result<
    SubjectView,
    ErrorView,
> {
    let lines = lines_of(content);
    if theorem_line == 0 || theorem_line > lines.len() {
        Err(ErrorView::LineOutOfRange { line: theorem_line as nat, total: lines.len() })
    } else {
        match declared_name(lines[theorem_line - 1]) {
            None => Err(
                ErrorView::Other(
                    "No theorem/lemma/def at line "@ + decimal_of(theorem_line as nat),
                ),
            ),
            Some(name) => {
                let source = theorem_source(lines, theorem_line as int);
                let source_lines = lines_of(source);
                match proof_line_from(source_lines, 0) {
                    None => Err(ErrorView::Other("No 'by' proof found in theorem"@)),
                    Some(i) => Ok(
                        SubjectView {
                            theorem_line: theorem_line as usize,
                            source_start: theorem_start(lines),
                            name,
                            source,
                            items: items_between(source_lines, i + 1, source_lines.len() as int),
                        },
                    ),
                }
            },
        }
    }
}

/// What the profiler's output says of a theorem.
pub open spec fn profile_of(subject: SubjectView, output: Seq<char>) -> ProofTimesView {
    let traces = traces_of(lines_of(output));
    let times = timed(
        traces,
        about_of(traces, subject.name),
        subject.name,
        subject.items,
        untimed(),
        0,
    );
    ProofTimesView {
        theorem_line: subject.theorem_line,
        source_start: subject.source_start,
        source_lines: lines_of(subject.source),
        traces,
        lines: times.lines,
        total_of: times.total_of,
        categories: categories_of(lines_of(output)).filter_map(
            |t: CategoryTimeView|
                if is_reported(t.category) {
                    Some(t)
                } else {
                    None
                },
        ),
    }
}

/// What the profiler's run comes to.
pub open spec fn run_outcome(
    subject: SubjectView,
    seconds: Seq<char>,
    r: ReplyView,
) -> ProfileSaid {
    match r {
        ReplyView::Command { success, code, stdout, stderr } => Ok(
            profile_of(subject, combined(stdout, stderr)),
        ),
        ReplyView::Interrupted(e) => Err(ErrorView::Other("lean --profile failed: "@ + e)),
        ReplyView::TimedOut => Err(
            ErrorView::LspTimeout("Profiling timed out after "@ + seconds + "s"@),
        ),
        _ => Err(ErrorView::Other("Failed to run `lake env lean`: "@ + r.trouble())),
    }
}

/// After the file of the theorem's own was removed, or could not be.
pub open spec fn profile_removed(outcome: ProfileSaid) -> Waiting<ProfileSaid> {
    |r: ReplyView| Dialogue::Finish(outcome)
}

/// After the profiler ran.
pub open spec fn profile_run(
    subject: SubjectView,
    temp_path: Seq<char>,
    seconds: Seq<char>,
) -> Waiting<ProfileSaid> {
    |r: ReplyView|
        Dialogue::Ask(
            RequestView::RemoveFile { path: temp_path },
            profile_removed(run_outcome(subject, seconds, r)),
        )
}

/// The arguments with which the profiler is run on a file.
pub open spec fn profiler_args() -> Seq<Seq<char>> {
    seq![
        "env"@,
        "lean"@,
        "--profile"@,
        "-Dtrace.profiler=true"@,
        "-Dtrace.profiler.threshold=0"@,
    ]
}

/// After the file of the theorem's own was written.
pub open spec fn profile_written(
    subject: SubjectView,
    temp_path: Seq<char>,
    seconds: Seq<char>,
) -> Waiting<ProfileSaid> {
    |r: ReplyView|
        if r is Done {
            Dialogue::Ask(
                RequestView::RunLimited {
                    program: "lake"@,
                    args: profiler_args(),
                    file: temp_path,
                    seconds,
                },
                profile_run(subject, temp_path, seconds),
            )
        } else {
            Dialogue::Finish(
                Err(ErrorView::Other("Failed to write temp file: "@ + r.trouble())),
            )
        }
}

/// After the theorem's file was read.
pub open spec fn profile_read(
    path: Seq<char>,
    theorem_line: u32,
    temp_path: Seq<char>,
    seconds: Seq<char>,
) -> Waiting<ProfileSaid> {
    |r: ReplyView|
        match r {
            ReplyView::Text(content) => match subject_of(content, theorem_line) {
                Ok(subject) => Dialogue::Ask(
                    RequestView::WriteFile { path: temp_path, content: subject.source },
                    profile_written(subject, temp_path, seconds),
                ),
                Err(e) => Dialogue::Finish(Err(e)),
            },
            _ => Dialogue::Finish(Err(ErrorView::InvalidPath(path + ": "@ + r.trouble()))),
        }
}

/// The whole of profiling a theorem.
pub open spec fn profile_dialogue(
    path: Seq<char>,
    theorem_line: u32,
    temp_path: Seq<char>,
    seconds: Seq<char>,
) -> Dialogue<ProfileSaid> {
    Dialogue::Ask(
        RequestView::ReadPath { path },
        profile_read(path, theorem_line, temp_path, seconds),
    )
}

/// A theorem that is profiled.
pub struct Subject {
    pub theorem_line: usize,
    pub source_start: usize,
    pub name: String,
    pub source: String,
    pub items: Vec<ProofItem>,
}

impl View for Subject {
    type V = SubjectView;

    open spec fn view(&self) -> SubjectView {
        SubjectView {
            theorem_line: self.theorem_line,
            source_start: self.source_start,
            name: self.name@,
            source: self.source@,
            items: all_views(self.items@),
        }
    }
}

/// The theorem at a line (from 1) of a file, or what is wrong with it.
pub fn find_subject(content: &str, theorem_line: u32) -> (r: Result<Subject, LeanToolError>)
    ensures
        match r {
            Ok(s) => subject_of(content@, theorem_line) == Ok::<SubjectView, ErrorView>(s@),
            Err(e) => subject_of(content@, theorem_line) == Err::<SubjectView, ErrorView>(e@),
        },
{
    let owned_lines = lines(content);
    let ls = borrowed(&owned_lines);
    proof {
        assert(strs(ls@).len() == ls@.len());
    }
    if theorem_line == 0 || theorem_line as usize > ls.len() {
        return Err(LeanToolError::LineOutOfRange { line: theorem_line, total: ls.len() });
    }
    let at: usize = theorem_line as usize;
    proof {
        assert(strs(ls@)[at - 1] == ls@[at - 1]@);
    }
    let (source, name, source_start) = match extract_theorem_source(&ls, at) {
        Ok(found) => found,
        Err(e) => return Err(e),
    };
    let owned_source = lines(source.as_str());
    let source_lines = borrowed(&owned_source);
    proof {
        assert(strs(source_lines@).len() == source_lines@.len());
    }
    let start: usize = match find_proof_start(&source_lines) {
        Ok(n) => n,
        Err(e) => return Err(e),
    };
    let items = build_proof_items(&source_lines, start);
    Ok(Subject { theorem_line: at, source_start, name, source, items })
}

/// What the profiler's output says of a theorem.
pub fn read_profile(subject: Subject, output: &str) -> (r: ProofTimes)
    ensures
        r@ == profile_of(subject@, output@),
{
    let (traces, all_times) = parse_output(output);
    let times = extract_line_times(&traces, subject.name.as_str(), &subject.items);
    let categories = reported_categories(all_times);
    ProofTimes {
        theorem_line: subject.theorem_line,
        source_start: subject.source_start,
        source_lines: lines(subject.source.as_str()),
        traces,
        times,
        categories,
    }
}

/// Profiling at work.
pub enum ProfileCall {
    /// Waits for the theorem's file.
    Reading { path: String, theorem_line: u32, temp_path: String, seconds: String },
    /// Waits until the file of the theorem's own is written.
    Writing { subject: Subject, temp_path: String, seconds: String },
    /// Waits for the profiler.
    Running { subject: Subject, temp_path: String, seconds: String },
    /// Waits until the file of the theorem's own is removed.
    Removing { outcome: Result<ProofTimes, LeanToolError> },
}

/// What an outcome of profiling says.
pub open spec fn profile_said(o: Result<ProofTimes, LeanToolError>) -> ProfileSaid {
    match o {
        Ok(p) => Ok(p@),
        Err(e) => Err(e@),
    }
}

impl Waits for ProfileCall {
    type Out = Result<ProofTimes, LeanToolError>;

    type Said = ProfileSaid;

    open spec fn said(o: Self::Out) -> ProfileSaid {
        profile_said(o)
    }

    open spec fn valid(self) -> bool {
        true
    }

    open spec fn waiting(self) -> Waiting<ProfileSaid> {
        match self {
            ProfileCall::Reading { path, theorem_line, temp_path, seconds } => profile_read(
                path@,
                theorem_line,
                temp_path@,
                seconds@,
            ),
            ProfileCall::Writing { subject, temp_path, seconds } => profile_written(
                subject@,
                temp_path@,
                seconds@,
            ),
            ProfileCall::Running { subject, temp_path, seconds } => profile_run(
                subject@,
                temp_path@,
                seconds@,
            ),
            ProfileCall::Removing { outcome } => profile_removed(profile_said(outcome)),
        }
    }

    open spec fn admits(self, r: ReplyView) -> bool {
        true
    }
}

/// What the profiler's run comes to.
fn finish_run(subject: Subject, seconds: &str, reply: Reply) -> (r: Result<
    ProofTimes,
    LeanToolError,
>)
    ensures
        profile_said(r) == run_outcome(subject@, seconds@, reply@),
{
    match reply {
        Reply::Command { success, code, stdout, stderr } => {
            let output = combine(stdout, stderr);
            Ok(read_profile(subject, output.as_str()))
        },
        Reply::Interrupted(e) => Err(
            LeanToolError::Other(glue("lean --profile failed: ", e.as_str())),
        ),
        Reply::TimedOut => Err(
            LeanToolError::LspTimeout(glue3("Profiling timed out after ", seconds, "s")),
        ),
        other => Err(
            LeanToolError::Other(
                glue("Failed to run `lake env lean`: ", other.message().as_str()),
            ),
        ),
    }
}

/// The arguments with which the profiler is run on a file.
fn arguments() -> (r: Vec<String>)
    ensures
        texts(r@) == profiler_args(),
{
    let args: Vec<&str> = vec![
        "env",
        "lean",
        "--profile",
        "-Dtrace.profiler=true",
        "-Dtrace.profiler.threshold=0",
    ];
    proof {
        assert(strs(args@) =~= profiler_args());
    }
    owned(args)
}

impl Call for ProfileCall {
    fn accepts(&self, reply: &Reply) -> (r: bool) {
        true
    }

    fn resume(self, reply: Reply) -> (t: Turn<Self, Self::Out>) {
        match self {
            ProfileCall::Reading { path, theorem_line, temp_path, seconds } => match reply.text() {
                Ok(content) => match find_subject(content.as_str(), theorem_line) {
                    Ok(subject) => Turn::Ask(
                        Request::WriteFile {
                            path: temp_path.clone(),
                            content: subject.source.clone(),
                        },
                        ProfileCall::Writing { subject, temp_path, seconds },
                    ),
                    Err(e) => Turn::Done(Err(e)),
                },
                Err(m) => Turn::Done(
                    Err(LeanToolError::InvalidPath(glue3(path.as_str(), ": ", m.as_str()))),
                ),
            },
            ProfileCall::Writing { subject, temp_path, seconds } => match reply.done() {
                Ok(_) => Turn::Ask(
                    Request::RunLimited {
                        program: "lake".to_owned(),
                        args: arguments(),
                        file: temp_path.clone(),
                        seconds: seconds.clone(),
                    },
                    ProfileCall::Running { subject, temp_path, seconds },
                ),
                Err(m) => Turn::Done(
                    Err(LeanToolError::Other(glue("Failed to write temp file: ", m.as_str()))),
                ),
            },
            ProfileCall::Running { subject, temp_path, seconds } => {
                let outcome = finish_run(subject, seconds.as_str(), reply);
                Turn::Ask(
                    Request::RemoveFile { path: temp_path },
                    ProfileCall::Removing { outcome },
                )
            },
            ProfileCall::Removing { outcome } => Turn::Done(outcome),
        }
    }
}

/// The file below the project's root that a theorem gets of its own, in the
/// process with this number.
pub open spec fn temp_file(process: u32) -> Seq<char> {
    ".lean_profile_"@ + decimal_of(process as nat) + ".lean"@
}

/// Profiles the theorem at a line (from 1) of a file, in the process with this
/// number. The profiler has no more than `seconds`.
pub fn handle_profile_proof(file_path: &str, theorem_line: u32, process: u32, seconds: &str) -> (t:
    Turn<ProfileCall, Result<ProofTimes, LeanToolError>>)
    ensures
        begins(t, profile_dialogue(file_path@, theorem_line, temp_file(process), seconds@)),
{
    let path = file_path.to_owned();
    Turn::Ask(
        Request::ReadPath { path: path.clone() },
        ProfileCall::Reading {
            path,
            theorem_line,
            temp_path: glue3(".lean_profile_", decimal(process as u64).as_str(), ".lean"),
            seconds: seconds.to_owned(),
        },
    )
}

/// What a line is compared by is its start, of no more than 25 characters.
pub proof fn lemma_head_told(s: Seq<char>)
    ensures
        s.len() <= 25 ==> head_of(s) == s,
        s.len() > 25 ==> head_of(s).len() == 25 && starts_with_of(s, head_of(s)),
{
}

/// The file of a process lies below the project's root and is its own.
pub proof fn lemma_temp_files_apart(a: u32, b: u32)
    ensures
        starts_with_of(temp_file(a), ".lean_profile_"@),
        ends_with_of(temp_file(a), ".lean"@),
        temp_file(a) == temp_file(b) ==> a == b,
{
    let x = decimal_of(a as nat);
    let y = decimal_of(b as nat);
    reveal_strlit(".lean_profile_");
    reveal_strlit(".lean");
    assert(".lean_profile_"@.len() == 14 && ".lean"@.len() == 5);
    assert(temp_file(a).take(14) =~= ".lean_profile_"@);
    assert(temp_file(a).skip(temp_file(a).len() - 5) =~= ".lean"@);
    assert(temp_file(a).subrange(14, temp_file(a).len() - 5) =~= x);
    assert(temp_file(b).subrange(14, temp_file(b).len() - 5) =~= y);
    lemma_decimal_value(a as nat);
    lemma_decimal_value(b as nat);
}

} // verus!
