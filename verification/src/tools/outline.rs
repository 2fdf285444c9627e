//! `lean_file_outline`: the imports and declarations of a file.
use crate::error::{result_view, ErrorView, LeanToolError};
use crate::json::{
    int_at, int_member, items_member, lemma_member_smaller, text_member, views, Json, JsonView,
};
use crate::lists::lemma_filter_map_first;
use crate::models::{
    all_views, opt_str, opt_text, FileOutline, FileOutlineView, OutlineEntry, OutlineEntryView,
};
use crate::position::{from_one, one_based};
use crate::protocol::{
    begins, followed, lemma_followed, lsp_error, lsp_failure, waiting_first, Call, Dialogue, Reply,
    ReplyView, Request, RequestView, Turn, Waiting, Waits,
};
use crate::text::{
    char_in, chars_of, is_space, is_whitespace, lemma_trim_end, lemma_trim_start, lines, lines_of,
    lowercase_of, starts_with, starts_with_of, str_starts_with, text_of, texts, to_lower, trim,
    trim_of, trim_start_of,
};
use crate::tools::file::{file_dialogue, open_and_read, FileRead, ReadSaid};
use vstd::prelude::*;
use vstd::slice::slice_subrange;
use vstd::string::*;

verus! {

// ---------------------------------------------------------------------------
// Imports
// ---------------------------------------------------------------------------

/// Whether a text begins with two characters.
pub open spec fn begins_with(s: Seq<char>, a: char, b: char) -> bool {
    s.len() >= 2 && s[0] == a && s[1] == b
}

/// How many block comments are open behind a line, where `depth` are open before
/// it. Block comments nest, and outside of them `--` hides the rest of the line.
pub open spec fn depth_after(line: Seq<char>, depth: nat) -> nat
    decreases line.len(),
{
    if line.len() == 0 {
        depth
    } else if depth == 0 && begins_with(line, '-', '-') {
        0
    } else if begins_with(line, '/', '-') {
        depth_after(line.skip(2), depth + 1)
    } else if depth > 0 && begins_with(line, '-', '/') {
        depth_after(line.skip(2), (depth - 1) as nat)
    } else {
        depth_after(line.skip(1), depth)
    }
}

/// A line from its first character on that is neither white space nor in a
/// comment, where `depth` block comments are open before it; empty where there is
/// no such character.
pub open spec fn code_of(line: Seq<char>, depth: nat) -> Seq<char>
    decreases line.len(),
{
    if line.len() == 0 || (depth == 0 && begins_with(line, '-', '-')) {
        Seq::empty()
    } else if begins_with(line, '/', '-') {
        code_of(line.skip(2), depth + 1)
    } else if depth > 0 && begins_with(line, '-', '/') {
        code_of(line.skip(2), (depth - 1) as nat)
    } else if depth > 0 || is_space(line[0]) {
        code_of(line.skip(1), depth)
    } else {
        line
    }
}

/// Whether some code is an import.
pub open spec fn is_import(code: Seq<char>) -> bool {
    starts_with_of(code, "import "@) || starts_with_of(code, "public import "@)
}

/// The imports among some lines, up to the first line that is neither an
/// import, nor blank, nor a comment; `depth` block comments are open before the
/// lines.
pub open spec fn imports_of(lines: Seq<Seq<char>>, depth: nat) -> Seq<Seq<char>>
    decreases lines.len(),
{
    if lines.len() == 0 {
        Seq::empty()
    } else {
        let line = trim_of(lines[0]);
        let code = code_of(line, depth);
        let rest = imports_of(lines.skip(1), depth_after(line, depth));
        if code.len() == 0 {
            rest
        } else if is_import(code) {
            seq![line] + rest
        } else {
            Seq::empty()
        }
    }
}

/// Whether two characters stand at a place.
fn pair_at(s: &[char], i: usize, a: char, b: char) -> (r: bool)
    requires
        i < s@.len(),
    ensures
        r == begins_with(s@.skip(i as int), a, b),
{
    s.len() - i >= 2 && s[i] == a && s[i + 1] == b
}

/// How many block comments are open behind a line, and where its code begins.
fn scan_line(s: &[char], depth: u128) -> (r: (u128, usize))
    requires
        depth + s@.len() <= u128::MAX,
    ensures
        r.0 == depth_after(s@, depth as nat),
        r.0 <= depth + s@.len(),
        r.1 <= s@.len(),
        s@.skip(r.1 as int) == code_of(s@, depth as nat),
{
    let mut d: u128 = depth;
    let mut i: usize = 0;
    let mut found: Option<usize> = None;
    let ghost before = depth as nat;
    proof {
        assert(s@.skip(0) =~= s@);
        assert(s@.skip(s@.len() as int) =~= Seq::empty());
    }
    while i < s.len()
        invariant
            before == depth,
            i <= s@.len(),
            depth + s@.len() <= u128::MAX,
            d <= depth + i,
            s@.skip(s@.len() as int) == Seq::<char>::empty(),
            depth_after(s@, before) == depth_after(s@.skip(i as int), d as nat),
            match found {
                Some(k) => k <= s@.len() && s@.skip(k as int) == code_of(s@, before),
                None => code_of(s@, before) == code_of(s@.skip(i as int), d as nat),
            },
        decreases s@.len() - i,
    {
        let ghost here = s@.skip(i as int);
        proof {
            assert(here[0] == s@[i as int]);
            assert(here.skip(1) =~= s@.skip(i + 1));
            if here.len() >= 2 {
                assert(here.skip(2) =~= s@.skip(i + 2));
            }
        }
        if d == 0 && pair_at(s, i, '-', '-') {
            let end: usize = match found {
                Some(k) => k,
                None => s.len(),
            };
            return (0, end);
        }
        if pair_at(s, i, '/', '-') {
            d = d + 1;
            i = i + 2;
        } else if d > 0 && pair_at(s, i, '-', '/') {
            d = d - 1;
            i = i + 2;
        } else {
            if d == 0 && found.is_none() && !is_whitespace(s[i]) {
                found = Some(i);
            }
            i = i + 1;
        }
    }
    let end: usize = match found {
        Some(k) => k,
        None => s.len(),
    };
    (d, end)
}

/// The imports at the top of a file.
pub fn extract_imports(content: &str) -> (r: Vec<String>)
    ensures
        texts(r@) == imports_of(lines_of(content@), 0),
{
    let ls = lines(content);
    let ghost all = lines_of(content@);
    let mut imports: Vec<String> = Vec::new();
    let mut depth: u128 = 0;
    proof {
        assert(all.skip(0) =~= all);
        assert(texts(imports@) + imports_of(all, 0) =~= imports_of(all, 0));
    }
    for i in 0..ls.len()
        invariant
            texts(ls@) == all,
            all == lines_of(content@),
            depth <= i * 0xffff_ffff_ffff_ffff,
            imports_of(all, 0) == texts(imports@) + imports_of(all.skip(i as int), depth as nat),
    {
        proof {
            assert(all.skip(i as int)[0] == all[i as int]);
            assert(all[i as int] == ls@[i as int]@);
            assert(all.skip(i as int).skip(1) =~= all.skip(i + 1));
        }
        let cs = chars_of(ls[i].as_str());
        let line = trim(&cs);
        let length: usize = line.len();
        proof {
            assert(i < usize::MAX <= 0xffff_ffff_ffff_ffff);
            assert(length <= 0xffff_ffff_ffff_ffff);
        }
        let (after, start) = scan_line(line, depth);
        let code = slice_subrange(line, start, length);
        proof {
            assert(code@ =~= line@.skip(start as int));
        }
        depth = after;
        if code.len() > 0 {
            if !starts_with(code, &chars_of("import ")) && !starts_with(
                code,
                &chars_of("public import "),
            ) {
                proof {
                    assert(texts(imports@) + Seq::<Seq<char>>::empty() =~= texts(imports@));
                }
                return imports;
            }
            let ghost before = imports@;
            let ghost rest = imports_of(all.skip(i + 1), depth as nat);
            imports.push(text_of(line));
            proof {
                assert(texts(imports@) =~= texts(before) + seq![line@]);
                assert(texts(before) + (seq![line@] + rest) =~= texts(imports@) + rest);
            }
        }
    }
    proof {
        assert(texts(imports@) + Seq::<Seq<char>>::empty() =~= texts(imports@));
    }
    imports
}

/// Whether a line opens no block comment: each `/-` of it stands behind a `--`.
pub open spec fn opens_none(line: Seq<char>) -> bool {
    forall|j: int|
        0 <= j < line.len() && begins_with(#[trigger] line.skip(j), '/', '-') ==> exists|i: int|
            0 <= i < j && begins_with(#[trigger] line.skip(i), '-', '-')
}

/// Behind a line that opens no block comment none is open, if none was open before
/// it. Its code is all of it from its first character on that is no white space,
/// unless `--` stands there.
pub proof fn lemma_no_comment_opened(line: Seq<char>)
    requires
        opens_none(line),
    ensures
        depth_after(line, 0) == 0,
        line.len() > 0 && !is_space(line[0]) ==> code_of(line, 0) == if begins_with(
            line,
            '-',
            '-',
        ) {
            Seq::empty()
        } else {
            line
        },
    decreases line.len(),
{
    assert(line.skip(0) =~= line);
    if line.len() > 0 && !begins_with(line, '-', '-') {
        assert(!begins_with(line.skip(0), '/', '-'));
        let rest = line.skip(1);
        assert forall|j: int|
            0 <= j < rest.len() && begins_with(#[trigger] rest.skip(j), '/', '-') implies exists|
            i: int,
        |
            0 <= i < j && begins_with(#[trigger] rest.skip(i), '-', '-') by {
            assert(rest.skip(j) =~= line.skip(j + 1));
            assert(begins_with(line.skip(j + 1), '/', '-'));
            let i = choose|i: int|
                0 <= i < j + 1 && begins_with(#[trigger] line.skip(i), '-', '-');
            assert(i != 0);
            assert(rest.skip(i - 1) =~= line.skip(i));
        }
        lemma_no_comment_opened(rest);
    }
}

/// Whether a line is blank, a line comment or an import.
pub open spec fn of_imports(line: Seq<char>) -> bool {
    let t = trim_of(line);
    t.len() == 0 || begins_with(t, '-', '-') || is_import(t)
}

/// The first line that is neither blank, nor a line comment, nor an import; the
/// number of lines where there is none.
pub open spec fn first_code(lines: Seq<Seq<char>>) -> int
    decreases lines.len(),
{
    if lines.len() == 0 || !of_imports(lines[0]) {
        0
    } else {
        1 + first_code(lines.skip(1))
    }
}

/// The import that a line is, if it is one.
pub open spec fn import_at(line: Seq<char>) -> Option<Seq<char>> {
    if is_import(trim_of(line)) {
        Some(trim_of(line))
    } else {
        None
    }
}

/// Where no line opens a block comment, the imports of a file are the import lines
/// before its first line of code, all of them and in their order.
pub proof fn lemma_imports_before_code(lines: Seq<Seq<char>>)
    requires
        forall|i: int| 0 <= i < lines.len() ==> opens_none(trim_of(#[trigger] lines[i])),
    ensures
        0 <= first_code(lines) <= lines.len(),
        imports_of(lines, 0) == lines.take(first_code(lines)).filter_map(
            |l: Seq<char>| import_at(l),
        ),
    decreases lines.len(),
{
    let f = |l: Seq<char>| import_at(l);
    if lines.len() > 0 {
        let line = trim_of(lines[0]);
        let rest = lines.skip(1);
        assert forall|i: int| 0 <= i < rest.len() implies opens_none(
            trim_of(#[trigger] rest[i]),
        ) by {
            assert(rest[i] == lines[i + 1]);
        }
        lemma_imports_before_code(rest);
        assert(opens_none(line));
        lemma_no_comment_opened(line);
        lemma_trim_start(lines[0]);
        lemma_trim_end(trim_start_of(lines[0]));
        if line.len() > 0 {
            assert(line[0] == trim_start_of(lines[0])[0]);
        }
        reveal_strlit("import ");
        reveal_strlit("public import ");
        if is_import(line) {
            assert(line[0] == "import "@[0] || line[0] == "public import "@[0]);
        }
        let k = first_code(lines);
        if of_imports(lines[0]) {
            assert(lines.take(k) =~= seq![lines[0]] + rest.take(k - 1));
            lemma_filter_map_first(lines[0], rest.take(k - 1), f);
        } else {
            assert(lines.take(0) =~= Seq::empty());
            assert(lines.take(0).filter_map(f) =~= Seq::empty());
        }
    } else {
        assert(lines.take(0).filter_map(f) =~= Seq::empty());
    }
}

// ---------------------------------------------------------------------------
// Tags
// ---------------------------------------------------------------------------

/// The kind of a module.
pub const SYMBOL_KIND_MODULE: i64 = 2;

/// The kind of a namespace.
pub const SYMBOL_KIND_NAMESPACE: i64 = 3;

/// The kind of a class.
pub const SYMBOL_KIND_CLASS: i64 = 5;

/// The kind of a method.
pub const SYMBOL_KIND_METHOD: i64 = 6;

/// The kind of an enumeration.
pub const SYMBOL_KIND_ENUM: i64 = 10;

/// The kind of a function.
pub const SYMBOL_KIND_FUNCTION: i64 = 12;

/// The kind of a structure.
pub const SYMBOL_KIND_STRUCT: i64 = 23;

/// Whether the detail of a symbol is that of a theorem.
pub open spec fn theorem_detail(detail: Seq<char>) -> bool {
    ||| starts_with_of(detail, "theorem"@)
    ||| starts_with_of(detail, "lemma"@)
    ||| detail.contains('\u{2200}')
    ||| detail.contains('=')
}

/// The tag of a symbol, by its kind, its name and its detail.
pub open spec fn tag_of(kind: int, name: Seq<char>, detail: Option<Seq<char>>) -> Seq<char> {
    if kind == SYMBOL_KIND_MODULE || kind == SYMBOL_KIND_NAMESPACE {
        "Ns"@
    } else if kind == SYMBOL_KIND_CLASS {
        "Class"@
    } else if kind == SYMBOL_KIND_STRUCT || kind == SYMBOL_KIND_ENUM {
        "Struct"@
    } else if starts_with_of(lowercase_of(name), "example"@) {
        "Ex"@
    } else if detail matches Some(d) && theorem_detail(d) {
        "Thm"@
    } else {
        "Def"@
    }
}

/// The tag of a symbol: `Ns` for a module or namespace, `Class`, `Struct` for a
/// structure or an enumeration, `Ex` for an example, `Thm` for what reads like a
/// theorem, and `Def` for everything else.
pub fn detect_tag(kind: i64, name: &str, detail: Option<&str>) -> (r: String)
    ensures
        r@ == tag_of(kind as int, name@, opt_str(detail)),
{
    let tag = if kind == SYMBOL_KIND_MODULE || kind == SYMBOL_KIND_NAMESPACE {
        "Ns"
    } else if kind == SYMBOL_KIND_CLASS {
        "Class"
    } else if kind == SYMBOL_KIND_STRUCT || kind == SYMBOL_KIND_ENUM {
        "Struct"
    } else if str_starts_with(to_lower(name).as_str(), "example") {
        "Ex"
    } else {
        match detail {
            Some(d) => {
                let cs = chars_of(d);
                if str_starts_with(d, "theorem") || str_starts_with(d, "lemma") || char_in(
                    '\u{2200}',
                    &cs,
                ) || char_in('=', &cs) {
                    "Thm"
                } else {
                    "Def"
                }
            },
            None => "Def",
        }
    };
    tag.to_owned()
}

// ---------------------------------------------------------------------------
// Entries
// ---------------------------------------------------------------------------

/// The entry that a symbol stands for, with those of its children; none where
/// it has no name or no range.
pub open spec fn entry_of(symbol: JsonView) -> Option<OutlineEntryView>
    decreases symbol,
{
    match (text_member(symbol, "name"@), symbol.member("range"@)) {
        (Some(name), Some(range)) => {
            let detail = text_member(symbol, "detail"@);
            proof {
                lemma_member_smaller(symbol, "children"@);
            }
            Some(
                OutlineEntryView {
                    name,
                    kind: tag_of(
                        match int_member(symbol, "kind"@) {
                            Some(k) => k,
                            None => 0,
                        },
                        name,
                        detail,
                    ),
                    start_line: one_based(int_at(range, "start"@, "line"@, 0)) as i64,
                    end_line: one_based(int_at(range, "end"@, "line"@, 0)) as i64,
                    type_signature: detail,
                    children: match items_member(symbol, "children"@) {
                        Some(children) => entries_of(children),
                        None => Seq::empty(),
                    },
                },
            )
        },
        _ => None,
    }
}

/// The entries that some symbols stand for.
pub open spec fn entries_of(symbols: Seq<JsonView>) -> Seq<OutlineEntryView>
    decreases symbols,
{
    if symbols.len() == 0 {
        Seq::empty()
    } else {
        let init = symbols.subrange(0, symbols.len() - 1);
        proof {
            assert(decreases_to!(symbols => symbols[symbols.len() - 1]));
            assert(decreases_to!(symbols => symbols.subrange(0, symbols.len() - 1)));
        }
        match entry_of(symbols[symbols.len() - 1]) {
            Some(e) => entries_of(init).push(e),
            None => entries_of(init),
        }
    }
}

/// A symbol has an entry if and only if it has a name and a range.
pub proof fn lemma_symbols_with_entries(symbol: JsonView)
    ensures
        entry_of(symbol) is Some <==> text_member(symbol, "name"@) is Some && symbol.member(
            "range"@,
        ) is Some,
{
}

/// The entries of some symbols: one for each symbol that has a name and a range,
/// in their order.
pub proof fn lemma_entries_told(symbols: Seq<JsonView>)
    ensures
        entries_of(symbols) == symbols.filter(
            |s: JsonView| text_member(s, "name"@) is Some && s.member("range"@) is Some,
        ).map_values(|s: JsonView| entry_of(s)->0),
    decreases symbols.len(),
{
    let keep = |s: JsonView| text_member(s, "name"@) is Some && s.member("range"@) is Some;
    let image = |s: JsonView| entry_of(s)->0;
    reveal(Seq::filter);
    if symbols.len() == 0 {
        assert(entries_of(symbols) =~= symbols.filter(keep).map_values(image));
    } else {
        let init = symbols.subrange(0, symbols.len() - 1);
        let last = symbols[symbols.len() - 1];
        assert(init =~= symbols.drop_last());
        lemma_entries_told(init);
        lemma_symbols_with_entries(last);
        if keep(last) {
            assert(init.filter(keep).push(last).map_values(image) =~= init.filter(
                keep,
            ).map_values(image).push(image(last)));
        }
    }
}

/// An entry bears the name, the detail and the lines (from 1) of its symbol. Its
/// children are the entries of all children of the symbol that have a name and a
/// range, in their order.
pub proof fn lemma_entry_told(symbol: JsonView, name: Seq<char>, range: JsonView)
    requires
        text_member(symbol, "name"@) == Some(name),
        symbol.member("range"@) == Some(range),
    ensures
        ({
            let e = entry_of(symbol)->0;
            &&& entry_of(symbol) is Some
            &&& e.name == name
            &&& e.type_signature == text_member(symbol, "detail"@)
            &&& int_member(symbol, "kind"@) matches Some(k) ==> e.kind == tag_of(
                k,
                name,
                text_member(symbol, "detail"@),
            )
            &&& int_member(symbol, "kind"@) is None ==> e.kind == tag_of(
                0,
                name,
                text_member(symbol, "detail"@),
            )
            &&& int_at(range, "start"@, "line"@, 0) < i64::MAX ==> e.start_line == int_at(
                range,
                "start"@,
                "line"@,
                0,
            ) + 1
            &&& int_at(range, "end"@, "line"@, 0) < i64::MAX ==> e.end_line == int_at(
                range,
                "end"@,
                "line"@,
                0,
            ) + 1
            &&& items_member(symbol, "children"@) is None ==> e.children.len() == 0
            &&& items_member(symbol, "children"@) matches Some(cs) ==> e.children == cs.filter(
                |s: JsonView| text_member(s, "name"@) is Some && s.member("range"@) is Some,
            ).map_values(|s: JsonView| entry_of(s)->0)
        }),
{
    if let Some(cs) = items_member(symbol, "children"@) {
        lemma_entries_told(cs);
    }
}

/// The view of an entry, with the views of its children.
proof fn lemma_entry_view(e: OutlineEntry)
    ensures
        e@ == (OutlineEntryView {
            name: e.name@,
            kind: e.kind@,
            start_line: e.start_line,
            end_line: e.end_line,
            type_signature: opt_text(e.type_signature),
            children: all_views(e.children@),
        }),
{
    assert(e@.children =~= all_views(e.children@));
}

/// The entry that a symbol stands for, with those of its children.
pub fn symbol_to_entry(symbol: &Json) -> (r: Option<OutlineEntry>)
    ensures
        match r {
            Some(e) => entry_of(symbol@) == Some(e@),
            None => entry_of(symbol@) is None,
        },
    decreases symbol@,
{
    let name = match symbol.text_member("name") {
        Some(name) => name,
        None => return None,
    };
    let range = match symbol.get("range") {
        Some(range) => range,
        None => return None,
    };
    let kind: i64 = match symbol.int_member("kind") {
        Some(k) => k,
        None => 0,
    };
    let detail = symbol.text_member("detail");
    let children = match symbol.items_member("children") {
        Some(children) => {
            proof {
                lemma_member_smaller(symbol@, "children"@);
            }
            symbols_to_entries(children)
        },
        None => {
            let none: Vec<OutlineEntry> = Vec::new();
            proof {
                assert(all_views(none@) =~= Seq::empty());
            }
            none
        },
    };
    let entry = OutlineEntry {
        name: name.to_owned(),
        kind: detect_tag(kind, name, detail),
        start_line: from_one(range.int_at("start", "line")),
        end_line: from_one(range.int_at("end", "line")),
        type_signature: match detail {
            Some(d) => Some(d.to_owned()),
            None => None,
        },
        children,
    };
    proof {
        lemma_entry_view(entry);
    }
    Some(entry)
}

/// The entries that some symbols stand for.
pub fn symbols_to_entries(symbols: &[Json]) -> (r: Vec<OutlineEntry>)
    ensures
        all_views(r@) == entries_of(views(symbols@)),
    decreases views(symbols@),
{
    let ghost all = views(symbols@);
    let mut entries: Vec<OutlineEntry> = Vec::new();
    proof {
        assert(all_views(entries@) =~= entries_of(all.subrange(0, 0)));
    }
    for i in 0..symbols.len()
        invariant
            all == views(symbols@),
            all_views(entries@) == entries_of(all.subrange(0, i as int)),
    {
        let ghost next = all.subrange(0, i + 1);
        proof {
            assert(next.subrange(0, next.len() - 1) =~= all.subrange(0, i as int));
            assert(next[next.len() - 1] == all[i as int]);
            assert(all[i as int] == symbols@[i as int]@);
            assert(decreases_to!(all => all[i as int]));
        }
        if let Some(e) = symbol_to_entry(&symbols[i]) {
            let ghost before = entries@;
            entries.push(e);
            proof {
                assert(all_views(entries@) =~= all_views(before).push(e@));
            }
        }
    }
    proof {
        assert(all.subrange(0, all.len() as int) =~= all);
    }
    entries
}

// ---------------------------------------------------------------------------
// The tool
// ---------------------------------------------------------------------------

/// What `lean_file_outline` comes to.
pub type OutlineSaid = Result<FileOutlineView, ErrorView>;

/// An outline of which at most `max` declarations are kept. Where some are left
/// out, it tells how many there are in all.
pub open spec fn outline_of(
    imports: Seq<Seq<char>>,
    declarations: Seq<OutlineEntryView>,
    max: Option<usize>,
) -> FileOutlineView {
    match max {
        Some(n) => if n < declarations.len() {
            FileOutlineView {
                imports,
                declarations: declarations.take(n as int),
                total_declarations: Some(declarations.len() as i64),
            }
        } else {
            FileOutlineView { imports, declarations, total_declarations: None }
        },
        None => FileOutlineView { imports, declarations, total_declarations: None },
    }
}

/// An outline of which at most `max` declarations are kept.
pub fn outline(imports: Vec<String>, declarations: Vec<OutlineEntry>, max: Option<usize>) -> (r:
    FileOutline)
    ensures
        r@ == outline_of(texts(imports@), all_views(declarations@), max),
{
    let mut declarations = declarations;
    let mut total_declarations: Option<i64> = None;
    if let Some(n) = max {
        if n < declarations.len() {
            total_declarations = Some(declarations.len() as i64);
            let ghost before = declarations@;
            declarations.truncate(n);
            proof {
                assert(all_views(declarations@) =~= all_views(before).take(n as int));
            }
        }
    }
    FileOutline { imports, declarations, total_declarations }
}

/// After the symbols came.
pub open spec fn outline_symbols(content: Seq<char>, max: Option<usize>) -> Waiting<OutlineSaid> {
    |r: ReplyView|
        Dialogue::Finish(
            match r {
                ReplyView::Values(symbols) => Ok(
                    outline_of(imports_of(lines_of(content), 0), entries_of(symbols), max),
                ),
                _ => Err(lsp_failure("get_document_symbols"@, r.trouble())),
            },
        )
}

/// Asks for the symbols of a file that was read.
pub open spec fn outline_within(path: Seq<char>, max: Option<usize>) -> spec_fn(
    ReadSaid,
) -> Dialogue<OutlineSaid> {
    |res: ReadSaid|
        match res {
            Ok(content) => Dialogue::Ask(
                RequestView::Symbols { path },
                outline_symbols(content, max),
            ),
            Err(e) => Dialogue::Finish(Err(e)),
        }
}

/// The whole of `lean_file_outline`.
pub open spec fn outline_dialogue(path: Seq<char>, max: Option<usize>) -> Dialogue<OutlineSaid> {
    followed(file_dialogue(path), outline_within(path, max))
}

/// `lean_file_outline` at work.
pub enum OutlineCall {
    /// Waits for the content of the file.
    Reading { call: FileRead, path: String, max: Option<usize> },
    /// Waits for the symbols.
    Asking { content: String, max: Option<usize> },
}

impl Waits for OutlineCall {
    type Out = Result<FileOutline, LeanToolError>;

    type Said = OutlineSaid;

    open spec fn said(o: Self::Out) -> OutlineSaid {
        result_view(o)
    }

    open spec fn valid(self) -> bool {
        true
    }

    open spec fn waiting(self) -> Waiting<OutlineSaid> {
        match self {
            OutlineCall::Reading { call, path, max } => waiting_first(
                call.waiting(),
                outline_within(path@, max),
            ),
            OutlineCall::Asking { content, max } => outline_symbols(content@, max),
        }
    }

    open spec fn admits(self, r: ReplyView) -> bool {
        true
    }
}

impl OutlineCall {
    /// Goes on with the reading.
    fn read(
        t: Turn<FileRead, Result<String, LeanToolError>>,
        path: String,
        max: Option<usize>,
    ) -> (r: Turn<OutlineCall, Result<FileOutline, LeanToolError>>)
        ensures
            forall|d: Dialogue<ReadSaid>| #[trigger]
                begins(t, d) ==> begins(r, followed(d, outline_within(path@, max))),
    {
        match t {
            Turn::Ask(q, call) => {
                proof {
                    lemma_followed(q@, call.waiting(), outline_within(path@, max));
                }
                Turn::Ask(q, OutlineCall::Reading { call, path, max })
            },
            Turn::Done(Ok(content)) => Turn::Ask(
                Request::Symbols { path },
                OutlineCall::Asking { content, max },
            ),
            Turn::Done(Err(e)) => Turn::Done(Err(e)),
        }
    }
}

impl Call for OutlineCall {
    fn accepts(&self, reply: &Reply) -> (r: bool) {
        true
    }

    fn resume(self, reply: Reply) -> (t: Turn<Self, Self::Out>) {
        match self {
            OutlineCall::Reading { call, path, max } => OutlineCall::read(
                call.resume(reply),
                path,
                max,
            ),
            OutlineCall::Asking { content, max } => match reply.values() {
                Ok(symbols) => Turn::Done(
                    Ok(
                        outline(
                            extract_imports(content.as_str()),
                            symbols_to_entries(&symbols),
                            max,
                        ),
                    ),
                ),
                Err(m) => Turn::Done(Err(lsp_error("get_document_symbols", m))),
            },
        }
    }
}

/// The imports and declarations of a file, at most `max_declarations` of the
/// latter where that is given.
pub fn handle_file_outline(file_path: &str, max_declarations: Option<usize>) -> (t: Turn<
    OutlineCall,
    Result<FileOutline, LeanToolError>,
>)
    ensures
        begins(t, outline_dialogue(file_path@, max_declarations)),
{
    OutlineCall::read(open_and_read(file_path), file_path.to_owned(), max_declarations)
}

/// Whether a text has no mark of a block comment, nor makes one with a `-` behind it.
pub open spec fn plain_comment(body: Seq<char>) -> bool {
    &&& forall|j: int|
        0 <= j < body.len() ==> !begins_with(#[trigger] body.skip(j), '/', '-') && !begins_with(
            body.skip(j),
            '-',
            '/',
        )
    &&& body.len() > 0 ==> body.last() != '/'
}

/// What stands in a comment is neither code nor opens or closes one.
proof fn lemma_inside_comment(body: Seq<char>, rest: Seq<char>, depth: nat)
    requires
        plain_comment(body),
    ensures
        depth_after(body + seq!['-', '/'] + rest, depth + 1) == depth_after(rest, depth),
        code_of(body + seq!['-', '/'] + rest, depth + 1) == code_of(rest, depth),
    decreases body.len(),
{
    let all = body + seq!['-', '/'] + rest;
    if body.len() == 0 {
        assert(all.skip(2) =~= rest);
    } else {
        let tail = body.skip(1);
        assert(body.skip(0) =~= body);
        assert(!begins_with(body.skip(0), '/', '-') && !begins_with(body.skip(0), '-', '/'));
        assert forall|j: int| 0 <= j < tail.len() implies !begins_with(
            #[trigger] tail.skip(j),
            '/',
            '-',
        ) && !begins_with(tail.skip(j), '-', '/') by {
            assert(tail.skip(j) =~= body.skip(j + 1));
        }
        lemma_inside_comment(tail, rest, depth);
        assert(all.skip(1) =~= tail + seq!['-', '/'] + rest);
        assert(!begins_with(all, '/', '-'));
        assert(!begins_with(all, '-', '/'));
    }
}

/// A block comment counts for nothing: behind it as many are open as before it, whether it
/// stands in another or not, and the code is that of what follows.
pub proof fn lemma_comment_skipped(body: Seq<char>, rest: Seq<char>, depth: nat)
    requires
        plain_comment(body),
    ensures
        depth_after(seq!['/', '-'] + (body + seq!['-', '/'] + rest), depth) == depth_after(
            rest,
            depth,
        ),
        code_of(seq!['/', '-'] + (body + seq!['-', '/'] + rest), depth) == code_of(rest, depth),
{
    let inner = body + seq!['-', '/'] + rest;
    let all = seq!['/', '-'] + inner;
    assert(all.skip(2) =~= inner);
    lemma_inside_comment(body, rest, depth);
}

/// A block comment that is opened and not closed leaves one more open, and no code.
pub proof fn lemma_comment_opened(body: Seq<char>, depth: nat)
    requires
        plain_comment(body),
    ensures
        depth_after(seq!['/', '-'] + body, depth) == depth + 1,
        code_of(seq!['/', '-'] + body, depth).len() == 0,
{
    let all = seq!['/', '-'] + body;
    assert(all.skip(2) =~= body);
    lemma_comment_lasts(body, depth + 1);
}

/// A line in a block comment that has no mark of one leaves it open, and has no code.
pub proof fn lemma_comment_lasts(body: Seq<char>, depth: nat)
    requires
        plain_comment(body),
        depth > 0,
    ensures
        depth_after(body, depth) == depth,
        code_of(body, depth).len() == 0,
    decreases body.len(),
{
    if body.len() > 0 {
        let tail = body.skip(1);
        assert(body.skip(0) =~= body);
        assert(!begins_with(body.skip(0), '/', '-') && !begins_with(body.skip(0), '-', '/'));
        assert forall|j: int| 0 <= j < tail.len() implies !begins_with(
            #[trigger] tail.skip(j),
            '/',
            '-',
        ) && !begins_with(tail.skip(j), '-', '/') by {
            assert(tail.skip(j) =~= body.skip(j + 1));
        }
        lemma_comment_lasts(tail, depth);
    }
}

/// The imports of a file, line by line: a line without code is passed over, an import is
/// told without the white space around it, and any other line ends them.
pub proof fn lemma_imports_by_line(line: Seq<char>, rest: Seq<Seq<char>>, depth: nat)
    ensures
        ({
            let code = code_of(trim_of(line), depth);
            let below = imports_of(rest, depth_after(trim_of(line), depth));
            let all = imports_of(seq![line] + rest, depth);
            &&& code.len() == 0 ==> all == below
            &&& starts_with_of(code, "import "@) || starts_with_of(code, "public import "@)
                ==> all == seq![trim_of(line)] + below
            &&& code.len() > 0 && !starts_with_of(code, "import "@) && !starts_with_of(
                code,
                "public import "@,
            ) ==> all.len() == 0
        }),
{
    reveal_strlit("import ");
    reveal_strlit("public import ");
    let lines = seq![line] + rest;
    assert(lines.skip(1) =~= rest);
    assert(lines[0] == line);
}

/// The tag of a symbol, as the numbers of the language server's kinds have it: 2 is a module
/// and 3 a namespace, 5 a class, 23 a structure and 10 an enumeration. Any other symbol is
/// an example where its name begins so in any case, else a theorem where its detail reads
/// like one, and else a definition.
pub proof fn lemma_tag_told(kind: int, name: Seq<char>, detail: Option<Seq<char>>)
    ensures
        ({
            let tag = tag_of(kind, name, detail);
            let other = kind != 2 && kind != 3 && kind != 5 && kind != 10 && kind != 23;
            let example = starts_with_of(lowercase_of(name), "example"@);
            let reads_so = detail matches Some(d) && (starts_with_of(d, "theorem"@)
                || starts_with_of(d, "lemma"@) || d.contains('=') || d.contains('\u{2200}'));
            &&& kind == 2 || kind == 3 ==> tag == "Ns"@
            &&& kind == 5 ==> tag == "Class"@
            &&& kind == 10 || kind == 23 ==> tag == "Struct"@
            &&& other && example ==> tag == "Ex"@
            &&& other && !example && reads_so ==> tag == "Thm"@
            &&& other && !example && !reads_so ==> tag == "Def"@
        }),
{
}

} // verus!
