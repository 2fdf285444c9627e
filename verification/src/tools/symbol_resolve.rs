//! Where a declaration stands in its file.
use crate::error::{ErrorView, LeanToolError};
use crate::json::{
    items_member, lemma_member_smaller, nat_or, opt_view, text_member, uint_at, views, Json,
    JsonView,
};
use crate::position::{next_number, next_of};
use crate::protocol::{
    begins, followed, lemma_followed, lsp_error, lsp_failure, waiting_first, Call, Dialogue, Reply,
    ReplyView, Request, RequestView, Turn, Waiting, Waits,
};
use crate::text::same_text;
use vstd::prelude::*;
use vstd::string::*;

verus! {

/// The first symbol called `name`, where a symbol comes before its children and
/// these before the symbols that follow it.
pub open spec fn symbol_called(symbols: Seq<JsonView>, name: Seq<char>) -> Option<JsonView>
    decreases symbols,
{
    if symbols.len() == 0 {
        None
    } else if text_member(symbols[0], "name"@) == Some(name) {
        Some(symbols[0])
    } else {
        proof {
            lemma_member_smaller(symbols[0], "children"@);
            assert(decreases_to!(symbols => symbols[0]));
            assert(decreases_to!(symbols => symbols.subrange(1, symbols.len() as int)));
        }
        let below = match items_member(symbols[0], "children"@) {
            Some(children) => symbol_called(children, name),
            None => None,
        };
        match below {
            Some(s) => Some(s),
            None => symbol_called(symbols.subrange(1, symbols.len() as int), name),
        }
    }
}

/// The first symbol called `target_name`, children before what follows their
/// parent.
pub fn search_symbols<'a>(symbols: &'a [Json], target_name: &str) -> (r: Option<&'a Json>)
    ensures
        opt_view(r) == symbol_called(views(symbols@), target_name@),
    decreases views(symbols@),
{
    let ghost all = views(symbols@);
    proof {
        assert(all.subrange(0, all.len() as int) =~= all);
    }
    for i in 0..symbols.len()
        invariant
            all == views(symbols@),
            symbol_called(all, target_name@) == symbol_called(
                all.subrange(i as int, all.len() as int),
                target_name@,
            ),
    {
        let symbol = &symbols[i];
        let ghost rest = all.subrange(i as int, all.len() as int);
        proof {
            assert(rest[0] == all[i as int]);
            assert(all[i as int] == symbol@);
            assert(rest.subrange(1, rest.len() as int) =~= all.subrange(i + 1, all.len() as int));
        }
        if let Some(name) = symbol.text_member("name") {
            if same_text(name, target_name) {
                return Some(symbol);
            }
        }
        if let Some(children) = symbol.items_member("children") {
            proof {
                lemma_member_smaller(symbol@, "children"@);
                assert(decreases_to!(all => all[i as int]));
            }
            if let Some(found) = search_symbols(children, target_name) {
                return Some(found);
            }
        }
    }
    None
}

/// Some symbols with all below them: each before its children, and these before the
/// symbols that follow it.
pub open spec fn in_turn(symbols: Seq<JsonView>) -> Seq<JsonView>
    decreases symbols,
{
    if symbols.len() == 0 {
        Seq::empty()
    } else {
        proof {
            lemma_member_smaller(symbols[0], "children"@);
            assert(decreases_to!(symbols => symbols[0]));
            assert(decreases_to!(symbols => symbols.subrange(1, symbols.len() as int)));
        }
        seq![symbols[0]] + match items_member(symbols[0], "children"@) {
            Some(children) => in_turn(children),
            None => Seq::empty(),
        } + in_turn(symbols.subrange(1, symbols.len() as int))
    }
}

/// The first symbol, in turn, that bears the name is found; nothing is found only where
/// no symbol bears it, however deep.
pub proof fn lemma_first_called(symbols: Seq<JsonView>, name: Seq<char>)
    ensures
        ({
            let all = in_turn(symbols);
            match symbol_called(symbols, name) {
                Some(s) => exists|k: int|
                    0 <= k < all.len() && #[trigger] all[k] == s && text_member(s, "name"@) == Some(
                        name,
                    ) && (forall|j: int|
                        0 <= j < k ==> text_member(#[trigger] all[j], "name"@) != Some(name)),
                None => forall|j: int|
                    0 <= j < all.len() ==> text_member(#[trigger] all[j], "name"@) != Some(name),
            }
        }),
    decreases symbols,
{
    if symbols.len() > 0 {
        let all = in_turn(symbols);
        let rest = symbols.subrange(1, symbols.len() as int);
        let below = match items_member(symbols[0], "children"@) {
            Some(children) => in_turn(children),
            None => Seq::empty(),
        };
        assert(decreases_to!(symbols => symbols[0]));
        assert(decreases_to!(symbols => symbols.subrange(1, symbols.len() as int)));
        lemma_member_smaller(symbols[0], "children"@);
        let n = below.len() as int;
        assert(all[0] == symbols[0]);
        assert forall|j: int| 1 <= j < 1 + n implies #[trigger] all[j] == below[j - 1] by {}
        assert forall|j: int| 1 + n <= j < all.len()
            implies #[trigger] all[j] == in_turn(rest)[j - 1
            - n] by {}
        if text_member(symbols[0], "name"@) != Some(name) {
            let found = match items_member(symbols[0], "children"@) {
                Some(children) => symbol_called(children, name),
                None => None,
            };
            if let Some(children) = items_member(symbols[0], "children"@) {
                lemma_first_called(children, name);
            }
            if let Some(s) = found {
                let k = choose|k: int|
                    0 <= k < below.len() && #[trigger] below[k] == s && (forall|j: int|
                        0 <= j < k ==> text_member(#[trigger] below[j], "name"@) != Some(name));
                assert(all[k + 1] == s);
            } else {
                lemma_first_called(rest, name);
                let tail = in_turn(rest);
                if let Some(s) = symbol_called(rest, name) {
                    let k = choose|k: int|
                        0 <= k < tail.len() && #[trigger] tail[k] == s && (forall|j: int|
                            0 <= j < k ==> text_member(#[trigger] tail[j], "name"@) != Some(name));
                    assert(all[k + 1 + n] == s);
                }
            }
        }
    }
}

/// The lines (from 1) of the first symbol called `name`; none where there is no
/// such symbol or it has no range.
pub open spec fn range_called(symbols: Seq<JsonView>, name: Seq<char>) -> Option<(u32, u32)> {
    match symbol_called(symbols, name) {
        Some(s) => match s.member("range"@) {
            Some(range) => Some(
                (
                    next_of(nat_or(uint_at(range, "start"@, "line"@), 0) as u32),
                    next_of(nat_or(uint_at(range, "end"@, "line"@), 0) as u32),
                ),
            ),
            None => None,
        },
        None => None,
    }
}

/// The lines (from 1) of the first symbol called `name`.
pub fn declaration_range(symbols: &[Json], name: &str) -> (r: Option<(u32, u32)>)
    ensures
        r == range_called(views(symbols@), name@),
{
    let range = match search_symbols(symbols, name) {
        Some(s) => s.get("range"),
        None => None,
    };
    match range {
        Some(range) => {
            let start: u64 = match range.uint_at("start", "line") {
                Some(n) => n,
                None => 0,
            };
            let end: u64 = match range.uint_at("end", "line") {
                Some(n) => n,
                None => 0,
            };
            Some((next_number(start as u32), next_number(end as u32)))
        },
        None => None,
    }
}

/// The lines of a declaration are those of its range, counted from 1.
pub proof fn lemma_range_called(symbols: Seq<JsonView>, name: Seq<char>)
    ensures
        range_called(symbols, name) is Some <==> symbol_called(symbols, name) is Some
            && symbol_called(symbols, name)->0.member("range"@) is Some,
        range_called(symbols, name) matches Some(lines) ==> {
            let range = symbol_called(symbols, name)->0.member("range"@)->0;
            &&& uint_at(range, "start"@, "line"@) matches Some(n) ==> (n < u32::MAX ==> lines.0 == n
                + 1)
            &&& uint_at(range, "end"@, "line"@) matches Some(n) ==> (n < u32::MAX ==> lines.1 == n
                + 1)
        },
{
}

/// After the symbols came.
pub open spec fn range_found(name: Seq<char>) -> Waiting<Result<Option<(u32, u32)>, ErrorView>> {
    |r: ReplyView|
        Dialogue::Finish(
            match r {
                ReplyView::Values(symbols) => Ok(range_called(symbols, name)),
                _ => Err(lsp_failure("get_document_symbols"@, r.trouble())),
            },
        )
}

/// Looks for the lines of a declaration.
pub open spec fn range_dialogue(path: Seq<char>, name: Seq<char>) -> Dialogue<
    Result<Option<(u32, u32)>, ErrorView>,
> {
    Dialogue::Ask(RequestView::Symbols { path }, range_found(name))
}

/// A search for the lines of a declaration, which waits for the symbols.
pub struct DeclarationRange {
    pub name: String,
}

impl Waits for DeclarationRange {
    type Out = Result<Option<(u32, u32)>, LeanToolError>;

    type Said = Result<Option<(u32, u32)>, ErrorView>;

    open spec fn said(o: Self::Out) -> Self::Said {
        match o {
            Ok(r) => Ok(r),
            Err(e) => Err(e@),
        }
    }

    open spec fn valid(self) -> bool {
        true
    }

    open spec fn waiting(self) -> Waiting<Self::Said> {
        range_found(self.name@)
    }

    open spec fn admits(self, r: ReplyView) -> bool {
        true
    }
}

impl Call for DeclarationRange {
    fn accepts(&self, reply: &Reply) -> (r: bool) {
        true
    }

    fn resume(self, reply: Reply) -> (t: Turn<Self, Self::Out>) {
        Turn::Done(
            match reply.values() {
                Ok(symbols) => Ok(declaration_range(&symbols, self.name.as_str())),
                Err(m) => Err(lsp_error("get_document_symbols", m)),
            },
        )
    }
}

/// Looks for the lines (from 1) of a declaration.
pub fn get_declaration_range(file_path: &str, declaration_name: &str) -> (t: Turn<
    DeclarationRange,
    Result<Option<(u32, u32)>, LeanToolError>,
>)
    ensures
        begins(t, range_dialogue(file_path@, declaration_name@)),
{
    Turn::Ask(
        Request::Symbols { path: file_path.to_owned() },
        DeclarationRange { name: declaration_name.to_owned() },
    )
}

/// The first line of a declaration that was looked for.
pub open spec fn line_outcome(name: Seq<char>) -> spec_fn(
    Result<Option<(u32, u32)>, ErrorView>,
) -> Dialogue<Result<u32, ErrorView>> {
    |res: Result<Option<(u32, u32)>, ErrorView>|
        Dialogue::Finish(
            match res {
                Ok(Some(range)) => Ok(range.0),
                Ok(None) => Err(ErrorView::DeclarationNotFound(name)),
                Err(e) => Err(e),
            },
        )
}

/// Looks for the first line of a declaration.
pub open spec fn line_dialogue(path: Seq<char>, name: Seq<char>) -> Dialogue<
    Result<u32, ErrorView>,
> {
    followed(range_dialogue(path, name), line_outcome(name))
}

/// A search for the first line of a declaration.
pub struct DeclarationLine {
    pub call: DeclarationRange,
    pub name: String,
}

impl Waits for DeclarationLine {
    type Out = Result<u32, LeanToolError>;

    type Said = Result<u32, ErrorView>;

    open spec fn said(o: Self::Out) -> Self::Said {
        match o {
            Ok(n) => Ok(n),
            Err(e) => Err(e@),
        }
    }

    open spec fn valid(self) -> bool {
        true
    }

    open spec fn waiting(self) -> Waiting<Self::Said> {
        waiting_first(self.call.waiting(), line_outcome(self.name@))
    }

    open spec fn admits(self, r: ReplyView) -> bool {
        true
    }
}

impl DeclarationLine {
    /// Goes on with the search.
    fn found(
        t: Turn<DeclarationRange, Result<Option<(u32, u32)>, LeanToolError>>,
        name: String,
    ) -> (r: Turn<DeclarationLine, Result<u32, LeanToolError>>)
        ensures
            forall|d: Dialogue<Result<Option<(u32, u32)>, ErrorView>>| #[trigger]
                begins(t, d) ==> begins(r, followed(d, line_outcome(name@))),
    {
        match t {
            Turn::Ask(q, call) => {
                proof {
                    lemma_followed(q@, call.waiting(), line_outcome(name@));
                }
                Turn::Ask(q, DeclarationLine { call, name })
            },
            Turn::Done(Ok(Some(range))) => Turn::Done(Ok(range.0)),
            Turn::Done(Ok(None)) => Turn::Done(Err(LeanToolError::DeclarationNotFound(name))),
            Turn::Done(Err(e)) => Turn::Done(Err(e)),
        }
    }
}

impl Call for DeclarationLine {
    fn accepts(&self, reply: &Reply) -> (r: bool) {
        true
    }

    fn resume(self, reply: Reply) -> (t: Turn<Self, Self::Out>) {
        DeclarationLine::found(self.call.resume(reply), self.name)
    }
}

/// Looks for the first line (from 1) of a declaration.
pub fn resolve_declaration_line(file_path: &str, declaration_name: &str) -> (t: Turn<
    DeclarationLine,
    Result<u32, LeanToolError>,
>)
    ensures
        begins(t, line_dialogue(file_path@, declaration_name@)),
{
    DeclarationLine::found(
        get_declaration_range(file_path, declaration_name),
        declaration_name.to_owned(),
    )
}

} // verus!
