//! `lean_declaration_file`: the file in which a symbol is declared.
use crate::error::{result_view, ErrorView, LeanToolError};
use crate::json::{views, Json, JsonView};
use crate::models::{opt_text, DeclarationInfo, DeclarationInfoView};
use crate::protocol::{
    begins, followed, lemma_followed, lsp_error, lsp_failure, name_at, nth_name, waiting_first,
    Call, Dialogue, Reply, ReplyView, Request, RequestView, Turn, Waiting, Waits,
};
use crate::text::{glue, texts};
use crate::tools::file::{file_dialogue, open_and_read, FileRead, ReadSaid};
use vstd::prelude::*;
use vstd::string::*;

verus! {

/// What `lean_declaration_file` comes to.
pub type DeclarationSaid = Result<DeclarationInfoView, ErrorView>;

/// The URI of the file that a declaration leads to.
pub open spec fn target_uri(declaration: JsonView) -> Option<Seq<char>> {
    let uri = match declaration.member("targetUri"@) {
        Some(v) => Some(v),
        None => declaration.member("uri"@),
    };
    match uri {
        Some(v) => v.text(),
        None => None,
    }
}

/// The URI of the file that a declaration leads to.
pub fn declaration_uri(declaration: &Json) -> (r: Option<String>)
    ensures
        opt_text(r) == target_uri(declaration@),
{
    let uri = match declaration.get("targetUri") {
        Some(v) => Some(v),
        None => declaration.get("uri"),
    };
    match uri {
        Some(v) => match v.as_str() {
            Some(s) => Some(s.to_owned()),
            None => None,
        },
        None => None,
    }
}

/// After the file was read.
pub open spec fn declaration_read(path: Seq<char>, symbol: Seq<char>) -> Waiting<DeclarationSaid> {
    |r: ReplyView|
        Dialogue::Finish(
            match r {
                ReplyView::Text(content) => Ok(DeclarationInfoView { file_path: path, content }),
                _ => Err(
                    ErrorView::Other(
                        "Could not open declaration file `"@ + path + "` for `"@ + symbol + "`: "@
                            + r.trouble(),
                    ),
                ),
            },
        )
}

/// After the path of the file came.
pub open spec fn declaration_located(uri: Seq<char>, symbol: Seq<char>) -> Waiting<
    DeclarationSaid,
> {
    |r: ReplyView|
        match name_at(r.names_told(), 0) {
            Some(path) => Dialogue::Ask(
                RequestView::SourceText { path },
                declaration_read(path, symbol),
            ),
            None => Dialogue::Finish(
                Err(ErrorView::Other("Could not convert URI to path: "@ + uri)),
            ),
        }
}

/// After the declarations came.
pub open spec fn declarations_told(symbol: Seq<char>) -> Waiting<DeclarationSaid> {
    |r: ReplyView|
        match r {
            ReplyView::Values(declarations) => if declarations.len() == 0 {
                Dialogue::Finish(Err(ErrorView::NoDeclaration(symbol)))
            } else {
                match target_uri(declarations[0]) {
                    Some(uri) => Dialogue::Ask(
                        RequestView::UriPaths { uris: seq![uri] },
                        declaration_located(uri, symbol),
                    ),
                    None => Dialogue::Finish(Err(ErrorView::NoDeclaration(symbol))),
                }
            },
            _ => Dialogue::Finish(Err(lsp_failure("get_declarations"@, r.trouble()))),
        }
}

/// After the symbol was looked for.
pub open spec fn symbol_found(path: Seq<char>, symbol: Seq<char>) -> Waiting<DeclarationSaid> {
    |r: ReplyView|
        match r {
            ReplyView::Position(Some(p)) => Dialogue::Ask(
                RequestView::Declarations { path, line: p.0 as u32, column: p.1 as u32 },
                declarations_told(symbol),
            ),
            _ => Dialogue::Finish(Err(ErrorView::SymbolNotFound(symbol))),
        }
}

/// Looks for the symbol in a file that was read.
pub open spec fn declaration_within(path: Seq<char>, symbol: Seq<char>) -> spec_fn(
    ReadSaid,
) -> Dialogue<DeclarationSaid> {
    |res: ReadSaid|
        match res {
            Ok(content) => Dialogue::Ask(
                RequestView::FindSymbol { content, symbol },
                symbol_found(path, symbol),
            ),
            Err(e) => Dialogue::Finish(Err(e)),
        }
}

/// The whole of `lean_declaration_file`.
pub open spec fn declaration_dialogue(path: Seq<char>, symbol: Seq<char>) -> Dialogue<
    DeclarationSaid,
> {
    followed(file_dialogue(path), declaration_within(path, symbol))
}

/// `lean_declaration_file` at work.
pub enum DeclarationCall {
    /// Waits for the content of the file.
    Reading { call: FileRead, path: String, symbol: String },
    /// Waits for the position of the symbol.
    Finding { path: String, symbol: String },
    /// Waits for the declarations.
    Asking { symbol: String },
    /// Waits for the path of the declaration's file.
    Locating { uri: String, symbol: String },
    /// Waits for the content of the declaration's file.
    Fetching { path: String, symbol: String },
}

impl Waits for DeclarationCall {
    type Out = Result<DeclarationInfo, LeanToolError>;

    type Said = DeclarationSaid;

    open spec fn said(o: Self::Out) -> DeclarationSaid {
        result_view(o)
    }

    open spec fn valid(self) -> bool {
        true
    }

    open spec fn waiting(self) -> Waiting<DeclarationSaid> {
        match self {
            DeclarationCall::Reading { call, path, symbol } => waiting_first(
                call.waiting(),
                declaration_within(path@, symbol@),
            ),
            DeclarationCall::Finding { path, symbol } => symbol_found(path@, symbol@),
            DeclarationCall::Asking { symbol } => declarations_told(symbol@),
            DeclarationCall::Locating { uri, symbol } => declaration_located(uri@, symbol@),
            DeclarationCall::Fetching { path, symbol } => declaration_read(path@, symbol@),
        }
    }

    open spec fn admits(self, r: ReplyView) -> bool {
        true
    }
}

impl DeclarationCall {
    /// Goes on with the reading.
    fn read(t: Turn<FileRead, Result<String, LeanToolError>>, path: String, symbol: String) -> (r:
        Turn<DeclarationCall, Result<DeclarationInfo, LeanToolError>>)
        ensures
            forall|d: Dialogue<ReadSaid>| #[trigger]
                begins(t, d) ==> begins(r, followed(d, declaration_within(path@, symbol@))),
    {
        match t {
            Turn::Ask(q, call) => {
                proof {
                    lemma_followed(q@, call.waiting(), declaration_within(path@, symbol@));
                }
                Turn::Ask(q, DeclarationCall::Reading { call, path, symbol })
            },
            Turn::Done(Ok(content)) => Turn::Ask(
                Request::FindSymbol { content, symbol: symbol.clone() },
                DeclarationCall::Finding { path, symbol },
            ),
            Turn::Done(Err(e)) => Turn::Done(Err(e)),
        }
    }

    /// Goes on with the declarations.
    fn told(declarations: &[Json], symbol: String) -> (t: Turn<
        DeclarationCall,
        Result<DeclarationInfo, LeanToolError>,
    >)
        ensures
            begins(
                t,
                (declarations_told(symbol@))(ReplyView::Values(views(declarations@))),
            ),
    {
        if declarations.len() == 0 {
            return Turn::Done(Err(LeanToolError::NoDeclaration(symbol)));
        }
        proof {
            assert(views(declarations@)[0] == declarations@[0]@);
        }
        match declaration_uri(&declarations[0]) {
            Some(uri) => {
                let mut uris: Vec<String> = Vec::new();
                uris.push(uri.clone());
                proof {
                    assert(texts(uris@) =~= seq![uri@]);
                }
                Turn::Ask(Request::UriPaths { uris }, DeclarationCall::Locating { uri, symbol })
            },
            None => Turn::Done(Err(LeanToolError::NoDeclaration(symbol))),
        }
    }
}

impl Call for DeclarationCall {
    fn accepts(&self, reply: &Reply) -> (r: bool) {
        true
    }

    fn resume(self, reply: Reply) -> (t: Turn<Self, Self::Out>) {
        match self {
            DeclarationCall::Reading { call, path, symbol } => DeclarationCall::read(
                call.resume(reply),
                path,
                symbol,
            ),
            DeclarationCall::Finding { path, symbol } => match reply {
                Reply::Position(Some(p)) => Turn::Ask(
                    Request::Declarations { path, line: p.0 as u32, column: p.1 as u32 },
                    DeclarationCall::Asking { symbol },
                ),
                _ => Turn::Done(Err(LeanToolError::SymbolNotFound(symbol))),
            },
            DeclarationCall::Asking { symbol } => match reply.values() {
                Ok(declarations) => DeclarationCall::told(&declarations, symbol),
                Err(m) => Turn::Done(Err(lsp_error("get_declarations", m))),
            },
            DeclarationCall::Locating { uri, symbol } => match nth_name(&reply.names_told(), 0) {
                Some(path) => Turn::Ask(
                    Request::SourceText { path: path.clone() },
                    DeclarationCall::Fetching { path, symbol },
                ),
                None => Turn::Done(
                    Err(
                        LeanToolError::Other(
                            glue("Could not convert URI to path: ", uri.as_str()),
                        ),
                    ),
                ),
            },
            DeclarationCall::Fetching { path, symbol } => match reply.text() {
                Ok(content) => Turn::Done(Ok(DeclarationInfo { file_path: path, content })),
                Err(m) => {
                    let mut s = glue("Could not open declaration file `", path.as_str());
                    s.append("` for `");
                    s.append(symbol.as_str());
                    s.append("`: ");
                    s.append(m.as_str());
                    Turn::Done(Err(LeanToolError::Other(s)))
                },
            },
        }
    }
}

/// The file in which `symbol`, which must occur in the file `file_path`, is
/// declared.
pub fn handle_declaration_file(file_path: &str, symbol: &str) -> (t: Turn<
    DeclarationCall,
    Result<DeclarationInfo, LeanToolError>,
>)
    ensures
        begins(t, declaration_dialogue(file_path@, symbol@)),
{
    DeclarationCall::read(open_and_read(file_path), file_path.to_owned(), symbol.to_owned())
}

} // verus!
