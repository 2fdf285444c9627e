//! A file that is opened and read.
use crate::error::{ErrorView, LeanToolError};
use crate::protocol::{
    begins, lsp_error, lsp_failure, Call, Dialogue, Reply, ReplyView, Request, RequestView, Turn,
    Waiting, Waits,
};
use crate::text::{byte_len, lines, lines_of, str_bytes, texts};
use vstd::prelude::*;
use vstd::string::*;

verus! {

/// What comes of the attempt to read a file.
pub type ReadSaid = Result<Seq<char>, ErrorView>;

/// After the content came.
pub open spec fn file_read() -> Waiting<ReadSaid> {
    |r: ReplyView|
        Dialogue::Finish(
            match r {
                ReplyView::Text(content) => Ok(content),
                _ => Err(lsp_failure("get_file_content"@, r.trouble())),
            },
        )
}

/// After the file was opened.
pub open spec fn file_opened(path: Seq<char>) -> Waiting<ReadSaid> {
    |r: ReplyView|
        if r is Done {
            Dialogue::Ask(RequestView::FileContent { path }, file_read())
        } else {
            Dialogue::Finish(Err(lsp_failure("open_file"@, r.trouble())))
        }
}

/// Opens a file and reads its content.
pub open spec fn file_dialogue(path: Seq<char>) -> Dialogue<ReadSaid> {
    Dialogue::Ask(RequestView::OpenFile { path }, file_opened(path))
}

/// A file on its way to being read.
pub enum FileRead {
    /// Waits until the file is open.
    Opening { path: String },
    /// Waits for the content.
    Reading,
}

impl Waits for FileRead {
    type Out = Result<String, LeanToolError>;

    type Said = ReadSaid;

    open spec fn said(o: Self::Out) -> ReadSaid {
        match o {
            Ok(s) => Ok(s@),
            Err(e) => Err(e@),
        }
    }

    open spec fn valid(self) -> bool {
        true
    }

    open spec fn waiting(self) -> Waiting<ReadSaid> {
        match self {
            FileRead::Opening { path } => file_opened(path@),
            FileRead::Reading => file_read(),
        }
    }

    open spec fn admits(self, r: ReplyView) -> bool {
        true
    }
}

impl Call for FileRead {
    fn accepts(&self, reply: &Reply) -> (r: bool) {
        true
    }

    fn resume(self, reply: Reply) -> (t: Turn<Self, Self::Out>) {
        match self {
            FileRead::Opening { path } => match reply.done() {
                Ok(_) => Turn::Ask(Request::FileContent { path }, FileRead::Reading),
                Err(m) => Turn::Done(Err(lsp_error("open_file", m))),
            },
            FileRead::Reading => Turn::Done(
                match reply.text() {
                    Ok(content) => Ok(content),
                    Err(m) => Err(lsp_error("get_file_content", m)),
                },
            ),
        }
    }
}

/// Opens a file and reads its content.
pub fn open_and_read(path: &str) -> (t: Turn<FileRead, Result<String, LeanToolError>>)
    ensures
        begins(t, file_dialogue(path@)),
{
    let path = path.to_owned();
    Turn::Ask(Request::OpenFile { path: path.clone() }, FileRead::Opening { path })
}

/// Line `line` (from 1) of a text.
pub open spec fn line_at(content: Seq<char>, line: u32) -> Result<Seq<char>, ErrorView> {
    let lines = lines_of(content);
    if line == 0 || line > lines.len() {
        Err(ErrorView::LineOutOfRange { line: line as nat, total: lines.len() })
    } else {
        Ok(lines[line - 1])
    }
}

/// Line `line` (from 1) of a text.
pub fn line_text(content: &str, line: u32) -> (r: Result<String, LeanToolError>)
    ensures
        match r {
            Ok(s) => line_at(content@, line) == Ok::<_, ErrorView>(s@),
            Err(e) => line_at(content@, line) == Err::<Seq<char>, _>(e@),
        },
{
    let lines = lines(content);
    if line == 0 || line as usize > lines.len() {
        return Err(LeanToolError::LineOutOfRange { line, total: lines.len() });
    }
    proof {
        assert(texts(lines@)[line - 1] == lines@[line - 1]@);
    }
    Ok(lines[(line - 1) as usize].clone())
}

/// A column counted from 0, for column `column` (from 1, in bytes) of a line,
/// which must not lie beyond the line's end.
pub open spec fn column_at(line: Seq<char>, column: u32) -> Result<u32, ErrorView> {
    if column == 0 || column > byte_len(line) + 1 {
        Err(ErrorView::ColumnOutOfRange { column: column as nat, length: byte_len(line) })
    } else {
        Ok((column - 1) as u32)
    }
}

/// A column counted from 0, for column `column` (from 1, in bytes) of a line.
pub fn column_in(line: &str, column: u32) -> (r: Result<u32, LeanToolError>)
    ensures
        match r {
            Ok(c) => column_at(line@, column) == Ok::<_, ErrorView>(c),
            Err(e) => column_at(line@, column) == Err::<u32, _>(e@),
        },
{
    let length: usize = str_bytes(line);
    if column == 0 || column as usize - 1 > length {
        return Err(LeanToolError::ColumnOutOfRange { column, length });
    }
    Ok(column - 1)
}

} // verus!
