//! `lean_get_widgets` and `lean_get_widget_source`: the widgets at a place of a
//! file, and their source.
use crate::error::{result_view, ErrorView, LeanToolError};
use crate::models::{WidgetSourceResult, WidgetSourceResultView, WidgetsResult, WidgetsResultView};
use crate::position::{before_of, number_before};
use crate::protocol::{
    begins, lsp_error, lsp_failure, Call, Dialogue, Reply, ReplyView, Request, RequestView, Turn,
    Waiting, Waits,
};
use vstd::prelude::*;
use vstd::string::*;

verus! {

/// What `lean_get_widgets` comes to.
pub type WidgetsSaid = Result<WidgetsResultView, ErrorView>;

/// After the widgets came.
pub open spec fn widgets_told() -> Waiting<WidgetsSaid> {
    |r: ReplyView|
        Dialogue::Finish(
            match r {
                ReplyView::Values(widgets) => Ok(WidgetsResultView { widgets }),
                _ => Err(lsp_failure("get_widgets"@, r.trouble())),
            },
        )
}

/// After the file was opened.
pub open spec fn widgets_opened(path: Seq<char>, line: u32, column: u32) -> Waiting<WidgetsSaid> {
    |r: ReplyView|
        if r is Done {
            Dialogue::Ask(
                RequestView::Widgets { path, line: before_of(line), column: before_of(column) },
                widgets_told(),
            )
        } else {
            Dialogue::Finish(Err(lsp_failure("open_file"@, r.trouble())))
        }
}

/// The whole of `lean_get_widgets`.
pub open spec fn widgets_dialogue(path: Seq<char>, line: u32, column: u32) -> Dialogue<
    WidgetsSaid,
> {
    Dialogue::Ask(RequestView::OpenFile { path }, widgets_opened(path, line, column))
}

/// `lean_get_widgets` at work.
pub enum WidgetsCall {
    /// Waits until the file is open.
    Opening { path: String, line: u32, column: u32 },
    /// Waits for the widgets.
    Asking,
}

impl Waits for WidgetsCall {
    type Out = Result<WidgetsResult, LeanToolError>;

    type Said = WidgetsSaid;

    open spec fn said(o: Self::Out) -> WidgetsSaid {
        result_view(o)
    }

    open spec fn valid(self) -> bool {
        true
    }

    open spec fn waiting(self) -> Waiting<WidgetsSaid> {
        match self {
            WidgetsCall::Opening { path, line, column } => widgets_opened(path@, line, column),
            WidgetsCall::Asking => widgets_told(),
        }
    }

    open spec fn admits(self, r: ReplyView) -> bool {
        true
    }
}

impl Call for WidgetsCall {
    fn accepts(&self, reply: &Reply) -> (r: bool) {
        true
    }

    fn resume(self, reply: Reply) -> (t: Turn<Self, Self::Out>) {
        match self {
            WidgetsCall::Opening { path, line, column } => match reply.done() {
                Ok(_) => Turn::Ask(
                    Request::Widgets {
                        path,
                        line: number_before(line),
                        column: number_before(column),
                    },
                    WidgetsCall::Asking,
                ),
                Err(m) => Turn::Done(Err(lsp_error("open_file", m))),
            },
            WidgetsCall::Asking => Turn::Done(
                match reply.values() {
                    Ok(widgets) => Ok(WidgetsResult { widgets }),
                    Err(m) => Err(lsp_error("get_widgets", m)),
                },
            ),
        }
    }
}

/// The widgets at a place of a file. `line` and `column` count from 1.
pub fn handle_get_widgets(file_path: &str, line: u32, column: u32) -> (t: Turn<
    WidgetsCall,
    Result<WidgetsResult, LeanToolError>,
>)
    ensures
        begins(t, widgets_dialogue(file_path@, line, column)),
{
    let path = file_path.to_owned();
    Turn::Ask(
        Request::OpenFile { path: path.clone() },
        WidgetsCall::Opening { path, line, column },
    )
}

/// What `lean_get_widget_source` comes to.
pub type WidgetSourceSaid = Result<WidgetSourceResultView, ErrorView>;

/// After the source came.
pub open spec fn source_told() -> Waiting<WidgetSourceSaid> {
    |r: ReplyView|
        Dialogue::Finish(
            match r {
                ReplyView::Value(source) => Ok(WidgetSourceResultView { source }),
                _ => Err(lsp_failure("get_widget_source"@, r.trouble())),
            },
        )
}

/// After the file was opened.
pub open spec fn source_opened(path: Seq<char>, hash: Seq<char>) -> Waiting<WidgetSourceSaid> {
    |r: ReplyView|
        if r is Done {
            Dialogue::Ask(
                RequestView::WidgetSource { path, line: 0, column: 0, hash },
                source_told(),
            )
        } else {
            Dialogue::Finish(Err(lsp_failure("open_file"@, r.trouble())))
        }
}

/// The whole of `lean_get_widget_source`. The source of a widget is the same at
/// every place of a file, so it is asked for at the first.
pub open spec fn widget_source_dialogue(path: Seq<char>, hash: Seq<char>) -> Dialogue<
    WidgetSourceSaid,
> {
    Dialogue::Ask(RequestView::OpenFile { path }, source_opened(path, hash))
}

/// `lean_get_widget_source` at work.
pub enum WidgetSourceCall {
    /// Waits until the file is open.
    Opening { path: String, hash: String },
    /// Waits for the source.
    Asking,
}

impl Waits for WidgetSourceCall {
    type Out = Result<WidgetSourceResult, LeanToolError>;

    type Said = WidgetSourceSaid;

    open spec fn said(o: Self::Out) -> WidgetSourceSaid {
        result_view(o)
    }

    open spec fn valid(self) -> bool {
        true
    }

    open spec fn waiting(self) -> Waiting<WidgetSourceSaid> {
        match self {
            WidgetSourceCall::Opening { path, hash } => source_opened(path@, hash@),
            WidgetSourceCall::Asking => source_told(),
        }
    }

    open spec fn admits(self, r: ReplyView) -> bool {
        true
    }
}

impl Call for WidgetSourceCall {
    fn accepts(&self, reply: &Reply) -> (r: bool) {
        true
    }

    fn resume(self, reply: Reply) -> (t: Turn<Self, Self::Out>) {
        match self {
            WidgetSourceCall::Opening { path, hash } => match reply.done() {
                Ok(_) => Turn::Ask(
                    Request::WidgetSource { path, line: 0, column: 0, hash },
                    WidgetSourceCall::Asking,
                ),
                Err(m) => Turn::Done(Err(lsp_error("open_file", m))),
            },
            WidgetSourceCall::Asking => Turn::Done(
                match reply.value() {
                    Ok(source) => Ok(WidgetSourceResult { source }),
                    Err(m) => Err(lsp_error("get_widget_source", m)),
                },
            ),
        }
    }
}

/// The source of the widget with the hash `javascript_hash`, which a file uses.
pub fn handle_get_widget_source(file_path: &str, javascript_hash: &str) -> (t: Turn<
    WidgetSourceCall,
    Result<WidgetSourceResult, LeanToolError>,
>)
    ensures
        begins(t, widget_source_dialogue(file_path@, javascript_hash@)),
{
    let path = file_path.to_owned();
    Turn::Ask(
        Request::OpenFile { path: path.clone() },
        WidgetSourceCall::Opening { path, hash: javascript_hash.to_owned() },
    )
}

} // verus!
