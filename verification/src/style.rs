//! The styles of the pieces of a message, and what is said of an outcome.

use vstd::prelude::*;
use vstd::string::StringExecFns;

verus! {

/// How a piece of text is shown.
#[derive(Clone, Copy, Debug, PartialEq, Eq, Structural)]
pub enum Options {
    /// A heading: green and bold.
    Title,
    /// A failure: red.
    Error,
    /// An aside: dimmed.
    Muted,
}

/// A piece of text and the style it is shown in.
#[derive(Debug)]
pub struct Styled {
    pub text: String,
    pub option: Options,
}

/// A [`Styled`] with its text as a sequence of characters.
pub struct StyledView {
    pub text: Seq<char>,
    pub option: Options,
}

impl View for Styled {
    type V = StyledView;

    open spec fn view(&self) -> StyledView {
        StyledView { text: self.text@, option: self.option }
    }
}

/// The pieces of a notice as mathematical values.
pub open spec fn pieces_view(pieces: Seq<Styled>) -> Seq<StyledView> {
    pieces.map_values(|piece: Styled| piece@)
}

/// A text that may be missing, as a sequence of characters.
pub open spec fn text_view(text: Option<&str>) -> Option<Seq<char>> {
    match text {
        Some(t) => Some(t@),
        None => None,
    }
}

/// What is said of an outcome. Of a success its message, as a title, where
/// one is given. Of a failure what went wrong, as an error, behind the
/// message for failures, as an aside, where one is given.
pub open spec fn notice_of(
    failure: Option<Seq<char>>,
    ok_message: Option<Seq<char>>,
    err_message: Option<Seq<char>>,
) -> Seq<StyledView> {
    match (failure, ok_message, err_message) {
        (None, Some(ok), _) => seq![StyledView { text: ok, option: Options::Title }],
        (None, None, _) => Seq::empty(),
        (Some(e), _, Some(label)) => seq![
            StyledView { text: label, option: Options::Muted },
            StyledView { text: e, option: Options::Error },
        ],
        (Some(e), _, None) => seq![StyledView { text: e, option: Options::Error }],
    }
}

/// The pieces to show of an outcome, in order; `failure` is what went wrong,
/// `None` after a success. No piece means that nothing is shown.
pub fn notice(failure: Option<&str>, ok_message: Option<&str>, err_message: Option<&str>) -> (r:
    Vec<Styled>)
    ensures
        pieces_view(r@) == notice_of(
            text_view(failure),
            text_view(ok_message),
            text_view(err_message),
        ),
{
    let mut pieces: Vec<Styled> = Vec::new();
    match failure {
        None => {
            if let Some(ok) = ok_message {
                pieces.push(Styled { text: String::from_str(ok), option: Options::Title });
            }
        },
        Some(e) => {
            if let Some(label) = err_message {
                pieces.push(Styled { text: String::from_str(label), option: Options::Muted });
            }
            pieces.push(Styled { text: String::from_str(e), option: Options::Error });
        },
    }
    assert(pieces_view(pieces@) =~= notice_of(
        text_view(failure),
        text_view(ok_message),
        text_view(err_message),
    ));
    pieces
}

} // verus!
