//! The ways in which a line can fail to match.

use vstd::prelude::*;
use vstd::string::StringExecFns;

verus! {

/// Mathematical value of a [`ParseError`].
pub enum ParseErrorView {
    NotMatched,
    PartiallyNotMatched(Seq<char>),
    UnknownParameter(Seq<char>),
    MissingParameterValue(Seq<char>),
    ExpectedPath(Seq<char>),
    RequiredParameters(Seq<char>),
    Todo,
}

/// Why a line did not match.
#[derive(Debug, PartialEq)]
pub enum ParseError<'a> {
    /// No group or command of the level has the given name.
    NotMatched,
    /// A group matched but nothing inside it did. Kept for later use: the
    /// matcher never returns it.
    PartiallyNotMatched(&'a str),
    /// The parameter is not declared, or a positional argument stands where
    /// the command takes none.
    UnknownParameter(&'a str),
    /// No value follows the parameter.
    MissingParameterValue(&'a str),
    /// A group or command name was expected.
    ExpectedPath(&'a str),
    /// A required parameter was not given; the first one, in declared order.
    RequiredParameters(String),
    /// Kept for the parser's own use: no match returns it, be it of a
    /// command, of a group or of a level.
    Todo,
}

impl<'a> View for ParseError<'a> {
    type V = ParseErrorView;

    open spec fn view(&self) -> ParseErrorView {
        match self {
            ParseError::NotMatched => ParseErrorView::NotMatched,
            ParseError::PartiallyNotMatched(v) => ParseErrorView::PartiallyNotMatched(v@),
            ParseError::UnknownParameter(v) => ParseErrorView::UnknownParameter(v@),
            ParseError::MissingParameterValue(v) => ParseErrorView::MissingParameterValue(v@),
            ParseError::ExpectedPath(v) => ParseErrorView::ExpectedPath(v@),
            ParseError::RequiredParameters(v) => ParseErrorView::RequiredParameters(v@),
            ParseError::Todo => ParseErrorView::Todo,
        }
    }
}

impl ParseErrorView {
    /// The text that tells a user of the failure.
    pub open spec fn message(self) -> Seq<char> {
        match self {
            ParseErrorView::NotMatched => "Commande inconnue"@,
            ParseErrorView::PartiallyNotMatched(v) => "Groupe ou commande inconnu "@ + v,
            ParseErrorView::UnknownParameter(v) => "Paramètre "@ + v + " inconnu"@,
            ParseErrorView::MissingParameterValue(v) => "Valeur du paramètre "@ + v + " manquant"@,
            ParseErrorView::RequiredParameters(v) => "Paramètre "@ + v + " requis"@,
            ParseErrorView::ExpectedPath(v) => "Groupe ou commande attendu après "@ + v,
            ParseErrorView::Todo => "Unknown parser error"@,
        }
    }
}

impl<'a> ParseError<'a> {
    /// The text that tells a user of the failure.
    pub fn to_string(&self) -> (r: String)
        ensures
            r@ == self@.message(),
    {
        match self {
            ParseError::NotMatched => "Commande inconnue".to_owned(),
            ParseError::PartiallyNotMatched(v) => {
                let mut out = "Groupe ou commande inconnu ".to_owned();
                out.append(v);
                out
            },
            ParseError::UnknownParameter(v) => {
                let mut out = "Paramètre ".to_owned();
                out.append(v);
                out.append(" inconnu");
                out
            },
            ParseError::MissingParameterValue(v) => {
                let mut out = "Valeur du paramètre ".to_owned();
                out.append(v);
                out.append(" manquant");
                out
            },
            ParseError::RequiredParameters(v) => {
                let mut out = "Paramètre ".to_owned();
                out.append(v.as_str());
                out.append(" requis");
                out
            },
            ParseError::ExpectedPath(v) => {
                let mut out = "Groupe ou commande attendu après ".to_owned();
                out.append(v);
                out
            },
            ParseError::Todo => "Unknown parser error".to_owned(),
        }
    }
}

} // verus!
