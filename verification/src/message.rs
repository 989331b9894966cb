//! What is shown to the user in colour.
use vstd::prelude::*;

verus! {

/// Where a message is shown.
#[derive(Debug, Clone, Copy, PartialEq, Eq, Structural)]
pub enum Stream {
    Stdout,
    Stderr,
}

/// A colour for bold text.
#[derive(Debug, Clone, Copy, PartialEq, Eq, Structural)]
pub enum Colour {
    Red,
    Cyan,
}

/// A piece of a message.
#[derive(Debug, PartialEq, Eq)]
pub enum Piece {
    /// What follows is bold and has this colour.
    SetColour(Colour),
    /// What follows is plain.
    ClearColour,
    /// A text.
    Text(String),
}

/// A `Piece` as its text.
pub enum PieceModel {
    SetColour(Colour),
    ClearColour,
    Text(Seq<char>),
}

impl DeepView for Piece {
    type V = PieceModel;

    open spec fn deep_view(&self) -> PieceModel {
        match self {
            Piece::SetColour(colour) => PieceModel::SetColour(*colour),
            Piece::ClearColour => PieceModel::ClearColour,
            Piece::Text(text) => PieceModel::Text(text@),
        }
    }
}

/// A message to the user.
#[derive(Debug, PartialEq, Eq)]
pub struct Message {
    /// Where it is shown.
    pub stream: Stream,
    /// What is shown, one piece after another.
    pub pieces: Vec<Piece>,
}

/// A `Message` as its texts.
#[verifier::ext_equal]
pub struct MessageModel {
    pub stream: Stream,
    pub pieces: Seq<PieceModel>,
}

impl DeepView for Message {
    type V = MessageModel;

    open spec fn deep_view(&self) -> MessageModel {
        MessageModel { stream: self.stream, pieces: self.pieces.deep_view() }
    }
}

/// A warning: a line in red on the error stream.
pub open spec fn deprecation(message: Seq<char>) -> MessageModel {
    MessageModel {
        stream: Stream::Stderr,
        pieces: seq![
            PieceModel::SetColour(Colour::Red),
            PieceModel::Text(message.push('\n')),
            PieceModel::ClearColour,
        ],
    }
}

/// The announcement that nothing will be written.
pub open spec fn dry_run_notice() -> MessageModel {
    MessageModel {
        stream: Stream::Stdout,
        pieces: seq![
            PieceModel::SetColour(Colour::Cyan),
            PieceModel::Text("Starting dry run. "@),
            PieceModel::ClearColour,
            PieceModel::Text("Changes will not be saved.\n"@),
        ],
    }
}

/// A warning that something is deprecated.
pub fn deprecated_message(message: &str) -> (res: Message)
    ensures
        res.deep_view() == deprecation(message@),
{
    let line = message.to_owned().concat("\n");
    proof {
        reveal_strlit("\n");
        assert(message@ + "\n"@ =~= message@.push('\n'));
    }
    let res = Message {
        stream: Stream::Stderr,
        pieces: vec![Piece::SetColour(Colour::Red), Piece::Text(line), Piece::ClearColour],
    };
    assert(res.deep_view().pieces =~= deprecation(message@).pieces);
    res
}

/// The announcement that nothing will be written.
pub fn dry_run_message() -> (res: Message)
    ensures
        res.deep_view() == dry_run_notice(),
{
    let res = Message {
        stream: Stream::Stdout,
        pieces: vec![
            Piece::SetColour(Colour::Cyan),
            Piece::Text("Starting dry run. ".to_owned()),
            Piece::ClearColour,
            Piece::Text("Changes will not be saved.\n".to_owned()),
        ],
    };
    assert(res.deep_view().pieces =~= dry_run_notice().pieces);
    res
}

} // verus!
