//! The state machine that turns the events of a PGN token stream into a game.
//!
//! A tokenizer reports, in order, the tag pairs, each move, each comment and
//! the end of the game; variations are skipped before they reach it. A move is
//! held back until the next move or the end of the game, so that the comment
//! that follows it can decide whether it was a book move. A comment that
//! follows no held-back move (such as one before the first move) is dropped
//! when the next move arrives; of several comments after one move, the last
//! one counts.

use crate::engine::EngineName;
use crate::game::{Pgn, PgnMove};
use crate::text::{is_prefix, same_text, starts_with_text};
use vstd::prelude::*;

verus! {

pub const EVENT_KEY: &'static str = "Event";

pub const WHITE_HEADER_KEY: &'static str = "White";

pub const BLACK_HEADER_KEY: &'static str = "Black";

pub const DATE_HEADER_KEY: &'static str = "Date";

/// The start of the comment that marks a book move.
pub const BOOK_MOVE_COMMENT_PREFIX: &'static str = "book,";

/// Why a PGN text gave no game.
#[derive(Debug, Clone, Copy, PartialEq, Eq, Structural)]
pub enum ParseError {
    /// The text holds no game.
    EmptyInput,
    /// The White, Black, Date or Event tag is missing.
    MissingRequiredHeader,
}

/// The views of an optional string.
pub open spec fn text_of(o: Option<String>) -> Option<Seq<char>> {
    match o {
        Some(s) => Some(s@),
        None => None,
    }
}

/// A comment that marks the move before it as a book move.
pub open spec fn is_book_comment(comment: Seq<char>) -> bool {
    is_prefix(BOOK_MOVE_COMMENT_PREFIX@, comment)
}

/// `m` is the move `san` with `comment` after it.
pub open spec fn is_move(m: PgnMove, san: Seq<char>, comment: Seq<char>) -> bool {
    m.notation@ == san && m.in_book == is_book_comment(comment)
}

/// `after` is `before` with the held-back move, if there is one, committed
/// with `comment`.
pub open spec fn commits(
    before: Seq<PgnMove>,
    after: Seq<PgnMove>,
    pending: Option<Seq<char>>,
    comment: Seq<char>,
) -> bool {
    match pending {
        Some(san) => {
            &&& after.len() == before.len() + 1
            &&& after.drop_last() == before
            &&& is_move(after.last(), san, comment)
        },
        None => after == before,
    }
}

/// The comment that the held-back move would be committed with.
pub open spec fn pending_comment(last_comment: Option<String>) -> Seq<char> {
    match last_comment {
        Some(c) => c@,
        None => Seq::empty(),
    }
}

/// What has been read of one game so far.
pub struct PgnInfoBuilder {
    pub white_player: Option<String>,
    pub black_player: Option<String>,
    pub date: Option<String>,
    pub event: Option<String>,
    pub moves: Vec<PgnMove>,
    pub last_san: Option<String>,
    pub last_comment: Option<String>,
}

impl PgnInfoBuilder {
    /// The same four tags, in the same state, in both builders.
    pub open spec fn same_headers(&self, other: PgnInfoBuilder) -> bool {
        &&& self.white_player == other.white_player
        &&& self.black_player == other.black_player
        &&& self.date == other.date
        &&& self.event == other.event
    }

    /// A builder that has read nothing.
    pub fn new() -> (r: PgnInfoBuilder)
        ensures
            r.white_player is None,
            r.black_player is None,
            r.date is None,
            r.event is None,
            r.moves@.len() == 0,
            r.last_san is None,
            r.last_comment is None,
    {
        PgnInfoBuilder {
            white_player: None,
            black_player: None,
            date: None,
            event: None,
            moves: Vec::new(),
            last_san: None,
            last_comment: None,
        }
    }

    /// Appends the move `san`, a book move when `comment` starts with `book,`.
    pub fn add_move(&mut self, san: &str, comment: &str)
        ensures
            final(self).moves@.len() == old(self).moves@.len() + 1,
            final(self).moves@.drop_last() == old(self).moves@,
            is_move(final(self).moves@.last(), san@, comment@),
            final(self).same_headers(*old(self)),
            final(self).last_san == old(self).last_san,
            final(self).last_comment == old(self).last_comment,
    {
        let is_book_move = starts_with_text(comment, BOOK_MOVE_COMMENT_PREFIX);
        self.moves.push(PgnMove { notation: san.to_owned(), in_book: is_book_move });
        assert(self.moves@.drop_last() =~= old(self).moves@);
    }

    /// Records a tag pair; only the four tags that a game needs are kept, and
    /// a repeated one replaces the earlier value.
    pub fn header(&mut self, key: &str, value: &str)
        ensures
            text_of(final(self).event) == if key@ == EVENT_KEY@ {
                Some(value@)
            } else {
                text_of(old(self).event)
            },
            text_of(final(self).white_player) == if key@ == WHITE_HEADER_KEY@ {
                Some(value@)
            } else {
                text_of(old(self).white_player)
            },
            text_of(final(self).black_player) == if key@ == BLACK_HEADER_KEY@ {
                Some(value@)
            } else {
                text_of(old(self).black_player)
            },
            text_of(final(self).date) == if key@ == DATE_HEADER_KEY@ {
                Some(value@)
            } else {
                text_of(old(self).date)
            },
            final(self).moves == old(self).moves,
            final(self).last_san == old(self).last_san,
            final(self).last_comment == old(self).last_comment,
    {
        if same_text(key, EVENT_KEY) {
            self.event = Some(value.to_owned());
        }
        if same_text(key, WHITE_HEADER_KEY) {
            self.white_player = Some(value.to_owned());
        }
        if same_text(key, BLACK_HEADER_KEY) {
            self.black_player = Some(value.to_owned());
        }
        if same_text(key, DATE_HEADER_KEY) {
            self.date = Some(value.to_owned());
        }
    }

    /// Commits the held-back move, if any, with the comment seen after it.
    fn commit_pending(&mut self)
        ensures
            commits(
                old(self).moves@,
                final(self).moves@,
                text_of(old(self).last_san),
                pending_comment(old(self).last_comment),
            ),
            final(self).last_san is None,
            final(self).last_comment is None,
            final(self).same_headers(*old(self)),
    {
        match self.last_san.take() {
            Some(last_san) => {
                match self.last_comment.take() {
                    Some(comment) => {
                        self.add_move(last_san.as_str(), comment.as_str());
                    },
                    None => {
                        proof {
                            reveal_strlit("");
                            assert(""@ =~= Seq::<char>::empty());
                        }
                        self.add_move(last_san.as_str(), "");
                    },
                }
            },
            None => {
                self.last_comment = None;
            },
        }
    }

    /// A move: the one held back before it is committed, and this one is held
    /// back in turn.
    pub fn san(&mut self, san: &str)
        ensures
            commits(
                old(self).moves@,
                final(self).moves@,
                text_of(old(self).last_san),
                pending_comment(old(self).last_comment),
            ),
            text_of(final(self).last_san) == Some(san@),
            final(self).last_comment is None,
            final(self).same_headers(*old(self)),
    {
        self.commit_pending();
        self.last_san = Some(san.to_owned());
    }

    /// A comment: it belongs to the move held back, replacing any comment seen
    /// after that move.
    pub fn comment(&mut self, comment: &str)
        ensures
            text_of(final(self).last_comment) == Some(comment@),
            final(self).moves == old(self).moves,
            final(self).last_san == old(self).last_san,
            final(self).same_headers(*old(self)),
    {
        self.last_comment = Some(comment.to_owned());
    }

    /// Whether a variation is to be skipped: always, since alternative lines
    /// add nothing to the game.
    pub fn begin_variation(&self) -> (r: bool)
        ensures
            r,
    {
        true
    }

    /// The end of the game: the held-back move is committed, and the game is
    /// produced if all four required tags were seen.
    pub fn end_game(&mut self) -> (r: Result<Pgn, ParseError>)
        ensures
            commits(
                old(self).moves@,
                match r {
                    Ok(g) => g.moves@,
                    Err(_) => final(self).moves@,
                },
                text_of(old(self).last_san),
                pending_comment(old(self).last_comment),
            ),
            r is Ok <==> {
                &&& old(self).white_player is Some
                &&& old(self).black_player is Some
                &&& old(self).date is Some
                &&& old(self).event is Some
            },
            r is Err ==> r == Err::<Pgn, ParseError>(ParseError::MissingRequiredHeader),
            r is Ok ==> {
                let g = r->Ok_0;
                &&& Some(g.white_player@) == text_of(old(self).white_player)
                &&& Some(g.black_player@) == text_of(old(self).black_player)
                &&& Some(g.date@) == text_of(old(self).date)
                &&& Some(g.event@) == text_of(old(self).event)
            },
    {
        self.commit_pending();
        let white = match &self.white_player {
            Some(w) => EngineName::new(w.as_str()),
            None => return Err(ParseError::MissingRequiredHeader),
        };
        let black = match &self.black_player {
            Some(b) => EngineName::new(b.as_str()),
            None => return Err(ParseError::MissingRequiredHeader),
        };
        let date = match &self.date {
            Some(d) => d.as_str().to_owned(),
            None => return Err(ParseError::MissingRequiredHeader),
        };
        let event = match &self.event {
            Some(e) => e.as_str().to_owned(),
            None => return Err(ParseError::MissingRequiredHeader),
        };
        let mut moves: Vec<PgnMove> = Vec::new();
        std::mem::swap(&mut moves, &mut self.moves);
        Ok(Pgn { white_player: white, black_player: black, date, event, moves })
    }
}

/// The game that a read of a PGN text produced: `None` when the text held no
/// game, else what the end of the game gave.
pub fn game_from_outcome(outcome: Option<Result<Pgn, ParseError>>) -> (r: Result<Pgn, ParseError>)
    ensures
        outcome is None ==> r == Err::<Pgn, ParseError>(ParseError::EmptyInput),
        outcome is Some ==> r == outcome->0,
{
    match outcome {
        Some(result) => result,
        None => Err(ParseError::EmptyInput),
    }
}

} // verus!
