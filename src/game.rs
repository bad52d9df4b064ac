//! Game records, their opening line and their identity.

use crate::engine::{normalized, EngineName};
use crate::fingerprint::{fingerprint, fingerprint_of, views};
use crate::text::is_substring;
use vstd::prelude::*;
use vstd::std_specs::cmp::PartialEqSpec;

verus! {

/// One half-move: its notation and whether the feed marked it as a book move.
#[derive(Debug, Clone)]
pub struct PgnMove {
    pub notation: String,
    pub in_book: bool,
}

/// A game as the feed describes it.
#[derive(Debug, Clone)]
pub struct Pgn {
    pub white_player: EngineName,
    pub black_player: EngineName,
    pub date: String,
    pub event: String,
    pub moves: Vec<PgnMove>,
}

/// The number of leading book moves: the opening stops at the first move
/// that is not a book move, whatever follows it.
pub open spec fn opening_len(moves: Seq<PgnMove>) -> nat
    decreases moves.len(),
{
    if moves.len() > 0 && moves[0].in_book {
        1 + opening_len(moves.drop_first())
    } else {
        0
    }
}

/// Some move is not a book move.
pub open spec fn leaves_book(moves: Seq<PgnMove>) -> bool {
    exists|i: int| 0 <= i < moves.len() && !(#[trigger] moves[i]).in_book
}

/// Every move is a book move.
pub open spec fn all_in_book(moves: Seq<PgnMove>) -> bool {
    forall|i: int| 0 <= i < moves.len() ==> (#[trigger] moves[i]).in_book
}

/// The notations of `moves`, in order.
pub open spec fn notations(moves: Seq<PgnMove>) -> Seq<Seq<char>> {
    moves.map_values(|m: PgnMove| m.notation@)
}

/// What a game's identity is made of: both players' normalized names, the
/// date, and the notation of each opening move.
pub open spec fn identity_parts(g: Pgn) -> Seq<Seq<char>> {
    seq![normalized(g.white_player@), normalized(g.black_player@), g.date@] + notations(
        g.moves@.take(opening_len(g.moves@) as int),
    )
}

/// The identity hash of a game.
pub open spec fn identity_hash(g: Pgn) -> u64 {
    fingerprint(identity_parts(g))
}

/// `player` names white or black, in the sense of `EngineName::matches`.
pub open spec fn has_player_spec(g: Pgn, player: Seq<char>) -> bool {
    is_substring(normalized(player), normalized(g.white_player@)) || is_substring(
        normalized(player),
        normalized(g.black_player@),
    )
}

/// A prefix of book moves that ends at a non-book move, or at the end, is
/// the whole opening.
proof fn lemma_opening_len_is(moves: Seq<PgnMove>, k: int)
    requires
        0 <= k <= moves.len(),
        forall|i: int| 0 <= i < k ==> (#[trigger] moves[i]).in_book,
        k < moves.len() ==> !moves[k].in_book,
    ensures
        opening_len(moves) == k,
    decreases k,
{
    if k > 0 {
        let rest = moves.drop_first();
        assert forall|i: int| 0 <= i < k - 1 implies (#[trigger] rest[i]).in_book by {
            assert(rest[i] == moves[i + 1]);
        }
        if k < moves.len() {
            assert(rest[k - 1] == moves[k]);
        }
        lemma_opening_len_is(rest, k - 1);
    }
}

impl Pgn {
    /// The opening: the longest prefix of the moves made only of book moves.
    pub fn opening(&self) -> (r: &[PgnMove])
        ensures
            r@ == self.moves@.take(opening_len(self.moves@) as int),
    {
        let mut k: usize = 0;
        while k < self.moves.len() && self.moves[k].in_book
            invariant
                k <= self.moves@.len(),
                forall|i: int| 0 <= i < k ==> (#[trigger] self.moves@[i]).in_book,
            decreases self.moves@.len() - k,
        {
            k = k + 1;
        }
        proof {
            lemma_opening_len_is(self.moves@, k as int);
        }
        let r = &self.moves.as_slice()[0..k];
        assert(r@ =~= self.moves@.take(k as int));
        r
    }

    /// Whether any played move is not a book move.
    pub fn out_of_book(&self) -> (r: bool)
        ensures
            r == leaves_book(self.moves@),
    {
        let mut i: usize = 0;
        while i < self.moves.len()
            invariant
                i <= self.moves@.len(),
                forall|k: int| 0 <= k < i ==> (#[trigger] self.moves@[k]).in_book,
            decreases self.moves@.len() - i,
        {
            if !self.moves[i].in_book {
                return true;
            }
            i = i + 1;
        }
        false
    }

    /// Whether `player` names white or black.
    pub fn has_player(&self, player: &str) -> (r: bool)
        ensures
            r == has_player_spec(*self, player@),
    {
        self.white_player_is(player) || self.black_player_is(player)
    }

    /// Whether `player` names white.
    pub fn white_player_is(&self, player: &str) -> (r: bool)
        ensures
            r == is_substring(normalized(player@), normalized(self.white_player@)),
    {
        self.white_player.matches(player)
    }

    /// Whether `player` names black.
    pub fn black_player_is(&self, player: &str) -> (r: bool)
        ensures
            r == is_substring(normalized(player@), normalized(self.black_player@)),
    {
        self.black_player.matches(player)
    }

    /// The identity hash: the fingerprint of both players' normalized names,
    /// the date and the notations of the opening moves.
    pub fn as_hash(&self) -> (r: u64)
        ensures
            r == identity_hash(*self),
    {
        let mut parts: Vec<String> = Vec::new();
        parts.push(EngineName::normalize(self.white_player.raw()));
        parts.push(EngineName::normalize(self.black_player.raw()));
        parts.push(self.date.clone());
        let opening = self.opening();
        let mut i: usize = 0;
        while i < opening.len()
            invariant
                i <= opening@.len(),
                views(parts@) == seq![
                    normalized(self.white_player@),
                    normalized(self.black_player@),
                    self.date@,
                ] + notations(opening@.take(i as int)),
            decreases opening@.len() - i,
        {
            let ghost before = parts@;
            let notation = opening[i].notation.clone();
            parts.push(notation);
            proof {
                let head = seq![
                    normalized(self.white_player@),
                    normalized(self.black_player@),
                    self.date@,
                ];
                assert(parts@ == before.push(notation));
                assert(views(parts@) =~= views(before).push(notation@));
                assert(opening@.take(i + 1) =~= opening@.take(i as int).push(opening@[i as int]));
                assert(notations(opening@.take(i + 1)) =~= notations(opening@.take(i as int)).push(
                    opening@[i as int].notation@,
                ));
                assert(views(parts@) =~= head + notations(opening@.take(i + 1)));
            }
            i = i + 1;
        }
        assert(opening@.take(opening@.len() as int) == opening@);
        assert(views(parts@) =~= identity_parts(*self));
        fingerprint_of(&parts)
    }
}

impl PartialEq for Pgn {
    fn eq(&self, other: &Pgn) -> (r: bool) {
        self.as_hash() == other.as_hash()
    }
}

impl vstd::std_specs::cmp::PartialEqSpecImpl for Pgn {
    open spec fn obeys_eq_spec() -> bool {
        true
    }

    open spec fn eq_spec(&self, other: &Pgn) -> bool {
        identity_hash(*self) == identity_hash(*other)
    }
}

impl Eq for Pgn {

}

/// The game, once it has left its book; nothing while every move so far is a
/// book move.
pub fn get_current_game(pgn: Pgn) -> (r: Option<Pgn>)
    ensures
        leaves_book(pgn.moves@) ==> r == Some(pgn),
        !leaves_book(pgn.moves@) ==> r is None,
{
    if !pgn.out_of_book() {
        return None;
    }
    Some(pgn)
}

/// A game whose moves are all book moves has not left its book; one more
/// move that is not a book move takes it out.
pub proof fn lemma_non_book_move_leaves_book(moves: Seq<PgnMove>, m: PgnMove)
    requires
        all_in_book(moves),
    ensures
        !leaves_book(moves),
        !m.in_book ==> leaves_book(moves.push(m)),
{
    if !m.in_book {
        assert(moves.push(m)[moves.len() as int] == m);
    }
}

/// The opening ends at the first move that is not a book move, even where
/// later moves are marked as book moves again.
pub proof fn lemma_opening_stops_at_first_non_book(moves: Seq<PgnMove>, k: int)
    requires
        0 <= k < moves.len(),
        forall|i: int| 0 <= i < k ==> (#[trigger] moves[i]).in_book,
        !moves[k].in_book,
    ensures
        opening_len(moves) == k,
        forall|later: Seq<PgnMove>| opening_len(#[trigger] (moves + later)) == k,
{
    lemma_opening_len_is(moves, k);
    assert forall|later: Seq<PgnMove>| opening_len(#[trigger] (moves + later)) == k by {
        let all = moves + later;
        assert forall|i: int| 0 <= i < k implies (#[trigger] all[i]).in_book by {
            assert(all[i] == moves[i]);
        }
        assert(all[k] == moves[k]);
        lemma_opening_len_is(all, k);
    }
}

/// Games that agree on both players' normalized names, the date and the
/// opening have the same identity hash, whatever moves follow the opening
/// and whatever the event is called.
pub proof fn lemma_same_opening_same_hash(a: Pgn, b: Pgn)
    requires
        normalized(a.white_player@) == normalized(b.white_player@),
        normalized(a.black_player@) == normalized(b.black_player@),
        a.date@ == b.date@,
        notations(a.moves@.take(opening_len(a.moves@) as int)) == notations(
            b.moves@.take(opening_len(b.moves@) as int),
        ),
    ensures
        identity_hash(a) == identity_hash(b),
        a.eq_spec(&b),
{
    assert(identity_parts(a) == identity_parts(b));
}

/// What goes into the identity hash tells the players, the date and the
/// opening apart: games whose identity parts are equal agree on each of them.
pub proof fn lemma_identity_parts_distinguish(a: Pgn, b: Pgn)
    requires
        identity_parts(a) == identity_parts(b),
    ensures
        normalized(a.white_player@) == normalized(b.white_player@),
        normalized(a.black_player@) == normalized(b.black_player@),
        a.date@ == b.date@,
        notations(a.moves@.take(opening_len(a.moves@) as int)) == notations(
            b.moves@.take(opening_len(b.moves@) as int),
        ),
{
    let pa = identity_parts(a);
    let pb = identity_parts(b);
    assert(pa[0] == pb[0]);
    assert(pa[1] == pb[1]);
    assert(pa[2] == pb[2]);
    assert(pa.skip(3) =~= notations(a.moves@.take(opening_len(a.moves@) as int)));
    assert(pb.skip(3) =~= notations(b.moves@.take(opening_len(b.moves@) as int)));
}

} // verus!
