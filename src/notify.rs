//! Who is told about a new game, and what they are told.

use crate::engine::EngineName;
use crate::game::{has_player_spec, Pgn};
use std::collections::{HashMap, HashSet};
use vstd::prelude::*;
use vstd::string::StringExecFns;

verus! {

/// Where the tournament's live games can be watched.
pub const TCEC_URL: &'static str = "https://tcec-chess.com/";

/// For each engine name, the users to mention when it plays.
#[derive(Debug, PartialEq, Eq)]
pub struct NotifyConfig {
    pub engines: HashMap<String, HashSet<String>>,
}

/// What one announcement says.
pub struct NotifyContent {
    pub white_player: EngineName,
    pub black_player: EngineName,
    pub tournament: String,
    pub mentions: HashSet<String>,
}

/// The mention of each user, each after a space.
pub open spec fn mention_list(users: Seq<Seq<char>>) -> Seq<char>
    decreases users.len(),
{
    if users.len() == 0 {
        Seq::empty()
    } else {
        mention_list(users.drop_last()) + " <@!"@ + users.last() + ">"@
    }
}

/// What follows the players in an announcement: nothing, or ` cc.` and the
/// mentions.
pub open spec fn mention_suffix(users: Seq<Seq<char>>) -> Seq<char> {
    if users.len() == 0 {
        Seq::empty()
    } else {
        "   cc."@ + mention_list(users)
    }
}

/// The text of an announcement.
pub open spec fn message_text(
    tournament: Seq<char>,
    white: Seq<char>,
    black: Seq<char>,
    users: Seq<Seq<char>>,
) -> Seq<char> {
    "[`"@ + tournament + "`]("@ + TCEC_URL@ + ") `"@ + white + "` vs. `"@ + black + "`"@
        + mention_suffix(users)
}

/// The text that announces a game of `white` and `black` in `tournament`,
/// mentioning `users` in the order given.
pub fn notify_message(
    tournament: &str,
    white: &EngineName,
    black: &EngineName,
    users: &Vec<String>,
) -> (r: String)
    ensures
        r@ == message_text(tournament@, white@, black@, users@.map_values(|u: String| u@)),
{
    let ghost views = users@.map_values(|u: String| u@);
    let mut r = String::new();
    r.append("[`");
    r.append(tournament);
    r.append("`](");
    r.append(TCEC_URL);
    r.append(") `");
    r.append(white.raw());
    r.append("` vs. `");
    r.append(black.raw());
    r.append("`");
    let ghost head = r@;
    assert(head == "[`"@ + tournament@ + "`]("@ + TCEC_URL@ + ") `"@ + white@ + "` vs. `"@ + black@
        + "`"@);
    if users.len() > 0 {
        r.append("   cc.");
        let mut i: usize = 0;
        while i < users.len()
            invariant
                i <= users@.len(),
                views == users@.map_values(|u: String| u@),
                r@ == head + "   cc."@ + mention_list(views.take(i as int)),
            decreases users@.len() - i,
        {
            r.append(" <@!");
            r.append(users[i].as_str());
            r.append(">");
            proof {
                assert(views.take(i + 1).drop_last() == views.take(i as int));
                assert(views.take(i + 1).last() == users@[i as int]@);
            }
            i = i + 1;
        }
        assert(views.take(users@.len() as int) == views);
    } else {
        assert(r@ == head + Seq::<char>::empty());
    }
    r
}

/// The views of a list of engines, each with the users who follow it.
pub open spec fn followers_view(engines: Seq<(String, Vec<String>)>) -> Seq<(Seq<char>, Seq<Seq<char>>)> {
    engines.map_values(|e: (String, Vec<String>)| (e.0@, e.1@.map_values(|u: String| u@)))
}

/// The users to mention for `game`: those who follow an engine that plays
/// in it, engine by engine, in the order given.
pub open spec fn mentioned(game: Pgn, engines: Seq<(Seq<char>, Seq<Seq<char>>)>) -> Seq<Seq<char>>
    decreases engines.len(),
{
    if engines.len() == 0 {
        Seq::empty()
    } else {
        let rest = mentioned(game, engines.drop_last());
        if has_player_spec(game, engines.last().0) {
            rest + engines.last().1
        } else {
            rest
        }
    }
}

/// The users to mention for `game`, given each engine with its followers.
pub fn mentions_for(game: &Pgn, engines: &Vec<(String, Vec<String>)>) -> (r: Vec<String>)
    ensures
        r@.map_values(|u: String| u@) == mentioned(*game, followers_view(engines@)),
{
    let ghost all = followers_view(engines@);
    let mut r: Vec<String> = Vec::new();
    let mut i: usize = 0;
    while i < engines.len()
        invariant
            i <= engines@.len(),
            all == followers_view(engines@),
            r@.map_values(|u: String| u@) == mentioned(*game, all.take(i as int)),
        decreases engines@.len() - i,
    {
        let ghost before = r@.map_values(|u: String| u@);
        let (engine, users) = &engines[i];
        assert(all.take(i + 1).drop_last() == all.take(i as int));
        assert(all.take(i + 1).last() == all[i as int]);
        if game.has_player(engine.as_str()) {
            let mut j: usize = 0;
            while j < users.len()
                invariant
                    j <= users@.len(),
                    r@.map_values(|u: String| u@) == before + users@.map_values(|u: String| u@).take(j as int),
                decreases users@.len() - j,
            {
                let ghost prev = r@;
                r.push(users[j].clone());
                assert(r@.map_values(|u: String| u@) =~= prev.map_values(|u: String| u@).push(users@[j as int]@));
                assert(users@.map_values(|u: String| u@).take(j + 1) =~= users@.map_values(|u: String| u@).take(j as int).push(users@[j as int]@));
                j = j + 1;
            }
            assert(users@.map_values(|u: String| u@).take(users@.len() as int) == users@.map_values(|u: String| u@));
        }
        i = i + 1;
    }
    assert(all.take(engines@.len() as int) == all);
    r
}

} // verus!
