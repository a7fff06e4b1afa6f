//! What every game referee offers to the match runner.
use vstd::prelude::*;

verus! {

/// The result of a game for one player.
#[derive(Clone, Copy, PartialEq, Eq, Debug, Structural)]
pub enum WinLossTie {
    Win,
    Loss,
    Tie,
}

/// What the referee sends to a player: the lines of input for its turn.
#[derive(Debug)]
pub struct Message {
    pub player_id: usize,
    pub messages: Vec<String>,
}

/// The text of each line of a message.
pub open spec fn lines_of(messages: Seq<String>) -> Seq<Seq<char>> {
    messages.map_values(|m: String| m@)
}

/// The statuses of players after some of them played an invalid move:
/// a player who played a valid move wins, the others lose.
pub open spec fn invalid_move_status(valid: bool) -> WinLossTie {
    if valid {
        WinLossTie::Win
    } else {
        WinLossTie::Loss
    }
}

pub fn invalid_move_statuses(did_players_do_valid_moves: &[bool]) -> (statuses: Vec<WinLossTie>)
    ensures
        statuses@.len() == did_players_do_valid_moves@.len(),
        forall|i: int|
            0 <= i < statuses@.len() ==> #[trigger] statuses@[i] == invalid_move_status(
                did_players_do_valid_moves@[i],
            ),
{
    let mut players_status: Vec<WinLossTie> = Vec::new();
    let mut i: usize = 0;
    while i < did_players_do_valid_moves.len()
        invariant
            i <= did_players_do_valid_moves@.len(),
            players_status@.len() == i,
            forall|j: int|
                0 <= j < i ==> #[trigger] players_status@[j] == invalid_move_status(
                    did_players_do_valid_moves@[j],
                ),
        decreases did_players_do_valid_moves@.len() - i,
    {
        players_status.push(if did_players_do_valid_moves[i] { WinLossTie::Win } else { WinLossTie::Loss });
        i += 1;
    }
    players_status
}

pub fn contains_false(flags: &[bool]) -> (b: bool)
    ensures
        b == flags@.contains(false),
{
    let mut i: usize = 0;
    while i < flags.len()
        invariant
            i <= flags@.len(),
            forall|j: int| 0 <= j < i ==> flags@[j],
        decreases flags@.len() - i,
    {
        if !flags[i] {
            assert(flags@[i as int] == false);
            return true;
        }
        i += 1;
    }
    false
}

/// A two-player game referee: it tells which player plays next and with
/// what input, and it applies the moves that the players answer.
pub trait Game: Sized {
    /// The referee can read `msg` as a move in this state.
    spec fn accepts(&self, msg: Seq<char>) -> bool;

    /// The game is still going on.
    spec fn is_active(&self) -> bool;

    /// The final result, once known: one status per player.
    spec fn outcome(&self) -> Option<(WinLossTie, WinLossTie)>;

    fn new() -> Self;

    fn turn(&self) -> (m: Option<Message>)
        ensures
            m is None <==> !self.is_active(),
    ;

    fn play(&mut self, msg: String)
        requires
            old(self).accepts(msg@),
    ;

    fn winners(&self) -> (w: Option<Vec<WinLossTie>>)
        ensures
            match self.outcome() {
                None => w is None,
                Some(o) => w matches Some(v) && v@ == seq![o.0, o.1],
            },
    ;

    fn end_game(&mut self, players_status: Vec<WinLossTie>)
        requires
            players_status@.len() >= 2,
        ensures
            !final(self).is_active(),
            final(self).outcome() == Some((players_status@[0], players_status@[1])),
    ;

    /// Ends the game when some player made an invalid move: those who made a
    /// valid move win, the others lose. Tells whether it ended the game.
    fn end_game_if_invalid_move<M>(
        &mut self,
        players_moves: &[Option<M>],
        did_players_do_valid_moves: &[bool],
    ) -> (ended: bool)
        requires
            did_players_do_valid_moves@.len() >= 2,
        ensures
            ended == did_players_do_valid_moves@.contains(false),
            ended ==> !final(self).is_active() && final(self).outcome() == Some(
                (
                    invalid_move_status(did_players_do_valid_moves@[0]),
                    invalid_move_status(did_players_do_valid_moves@[1]),
                ),
            ),
            !ended ==> *final(self) == *old(self),
    {
        if contains_false(did_players_do_valid_moves) {
            let players_status = invalid_move_statuses(did_players_do_valid_moves);
            self.end_game(players_status);
            return true;
        }
        false
    }
}

} // verus!
