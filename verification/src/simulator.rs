//! The bookkeeping of a series of games between players: who won, lost or
//! tied how often, and the seatings of the players over permuted series.
use vstd::prelude::*;
use itertools::Itertools;
use crate::game::WinLossTie;

verus! {

/// Each sequence is an ordering of the seats `0..n`: length `n`, every seat
/// below `n`, none twice.
pub open spec fn is_seating(p: Seq<usize>, n: nat) -> bool {
    &&& p.len() == n
    &&& forall|i: int| 0 <= i < p.len() ==> #[trigger] p[i] < n
    &&& p.no_duplicates()
}

/// The orderings of `0..n` from `itertools::Itertools::permutations` on the
/// range, with `n` as the length. The contract claims what the crate's
/// documentation promises, that every ordering of `0..n` comes out, and
/// what its source shows: each item puts the input's values at distinct
/// positions, and each arrangement of positions comes out once (for
/// `n == 0`, the one empty ordering). It leaves unsaid in which order the
/// orderings come out.
#[verifier::external_body]
pub(crate) fn player_permutations(n: usize) -> (perms: Vec<Vec<usize>>)
    ensures
        forall|k: int| 0 <= k < perms@.len() ==> is_seating(#[trigger] perms@[k]@, n as nat),
        forall|p: Seq<usize>| #[trigger] is_seating(p, n as nat) ==> exists|k: int| 0 <= k < perms@.len() && perms@[k]@ == p,
        forall|a: int, b: int| 0 <= a < b < perms@.len() ==> #[trigger] perms@[a]@ != #[trigger] perms@[b]@,
{
    (0..n).permutations(n).collect()
}

/// The seatings of a series with `player_count` players: every ordering of
/// the player ids, each once, so that each player takes in turn each seat.
pub fn seatings(player_count: usize) -> (perms: Vec<Vec<usize>>)
    ensures
        forall|k: int| 0 <= k < perms@.len() ==> is_seating(#[trigger] perms@[k]@, player_count as nat),
        forall|p: Seq<usize>| #[trigger] is_seating(p, player_count as nat) ==> exists|k: int|
            0 <= k < perms@.len() && perms@[k]@ == p,
        forall|a: int, b: int| 0 <= a < b < perms@.len() ==> #[trigger] perms@[a]@ != #[trigger] perms@[b]@,
{
    player_permutations(player_count)
}

/// The win, loss and tie counts of each player.
pub struct RunStatistics {
    pub players_win_loss: Vec<(i32, i32, i32)>,
}

/// The counts after one more result.
pub open spec fn tally(t: (i32, i32, i32), r: WinLossTie) -> (i32, i32, i32) {
    match r {
        WinLossTie::Win => ((t.0 + 1) as i32, t.1, t.2),
        WinLossTie::Loss => (t.0, (t.1 + 1) as i32, t.2),
        WinLossTie::Tie => (t.0, t.1, (t.2 + 1) as i32),
    }
}

pub open spec fn tally_fits(t: (i32, i32, i32)) -> bool {
    t.0 < i32::MAX && t.1 < i32::MAX && t.2 < i32::MAX
}

/// The sum of two counts.
pub open spec fn add_counts(a: (i32, i32, i32), b: (i32, i32, i32)) -> (i32, i32, i32) {
    ((a.0 + b.0) as i32, (a.1 + b.1) as i32, (a.2 + b.2) as i32)
}

pub open spec fn sum_fits(a: (i32, i32, i32), b: (i32, i32, i32)) -> bool {
    &&& i32::MIN <= a.0 + b.0 <= i32::MAX
    &&& i32::MIN <= a.1 + b.1 <= i32::MAX
    &&& i32::MIN <= a.2 + b.2 <= i32::MAX
}

impl RunStatistics {
    /// No game counted yet for `player_count` players.
    pub fn new(player_count: usize) -> (s: Self)
        ensures
            s.players_win_loss@ == Seq::new(player_count as nat, |i: int| (0i32, 0i32, 0i32)),
    {
        let mut players_win_loss: Vec<(i32, i32, i32)> = Vec::new();
        let mut i: usize = 0;
        while i < player_count
            invariant
                i <= player_count,
                players_win_loss@ == Seq::new(i as nat, |j: int| (0i32, 0i32, 0i32)),
            decreases player_count - i,
        {
            players_win_loss.push((0, 0, 0));
            assert(players_win_loss@ =~= Seq::new((i + 1) as nat, |j: int| (0i32, 0i32, 0i32)));
            i += 1;
        }
        RunStatistics { players_win_loss }
    }

    /// Counts the result of one game: player `p` got `winners[p]`.
    pub fn record_winners(&mut self, winners: &[WinLossTie])
        requires
            winners@.len() <= old(self).players_win_loss@.len(),
            forall|p: int| 0 <= p < winners@.len() ==> tally_fits(#[trigger] old(self).players_win_loss@[p]),
        ensures
            final(self).players_win_loss@.len() == old(self).players_win_loss@.len(),
            forall|p: int| 0 <= p < winners@.len() ==> #[trigger] final(self).players_win_loss@[p] == tally(
                old(self).players_win_loss@[p],
                winners@[p],
            ),
            forall|p: int| winners@.len() <= p < old(self).players_win_loss@.len() ==> #[trigger] final(self).players_win_loss@[p]
                == old(self).players_win_loss@[p],
    {
        let ghost start = self.players_win_loss@;
        let mut p: usize = 0;
        while p < winners.len()
            invariant
                p <= winners@.len(),
                winners@.len() <= start.len(),
                self.players_win_loss@.len() == start.len(),
                forall|q: int| 0 <= q < winners@.len() ==> tally_fits(#[trigger] start[q]),
                forall|q: int| 0 <= q < p ==> #[trigger] self.players_win_loss@[q] == tally(start[q], winners@[q]),
                forall|q: int| p <= q < start.len() ==> #[trigger] self.players_win_loss@[q] == start[q],
            decreases winners@.len() - p,
        {
            let t = self.players_win_loss[p];
            assert(t == start[p as int]);
            let n = match winners[p] {
                WinLossTie::Win => (t.0 + 1, t.1, t.2),
                WinLossTie::Loss => (t.0, t.1 + 1, t.2),
                WinLossTie::Tie => (t.0, t.1, t.2 + 1),
            };
            self.players_win_loss.set(p, n);
            p += 1;
        }
    }

    /// Adds the counts of a series played with the players seated by
    /// `seating`: the player on seat `i` of that series is player
    /// `seating[i]` here.
    pub fn add_permuted(&mut self, seating: &[usize], series: &RunStatistics)
        requires
            seating@.len() == series.players_win_loss@.len(),
            is_seating(seating@, old(self).players_win_loss@.len()),
            forall|i: int| 0 <= i < seating@.len() ==> sum_fits(
                old(self).players_win_loss@[#[trigger] seating@[i] as int],
                series.players_win_loss@[i],
            ),
        ensures
            final(self).players_win_loss@.len() == old(self).players_win_loss@.len(),
            forall|i: int| 0 <= i < seating@.len() ==> final(self).players_win_loss@[#[trigger] seating@[i] as int] == add_counts(
                old(self).players_win_loss@[seating@[i] as int],
                series.players_win_loss@[i],
            ),
    {
        let ghost start = self.players_win_loss@;
        let mut i: usize = 0;
        while i < seating.len()
            invariant
                i <= seating@.len(),
                seating@.len() == series.players_win_loss@.len(),
                is_seating(seating@, start.len()),
                self.players_win_loss@.len() == start.len(),
                forall|j: int| 0 <= j < seating@.len() ==> sum_fits(
                    start[#[trigger] seating@[j] as int],
                    series.players_win_loss@[j],
                ),
                forall|j: int| 0 <= j < i ==> self.players_win_loss@[#[trigger] seating@[j] as int] == add_counts(
                    start[seating@[j] as int],
                    series.players_win_loss@[j],
                ),
                forall|j: int| i <= j < seating@.len() ==> self.players_win_loss@[#[trigger] seating@[j] as int] == start[seating@[j] as int],
            decreases seating@.len() - i,
        {
            let p = seating[i];
            let a = self.players_win_loss[p];
            let b = series.players_win_loss[i];
            self.players_win_loss.set(p, (a.0 + b.0, a.1 + b.1, a.2 + b.2));
            assert forall|j: int| 0 <= j < seating@.len() && j != i implies seating@[j] != p by {
                assert(seating@[j] != seating@[i as int]);
            }
            i += 1;
        }
    }
}

} // verus!
