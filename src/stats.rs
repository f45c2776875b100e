use vstd::prelude::*;
use crate::filter::{filter_result, games_filtered, GameFilter};
use crate::game::{lemma_ranks_distinct, rank_of, raw_scores, Game};
use crate::members::Members;
use crate::ranking::ranked_only;
use crate::PmError;

verus! {

/// Summary of a set of games by raw score. The win seat of a game is the seat
/// that finishes first and its last seat the one that finishes fourth, with
/// the tie-break of the point table (an equal score goes to the lower seat).
#[derive(Clone, Copy, Debug)]
pub struct Stats {
    pub game_count: usize,
    /// Games in which some seat ended below zero.
    pub bankrupt: usize,
    pub wins_by_seat: [usize; 4],
    pub lasts_by_seat: [usize; 4],
    /// Highest raw score of any seat in any game; `None` without games.
    pub highest_score: Option<i32>,
    /// Lowest raw score of any seat in any game; `None` without games.
    pub lowest_score: Option<i32>,
    /// Sum of the raw scores of each seat; divided by `game_count` it is the
    /// seat's average.
    pub score_sum_by_seat: [i128; 4],
}

/// How many games of `gs` seat `seat` finishes at `rank`.
pub open spec fn finish_count(gs: Seq<Game>, seat: int, rank: int) -> int
    decreases gs.len(),
{
    if gs.len() == 0 {
        0
    } else {
        finish_count(gs.drop_last(), seat, rank) + if rank_of(raw_scores(gs.last()), seat) == rank {
            1int
        } else {
            0int
        }
    }
}

/// Whether some seat of `g` ended below zero.
pub open spec fn went_bankrupt(g: Game) -> bool {
    exists|i: int| 0 <= i < 4 && raw_scores(g)[i] < 0
}

pub open spec fn bankrupt_count(gs: Seq<Game>) -> int
    decreases gs.len(),
{
    if gs.len() == 0 {
        0
    } else {
        bankrupt_count(gs.drop_last()) + if went_bankrupt(gs.last()) {
            1int
        } else {
            0int
        }
    }
}

/// Sum of the raw scores of seat `seat` over `gs`.
pub open spec fn seat_sum(gs: Seq<Game>, seat: int) -> int
    decreases gs.len(),
{
    if gs.len() == 0 {
        0
    } else {
        seat_sum(gs.drop_last(), seat) + raw_scores(gs.last())[seat]
    }
}

pub open spec fn max_of(a: int, b: int) -> int {
    if a >= b { a } else { b }
}

pub open spec fn min_of(a: int, b: int) -> int {
    if a <= b { a } else { b }
}

pub open spec fn game_high(g: Game) -> int {
    let s = raw_scores(g);
    max_of(max_of(s[0] as int, s[1] as int), max_of(s[2] as int, s[3] as int))
}

pub open spec fn game_low(g: Game) -> int {
    let s = raw_scores(g);
    min_of(min_of(s[0] as int, s[1] as int), min_of(s[2] as int, s[3] as int))
}

/// Highest raw score over `gs`, if there is a game.
pub open spec fn highest(gs: Seq<Game>) -> Option<int>
    decreases gs.len(),
{
    if gs.len() == 0 {
        None
    } else {
        match highest(gs.drop_last()) {
            Some(h) => Some(max_of(h, game_high(gs.last()))),
            None => Some(game_high(gs.last())),
        }
    }
}

/// Lowest raw score over `gs`, if there is a game.
pub open spec fn lowest(gs: Seq<Game>) -> Option<int>
    decreases gs.len(),
{
    if gs.len() == 0 {
        None
    } else {
        match lowest(gs.drop_last()) {
            Some(h) => Some(min_of(h, game_low(gs.last()))),
            None => Some(game_low(gs.last())),
        }
    }
}

/// `st` summarises the games of `gs`.
pub open spec fn summarises(st: Stats, gs: Seq<Game>) -> bool {
    &&& st.game_count == gs.len()
    &&& st.bankrupt == bankrupt_count(gs)
    &&& forall|k: int| 0 <= k < 4 ==> #[trigger] st.wins_by_seat[k] == finish_count(gs, k, 0)
    &&& forall|k: int| 0 <= k < 4 ==> #[trigger] st.lasts_by_seat[k] == finish_count(gs, k, 3)
    &&& forall|k: int| 0 <= k < 4 ==> #[trigger] st.score_sum_by_seat[k] == seat_sum(gs, k)
    &&& match highest(gs) {
        Some(h) => st.highest_score == Some(h as i32),
        None => st.highest_score.is_none(),
    }
    &&& match lowest(gs) {
        Some(l) => st.lowest_score == Some(l as i32),
        None => st.lowest_score.is_none(),
    }
}

/// Highest and lowest raw score over `gs` lie within `i32`, as the scores do.
proof fn lemma_extremes_fit(gs: Seq<Game>)
    ensures
        highest(gs) matches Some(h) ==> i32::MIN <= h <= i32::MAX,
        lowest(gs) matches Some(l) ==> i32::MIN <= l <= i32::MAX,
    decreases gs.len(),
{
    if gs.len() > 0 {
        lemma_extremes_fit(gs.drop_last());
    }
}

/// Whether the counts and sums of `st` are bounded by what `n` games can reach.
pub open spec fn within_reach(st: Stats, n: int) -> bool {
    &&& forall|k: int| 0 <= k < 4 ==> #[trigger] st.wins_by_seat[k] <= n
    &&& forall|k: int| 0 <= k < 4 ==> #[trigger] st.lasts_by_seat[k] <= n
    &&& st.bankrupt <= n
    &&& forall|k: int|
        0 <= k < 4 ==> -2147483648 * n <= #[trigger] st.score_sum_by_seat[k] <= 2147483648 * n
}

/// Adds game `g` to the summary `st` of `done`.
#[verifier::rlimit(60)]
#[verifier::spinoff_prover]
fn add_game(st: &mut Stats, g: &Game, done: Ghost<Seq<Game>>)
    requires
        done@.len() < usize::MAX,
        summarises(*old(st), done@),
        within_reach(*old(st), done@.len() as int),
    ensures
        summarises(*final(st), done@.push(*g)),
        within_reach(*final(st), done@.len() as int + 1),
{
        let ghost done = done@;
        let ghost next = done.push(*g);
        proof {
            assert(next.drop_last() =~= done);
            assert(next.last() == *g);
            lemma_ranks_distinct(raw_scores(*g));
            lemma_extremes_fit(next);
        }
        let ghost old_st = st;
        let s = g.get_only_scores();
        let pts = g.calculate_points();
        let win = pts[0].1 as usize;
        let last = pts[3].1 as usize;
        proof {
            assert(rank_of(s@, 0) == 0 || rank_of(s@, 1) == 0 || rank_of(s@, 2) == 0 || rank_of(s@, 3) == 0);
            assert(rank_of(s@, 0) == 3 || rank_of(s@, 1) == 3 || rank_of(s@, 2) == 3 || rank_of(s@, 3) == 3);
            assert(win < 4 && rank_of(s@, win as int) == 0);
            assert(last < 4 && rank_of(s@, last as int) == 3);
        }
        st.wins_by_seat[win] = st.wins_by_seat[win] + 1;
        st.lasts_by_seat[last] = st.lasts_by_seat[last] + 1;
        if s[0] < 0 || s[1] < 0 || s[2] < 0 || s[3] < 0 {
            st.bankrupt = st.bankrupt + 1;
        }
        let high01 = if s[0] >= s[1] { s[0] } else { s[1] };
        let high23 = if s[2] >= s[3] { s[2] } else { s[3] };
        let high = if high01 >= high23 { high01 } else { high23 };
        let low01 = if s[0] <= s[1] { s[0] } else { s[1] };
        let low23 = if s[2] <= s[3] { s[2] } else { s[3] };
        let low = if low01 <= low23 { low01 } else { low23 };
        st.highest_score = match st.highest_score {
            Some(h) => Some(if h >= high { h } else { high }),
            None => Some(high),
        };
        st.lowest_score = match st.lowest_score {
            Some(l) => Some(if l <= low { l } else { low }),
            None => Some(low),
        };
        st.score_sum_by_seat[0] = st.score_sum_by_seat[0] + s[0] as i128;
        st.score_sum_by_seat[1] = st.score_sum_by_seat[1] + s[1] as i128;
        st.score_sum_by_seat[2] = st.score_sum_by_seat[2] + s[2] as i128;
        st.score_sum_by_seat[3] = st.score_sum_by_seat[3] + s[3] as i128;
        st.game_count = st.game_count + 1;
        proof {
            assert(went_bankrupt(*g) == (s@[0] < 0 || s@[1] < 0 || s@[2] < 0 || s@[3] < 0));
            assert forall|q: int| 0 <= q < 4 implies #[trigger] st.wins_by_seat[q] == finish_count(next, q, 0) by {
                assert(finish_count(done, q, 0) == old_st.wins_by_seat[q]);
            }
            assert forall|q: int| 0 <= q < 4 implies #[trigger] st.lasts_by_seat[q] == finish_count(next, q, 3) by {
                assert(finish_count(done, q, 3) == old_st.lasts_by_seat[q]);
            }
            assert forall|q: int| 0 <= q < 4 implies #[trigger] st.score_sum_by_seat[q] == seat_sum(next, q) by {
                assert(seat_sum(done, q) == old_st.score_sum_by_seat[q]);
            }
        }
}

/// The raw-score summary of all games of `games`.
pub fn summarize(games: &Vec<Game>) -> (st: Stats)
    ensures
        summarises(st, games@),
{
    let mut st = Stats {
        game_count: 0,
        bankrupt: 0,
        wins_by_seat: [0, 0, 0, 0],
        lasts_by_seat: [0, 0, 0, 0],
        highest_score: None,
        lowest_score: None,
        score_sum_by_seat: [0, 0, 0, 0],
    };
    let n = games.len();
    let mut j: usize = 0;
    while j < n
        invariant
            0 <= j <= n,
            n == games@.len(),
            summarises(st, games@.subrange(0, j as int)),
            within_reach(st, j as int),
        decreases n - j,
    {
        let ghost done = games@.subrange(0, j as int);
        proof {
            assert(games@.subrange(0, j + 1) =~= done.push(games@[j as int]));
        }
        add_game(&mut st, &games[j], Ghost(done));
        j += 1;
    }
    assert(games@.subrange(0, n as int) =~= games@);
    st
}

/// The raw-score summary of the ranked games that meet filter `f`.
pub fn stats(games: &Vec<Game>, members: &Members, game_filter: &GameFilter) -> (r: Result<Stats, PmError>)
    ensures
        match filter_result(ranked_only(*game_filter), members@, games@) {
            Err(e) => r == Err::<Stats, PmError>(e),
            Ok(sel) => r.is_ok() && summarises(r.unwrap(), sel),
        },
{
    let mut f = game_filter.clone_filter();
    f.ranking = true;
    assert(f == ranked_only(*game_filter));
    let sel = games_filtered(games, members, &f)?;
    Ok(summarize(&sel))
}

} // verus!
