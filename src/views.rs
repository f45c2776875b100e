use vstd::prelude::*;
use crate::filter::{filter_result, games_filtered, GameFilter};
use crate::game::{lemma_ranks_distinct, point_of_seat, rank_of, raw_scores, Game};
use crate::members::{member_name, member_name_of, Member, Members};
use crate::PmError;

verus! {

/// One finishing position of a listed game.
#[derive(Clone, Debug)]
pub struct Placing {
    /// 0 = East, 1 = South, 2 = West, 3 = North.
    pub seat: u8,
    pub name: String,
    pub score: i32,
    /// Points, in thousandths of a point.
    pub point: i64,
}

/// A game as it is listed: its placings from first to fourth and what was
/// noted with it.
#[derive(Clone, Debug)]
pub struct GameRow {
    pub recorded_at: String,
    pub placings: Vec<Placing>,
    pub leftover_score: i32,
    pub used_dora_count: Option<u8>,
    pub remarks: String,
}

/// `p` is finishing position `k` of game `g`, names taken from `ms`.
pub open spec fn placing_of(p: Placing, g: Game, ms: Seq<Member>, k: int) -> bool {
    &&& p.seat < 4
    &&& rank_of(raw_scores(g), p.seat as int) == k
    &&& p.score == g.scores[p.seat as int].1
    &&& p.point == point_of_seat(raw_scores(g), p.seat as int)
    &&& member_name_of(ms, g.scores[p.seat as int].0) == Some(p.name@)
}

/// `r` lists game `g`, names taken from `ms`.
pub open spec fn row_of(r: GameRow, g: Game, ms: Seq<Member>) -> bool {
    &&& r.recorded_at@ == g.recorded_at@
    &&& r.leftover_score == g.leftover_score
    &&& r.used_dora_count == g.used_dora_count
    &&& r.remarks@ == g.remarks@
    &&& r.placings@.len() == 4
    &&& forall|k: int| 0 <= k < 4 ==> placing_of(#[trigger] r.placings@[k], g, ms, k)
}

/// Whether a seat of game `g` holds a member identifier without a name in `ms`.
pub open spec fn nameless_seat(g: Game, ms: Seq<Member>) -> bool {
    exists|i: int| 0 <= i < 4 && member_name_of(ms, #[trigger] g.scores[i].0).is_none()
}

/// The listing of one game.
pub fn game_row(g: &Game, members: &Members) -> (r: Result<GameRow, PmError>)
    ensures
        nameless_seat(*g, members@) ==> r == Err::<GameRow, PmError>(PmError::UnknownMemberId),
        !nameless_seat(*g, members@) ==> r.is_ok() && row_of(r.unwrap(), *g, members@),
{
    let s = g.get_only_scores();
    let pts = g.calculate_points();
    proof {
        lemma_ranks_distinct(s@);
    }
    let mut placings: Vec<Placing> = Vec::new();
    let mut k: usize = 0;
    while k < 4
        invariant
            0 <= k <= 4,
            s@ == raw_scores(*g),
            forall|q: int|
                0 <= q < 4 ==> 0 <= #[trigger] rank_of(raw_scores(*g), q) < 4 && pts@[rank_of(
                    raw_scores(*g),
                    q,
                )] == (point_of_seat(raw_scores(*g), q) as i64, q as u8),
            forall|i: int, j: int|
                0 <= i < 4 && 0 <= j < 4 && i != j ==> rank_of(s@, i) != rank_of(s@, j),
            placings@.len() == k,
            forall|q: int| 0 <= q < k ==> placing_of(#[trigger] placings@[q], *g, members@, q),
        decreases 4 - k,
    {
        let seat = pts[k].1;
        proof {
            assert(rank_of(s@, 0) == k || rank_of(s@, 1) == k || rank_of(s@, 2) == k || rank_of(s@, 3) == k);
            assert(seat < 4 && rank_of(s@, seat as int) == k);
        }
        let id = g.scores[seat as usize].0;
        match member_name(members, id) {
            Some(name) => {
                placings.push(Placing { seat, name, score: s[seat as usize], point: pts[k].0 });
            },
            None => {
                return Err(PmError::UnknownMemberId);
            },
        }
        k += 1;
    }
    proof {
        assert forall|i: int| 0 <= i < 4 implies member_name_of(members@, #[trigger] g.scores[i].0).is_some() by {
            assert(placing_of(placings@[rank_of(s@, i)], *g, members@, rank_of(s@, i)));
        }
    }
    Ok(GameRow {
        recorded_at: g.recorded_at.clone(),
        placings,
        leftover_score: g.leftover_score,
        used_dora_count: g.used_dora_count,
        remarks: g.remarks.clone(),
    })
}

/// `r` lists the games `chosen`: `UnknownMemberId` where a seat of one of them
/// holds a member without a name, else one row per game, in their order.
pub open spec fn lists(r: Result<Vec<GameRow>, PmError>, chosen: Seq<Game>, ms: Seq<Member>) -> bool {
    if exists|j: int| 0 <= j < chosen.len() && nameless_seat(#[trigger] chosen[j], ms) {
        r == Err::<Vec<GameRow>, PmError>(PmError::UnknownMemberId)
    } else {
        &&& r.is_ok()
        &&& r.unwrap()@.len() == chosen.len()
        &&& forall|j: int| 0 <= j < chosen.len() ==> row_of(#[trigger] r.unwrap()@[j], chosen[j], ms)
    }
}

/// The listings of the games that meet filter `f`, in their order.
pub fn get_games(games: &Vec<Game>, members: &Members, game_filter: &GameFilter) -> (r: Result<Vec<GameRow>, PmError>)
    ensures
        match filter_result(*game_filter, members@, games@) {
            Err(e) => r == Err::<Vec<GameRow>, PmError>(e),
            Ok(chosen) => lists(r, chosen, members@),
        },
{
    let sel = games_filtered(games, members, game_filter)?;
    let mut rows: Vec<GameRow> = Vec::new();
    let mut j: usize = 0;
    while j < sel.len()
        invariant
            0 <= j <= sel@.len(),
            filter_result(*game_filter, members@, games@) == Ok::<Seq<Game>, PmError>(sel@),
            rows@.len() == j,
            forall|q: int| 0 <= q < j ==> !nameless_seat(#[trigger] sel@[q], members@),
            forall|q: int| 0 <= q < j ==> row_of(#[trigger] rows@[q], sel@[q], members@),
        decreases sel@.len() - j,
    {
        match game_row(&sel[j], members) {
            Ok(row) => rows.push(row),
            Err(_) => {
                assert(nameless_seat(sel@[j as int], members@));
                assert(lists(Err(PmError::UnknownMemberId), sel@, members@));
                return Err(PmError::UnknownMemberId);
            },
        }
        j += 1;
    }
    Ok(rows)
}

} // verus!
