use vstd::prelude::*;
use crate::date::{date_before, date_of_head, is_before, parse_date_head, CalendarDate};

verus! {

/// Identifier of a member.
pub type UserID = usize;

/// One recorded game: four (member, raw score) pairs in seat order
/// (East, South, West, North) and what was noted with them.
#[derive(Clone, Debug)]
pub struct Game {
    pub id: usize,
    pub non_rank_game: bool,
    pub used_dora_count: Option<u8>,
    /// `YYYY-MM-DD HH:MM:SS`
    pub recorded_at: String,
    pub scores: [(UserID, i32); 4],
    pub leftover_score: i32,
    pub remarks: String,
}

/// The raw scores of a game, in seat order.
pub open spec fn raw_scores(g: Game) -> Seq<i32> {
    seq![g.scores[0].1, g.scores[1].1, g.scores[2].1, g.scores[3].1]
}

/// Seat `i` finishes above seat `j`: a higher raw score, or an equal raw score
/// and a lower seat index.
pub open spec fn seat_beats(s: Seq<i32>, i: int, j: int) -> bool {
    s[i] > s[j] || (s[i] == s[j] && i < j)
}

pub open spec fn beat_count(s: Seq<i32>, j: int, i: int) -> int {
    if seat_beats(s, j, i) { 1 } else { 0 }
}

/// Finishing position of seat `i` (0 = first): the number of seats that beat it.
pub open spec fn rank_of(s: Seq<i32>, i: int) -> int {
    beat_count(s, 0, i) + beat_count(s, 1, i) + beat_count(s, 2, i) + beat_count(s, 3, i)
}

/// Points, in thousandths, added to a raw score that finishes at `rank`:
/// +10, -20, -40, -50.
pub open spec fn rank_offset(rank: int) -> int {
    if rank == 0 {
        10000
    } else if rank == 1 {
        -20000
    } else if rank == 2 {
        -40000
    } else {
        -50000
    }
}

/// Points, in thousandths, of seat `i`: `raw / 1000 + offset` scaled by 1000.
pub open spec fn point_of_seat(s: Seq<i32>, i: int) -> int {
    s[i] + rank_offset(rank_of(s, i))
}

/// Whether member `id` sits at any seat of `g`.
pub open spec fn plays_in(g: Game, id: UserID) -> bool {
    exists|i: int| 0 <= i < 4 && g.scores[i].0 == id
}

/// Whether the date at the head of the game's timestamp lies strictly between
/// `start` and `end`; a timestamp without a readable date lies in no range.
pub open spec fn recorded_between(g: Game, start: (int, int, int), end: (int, int, int)) -> bool {
    match date_of_head(g.recorded_at@) {
        Some(d) => date_before(start, d) && date_before(d, end),
        None => false,
    }
}

/// The four finishing positions are four distinct values in 0..4.
pub proof fn lemma_ranks_distinct(s: Seq<i32>)
    requires
        s.len() == 4,
    ensures
        forall|i: int| 0 <= i < 4 ==> 0 <= #[trigger] rank_of(s, i) < 4,
        forall|i: int, j: int|
            0 <= i < 4 && 0 <= j < 4 && i != j ==> rank_of(s, i) != rank_of(s, j),
{
}

/// The points of a game add up to the sum of its raw scores, in thousandths,
/// less 100 points: the offsets +10, -20, -40 and -50 are each used once. A
/// game whose raw scores sum to 100000 therefore hands out zero points in all.
pub proof fn lemma_points_total(s: Seq<i32>)
    requires
        s.len() == 4,
    ensures
        point_of_seat(s, 0) + point_of_seat(s, 1) + point_of_seat(s, 2) + point_of_seat(s, 3)
            == s[0] + s[1] + s[2] + s[3] - 100000,
        s[0] + s[1] + s[2] + s[3] == 100000 ==> point_of_seat(s, 0) + point_of_seat(s, 1)
            + point_of_seat(s, 2) + point_of_seat(s, 3) == 0,
{
    lemma_ranks_distinct(s);
}

/// Of two seats with equal raw scores, the one with the lower index finishes higher.
pub proof fn lemma_tie_break(s: Seq<i32>, i: int, j: int)
    requires
        s.len() == 4,
        0 <= i < j < 4,
        s[i] == s[j],
    ensures
        rank_of(s, i) < rank_of(s, j),
{
}

/// Seating the same raw scores differently (`t[j] == s[p[j]]`) leaves the
/// points at each finishing position as they were; where the raw scores are
/// all different, each score keeps its finishing position and moves with its seat.
pub proof fn lemma_seat_permutation(s: Seq<i32>, t: Seq<i32>, p: Seq<int>)
    requires
        s.len() == 4,
        t.len() == 4,
        p.len() == 4,
        forall|j: int| 0 <= j < 4 ==> 0 <= #[trigger] p[j] < 4,
        forall|a: int, b: int| 0 <= a < b < 4 ==> p[a] != p[b],
        forall|j: int| 0 <= j < 4 ==> #[trigger] t[j] == s[p[j]],
    ensures
        forall|i: int, j: int|
            0 <= i < 4 && 0 <= j < 4 && rank_of(s, i) == rank_of(t, j) ==> point_of_seat(s, i)
                == point_of_seat(t, j),
        (forall|a: int, b: int| 0 <= a < b < 4 ==> s[a] != s[b]) ==> forall|j: int|
            0 <= j < 4 ==> rank_of(t, j) == rank_of(s, p[j]),
{
    lemma_ranks_distinct(s);
    lemma_ranks_distinct(t);
}

fn beats(s: &[i32; 4], i: usize, j: usize) -> (r: bool)
    requires
        i < 4,
        j < 4,
    ensures
        r == seat_beats(s@, i as int, j as int),
{
    s[i] > s[j] || (s[i] == s[j] && i < j)
}

pub(crate) fn seat_rank(s: &[i32; 4], i: usize) -> (r: usize)
    requires
        i < 4,
    ensures
        r == rank_of(s@, i as int),
{
    let mut r: usize = 0;
    if beats(s, 0, i) {
        r += 1;
    }
    if beats(s, 1, i) {
        r += 1;
    }
    if beats(s, 2, i) {
        r += 1;
    }
    if beats(s, 3, i) {
        r += 1;
    }
    r
}

fn rank_offset_milli(rank: usize) -> (r: i64)
    ensures
        r == rank_offset(rank as int),
{
    if rank == 0 {
        10000
    } else if rank == 1 {
        -20000
    } else if rank == 2 {
        -40000
    } else {
        -50000
    }
}

impl Game {
    /// The raw scores, in seat order.
    pub fn get_only_scores(&self) -> (r: [i32; 4])
        ensures
            r@ == raw_scores(*self),
    {
        let r = [self.scores[0].1, self.scores[1].1, self.scores[2].1, self.scores[3].1];
        assert(r@ =~= raw_scores(*self));
        r
    }

    /// The points of this game, one (points in thousandths, seat) pair per
    /// finishing position, first place at index 0.
    pub fn calculate_points(&self) -> (r: [(i64, u8); 4])
        ensures
            forall|i: int|
                0 <= i < 4 ==> 0 <= #[trigger] rank_of(raw_scores(*self), i) < 4 && r@[rank_of(
                    raw_scores(*self),
                    i,
                )] == (point_of_seat(raw_scores(*self), i) as i64, i as u8),
    {
        let s = self.get_only_scores();
        proof {
            lemma_ranks_distinct(s@);
        }
        let r0 = seat_rank(&s, 0);
        let r1 = seat_rank(&s, 1);
        let r2 = seat_rank(&s, 2);
        let r3 = seat_rank(&s, 3);
        let ranks = [r0, r1, r2, r3];
        assert(r0 < 4 && r1 < 4 && r2 < 4 && r3 < 4);
        assert(r0 != r1 && r0 != r2 && r0 != r3 && r1 != r2 && r1 != r3 && r2 != r3);
        let mut seats: [usize; 4] = [0, 0, 0, 0];
        let mut k: usize = 0;
        while k < 4
            invariant
                0 <= k <= 4,
                ranks@ == seq![r0, r1, r2, r3],
                r0 < 4 && r1 < 4 && r2 < 4 && r3 < 4,
                r0 != r1 && r0 != r2 && r0 != r3 && r1 != r2 && r1 != r3 && r2 != r3,
                forall|j: int| 0 <= j < k ==> #[trigger] seats@[j] < 4 && ranks@[seats@[j] as int] == j,
            decreases 4 - k,
        {
            let seat: usize = if r0 == k {
                0
            } else if r1 == k {
                1
            } else if r2 == k {
                2
            } else {
                3
            };
            seats[k] = seat;
            k += 1;
        }
        let mut r: [(i64, u8); 4] = [(0, 0); 4];
        let mut k: usize = 0;
        while k < 4
            invariant
                0 <= k <= 4,
                s@ == raw_scores(*self),
                ranks@ == seq![r0, r1, r2, r3],
                r0 == rank_of(s@, 0),
                r1 == rank_of(s@, 1),
                r2 == rank_of(s@, 2),
                r3 == rank_of(s@, 3),
                forall|j: int| 0 <= j < 4 ==> #[trigger] seats@[j] < 4 && ranks@[seats@[j] as int] == j,
                forall|j: int|
                    0 <= j < k ==> #[trigger] r@[j] == (point_of_seat(s@, seats@[j] as int) as i64, seats@[j] as u8),
            decreases 4 - k,
        {
            let seat = seats[k];
            let point = s[seat] as i64 + rank_offset_milli(k);
            r[k] = (point, seat as u8);
            k += 1;
        }
        r
    }

    /// Whether member `member_id` sits at any seat of this game.
    pub fn member_in_game(&self, member_id: UserID) -> (r: bool)
        ensures
            r == plays_in(*self, member_id),
    {
        let mut i: usize = 0;
        while i < 4
            invariant
                0 <= i <= 4,
                forall|j: int| 0 <= j < i ==> self.scores[j].0 != member_id,
            decreases 4 - i,
        {
            if self.scores[i].0 == member_id {
                return true;
            }
            i += 1;
        }
        false
    }

    /// Whether the date of this game lies strictly between `start` and `end`.
    pub fn in_date(&self, start: &CalendarDate, end: &CalendarDate) -> (r: bool)
        ensures
            r == recorded_between(*self, start@, end@),
    {
        match parse_date_head(self.recorded_at.as_str()) {
            Some(d) => is_before(start, &d) && is_before(&d, end),
            None => false,
        }
    }
}

} // verus!
