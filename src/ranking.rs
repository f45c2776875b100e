use vstd::prelude::*;
use crate::filter::{filter_result, games_filtered, GameFilter};
use crate::game::{lemma_ranks_distinct, plays_in, point_of_seat, rank_of, raw_scores, seat_rank, Game, UserID};
use crate::members::{member_name, member_name_of, Member, Members};
use crate::PmError;

verus! {

/// One line of the leaderboard.
#[derive(Clone, Debug)]
pub struct RankingEntry {
    pub id: UserID,
    pub name: String,
    /// Sum of the member's points, in thousandths of a point.
    pub point: i128,
    /// How often the member finished first, second, third and fourth.
    pub rank_count: [usize; 4],
    /// Games counted: the sum of `rank_count`.
    pub games: u128,
}

/// Points, in thousandths, that seats `0..n` of `g` hand to member `id`.
pub open spec fn seat_points(g: Game, id: UserID, n: int) -> int
    decreases n,
{
    if n <= 0 {
        0
    } else {
        seat_points(g, id, n - 1) + if g.scores[n - 1].0 == id {
            point_of_seat(raw_scores(g), n - 1)
        } else {
            0
        }
    }
}

/// How many of seats `0..n` of `g` hold member `id` and finish at `rank`.
pub open spec fn seat_hits(g: Game, id: UserID, rank: int, n: int) -> int
    decreases n,
{
    if n <= 0 {
        0
    } else {
        seat_hits(g, id, rank, n - 1) + if g.scores[n - 1].0 == id && rank_of(raw_scores(g), n - 1)
            == rank {
            1int
        } else {
            0int
        }
    }
}

/// Whether member `id` holds one of seats `0..n` of `g`.
pub open spec fn seated_before(g: Game, id: UserID, n: int) -> bool
    decreases n,
{
    n > 0 && (seated_before(g, id, n - 1) || g.scores[n - 1].0 == id)
}

/// Points, in thousandths, that member `id` collected over the ranked games of `gs`.
pub open spec fn total_points(gs: Seq<Game>, id: UserID) -> int
    decreases gs.len(),
{
    if gs.len() == 0 {
        0
    } else {
        total_points(gs.drop_last(), id) + if gs.last().non_rank_game {
            0
        } else {
            seat_points(gs.last(), id, 4)
        }
    }
}

/// How often member `id` finished at `rank` over the ranked games of `gs`.
pub open spec fn rank_total(gs: Seq<Game>, id: UserID, rank: int) -> int
    decreases gs.len(),
{
    if gs.len() == 0 {
        0
    } else {
        rank_total(gs.drop_last(), id, rank) + if gs.last().non_rank_game {
            0
        } else {
            seat_hits(gs.last(), id, rank, 4)
        }
    }
}

/// Whether member `id` sat in a ranked game of `gs`.
pub open spec fn took_part(gs: Seq<Game>, id: UserID) -> bool
    decreases gs.len(),
{
    gs.len() > 0 && (took_part(gs.drop_last(), id) || (!gs.last().non_rank_game && plays_in(
        gs.last(),
        id,
    )))
}

/// Entry `a` stands above entry `b`: more points, or as many and a lower identifier.
pub open spec fn ranks_above(a: RankingEntry, b: RankingEntry) -> bool {
    a.point > b.point || (a.point == b.point && a.id < b.id)
}

/// Entry `e` holds what the ranked games of `gs` give its member, and the
/// member's name in directory `ms`.
pub open spec fn entry_of(e: RankingEntry, gs: Seq<Game>, ms: Seq<Member>) -> bool {
    &&& took_part(gs, e.id)
    &&& e.point == total_points(gs, e.id)
    &&& e.rank_count[0] == rank_total(gs, e.id, 0)
    &&& e.rank_count[1] == rank_total(gs, e.id, 1)
    &&& e.rank_count[2] == rank_total(gs, e.id, 2)
    &&& e.rank_count[3] == rank_total(gs, e.id, 3)
    &&& e.games == e.rank_count[0] + e.rank_count[1] + e.rank_count[2] + e.rank_count[3]
    &&& member_name_of(ms, e.id) == Some(e.name@)
}

/// `v` is the leaderboard of the ranked games of `gs`: one entry per member
/// who took part, ordered by points descending, then by identifier ascending.
pub open spec fn is_leaderboard(v: Seq<RankingEntry>, gs: Seq<Game>, ms: Seq<Member>) -> bool {
    &&& forall|a: int, b: int| 0 <= a < b < v.len() ==> ranks_above(v[a], v[b])
    &&& forall|a: int| 0 <= a < v.len() ==> entry_of(#[trigger] v[a], gs, ms)
    &&& forall|id: UserID| took_part(gs, id) ==> exists|a: int| 0 <= a < v.len() && #[trigger] v[a].id == id
}

/// Whether a member who took part in a ranked game of `gs` has no name in `ms`.
pub open spec fn nameless_player(gs: Seq<Game>, ms: Seq<Member>) -> bool {
    exists|id: UserID| took_part(gs, id) && member_name_of(ms, id).is_none()
}


proof fn lemma_seat_sums(g: Game, id: UserID, k: int, n: int)
    requires
        0 <= n <= 4,
    ensures
        -2147533648 * n <= seat_points(g, id, n) <= 2147533648 * n,
        0 <= seat_hits(g, id, k, n) <= 1,
        !seated_before(g, id, n) ==> seat_points(g, id, n) == 0 && seat_hits(g, id, k, n) == 0,
    decreases n,
{
    reveal_with_fuel(seat_hits, 5);
    lemma_ranks_distinct(raw_scores(g));
    if n > 0 {
        lemma_seat_sums(g, id, k, n - 1);
    }
}

proof fn lemma_seated_plays(g: Game, id: UserID)
    ensures
        seated_before(g, id, 4) == plays_in(g, id),
{
    reveal_with_fuel(seated_before, 5);
    if plays_in(g, id) {
        let i = choose|i: int| 0 <= i < 4 && g.scores[i].0 == id;
        assert(seated_before(g, id, 4));
    }
}

proof fn lemma_game_sums(gs: Seq<Game>, id: UserID, k: int)
    ensures
        -8590134592 * gs.len() <= total_points(gs, id) <= 8590134592 * gs.len(),
        0 <= rank_total(gs, id, k) <= gs.len(),
        !took_part(gs, id) ==> total_points(gs, id) == 0 && rank_total(gs, id, k) == 0,
    decreases gs.len(),
{
    if gs.len() > 0 {
        lemma_game_sums(gs.drop_last(), id, k);
        lemma_seat_sums(gs.last(), id, k, 4);
        lemma_seated_plays(gs.last(), id);
    }
}

/// Running sums of one member while the games are folded.
#[derive(Clone, Copy)]
struct Tally {
    id: UserID,
    point: i128,
    rank_count: [usize; 4],
}

/// Tally `t` holds the sums over the ranked games of `gs` and seats `0..n` of `g`.
spec fn tally_matches(t: Tally, gs: Seq<Game>, g: Game, n: int) -> bool {
    &&& t.point == total_points(gs, t.id) + seat_points(g, t.id, n)
    &&& t.rank_count[0] == rank_total(gs, t.id, 0) + seat_hits(g, t.id, 0, n)
    &&& t.rank_count[1] == rank_total(gs, t.id, 1) + seat_hits(g, t.id, 1, n)
    &&& t.rank_count[2] == rank_total(gs, t.id, 2) + seat_hits(g, t.id, 2, n)
    &&& t.rank_count[3] == rank_total(gs, t.id, 3) + seat_hits(g, t.id, 3, n)
    &&& took_part(gs, t.id) || seated_before(g, t.id, n)
}

spec fn tallies_ok(ts: Seq<Tally>, gs: Seq<Game>, g: Game, n: int) -> bool {
    &&& forall|a: int, b: int| 0 <= a < b < ts.len() ==> ts[a].id != ts[b].id
    &&& forall|a: int| 0 <= a < ts.len() ==> tally_matches(#[trigger] ts[a], gs, g, n)
    &&& forall|id: UserID|
        #![trigger took_part(gs, id)]
        #![trigger seated_before(g, id, n)]
        took_part(gs, id) || seated_before(g, id, n) ==> has_tally(ts, id)
}

/// Some tally of `ts` belongs to member `id`.
spec fn has_tally(ts: Seq<Tally>, id: UserID) -> bool {
    exists|a: int| 0 <= a < ts.len() && #[trigger] ts[a].id == id
}

/// Tally `t` holds the sums over the ranked games of `gs`.
spec fn tally_done(t: Tally, gs: Seq<Game>) -> bool {
    &&& t.point == total_points(gs, t.id)
    &&& t.rank_count[0] == rank_total(gs, t.id, 0)
    &&& t.rank_count[1] == rank_total(gs, t.id, 1)
    &&& t.rank_count[2] == rank_total(gs, t.id, 2)
    &&& t.rank_count[3] == rank_total(gs, t.id, 3)
    &&& took_part(gs, t.id)
}

spec fn tallies_done(ts: Seq<Tally>, gs: Seq<Game>) -> bool {
    &&& forall|a: int, b: int| 0 <= a < b < ts.len() ==> ts[a].id != ts[b].id
    &&& forall|a: int| 0 <= a < ts.len() ==> tally_done(#[trigger] ts[a], gs)
    &&& forall|id: UserID| took_part(gs, id) ==> #[trigger] has_tally(ts, id)
}

fn find_tally(ts: &Vec<Tally>, id: UserID) -> (r: Option<usize>)
    ensures
        match r {
            Some(a) => a < ts@.len() && ts@[a as int].id == id,
            None => forall|a: int| 0 <= a < ts@.len() ==> ts@[a].id != id,
        },
{
    let mut a: usize = 0;
    while a < ts.len()
        invariant
            0 <= a <= ts@.len(),
            forall|b: int| 0 <= b < a ==> ts@[b].id != id,
        decreases ts@.len() - a,
    {
        if ts[a].id == id {
            return Some(a);
        }
        a += 1;
    }
    None
}

/// Adds seat `i` of ranked game `g` to the tallies.
#[verifier::rlimit(80)]
#[verifier::spinoff_prover]
fn add_seat(ts: &mut Vec<Tally>, g: &Game, done: Ghost<Seq<Game>>, i: usize, rank: usize, p: i64)
    requires
        i < 4,
        done@.len() < usize::MAX,
        rank == rank_of(raw_scores(*g), i as int),
        p == point_of_seat(raw_scores(*g), i as int),
        tallies_ok(old(ts)@, done@, *g, i as int),
    ensures
        tallies_ok(final(ts)@, done@, *g, i + 1),
{
    let ghost done = done@;
    let id = g.scores[i].0;
    proof {
        lemma_ranks_distinct(raw_scores(*g));
        lemma_game_sums(done, id, rank as int);
        lemma_seat_sums(*g, id, rank as int, i as int);
        lemma_seat_sums(*g, id, rank as int, i + 1);
        lemma_game_sums(done, id, 0);
        lemma_game_sums(done, id, 1);
        lemma_game_sums(done, id, 2);
        lemma_game_sums(done, id, 3);
        lemma_seat_sums(*g, id, 0, i as int);
        lemma_seat_sums(*g, id, 1, i as int);
        lemma_seat_sums(*g, id, 2, i as int);
        lemma_seat_sums(*g, id, 3, i as int);
    }
    let ghost before = ts@;
    match find_tally(&ts, id) {
        Some(a) => {
            let mut e = ts[a];
            proof {
                assert(tally_matches(before[a as int], done, *g, i as int));
                assert(seat_hits(*g, id, rank as int, i + 1) == seat_hits(*g, id, rank as int, i as int) + 1);
                assert(e.rank_count[rank as int] == rank_total(done, id, rank as int) + seat_hits(*g, id, rank as int, i as int));
                assert(seat_hits(*g, id, rank as int, i as int) == 0);
                assert(rank_total(done, id, rank as int) <= done.len());
                assert(e.rank_count[rank as int] < usize::MAX);
            }
            e.point = e.point + p as i128;
            e.rank_count[rank] = e.rank_count[rank] + 1;
            assert(e.id == id);
            ts.set(a, e);
            assert(ts@ == before.update(a as int, e));
            proof {
                assert(seated_before(*g, id, i + 1));
                assert(e.point == total_points(done, id) + seat_points(*g, id, i + 1));
                assert(e.rank_count[0] == rank_total(done, id, 0) + seat_hits(*g, id, 0, i + 1));
                assert(e.rank_count[1] == rank_total(done, id, 1) + seat_hits(*g, id, 1, i + 1));
                assert(e.rank_count[2] == rank_total(done, id, 2) + seat_hits(*g, id, 2, i + 1));
                assert(e.rank_count[3] == rank_total(done, id, 3) + seat_hits(*g, id, 3, i + 1));
                assert(tally_matches(e, done, *g, i + 1));
                assert forall|c: int, d: int| 0 <= c < d < ts@.len() implies ts@[c].id != ts@[d].id by {
                    assert(before[c].id != before[d].id);
                }
                assert forall|b: int| 0 <= b < ts@.len() implies tally_matches(
                    #[trigger] ts@[b],
                    done,
                    *g,
                    i + 1,
                ) by {
                    assert(tally_matches(before[b], done, *g, i as int));
                }
                assert forall|x: UserID|
                    took_part(done, x) || seated_before(*g, x, i + 1) implies has_tally(ts@, x) by {
                    if x != id {
                        assert(took_part(done, x) || seated_before(*g, x, i as int));
                        assert(has_tally(before, x));
                        let b = choose|b: int| 0 <= b < before.len() && #[trigger] before[b].id == x;
                        assert(ts@[b].id == x);
                    } else {
                        assert(ts@[a as int].id == x);
                    }
                }
                assert(forall|x: UserID|
                    #![trigger took_part(done, x)]
                    #![trigger seated_before(*g, x, i + 1)]
                    took_part(done, x) || seated_before(*g, x, i + 1) ==> has_tally(ts@, x));
                assert(tallies_ok(ts@, done, *g, i + 1));
            }
        },
        None => {
            let mut rc: [usize; 4] = [0, 0, 0, 0];
            rc[rank] = 1;
            ts.push(Tally { id, point: p as i128, rank_count: rc });
            proof {
                assert forall|c: int, d: int| 0 <= c < d < ts@.len() implies ts@[c].id != ts@[d].id by {
                    if d < before.len() {
                        assert(before[c].id != before[d].id);
                    }
                }
                assert(!took_part(done, id));
                assert(!seated_before(*g, id, i as int));
                let nt = ts@[before.len() as int];
                assert(seated_before(*g, id, i + 1));
                assert(nt.point == total_points(done, id) + seat_points(*g, id, i + 1));
                assert(nt.rank_count[0] == rank_total(done, id, 0) + seat_hits(*g, id, 0, i + 1));
                assert(nt.rank_count[1] == rank_total(done, id, 1) + seat_hits(*g, id, 1, i + 1));
                assert(nt.rank_count[2] == rank_total(done, id, 2) + seat_hits(*g, id, 2, i + 1));
                assert(nt.rank_count[3] == rank_total(done, id, 3) + seat_hits(*g, id, 3, i + 1));
                assert(tally_matches(nt, done, *g, i + 1));
                assert forall|b: int| 0 <= b < ts@.len() implies tally_matches(
                    #[trigger] ts@[b],
                    done,
                    *g,
                    i + 1,
                ) by {
                    if b < before.len() {
                        assert(tally_matches(before[b], done, *g, i as int));
                    }
                }
                assert forall|x: UserID|
                    took_part(done, x) || seated_before(*g, x, i + 1) implies has_tally(ts@, x) by {
                    if x != id {
                        assert(took_part(done, x) || seated_before(*g, x, i as int));
                        assert(has_tally(before, x));
                        let b = choose|b: int| 0 <= b < before.len() && #[trigger] before[b].id == x;
                        assert(ts@[b].id == x);
                    } else {
                        assert(ts@[before.len() as int].id == x);
                    }
                }
                assert(forall|c: int, d: int| 0 <= c < d < ts@.len() ==> ts@[c].id != ts@[d].id);
                assert(forall|c: int| 0 <= c < ts@.len() ==> tally_matches(#[trigger] ts@[c], done, *g, i + 1));
                assert(forall|x: UserID|
                    #![trigger took_part(done, x)]
                    #![trigger seated_before(*g, x, i + 1)]
                    took_part(done, x) || seated_before(*g, x, i + 1) ==> has_tally(ts@, x));
                assert(tallies_ok(ts@, done, *g, i + 1));
            }
        },
    }
}

/// Folds the ranked games into one tally per member who took part.
fn accumulate(games: &Vec<Game>) -> (ts: Vec<Tally>)
    ensures
        tallies_done(ts@, games@),
{
    let mut ts: Vec<Tally> = Vec::new();
    let mut j: usize = 0;
    let n = games.len();
    while j < n
        invariant
            0 <= j <= games@.len(),
            n == games@.len(),
            tallies_done(ts@, games@.subrange(0, j as int)),
        decreases games@.len() - j,
    {
        let ghost done = games@.subrange(0, j as int);
        let g = &games[j];
        proof {
            assert(games@.subrange(0, j + 1).drop_last() =~= done);
            assert(games@.subrange(0, j + 1).last() == *g);
        }
        if !g.non_rank_game {
            let s = g.get_only_scores();
            let pts = g.calculate_points();
            assert(tallies_ok(ts@, done, *g, 0));
            let mut i: usize = 0;
            while i < 4
                invariant
                    0 <= i <= 4,
                    j < games@.len(),
                    games@.len() <= usize::MAX,
                    done == games@.subrange(0, j as int),
                    s@ == raw_scores(*g),
                    forall|q: int|
                        0 <= q < 4 ==> 0 <= #[trigger] rank_of(raw_scores(*g), q) < 4 && pts@[rank_of(
                            raw_scores(*g),
                            q,
                        )] == (point_of_seat(raw_scores(*g), q) as i64, q as u8),
                    tallies_ok(ts@, done, *g, i as int),
                decreases 4 - i,
            {
                let id = g.scores[i].0;
                let rank = seat_rank(&s, i);
                let p = pts[rank].0;
                assert(rank_of(raw_scores(*g), i as int) == rank);
                add_seat(&mut ts, g, Ghost(done), i, rank, p);
                i += 1;
            }
            proof {
                let next = games@.subrange(0, j + 1);
                assert forall|x: UserID| #[trigger] took_part(next, x) == (took_part(done, x) || seated_before(*g, x, 4)) by {
                    lemma_seated_plays(*g, x);
                }
                assert forall|b: int| 0 <= b < ts@.len() implies tally_done(#[trigger] ts@[b], next) by {
                    assert(tally_matches(ts@[b], done, *g, 4));
                    assert(took_part(next, ts@[b].id));
                }
            }
        } else {
            proof {
                let next = games@.subrange(0, j + 1);
                assert forall|x: UserID| #[trigger] took_part(next, x) == took_part(done, x) by {}
                assert forall|b: int| 0 <= b < ts@.len() implies tally_done(#[trigger] ts@[b], next) by {
                    assert(took_part(next, ts@[b].id));
                }
            }
        }
        j += 1;
    }
    assert(games@.subrange(0, games@.len() as int) =~= games@);
    ts
}

spec fn tally_above(a: Tally, b: Tally) -> bool {
    a.point > b.point || (a.point == b.point && a.id < b.id)
}

spec fn in_order(v: Seq<Tally>) -> bool {
    forall|a: int, b: int| 0 <= a < b < v.len() ==> tally_above(v[a], v[b])
}

fn above(a: &Tally, b: &Tally) -> (r: bool)
    ensures
        r == tally_above(*a, *b),
{
    a.point > b.point || (a.point == b.point && a.id < b.id)
}

/// `x` is one of the first `n` tallies of `ts`.
spec fn among_first(ts: Seq<Tally>, n: int, x: Tally) -> bool {
    exists|b: int| 0 <= b < n && #[trigger] ts[b] == x
}

/// Inserts `e` into the ordered `sorted` at its place.
fn insert_in_order(sorted: &mut Vec<Tally>, e: Tally)
    requires
        in_order(old(sorted)@),
        forall|a: int| 0 <= a < old(sorted)@.len() ==> old(sorted)@[a].id != e.id,
    ensures
        in_order(final(sorted)@),
        exists|pos: int| 0 <= pos <= old(sorted)@.len() && final(sorted)@ == old(sorted)@.insert(pos, e),
{
    let mut pos: usize = 0;
    let mut placed = false;
    while !placed && pos < sorted.len()
        invariant
            0 <= pos <= sorted@.len(),
            sorted@ == old(sorted)@,
            in_order(sorted@),
            forall|a: int| 0 <= a < sorted@.len() ==> sorted@[a].id != e.id,
            forall|a: int| 0 <= a < pos ==> tally_above(sorted@[a], e),
            placed ==> pos < sorted@.len() && tally_above(e, sorted@[pos as int]),
        decreases sorted@.len() - pos + if placed { 0int } else { 1int },
    {
        if above(&e, &sorted[pos]) {
            placed = true;
        } else {
            assert(sorted@[pos as int].id != e.id);
            pos += 1;
        }
    }
    let ghost prev = sorted@;
    sorted.insert(pos, e);
    proof {
        prev.insert_ensures(pos as int, e);
        assert forall|a: int, b: int| 0 <= a < b < sorted@.len() implies tally_above(sorted@[a], sorted@[b]) by {
            if b < pos {
            } else if b == pos {
            } else if a < pos {
                assert(sorted@[b] == prev[b - 1]);
            } else if a == pos {
                assert(sorted@[b] == prev[b - 1]);
                if b - 1 > pos {
                    assert(tally_above(prev[pos as int], prev[b - 1]));
                }
            } else {
                assert(sorted@[a] == prev[a - 1]);
                assert(sorted@[b] == prev[b - 1]);
            }
        }
    }
}

/// The tallies reordered: points descending, then identifier ascending.
fn order_tallies(ts: &Vec<Tally>) -> (sorted: Vec<Tally>)
    requires
        forall|a: int, b: int| 0 <= a < b < ts@.len() ==> ts@[a].id != ts@[b].id,
    ensures
        in_order(sorted@),
        forall|a: int| 0 <= a < sorted@.len() ==> ts@.contains(#[trigger] sorted@[a]),
        forall|b: int| 0 <= b < ts@.len() ==> sorted@.contains(#[trigger] ts@[b]),
{
    let mut sorted: Vec<Tally> = Vec::new();
    let mut i: usize = 0;
    while i < ts.len()
        invariant
            0 <= i <= ts@.len(),
            forall|a: int, b: int| 0 <= a < b < ts@.len() ==> ts@[a].id != ts@[b].id,
            in_order(sorted@),
            forall|a: int| 0 <= a < sorted@.len() ==> among_first(ts@, i as int, #[trigger] sorted@[a]),
            forall|b: int| 0 <= b < i ==> sorted@.contains(#[trigger] ts@[b]),
        decreases ts@.len() - i,
    {
        let e = ts[i];
        let ghost prev = sorted@;
        proof {
            assert forall|a: int| 0 <= a < prev.len() implies prev[a].id != e.id by {
                assert(among_first(ts@, i as int, prev[a]));
                let b = choose|b: int| 0 <= b < i && #[trigger] ts@[b] == prev[a];
            }
        }
        insert_in_order(&mut sorted, e);
        proof {
            let pos = choose|pos: int| 0 <= pos <= prev.len() && sorted@ == prev.insert(pos, e);
            prev.insert_ensures(pos, e);
            assert forall|a: int| 0 <= a < sorted@.len() implies among_first(ts@, i + 1, #[trigger] sorted@[a]) by {
                if a < pos {
                    assert(among_first(ts@, i as int, prev[a]));
                    let b = choose|b: int| 0 <= b < i && #[trigger] ts@[b] == prev[a];
                } else if a == pos {
                    assert(ts@[i as int] == sorted@[a]);
                } else {
                    assert(among_first(ts@, i as int, prev[a - 1]));
                    assert(sorted@[a] == prev[a - 1]);
                    let b = choose|b: int| 0 <= b < i && #[trigger] ts@[b] == prev[a - 1];
                }
            }
            assert forall|b: int| 0 <= b < i + 1 implies sorted@.contains(#[trigger] ts@[b]) by {
                if b < i {
                    assert(prev.contains(ts@[b]));
                    let a = choose|a: int| 0 <= a < prev.len() && prev[a] == ts@[b];
                    if a < pos {
                        assert(sorted@[a] == ts@[b]);
                    } else {
                        assert(sorted@[a + 1] == ts@[b]);
                    }
                } else {
                    assert(sorted@[pos] == ts@[b]);
                }
            }
        }
        i += 1;
    }
    proof {
        assert forall|a: int| 0 <= a < sorted@.len() implies ts@.contains(#[trigger] sorted@[a]) by {
            assert(among_first(ts@, ts@.len() as int, sorted@[a]));
            let b = choose|b: int| 0 <= b < ts@.len() && #[trigger] ts@[b] == sorted@[a];
        }
    }
    sorted
}

/// The leaderboard of the ranked games of `games`, names taken from
/// `members`; `UnknownMemberId` where a member who took part has no name.
pub fn rank_games(games: &Vec<Game>, members: &Members) -> (r: Result<Vec<RankingEntry>, PmError>)
    ensures
        nameless_player(games@, members@) ==> r == Err::<Vec<RankingEntry>, PmError>(PmError::UnknownMemberId),
        !nameless_player(games@, members@) ==> r.is_ok() && is_leaderboard(r.unwrap()@, games@, members@),
{
    let ts = accumulate(games);
    let sorted = order_tallies(&ts);
    let mut out: Vec<RankingEntry> = Vec::new();
    let mut a: usize = 0;
    while a < sorted.len()
        invariant
            0 <= a <= sorted@.len(),
            out@.len() == a,
            in_order(sorted@),
            tallies_done(ts@, games@),
            forall|c: int| 0 <= c < sorted@.len() ==> ts@.contains(#[trigger] sorted@[c]),
            forall|b: int| 0 <= b < ts@.len() ==> sorted@.contains(#[trigger] ts@[b]),
            forall|c: int| 0 <= c < a ==> {
                &&& (#[trigger] out@[c]).id == sorted@[c].id
                &&& out@[c].point == sorted@[c].point
                &&& out@[c].rank_count == sorted@[c].rank_count
                &&& entry_of(out@[c], games@, members@)
            },
        decreases sorted@.len() - a,
    {
        let t = sorted[a];
        proof {
            assert(ts@.contains(sorted@[a as int]));
            let b = choose|b: int| 0 <= b < ts@.len() && ts@[b] == sorted@[a as int];
            assert(tally_done(ts@[b], games@));
        }
        match member_name(members, t.id) {
            None => {
                assert(took_part(games@, t.id) && member_name_of(members@, t.id).is_none());
                return Err(PmError::UnknownMemberId);
            },
            Some(name) => {
                let games_counted = t.rank_count[0] as u128 + t.rank_count[1] as u128
                    + t.rank_count[2] as u128 + t.rank_count[3] as u128;
                out.push(
                    RankingEntry {
                        id: t.id,
                        name,
                        point: t.point,
                        rank_count: t.rank_count,
                        games: games_counted,
                    },
                );
            },
        }
        a += 1;
    }
    proof {
        assert forall|c: int, d: int| 0 <= c < d < out@.len() implies ranks_above(out@[c], out@[d]) by {
            assert(tally_above(sorted@[c], sorted@[d]));
        }
        assert forall|id: UserID| took_part(games@, id) implies exists|c: int|
            0 <= c < out@.len() && #[trigger] out@[c].id == id by {
            assert(has_tally(ts@, id));
            let b = choose|b: int| 0 <= b < ts@.len() && #[trigger] ts@[b].id == id;
            assert(sorted@.contains(ts@[b]));
            let c = choose|c: int| 0 <= c < sorted@.len() && sorted@[c] == ts@[b];
            assert(out@[c].id == id);
        }
        assert forall|id: UserID| took_part(games@, id) implies member_name_of(members@, id).is_some() by {
            let c = choose|c: int| 0 <= c < out@.len() && #[trigger] out@[c].id == id;
            assert(entry_of(out@[c], games@, members@));
        }
    }
    Ok(out)
}

/// The filter with ranked games only.
pub open spec fn ranked_only(f: GameFilter) -> GameFilter {
    GameFilter { ranking: true, ..f }
}

/// The leaderboard of the ranked games that meet filter `f`. An empty
/// selection gives an empty leaderboard.
pub fn get_ranking(games: &Vec<Game>, members: &Members, game_filter: &GameFilter) -> (r: Result<Vec<RankingEntry>, PmError>)
    ensures
        match filter_result(ranked_only(*game_filter), members@, games@) {
            Err(e) => r == Err::<Vec<RankingEntry>, PmError>(e),
            Ok(sel) => {
                &&& nameless_player(sel, members@) ==> r == Err::<Vec<RankingEntry>, PmError>(PmError::UnknownMemberId)
                &&& !nameless_player(sel, members@) ==> r.is_ok() && is_leaderboard(r.unwrap()@, sel, members@)
            },
        },
        filter_result(ranked_only(*game_filter), members@, games@).is_ok()
            && filter_result(ranked_only(*game_filter), members@, games@).unwrap().len() == 0
            ==> r.is_ok() && r.unwrap()@.len() == 0,
{
    let mut f = game_filter.clone_filter();
    f.ranking = true;
    assert(f == ranked_only(*game_filter));
    let sel = games_filtered(games, members, &f)?;
    let r = rank_games(&sel, members);
    proof {
        if sel@.len() == 0 {
            assert(!nameless_player(sel@, members@));
            let v = r.unwrap()@;
            if v.len() > 0 {
                assert(entry_of(v[0], sel@, members@));
            }
        }
    }
    r
}

} // verus!
