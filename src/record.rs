use vstd::prelude::*;
use crate::filter::{filter_result, GameFilter};
use crate::game::Game;
use crate::members::{append_member, get_member_id, member_id_of, next_member_id, Member, Members};
use crate::PmError;

verus! {

/// The raw scores of a valid game add up to this.
pub const SCORE_TOTAL: i64 = 100000;

/// A game as it is reported for recording: the players' names and raw scores
/// in seat order (East, South, West, North) and what is noted with them.
#[derive(Clone, Debug)]
pub struct NewGame {
    pub names: [String; 4],
    pub scores: [i32; 4],
    pub non_rank_game: bool,
    pub used_dora_count: Option<u8>,
    pub leftover_score: i32,
    pub remarks: String,
}

/// Whether some player's name belongs to no member.
pub open spec fn unknown_player(info: NewGame, ms: Seq<Member>) -> bool {
    exists|i: int| 0 <= i < 4 && member_id_of(ms, #[trigger] info.names[i]@).is_none()
}

/// Whether the four raw scores fail to add up to 100000.
pub open spec fn bad_score_sum(info: NewGame) -> bool {
    info.scores[0] + info.scores[1] + info.scores[2] + info.scores[3] != 100000
}

/// Game `g` is what `info` records under identifier `id`, players' names looked up in `ms`.
pub open spec fn records(g: Game, info: NewGame, ms: Seq<Member>, id: usize) -> bool {
    &&& g.id == id
    &&& g.non_rank_game == info.non_rank_game
    &&& g.used_dora_count == info.used_dora_count
    &&& g.leftover_score == info.leftover_score
    &&& g.remarks@ == info.remarks@
    &&& forall|i: int|
        0 <= i < 4 ==> #[trigger] g.scores[i] == (member_id_of(ms, info.names[i]@).unwrap(), info.scores[i])
}

/// Relies on chrono's `Local::now` formatted as `%Y-%m-%d %H:%M:%S`: the time of
/// the call, which nothing here can predict.
#[verifier::external_body]
fn local_timestamp() -> (r: String) {
    chrono::Local::now().format("%Y-%m-%d %H:%M:%S").to_string()
}

/// Records `info` as a game stamped `recorded_at`: an unknown player's name
/// gives `MemberNotFound`, then raw scores that do not add up to 100000 give
/// `ScoreSumMismatch`, and the store is left as it was; else the game is
/// appended under identifier `games.len()`.
pub fn record_game(games: &mut Vec<Game>, members: &Members, info: &NewGame, recorded_at: String) -> (r: Result<(), PmError>)
    ensures
        unknown_player(*info, members@) ==> r == Err::<(), PmError>(PmError::MemberNotFound),
        !unknown_player(*info, members@) && bad_score_sum(*info) ==> r == Err::<(), PmError>(PmError::ScoreSumMismatch),
        r.is_err() ==> final(games)@ == old(games)@,
        r.is_ok() <==> !unknown_player(*info, members@) && !bad_score_sum(*info),
        r.is_ok() ==> final(games)@.len() == old(games)@.len() + 1 && final(games)@.drop_last() == old(games)@
            && records(final(games)@.last(), *info, members@, old(games)@.len() as usize)
            && final(games)@.last().recorded_at@ == recorded_at@,
{
    let east = get_member_id(members, &info.names[0]);
    let south = get_member_id(members, &info.names[1]);
    let west = get_member_id(members, &info.names[2]);
    let north = get_member_id(members, &info.names[3]);
    let ids = match (east, south, west, north) {
        (Ok(e), Ok(s), Ok(w), Ok(n)) => [e, s, w, n],
        _ => {
            proof {
                let i: int = if east.is_err() { 0 } else if south.is_err() { 1 } else if west.is_err() { 2 } else { 3 };
                assert(member_id_of(members@, info.names[i]@).is_none());
            }
            return Err(PmError::MemberNotFound);
        },
    };
    assert(!unknown_player(*info, members@));
    let sum: i64 = info.scores[0] as i64 + info.scores[1] as i64 + info.scores[2] as i64 + info.scores[3] as i64;
    if sum != SCORE_TOTAL {
        return Err(PmError::ScoreSumMismatch);
    }
    let game = Game {
        id: games.len(),
        non_rank_game: info.non_rank_game,
        used_dora_count: info.used_dora_count,
        recorded_at,
        scores: [
            (ids[0], info.scores[0]),
            (ids[1], info.scores[1]),
            (ids[2], info.scores[2]),
            (ids[3], info.scores[3]),
        ],
        leftover_score: info.leftover_score,
        remarks: info.remarks.clone(),
    };
    games.push(game);
    assert(games@.drop_last() =~= old(games)@);
    Ok(())
}

/// Records `info` as a game stamped with the local time now; see `record_game`.
pub fn new_game(games: &mut Vec<Game>, members: &Members, info: &NewGame) -> (r: Result<(), PmError>)
    ensures
        unknown_player(*info, members@) ==> r == Err::<(), PmError>(PmError::MemberNotFound),
        !unknown_player(*info, members@) && bad_score_sum(*info) ==> r == Err::<(), PmError>(PmError::ScoreSumMismatch),
        r.is_err() ==> final(games)@ == old(games)@,
        r.is_ok() <==> !unknown_player(*info, members@) && !bad_score_sum(*info),
        r.is_ok() ==> final(games)@.len() == old(games)@.len() + 1 && final(games)@.drop_last() == old(games)@
            && records(final(games)@.last(), *info, members@, old(games)@.len() as usize),
{
    let now = local_timestamp();
    record_game(games, members, info, now)
}

/// Registers a member named `name` and returns the identifier given to it:
/// one more than the largest identifier present, or 0 in an empty directory.
pub fn new_member(members: &mut Members, name: &str) -> (r: crate::game::UserID)
    requires
        next_member_id(old(members)@) <= usize::MAX,
    ensures
        r == next_member_id(old(members)@),
        final(members)@.drop_last() == old(members)@,
        final(members)@.last() == (Member { id: r, name: final(members)@.last().name }),
        final(members)@.last().name@ == name@,
        final(members)@.len() == old(members)@.len() + 1,
{
    append_member(members, name)
}

/// A filter that leaves every game in.
pub open spec fn no_filter(f: GameFilter) -> bool {
    !f.ranking && f.date.is_none() && f.this_member.is_none() && f.opponent.is_none()
}

/// A game appended to the store is listed, last, by a filter that leaves
/// every game in; the games listed before it are the store's earlier games.
pub proof fn lemma_recorded_game_listed(f: GameFilter, ms: Seq<Member>, gs: Seq<Game>, g: Game)
    requires
        no_filter(f),
    ensures
        filter_result(f, ms, gs.push(g)) == Ok::<Seq<Game>, PmError>(gs.push(g)),
{
    lemma_unfiltered(f, ms, gs.push(g));
}

proof fn lemma_unfiltered(f: GameFilter, ms: Seq<Member>, gs: Seq<Game>)
    requires
        no_filter(f),
    ensures
        filter_result(f, ms, gs) == Ok::<Seq<Game>, PmError>(gs),
    decreases gs.len(),
{
    reveal(Seq::filter);
    if gs.len() > 0 {
        lemma_unfiltered(f, ms, gs.drop_last());
        assert(gs.drop_last().push(gs.last()) =~= gs);
    } else {
        assert(gs.filter(|g: Game| crate::filter::meets_filter(f, ms, g)) =~= gs);
    }
}

} // verus!
