use vstd::prelude::*;
use crate::date::{date_of_text, parse_date, CalendarDate};
use crate::game::{plays_in, recorded_between, Game, UserID};
use crate::members::{get_member_id, member_id_of, Member, Members};
use crate::PmError;

verus! {

/// Which games to select, as a caller states it: each criterion is optional
/// and a game is selected when it meets every one that is given.
#[derive(Clone, Debug)]
pub struct GameFilter {
    /// Ranked games only.
    pub ranking: bool,
    /// Games recorded strictly after the first `YYYY-MM-DD` date and strictly
    /// before the second.
    pub date: Option<(String, String)>,
    /// Games in which the member of this name sat.
    pub this_member: Option<String>,
    /// Games in which the member of this name sat.
    pub opponent: Option<String>,
}

/// The same criteria with the dates read and the names looked up.
#[derive(Clone, Copy, Debug)]
pub struct Criteria {
    pub ranked_only: bool,
    pub range: Option<(CalendarDate, CalendarDate)>,
    pub member: Option<UserID>,
    pub opponent: Option<UserID>,
}

/// Whether game `g` meets every criterion of `c`.
pub open spec fn admits(c: Criteria, g: Game) -> bool {
    &&& c.ranked_only ==> !g.non_rank_game
    &&& match c.range {
        Some((s, e)) => recorded_between(g, s@, e@),
        None => true,
    }
    &&& match c.member {
        Some(id) => plays_in(g, id),
        None => true,
    }
    &&& match c.opponent {
        Some(id) => plays_in(g, id),
        None => true,
    }
}

/// The games of `gs` that meet `c`, in their order.
pub open spec fn select(gs: Seq<Game>, c: Criteria) -> Seq<Game> {
    gs.filter(|g: Game| admits(c, g))
}

/// Whether the filter's dates cannot be read.
pub open spec fn bad_dates(f: GameFilter) -> bool {
    match f.date {
        Some((a, b)) => date_of_text(a@).is_none() || date_of_text(b@).is_none(),
        None => false,
    }
}

/// Whether a name of the filter belongs to no member.
pub open spec fn unknown_names(f: GameFilter, ms: Seq<Member>) -> bool {
    ||| (f.this_member.is_some() && member_id_of(ms, f.this_member.unwrap()@).is_none())
    ||| (f.opponent.is_some() && member_id_of(ms, f.opponent.unwrap()@).is_none())
}

/// Whether game `g` meets filter `f`, names looked up in directory `ms`.
pub open spec fn meets_filter(f: GameFilter, ms: Seq<Member>, g: Game) -> bool {
    &&& f.ranking ==> !g.non_rank_game
    &&& match f.date {
        Some((a, b)) => recorded_between(g, date_of_text(a@).unwrap(), date_of_text(b@).unwrap()),
        None => true,
    }
    &&& match f.this_member {
        Some(n) => plays_in(g, member_id_of(ms, n@).unwrap()),
        None => true,
    }
    &&& match f.opponent {
        Some(n) => plays_in(g, member_id_of(ms, n@).unwrap()),
        None => true,
    }
}

/// What selecting with filter `f` gives: an unreadable date first, then an
/// unknown name, else the games that meet the filter, in their order.
pub open spec fn filter_result(f: GameFilter, ms: Seq<Member>, gs: Seq<Game>) -> Result<Seq<Game>, PmError> {
    if bad_dates(f) {
        Err(PmError::InvalidDate)
    } else if unknown_names(f, ms) {
        Err(PmError::MemberNotFound)
    } else {
        Ok(gs.filter(|g: Game| meets_filter(f, ms, g)))
    }
}

impl GameFilter {
    /// A copy of this filter.
    pub fn clone_filter(&self) -> (r: GameFilter)
        ensures
            r == *self,
    {
        GameFilter {
            ranking: self.ranking,
            date: match &self.date {
                Some((a, b)) => Some((a.clone(), b.clone())),
                None => None,
            },
            this_member: match &self.this_member {
                Some(n) => Some(n.clone()),
                None => None,
            },
            opponent: match &self.opponent {
                Some(n) => Some(n.clone()),
                None => None,
            },
        }
    }
}

impl Game {
    /// A copy of this game.
    pub fn duplicate(&self) -> (r: Game)
        ensures
            r == *self,
    {
        Game {
            id: self.id,
            non_rank_game: self.non_rank_game,
            used_dora_count: self.used_dora_count,
            recorded_at: self.recorded_at.clone(),
            scores: self.scores,
            leftover_score: self.leftover_score,
            remarks: self.remarks.clone(),
        }
    }

    /// Whether this game meets every criterion of `c`.
    pub fn admitted_by(&self, c: &Criteria) -> (r: bool)
        ensures
            r == admits(*c, *self),
    {
        if c.ranked_only && self.non_rank_game {
            return false;
        }
        if let Some((s, e)) = &c.range {
            if !self.in_date(s, e) {
                return false;
            }
        }
        if let Some(id) = c.member {
            if !self.member_in_game(id) {
                return false;
            }
        }
        if let Some(id) = c.opponent {
            if !self.member_in_game(id) {
                return false;
            }
        }
        true
    }
}

/// The games that meet every criterion of `c`, in their order.
pub fn select_games(games: &Vec<Game>, c: &Criteria) -> (r: Vec<Game>)
    ensures
        r@ == select(games@, *c),
{
    let mut out: Vec<Game> = Vec::new();
    let mut i: usize = 0;
    while i < games.len()
        invariant
            0 <= i <= games@.len(),
            out@ == select(games@.subrange(0, i as int), *c),
        decreases games@.len() - i,
    {
        proof {
            reveal(Seq::filter);
            assert(games@.subrange(0, i + 1).drop_last() =~= games@.subrange(0, i as int));
        }
        if games[i].admitted_by(c) {
            out.push(games[i].duplicate());
        }
        i += 1;
    }
    assert(games@.subrange(0, games@.len() as int) =~= games@);
    out
}

/// Reads the dates and looks up the names of filter `f`.
pub fn resolve_filter(f: &GameFilter, members: &Members) -> (r: Result<Criteria, PmError>)
    ensures
        bad_dates(*f) ==> r == Err::<Criteria, PmError>(PmError::InvalidDate),
        !bad_dates(*f) && unknown_names(*f, members@) ==> r == Err::<Criteria, PmError>(PmError::MemberNotFound),
        !bad_dates(*f) && !unknown_names(*f, members@) ==> r.is_ok() && forall|g: Game|
            admits(r.unwrap(), g) == meets_filter(*f, members@, g),
{
    let range = match &f.date {
        Some((a, b)) => {
            let start = match parse_date(a.as_str()) {
                Some(d) => d,
                None => return Err(PmError::InvalidDate),
            };
            let end = match parse_date(b.as_str()) {
                Some(d) => d,
                None => return Err(PmError::InvalidDate),
            };
            Some((start, end))
        },
        None => None,
    };
    let member = match &f.this_member {
        Some(n) => Some(get_member_id(members, n)?),
        None => None,
    };
    let opponent = match &f.opponent {
        Some(n) => Some(get_member_id(members, n)?),
        None => None,
    };
    Ok(Criteria { ranked_only: f.ranking, range, member, opponent })
}

/// The games that meet filter `f`, in their order; an unreadable date gives
/// `InvalidDate`, then an unknown member name gives `MemberNotFound`.
pub fn games_filtered(games: &Vec<Game>, members: &Members, f: &GameFilter) -> (r: Result<Vec<Game>, PmError>)
    ensures
        match filter_result(*f, members@, games@) {
            Ok(s) => r.is_ok() && r.unwrap()@ == s,
            Err(e) => r == Err::<Vec<Game>, PmError>(e),
        },
{
    let c = resolve_filter(f, members)?;
    let out = select_games(games, &c);
    proof {
        assert((|g: Game| admits(c, g)) =~= (|g: Game| meets_filter(*f, members@, g)));
    }
    Ok(out)
}

/// A date range whose start is its end holds no game.
pub proof fn lemma_empty_date_range(f: GameFilter, ms: Seq<Member>, gs: Seq<Game>)
    requires
        f.date.is_some(),
        f.date.unwrap().0@ == f.date.unwrap().1@,
    ensures
        match filter_result(f, ms, gs) {
            Ok(s) => s.len() == 0,
            Err(e) => e == PmError::InvalidDate || e == PmError::MemberNotFound,
        },
{
    if !bad_dates(f) && !unknown_names(f, ms) {
        let pred = |g: Game| meets_filter(f, ms, g);
        if gs.filter(pred).len() > 0 {
            gs.lemma_filter_pred(pred, 0);
        }
    }
}

/// Appends `game` to the store under the identifier `games.len()`.
pub fn append_game(games: &mut Vec<Game>, game: &Game)
    ensures
        final(games)@ == old(games)@.push((Game { id: old(games)@.len() as usize, ..*game })),
{
    let mut g = game.duplicate();
    g.id = games.len();
    games.push(g);
}

} // verus!
