use pmzero::filter::{games_filtered, select_games, Criteria, GameFilter};
use pmzero::game::Game;
use pmzero::members::{append_member, get_member_id, get_members, member_name, Member};
use pmzero::ranking::{get_ranking, rank_games};
use pmzero::record::{new_game, record_game, NewGame};
use pmzero::stats::{stats, summarize};
use pmzero::views::{game_row, get_games};
use pmzero::filter::append_game;
use pmzero::record::new_member;
use pmzero::PmError;

fn member(id: usize, name: &str) -> Member {
    Member { id, name: name.to_string() }
}

fn directory() -> Vec<Member> {
    vec![member(0, "kim"), member(1, "lee"), member(2, "park"), member(3, "choi"), member(4, "jung")]
}

fn game(id: usize, scores: [(usize, i32); 4], recorded_at: &str, non_rank: bool) -> Game {
    Game {
        id,
        non_rank_game: non_rank,
        used_dora_count: Some(4),
        recorded_at: recorded_at.to_string(),
        scores,
        leftover_score: 0,
        remarks: String::new(),
    }
}

fn store() -> Vec<Game> {
    vec![
        game(0, [(0, 40000), (1, 30000), (2, 20000), (3, 10000)], "2024-01-10 20:00:00", false),
        game(1, [(4, 50000), (0, 25000), (1, 25000), (2, 0)], "2024-02-10 20:00:00", false),
        game(2, [(0, 70000), (1, 10000), (2, 10000), (3, 10000)], "2024-03-10 20:00:00", true),
        game(3, [(3, 45000), (2, 35000), (1, 30000), (0, -10000)], "2024-04-10 20:00:00", false),
    ]
}

fn no_filter() -> GameFilter {
    GameFilter { ranking: false, date: None, this_member: None, opponent: None }
}

fn new_game_info(scores: [i32; 4]) -> NewGame {
    NewGame {
        names: ["kim".to_string(), "lee".to_string(), "park".to_string(), "choi".to_string()],
        scores,
        non_rank_game: false,
        used_dora_count: Some(3),
        leftover_score: 1000,
        remarks: "late night".to_string(),
    }
}

#[test]
fn unfiltered_keeps_every_game_in_order() {
    let gs = games_filtered(&store(), &directory(), &no_filter()).unwrap();
    let ids: Vec<usize> = gs.iter().map(|g| g.id).collect();
    assert_eq!(ids, vec![0, 1, 2, 3]);
}

#[test]
fn ranking_filter_drops_unranked_games() {
    let mut f = no_filter();
    f.ranking = true;
    let gs = games_filtered(&store(), &directory(), &f).unwrap();
    let ids: Vec<usize> = gs.iter().map(|g| g.id).collect();
    assert_eq!(ids, vec![0, 1, 3]);
}

#[test]
fn date_filter_is_exclusive_on_both_ends() {
    let mut f = no_filter();
    f.date = Some(("2024-01-10".to_string(), "2024-03-10".to_string()));
    let gs = games_filtered(&store(), &directory(), &f).unwrap();
    let ids: Vec<usize> = gs.iter().map(|g| g.id).collect();
    assert_eq!(ids, vec![1]);
}

#[test]
fn date_filter_with_equal_bounds_is_empty() {
    let mut f = no_filter();
    f.date = Some(("2024-02-10".to_string(), "2024-02-10".to_string()));
    let gs = games_filtered(&store(), &directory(), &f).unwrap();
    assert!(gs.is_empty());
}

#[test]
fn malformed_filter_date_is_invalid_date() {
    let mut f = no_filter();
    f.date = Some(("2024-13-01".to_string(), "2024-12-31".to_string()));
    assert_eq!(games_filtered(&store(), &directory(), &f).err(), Some(PmError::InvalidDate));
    f.date = Some(("2024-01-01".to_string(), "end".to_string()));
    assert_eq!(games_filtered(&store(), &directory(), &f).err(), Some(PmError::InvalidDate));
}

#[test]
fn member_and_opponent_filters_need_both_in_the_game() {
    let mut f = no_filter();
    f.this_member = Some("jung".to_string());
    let gs = games_filtered(&store(), &directory(), &f).unwrap();
    assert_eq!(gs.iter().map(|g| g.id).collect::<Vec<_>>(), vec![1]);
    f.this_member = Some("choi".to_string());
    f.opponent = Some("park".to_string());
    let gs = games_filtered(&store(), &directory(), &f).unwrap();
    assert_eq!(gs.iter().map(|g| g.id).collect::<Vec<_>>(), vec![0, 2, 3]);
}

#[test]
fn unknown_member_in_filter_is_not_found() {
    let mut f = no_filter();
    f.opponent = Some("nobody".to_string());
    assert_eq!(games_filtered(&store(), &directory(), &f).err(), Some(PmError::MemberNotFound));
}

#[test]
fn bad_date_reported_before_unknown_member() {
    let mut f = no_filter();
    f.date = Some(("x".to_string(), "y".to_string()));
    f.this_member = Some("nobody".to_string());
    assert_eq!(games_filtered(&store(), &directory(), &f).err(), Some(PmError::InvalidDate));
}

#[test]
fn select_games_with_criteria() {
    let c = Criteria { ranked_only: true, range: None, member: Some(3), opponent: None };
    let gs = select_games(&store(), &c);
    assert_eq!(gs.iter().map(|g| g.id).collect::<Vec<_>>(), vec![0, 3]);
}

#[test]
fn ranking_of_empty_selection_is_empty() {
    let r = get_ranking(&Vec::new(), &directory(), &no_filter()).unwrap();
    assert!(r.is_empty());
    let mut f = no_filter();
    f.date = Some(("2030-01-01".to_string(), "2031-01-01".to_string()));
    assert!(get_ranking(&store(), &directory(), &f).unwrap().is_empty());
}

#[test]
fn ranking_totals_and_order() {
    let r = get_ranking(&store(), &directory(), &no_filter()).unwrap();
    // game 0: kim 50, lee 10, park -20, choi -40
    // game 1: jung 60, kim 5 (seat 1), lee -15 (seat 2), park -50
    // game 3: choi 55, park 15, lee -10, kim -60
    let summary: Vec<(String, i128, [usize; 4], u128)> =
        r.iter().map(|e| (e.name.clone(), e.point, e.rank_count, e.games)).collect();
    assert_eq!(
        summary,
        vec![
            ("jung".to_string(), 60000, [1, 0, 0, 0], 1),
            ("choi".to_string(), 15000, [1, 0, 0, 1], 2),
            ("kim".to_string(), -5000, [1, 1, 0, 1], 3),
            ("lee".to_string(), -15000, [0, 1, 2, 0], 3),
            ("park".to_string(), -55000, [0, 1, 1, 1], 3),
        ]
    );
    for w in r.windows(2) {
        assert!(w[0].point >= w[1].point);
    }
}

#[test]
fn ranking_ties_go_to_lower_identifier() {
    let gs = vec![
        game(0, [(0, 40000), (1, 30000), (2, 20000), (3, 10000)], "2024-01-10 20:00:00", false),
        game(1, [(1, 40000), (0, 30000), (3, 20000), (2, 10000)], "2024-01-11 20:00:00", false),
    ];
    let r = rank_games(&gs, &directory()).unwrap();
    assert_eq!(r.iter().map(|e| e.id).collect::<Vec<_>>(), vec![0, 1, 2, 3]);
    assert_eq!(r[0].point, r[1].point);
    assert_eq!(r[0].point, 60000);
}

#[test]
fn ranking_skips_unranked_games_itself() {
    let gs = vec![game(0, [(0, 70000), (1, 10000), (2, 10000), (3, 10000)], "2024-01-10 20:00:00", true)];
    assert!(rank_games(&gs, &directory()).unwrap().is_empty());
}

#[test]
fn ranking_with_unregistered_player_fails() {
    let gs = vec![game(0, [(0, 40000), (1, 30000), (2, 20000), (9, 10000)], "2024-01-10 20:00:00", false)];
    assert_eq!(rank_games(&gs, &directory()).err(), Some(PmError::UnknownMemberId));
}

#[test]
fn stats_over_ranked_games() {
    let st = stats(&store(), &directory(), &no_filter()).unwrap();
    assert_eq!(st.game_count, 3);
    assert_eq!(st.bankrupt, 1);
    assert_eq!(st.wins_by_seat, [3, 0, 0, 0]);
    assert_eq!(st.lasts_by_seat, [0, 0, 0, 3]);
    assert_eq!(st.highest_score, Some(50000));
    assert_eq!(st.lowest_score, Some(-10000));
    assert_eq!(st.score_sum_by_seat, [135000, 90000, 75000, 0]);
}

#[test]
fn stats_of_no_games_are_zero() {
    let st = summarize(&Vec::new());
    assert_eq!(st.game_count, 0);
    assert_eq!(st.bankrupt, 0);
    assert_eq!(st.wins_by_seat, [0; 4]);
    assert_eq!(st.lasts_by_seat, [0; 4]);
    assert_eq!(st.highest_score, None);
    assert_eq!(st.lowest_score, None);
    assert_eq!(st.score_sum_by_seat, [0; 4]);
}

#[test]
fn stats_tie_break_matches_point_table() {
    let gs = vec![game(0, [(0, 30000), (1, 30000), (2, 20000), (3, 20000)], "2024-01-10 20:00:00", false)];
    let st = summarize(&gs);
    assert_eq!(st.wins_by_seat, [1, 0, 0, 0]);
    assert_eq!(st.lasts_by_seat, [0, 0, 0, 1]);
}

#[test]
fn record_game_rejects_wrong_sums() {
    let mut gs = store();
    let before = gs.len();
    assert_eq!(
        record_game(&mut gs, &directory(), &new_game_info([25000, 25000, 25000, 24999]), "2024-05-01 10:00:00".to_string()),
        Err(PmError::ScoreSumMismatch)
    );
    assert_eq!(
        record_game(&mut gs, &directory(), &new_game_info([25000, 25000, 25000, 25001]), "2024-05-01 10:00:00".to_string()),
        Err(PmError::ScoreSumMismatch)
    );
    assert_eq!(gs.len(), before);
}

#[test]
fn record_game_appends_and_lists() {
    let mut gs = store();
    record_game(&mut gs, &directory(), &new_game_info([30000, 30000, 20000, 20000]), "2024-05-01 10:00:00".to_string())
        .unwrap();
    assert_eq!(gs.len(), 5);
    let g = &gs[4];
    assert_eq!(g.id, 4);
    assert_eq!(g.scores, [(0, 30000), (1, 30000), (2, 20000), (3, 20000)]);
    assert_eq!(g.recorded_at, "2024-05-01 10:00:00");
    assert_eq!(g.used_dora_count, Some(3));
    assert_eq!(g.leftover_score, 1000);
    assert_eq!(g.remarks, "late night");
    let rows = get_games(&gs, &directory(), &no_filter()).unwrap();
    assert_eq!(rows.len(), 5);
    let last = &rows[4];
    assert_eq!(last.recorded_at, "2024-05-01 10:00:00");
    let names: Vec<&str> = last.placings.iter().map(|p| p.name.as_str()).collect();
    assert_eq!(names, vec!["kim", "lee", "park", "choi"]);
    let points: Vec<i64> = last.placings.iter().map(|p| p.point).collect();
    assert_eq!(points, vec![40000, 10000, -20000, -30000]);
}

#[test]
fn record_game_with_unknown_player_fails() {
    let mut gs = store();
    let mut info = new_game_info([25000, 25000, 25000, 25000]);
    info.names[2] = "nobody".to_string();
    assert_eq!(
        record_game(&mut gs, &directory(), &info, "2024-05-01 10:00:00".to_string()),
        Err(PmError::MemberNotFound)
    );
    assert_eq!(gs.len(), 4);
}

#[test]
fn new_game_stamps_the_current_date() {
    let mut gs = Vec::new();
    new_game(&mut gs, &directory(), &new_game_info([25000, 25000, 25000, 25000])).unwrap();
    assert_eq!(gs.len(), 1);
    let stamp = &gs[0].recorded_at;
    assert_eq!(stamp.len(), 19);
    assert_eq!(&stamp[4..5], "-");
    assert_eq!(&stamp[10..11], " ");
}

#[test]
fn append_game_assigns_position_as_id() {
    let mut gs = store();
    let g = game(77, [(0, 25000), (1, 25000), (2, 25000), (3, 25000)], "2024-06-01 10:00:00", false);
    append_game(&mut gs, &g);
    assert_eq!(gs.len(), 5);
    assert_eq!(gs[4].id, 4);
    assert_eq!(gs[4].recorded_at, "2024-06-01 10:00:00");
}

#[test]
fn game_row_lists_seats_by_rank() {
    let g = game(0, [(0, 25000), (1, 35000), (2, 15000), (3, 25000)], "2024-01-10 20:00:00", false);
    let row = game_row(&g, &directory()).unwrap();
    let placed: Vec<(u8, &str, i32, i64)> =
        row.placings.iter().map(|p| (p.seat, p.name.as_str(), p.score, p.point)).collect();
    assert_eq!(
        placed,
        vec![(1, "lee", 35000, 45000), (0, "kim", 25000, 5000), (3, "choi", 25000, -15000), (2, "park", 15000, -35000)]
    );
    let bad = game(0, [(0, 25000), (1, 35000), (2, 15000), (8, 25000)], "2024-01-10 20:00:00", false);
    assert_eq!(game_row(&bad, &directory()).err(), Some(PmError::UnknownMemberId));
}

#[test]
fn first_member_gets_zero_then_max_plus_one() {
    let mut ms = Vec::new();
    assert_eq!(append_member(&mut ms, "kim"), 0);
    assert_eq!(append_member(&mut ms, "lee"), 1);
    assert_eq!(ms[1].name, "lee");
    let mut gapped = vec![member(5, "a"), member(2, "b")];
    assert_eq!(new_member(&mut gapped, "c"), 6);
    assert_eq!(gapped.len(), 3);
}

#[test]
fn member_lookup_by_name_and_id() {
    let mut ms = directory();
    ms.push(member(9, "kim"));
    assert_eq!(get_member_id(&ms, &"kim".to_string()), Ok(0));
    assert_eq!(get_member_id(&ms, &"choi".to_string()), Ok(3));
    assert_eq!(get_member_id(&ms, &"ghost".to_string()), Err(PmError::MemberNotFound));
    assert_eq!(member_name(&ms, 2), Some("park".to_string()));
    assert_eq!(member_name(&ms, 7), None);
}

#[test]
fn member_names_sorted() {
    assert_eq!(get_members(&directory()), vec!["choi", "jung", "kim", "lee", "park"]);
    assert!(get_members(&Vec::new()).is_empty());
}
