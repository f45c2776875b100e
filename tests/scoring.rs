use pmzero::date::CalendarDate;
use pmzero::game::Game;

fn game(scores: [(usize, i32); 4], recorded_at: &str) -> Game {
    Game {
        id: 0,
        non_rank_game: false,
        used_dora_count: Some(4),
        recorded_at: recorded_at.to_string(),
        scores,
        leftover_score: 0,
        remarks: String::new(),
    }
}

#[test]
fn points_follow_rank_with_seat_tie_break() {
    let g = game([(0, 25000), (1, 35000), (2, 15000), (3, 25000)], "2024-01-01 10:00:00");
    let pts = g.calculate_points();
    assert_eq!(pts, [(45000, 1), (5000, 0), (-15000, 3), (-35000, 2)]);
}

#[test]
fn equal_scores_lower_seat_ranks_first() {
    let g = game([(0, 10000), (1, 30000), (2, 30000), (3, 30000)], "2024-01-01 10:00:00");
    let pts = g.calculate_points();
    assert_eq!(pts[0].1, 1);
    assert_eq!(pts[1].1, 2);
    assert_eq!(pts[2].1, 3);
    assert_eq!(pts[3].1, 0);
}

#[test]
fn all_four_equal_scores_rank_by_seat() {
    let g = game([(0, 25000), (1, 25000), (2, 25000), (3, 25000)], "2024-01-01 10:00:00");
    let pts = g.calculate_points();
    assert_eq!(pts, [(35000, 0), (5000, 1), (-15000, 2), (-25000, 3)]);
}

#[test]
fn points_of_a_valid_game_sum_to_zero() {
    let g = game([(0, 48000), (1, 31000), (2, 22000), (3, -1000)], "2024-01-01 10:00:00");
    let pts = g.calculate_points();
    let total: i64 = pts.iter().map(|p| p.0).sum();
    assert_eq!(total, 0);
}

#[test]
fn points_of_any_game_sum_to_raw_sum_less_hundred_points() {
    let g = game([(0, 1000), (1, 2000), (2, 3000), (3, 4000)], "2024-01-01 10:00:00");
    let total: i64 = g.calculate_points().iter().map(|p| p.0).sum();
    assert_eq!(total, 10000 - 100000);
}

#[test]
fn reseating_scores_keeps_points_per_rank() {
    let a = game([(0, 40000), (1, 30000), (2, 20000), (3, 10000)], "2024-01-01 10:00:00");
    let b = game([(0, 20000), (1, 10000), (2, 40000), (3, 30000)], "2024-01-01 10:00:00");
    let pa = a.calculate_points();
    let pb = b.calculate_points();
    for k in 0..4 {
        assert_eq!(pa[k].0, pb[k].0);
    }
    assert_eq!([pa[0].1, pa[1].1, pa[2].1, pa[3].1], [0, 1, 2, 3]);
    assert_eq!([pb[0].1, pb[1].1, pb[2].1, pb[3].1], [2, 3, 0, 1]);
}

#[test]
fn only_scores_in_seat_order() {
    let g = game([(4, 1), (5, 2), (6, 3), (7, 99994)], "2024-01-01 10:00:00");
    assert_eq!(g.get_only_scores(), [1, 2, 3, 99994]);
}

#[test]
fn member_in_game_checks_every_seat() {
    let g = game([(4, 25000), (5, 25000), (6, 25000), (7, 25000)], "2024-01-01 10:00:00");
    assert!(g.member_in_game(4));
    assert!(g.member_in_game(7));
    assert!(!g.member_in_game(8));
}

#[test]
fn in_date_bounds_are_exclusive() {
    let g = game([(0, 25000), (1, 25000), (2, 25000), (3, 25000)], "2024-03-05 12:30:00");
    let d = |y, m, dd| CalendarDate { year: y, month: m, day: dd };
    assert!(g.in_date(&d(2024, 3, 4), &d(2024, 3, 6)));
    assert!(!g.in_date(&d(2024, 3, 5), &d(2024, 3, 6)));
    assert!(!g.in_date(&d(2024, 3, 4), &d(2024, 3, 5)));
    assert!(g.in_date(&d(2023, 12, 31), &d(2025, 1, 1)));
}

#[test]
fn in_date_rejects_unreadable_timestamp() {
    let g = game([(0, 25000), (1, 25000), (2, 25000), (3, 25000)], "yesterday");
    let d = |y, m, dd| CalendarDate { year: y, month: m, day: dd };
    assert!(!g.in_date(&d(1900, 1, 1), &d(2900, 1, 1)));
}
