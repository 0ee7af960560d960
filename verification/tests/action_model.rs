use gridworld_vi::actions::generate_actions;
use gridworld_vi::actions::next_state;

#[test]
fn generate_actions_is_the_fixed_ten() {
    let acts = generate_actions();
    let expected: Vec<(isize, isize, isize)> = vec![
        (0, 1, 0),
        (1, 0, 0),
        (0, -1, 0),
        (-1, 0, 0),
        (1, 1, 0),
        (-1, 1, 0),
        (1, -1, 0),
        (-1, -1, 0),
        (0, 0, 1),
        (0, 0, -1),
    ];
    assert_eq!(acts, expected);
}

#[test]
fn next_state_moves_and_keeps_heading() {
    assert_eq!(next_state(5, 5, 12, 36, 7, (1, 0, 0)), (6, 5, 7));
    assert_eq!(next_state(5, 5, 12, 36, 7, (-1, 1, 0)), (4, 6, 7));
}

#[test]
fn next_state_clamps_at_low_edge() {
    assert_eq!(next_state(0, 0, 12, 36, 0, (-1, -1, 0)), (0, 0, 0));
    assert_eq!(next_state(0, 5, 12, 36, 0, (-1, 0, 0)), (0, 5, 0));
}

#[test]
fn next_state_clamps_at_high_edge() {
    assert_eq!(next_state(11, 11, 12, 36, 0, (1, 1, 0)), (11, 11, 0));
    assert_eq!(next_state(5, 5, 12, 36, 0, (8, 8, 0)), (11, 11, 0));
}

#[test]
fn next_state_wraps_heading_non_negative() {
    assert_eq!(next_state(5, 5, 12, 36, 35, (0, 0, 1)), (5, 5, 0));
    assert_eq!(next_state(5, 5, 12, 36, 0, (0, 0, -1)), (5, 5, 35));
    assert_eq!(next_state(5, 5, 12, 1, 0, (0, 0, -1)), (5, 5, 0));
    assert_eq!(next_state(5, 5, 12, 4, 1, (0, 0, -3)), (5, 5, 2));
}

#[test]
fn next_state_stays_in_bounds_for_every_action() {
    let acts = generate_actions();
    for i in 0..12 {
        for j in 0..12 {
            for t in 0..5 {
                for a in &acts {
                    let (ni, nj, nt) = next_state(i, j, 12, 5, t, *a);
                    assert!(ni < 12 && nj < 12 && nt < 5);
                }
            }
        }
    }
}
