use grid_games::sampling::{all_positions, exchange, sample_positions};

#[test]
fn all_positions_lists_the_field_row_by_row() {
    assert_eq!(
        all_positions(3),
        vec![(0, 0), (0, 1), (0, 2), (1, 0), (1, 1), (1, 2), (2, 0), (2, 1), (2, 2)]
    );
    assert_eq!(all_positions(1), vec![(0, 0)]);
    assert_eq!(all_positions(0), vec![]);
}

#[test]
fn exchange_swaps_two_entries() {
    let mut cells = vec![(0, 0), (0, 1), (1, 0), (1, 1)];
    exchange(&mut cells, 0, 3);
    assert_eq!(cells, vec![(1, 1), (0, 1), (1, 0), (0, 0)]);
    exchange(&mut cells, 2, 2);
    assert_eq!(cells, vec![(1, 1), (0, 1), (1, 0), (0, 0)]);
    exchange(&mut cells, 2, 1);
    assert_eq!(cells, vec![(1, 1), (1, 0), (0, 1), (0, 0)]);
}

#[test]
fn sample_positions_draws_distinct_positions_of_the_field() {
    for &(size, count) in &[(4usize, 0usize), (4, 1), (4, 7), (4, 16), (1, 1), (12, 100)] {
        let drawn = sample_positions(size, count);
        assert_eq!(drawn.len(), count);
        for (k, &(r, c)) in drawn.iter().enumerate() {
            assert!(r < size && c < size);
            assert!(!drawn[..k].contains(&(r, c)));
        }
    }
}

#[test]
fn sample_positions_of_the_whole_field_is_a_rearrangement() {
    let mut drawn = sample_positions(5, 25);
    drawn.sort();
    assert_eq!(drawn, all_positions(5));
}

#[test]
fn sample_positions_reaches_beyond_the_first_cells() {
    let mut beyond = false;
    for _ in 0..16 {
        let drawn = sample_positions(10, 5);
        if drawn != vec![(0, 0), (0, 1), (0, 2), (0, 3), (0, 4)] {
            beyond = true;
        }
    }
    assert!(beyond);
}
