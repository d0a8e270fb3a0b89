use std::collections::HashSet;

use sudoku_engine::coords::{Column, PositionId, Row};
use sudoku_engine::duplicates::keys_with_duplicate_values;
use sudoku_engine::subgrid::{SubGrid, SubGridMove, SubgridMoveResult};

#[test]
fn keys_with_duplicate_values_empty_input() {
    let empty_test_cells: Vec<Option<u8>> = Vec::new();
    let vec = keys_with_duplicate_values(&empty_test_cells);
    assert_eq!(vec.len(), 0);
}

#[test]
fn keys_with_duplicate_values_no_duplicates_input() {
    let mut no_duplicate_test_cells: Vec<Option<u8>> = vec![None, None, None];
    no_duplicate_test_cells[PositionId {
        row: Row::Upper,
        column: Column::Left,
    }
    .index()] = Some(1);
    no_duplicate_test_cells[PositionId {
        row: Row::Upper,
        column: Column::Center,
    }
    .index()] = Some(2);
    no_duplicate_test_cells[PositionId {
        row: Row::Upper,
        column: Column::Right,
    }
    .index()] = Some(3);
    let vec = keys_with_duplicate_values(&no_duplicate_test_cells);
    assert_eq!(vec.len(), 0);
}

#[test]
fn keys_with_duplicate_values_detects_duplicates() {
    let mut no_duplicate_test_cells: Vec<Option<u8>> = vec![None, None, None];

    let position_match_1 = PositionId {
        row: Row::Upper,
        column: Column::Left,
    };

    let position_match_2 = PositionId {
        row: Row::Upper,
        column: Column::Center,
    };
    no_duplicate_test_cells[position_match_1.index()] = Some(1);
    no_duplicate_test_cells[position_match_2.index()] = Some(1);
    no_duplicate_test_cells[PositionId {
        row: Row::Upper,
        column: Column::Right,
    }
    .index()] = Some(3);
    no_duplicate_test_cells[PositionId {
        row: Row::Upper,
        column: Column::Right,
    }
    .index()] = Some(4);
    let matched_keys = keys_with_duplicate_values(&no_duplicate_test_cells);
    assert_eq!(matched_keys.len(), 2);
    let mut was_match_1_returned = false;
    let mut was_match_2_returned = false;
    for matched_key in matched_keys {
        if matched_key == position_match_1.index() {
            was_match_1_returned = true;
        }
        if matched_key == position_match_2.index() {
            was_match_2_returned = true;
        }
    }
    assert_eq!(true, was_match_1_returned & was_match_2_returned);
}

#[test]
fn new_subgrid_returns_all_empty_cells() {
    let empty_subgrid = SubGrid::new();
    for row in Row::all() {
        for column in Column::all() {
            assert_eq!(None, empty_subgrid.get_value(PositionId { row, column }));
        }
    }
}

#[test]
fn update_cell_value_in_subgrid() {
    let mut mut_subgrid = SubGrid::new();
    let arbitrary_position = PositionId {
        row: Row::Center,
        column: Column::Right,
    };
    let arbitrary_value = 8_u8;
    let _ = mut_subgrid.update_value(arbitrary_position, arbitrary_value);
    assert_eq!(
        arbitrary_value,
        mut_subgrid
            .get_value(arbitrary_position)
            .expect("Value just updated, shouldn't be None")
    );
}

#[test]
fn update_cell_in_subgrid_with_invalid_value_fails() {
    let mut mut_subgrid = SubGrid::new();
    let arbitrary_position = PositionId {
        row: Row::Center,
        column: Column::Right,
    };
    let arbitrary_invalid_value = 10_u8;
    let ret_err = mut_subgrid.update_value(arbitrary_position, arbitrary_invalid_value);
    assert!(matches!(ret_err, Err(_)));
    assert_eq!(None, mut_subgrid.get_value(arbitrary_position));
}

#[test]
fn get_value_from_subgrid() {
    let mut mut_subgrid = SubGrid::new();
    let arbitrary_position = PositionId {
        row: Row::Center,
        column: Column::Left,
    };
    let arbitrary_empty_cell = PositionId {
        row: Row::Bottom,
        column: Column::Center,
    };
    let arbitrary_value = 6_u8;
    let _ = mut_subgrid.update_value(arbitrary_position, arbitrary_value);
    assert_eq!(
        arbitrary_value,
        mut_subgrid
            .get_value(arbitrary_position)
            .expect("Value just updated, shouldn't be None")
    );
    assert_eq!(None, mut_subgrid.get_value(arbitrary_empty_cell));
}

#[test]
fn make_no_duplicate_move_in_subgrid() {
    let mut mut_subgrid = SubGrid::new();
    let arbitrary_position = PositionId {
        row: Row::Center,
        column: Column::Left,
    };
    let arbitrary_value = 6_u8;
    let sub_grid_move = SubGridMove {
        cell: arbitrary_position,
        value: arbitrary_value,
    };

    let move_result = mut_subgrid.make_move(sub_grid_move);
    assert_eq!(Ok(SubgridMoveResult::Accepted), move_result);
    assert_eq!(
        arbitrary_value,
        mut_subgrid
            .get_value(arbitrary_position)
            .expect("Value just updated, shouldn't be None")
    );
}

#[test]
fn make_duplicate_move_in_subgrid() {
    let mut mut_subgrid = SubGrid::new();
    let arbitrary_position = PositionId {
        row: Row::Center,
        column: Column::Left,
    };
    let arbitrary_value = 6_u8;
    let sub_grid_move_1 = SubGridMove {
        cell: arbitrary_position,
        value: arbitrary_value,
    };

    let arbitrary_position_2 = PositionId {
        row: Row::Center,
        column: Column::Right,
    };
    let sub_grid_move_2 = SubGridMove {
        cell: arbitrary_position_2,
        value: arbitrary_value,
    };

    let _ = mut_subgrid.make_move(sub_grid_move_1);
    let invalid_move = mut_subgrid.make_move(sub_grid_move_2);

    // Compare as sets: the report carries no meaningful order
    if let Ok(SubgridMoveResult::Rejected(positions)) = invalid_move {
        let expected_positions: HashSet<_> = vec![arbitrary_position, arbitrary_position_2]
            .into_iter()
            .collect();
        let actual_positions: HashSet<_> = positions.into_iter().collect();
        assert_eq!(expected_positions, actual_positions);
    } else {
        panic!("Expected SubgridMoveResult::Rejected, got {:?}", invalid_move);
    }
}
