use std::collections::HashSet;

use sudoku_engine::board::{SudokuBoard, SudokuMove, SudokuMoveResult};
use sudoku_engine::coords::{CellCoordinate, Column, PositionId, Row};
use sudoku_engine::session::SudokuApp;
use sudoku_engine::subgrid::{MoveError, SubGrid, SubgridMoveResult};

fn coord(gr: Row, gc: Column, cr: Row, cc: Column) -> CellCoordinate {
    CellCoordinate {
        sub_grid: PositionId { row: gr, column: gc },
        cell: PositionId { row: cr, column: cc },
    }
}

fn mv(c: CellCoordinate, value: u8) -> SudokuMove {
    SudokuMove {
        cell_coordinate: c,
        value,
    }
}

#[test]
fn fresh_board_all_cells_empty() {
    let board = SudokuBoard::new();
    for gr in Row::all() {
        for gc in Column::all() {
            for cr in Row::all() {
                for cc in Column::all() {
                    assert_eq!(None, board.get_value(coord(gr, gc, cr, cc)));
                }
            }
        }
    }
}

#[test]
fn fresh_session_all_cells_empty() {
    let session = SudokuApp::new();
    for gr in Row::all() {
        for gc in Column::all() {
            for cr in Row::all() {
                for cc in Column::all() {
                    assert_eq!(None, session.get_value(coord(gr, gc, cr, cc)));
                }
            }
        }
    }
    assert_eq!(0, session.mistakes());
    assert_eq!(0, session.history().len());
}

#[test]
fn write_read_round_trip_accepted() {
    let mut session = SudokuApp::new();
    let c = coord(Row::Bottom, Column::Center, Row::Upper, Column::Left);
    let result = session.submit(mv(c, 7)).expect("digit in range");
    assert_eq!(SudokuMoveResult::Accepted, result);
    assert_eq!(Some(7), session.get_value(c));
}

#[test]
fn write_read_round_trip_rejected() {
    let mut session = SudokuApp::new();
    let c1 = coord(Row::Upper, Column::Left, Row::Upper, Column::Left);
    let c2 = coord(Row::Upper, Column::Left, Row::Bottom, Column::Right);
    session.submit(mv(c1, 3)).expect("digit in range");
    let result = session.submit(mv(c2, 3)).expect("digit in range");
    assert!(matches!(result, SudokuMoveResult::Rejected(_)));
    // the rejected digit is written all the same
    assert_eq!(Some(3), session.get_value(c2));
}

#[test]
fn block_duplicates_returns_full_groups() {
    let mut grid = SubGrid::new();
    let a = PositionId {
        row: Row::Upper,
        column: Column::Left,
    };
    let b = PositionId {
        row: Row::Upper,
        column: Column::Center,
    };
    let c = PositionId {
        row: Row::Center,
        column: Column::Left,
    };
    let d = PositionId {
        row: Row::Bottom,
        column: Column::Right,
    };
    grid.update_value(a, 1).expect("digit in range");
    grid.update_value(b, 1).expect("digit in range");
    grid.update_value(c, 3).expect("digit in range");
    grid.update_value(d, 3).expect("digit in range");
    let duplicates = grid.get_duplicates().expect("two full groups expected");
    let actual: HashSet<_> = duplicates.into_iter().collect();
    let expected: HashSet<_> = vec![a, b, c, d].into_iter().collect();
    assert_eq!(expected, actual);
}

#[test]
fn block_duplicate_group_of_three() {
    let mut grid = SubGrid::new();
    let a = PositionId {
        row: Row::Upper,
        column: Column::Left,
    };
    let b = PositionId {
        row: Row::Center,
        column: Column::Center,
    };
    let c = PositionId {
        row: Row::Bottom,
        column: Column::Right,
    };
    grid.update_value(a, 9).expect("digit in range");
    grid.update_value(b, 9).expect("digit in range");
    grid.update_value(c, 9).expect("digit in range");
    let duplicates = grid.get_duplicates().expect("one group of three expected");
    let actual: HashSet<_> = duplicates.into_iter().collect();
    let expected: HashSet<_> = vec![a, b, c].into_iter().collect();
    assert_eq!(expected, actual);
}

#[test]
fn row_conflict_scenario() {
    let mut session = SudokuApp::new();
    let c1 = coord(Row::Upper, Column::Left, Row::Center, Column::Right);
    let c2 = coord(Row::Upper, Column::Center, Row::Center, Column::Left);
    let first = session.submit(mv(c1, 5)).expect("digit in range");
    assert_eq!(SudokuMoveResult::Accepted, first);
    let second = session.submit(mv(c2, 5)).expect("digit in range");
    if let SudokuMoveResult::Rejected(conflicts) = second {
        let actual: HashSet<_> = conflicts.into_iter().collect();
        let expected: HashSet<_> = vec![c1, c2].into_iter().collect();
        assert_eq!(expected, actual);
    } else {
        panic!("second submission should be rejected, got {:?}", second);
    }
}

#[test]
fn column_conflict_scenario() {
    let mut session = SudokuApp::new();
    let c1 = coord(Row::Upper, Column::Left, Row::Bottom, Column::Right);
    let c2 = coord(Row::Center, Column::Left, Row::Upper, Column::Right);
    let first = session.submit(mv(c1, 5)).expect("digit in range");
    assert_eq!(SudokuMoveResult::Accepted, first);
    let second = session.submit(mv(c2, 5)).expect("digit in range");
    if let SudokuMoveResult::Rejected(conflicts) = second {
        let actual: HashSet<_> = conflicts.into_iter().collect();
        let expected: HashSet<_> = vec![c1, c2].into_iter().collect();
        assert_eq!(expected, actual);
    } else {
        panic!("second submission should be rejected, got {:?}", second);
    }
}

#[test]
fn block_and_row_conflicts_are_deduplicated() {
    // two cells of the same sub-grid that also share the global row: the
    // conflicting cell appears in both categories but is reported once
    let mut board = SudokuBoard::new();
    let c1 = coord(Row::Upper, Column::Left, Row::Upper, Column::Left);
    let c2 = coord(Row::Upper, Column::Left, Row::Upper, Column::Right);
    board.make_move(&mv(c1, 4)).expect("digit in range");
    let second = board.make_move(&mv(c2, 4)).expect("digit in range");
    if let SudokuMoveResult::Rejected(conflicts) = second {
        assert_eq!(2, conflicts.len());
        let actual: HashSet<_> = conflicts.into_iter().collect();
        let expected: HashSet<_> = vec![c1, c2].into_iter().collect();
        assert_eq!(expected, actual);
    } else {
        panic!("second move should be rejected, got {:?}", second);
    }
}

#[test]
fn session_counting() {
    let mut session = SudokuApp::new();
    let c1 = coord(Row::Upper, Column::Left, Row::Upper, Column::Left);
    let c2 = coord(Row::Upper, Column::Center, Row::Upper, Column::Center);
    let c3 = coord(Row::Upper, Column::Right, Row::Upper, Column::Right);
    let first = session.submit(mv(c1, 5)).expect("digit in range");
    let second = session.submit(mv(c2, 5)).expect("digit in range");
    let third = session.submit(mv(c3, 5)).expect("digit in range");
    assert!(matches!(first, SudokuMoveResult::Accepted));
    assert!(matches!(second, SudokuMoveResult::Rejected(_)));
    assert!(matches!(third, SudokuMoveResult::Rejected(_)));
    assert_eq!(2, session.mistakes());
    let history = session.history();
    assert_eq!(3, history.len());
    assert_eq!(c1, history[0].cell_coordinate);
    assert_eq!(c2, history[1].cell_coordinate);
    assert_eq!(c3, history[2].cell_coordinate);
}

#[test]
fn duplicate_queries_are_idempotent() {
    let mut grid = SubGrid::new();
    let a = PositionId {
        row: Row::Upper,
        column: Column::Left,
    };
    let b = PositionId {
        row: Row::Bottom,
        column: Column::Center,
    };
    grid.update_value(a, 2).expect("digit in range");
    grid.update_value(b, 2).expect("digit in range");
    let first: Option<HashSet<_>> = grid.get_duplicates().map(|v| v.into_iter().collect());
    let second: Option<HashSet<_>> = grid.get_duplicates().map(|v| v.into_iter().collect());
    assert_eq!(first, second);
}

#[test]
fn row_and_column_queries_are_idempotent() {
    let mut board = SudokuBoard::new();
    let c1 = coord(Row::Center, Column::Left, Row::Upper, Column::Center);
    let c2 = coord(Row::Center, Column::Right, Row::Upper, Column::Left);
    board.make_move(&mv(c1, 6)).expect("digit in range");
    board.make_move(&mv(c2, 6)).expect("digit in range");
    let probe = mv(c2, 6);
    let row_first: Option<HashSet<_>> = board
        .get_row_duplicates(&probe)
        .map(|v| v.into_iter().collect());
    let row_second: Option<HashSet<_>> = board
        .get_row_duplicates(&probe)
        .map(|v| v.into_iter().collect());
    assert_eq!(row_first, row_second);
    let col_first: Option<HashSet<_>> = board
        .get_column_duplicates(&probe)
        .map(|v| v.into_iter().collect());
    let col_second: Option<HashSet<_>> = board
        .get_column_duplicates(&probe)
        .map(|v| v.into_iter().collect());
    assert_eq!(col_first, col_second);
}

#[test]
fn invalid_value_is_a_hard_failure() {
    let mut session = SudokuApp::new();
    let c = coord(Row::Center, Column::Center, Row::Center, Column::Center);
    let result = session.submit(mv(c, 10));
    assert_eq!(Err(MoveError::InvalidValue), result);
    // nothing written, recorded, or counted
    assert_eq!(None, session.get_value(c));
    assert_eq!(0, session.history().len());
    assert_eq!(0, session.mistakes());
}

#[test]
fn board_update_and_get_value() {
    let mut board = SudokuBoard::new();
    let c = coord(Row::Bottom, Column::Right, Row::Upper, Column::Center);
    board.update_value(c, 0).expect("digit in range");
    assert_eq!(Some(0), board.get_value(c));
    let rejected = board.update_value(c, 11);
    assert_eq!(Err(MoveError::InvalidValue), rejected);
    assert_eq!(Some(0), board.get_value(c));
}

#[test]
fn band_enumeration_order_is_fixed() {
    assert_eq!(vec![Row::Upper, Row::Center, Row::Bottom], Row::all());
    assert_eq!(
        vec![Column::Left, Column::Center, Column::Right],
        Column::all()
    );
}

#[test]
fn subgrid_move_result_for_unrelated_digits() {
    let mut grid = SubGrid::new();
    let a = PositionId {
        row: Row::Upper,
        column: Column::Left,
    };
    let b = PositionId {
        row: Row::Upper,
        column: Column::Center,
    };
    grid.update_value(a, 1).expect("digit in range");
    let result = grid
        .make_move(sudoku_engine::subgrid::SubGridMove { cell: b, value: 2 })
        .expect("digit in range");
    assert_eq!(SubgridMoveResult::Accepted, result);
}

#[test]
fn lone_digit_is_no_duplicate() {
    let mut board = SudokuBoard::new();
    let c = coord(Row::Upper, Column::Left, Row::Center, Column::Right);
    let first = board.make_move(&mv(c, 5)).expect("digit in range");
    assert_eq!(SudokuMoveResult::Accepted, first);
    // the played cell itself carries the digit, but alone it violates nothing
    let probe = mv(c, 5);
    assert!(board.get_row_duplicates(&probe).is_none());
    assert!(board.get_column_duplicates(&probe).is_none());
}
