use game_of_life::file::{CellList, CellTable, Cells};
use game_of_life::CellState;
use std::collections::HashSet;

#[test]
fn test_list_table() {
    let mut list_first: HashSet<(isize, isize)> = HashSet::new();

    let mut list = CellList::default();
    list.origin = (0, 0);
    list.cells = vec![(0, -1), (1, 0), (-1, 1), (0, 1), (1, 1)];

    for cell in list.cells.iter() {
        list_first.insert(cell.clone());
    }

    let table: CellTable = Cells::List(list).into_cell_table();
    let list: CellList = Cells::Table(table).into_cell_list();

    for cell in list.cells {
        assert!(list_first.contains(&cell));
    }
}

#[test]
fn test_list_table_round_trip_translation() {
    // The round trip preserves the set of alive cells up to one uniform
    // translation; with these offsets the translation is zero.
    let mut list = CellList::default();
    list.cells = vec![(0, -1), (1, 0), (-1, 1), (0, 1), (1, 1)];

    let table = Cells::List(list).into_cell_table();
    assert_eq!(table.width, 3);
    assert_eq!(table.height, 3);
    let recovered = Cells::Table(table).into_cell_list();

    let expected: HashSet<(isize, isize)> =
        vec![(0, -1), (1, 0), (-1, 1), (0, 1), (1, 1)].into_iter().collect();
    let got: HashSet<(isize, isize)> = recovered.cells.into_iter().collect();
    assert_eq!(got, expected);
}

#[test]
fn test_list_to_table_cells() {
    let mut list = CellList::default();
    list.cells = vec![(5, 5), (6, 6)];
    let table = Cells::List(list).into_cell_table();
    assert_eq!(table.width, 2);
    assert_eq!(table.height, 2);
    assert_eq!(table.cells[0][0], CellState::Alive);
    assert_eq!(table.cells[0][1], CellState::Dead);
    assert_eq!(table.cells[1][0], CellState::Dead);
    assert_eq!(table.cells[1][1], CellState::Alive);
}

#[test]
fn test_empty_list_gives_zero_area_table() {
    let list = CellList::default();
    let table = Cells::List(list).into_cell_table();
    assert_eq!(table.width, 0);
    assert_eq!(table.height, 0);
    assert_eq!(table.cells.len(), 0);
}
