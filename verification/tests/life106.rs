use game_of_life::file::{Cells, Life106, ParseError};

#[test]
fn test_life106_is_life106_file() {
    assert!(Life106::is_type(&"#Life 1.06\n5 0"));
    assert!(!Life106::is_type(&"#Life 1.05\n5 0"));
}

#[test]
fn test_life106_correct_file() {
    let file = "#Life 1.06\n-5 0\n6 7";
    assert!(Life106::parse(&file).is_ok())
}

#[test]
fn test_life106_incorrect_file() {
    let file = "#Life 1.06\n-a b\nc d";
    assert!(Life106::parse(&file).is_err());
    let file = "#Life 1.06\na b\nc d";
    assert!(Life106::parse(&file).is_err());
}

#[test]
fn test_life106_serialise() {
    let input = "#Life 1.06
0 -1
1 0
-1 1
0 1
1 1";
    let pattern = Life106::parse(&input).unwrap();
    let mut output = String::new();
    Life106::serialise(&mut output, pattern).unwrap();

    assert_eq!(&output, input)
}

#[test]
fn test_life106_exact_cells() {
    let pattern = Life106::parse(&"#Life 1.06\n-5 0\n6 7").unwrap();
    match pattern.cells {
        Cells::List(l) => {
            assert_eq!(l.cells, vec![(-5, 0), (6, 7)]);
            assert_eq!(l.origin, (0, 0));
        },
        Cells::Table(_) => panic!("a parsed pattern holds a list"),
    }
}

#[test]
fn test_life106_blank_lines_ignored() {
    let pattern = Life106::parse(&"#Life 1.06\n\n5 0\n\n").unwrap();
    let cells = pattern.cells.into_cell_list();
    assert_eq!(cells.cells, vec![(5, 0)]);
}

#[test]
fn test_life106_missing_coordinate() {
    match Life106::parse(&"#Life 1.06\n5") {
        Err(e) => assert_eq!(e, ParseError::MissingNumber),
        Ok(_) => panic!("a lone coordinate must be refused"),
    }
}

#[test]
fn test_life106_number_too_large() {
    match Life106::parse(&"#Life 1.06\n99999999999999999999999 0") {
        Err(e) => assert_eq!(e, ParseError::BadNumber),
        Ok(_) => panic!("an overflowing coordinate must be refused"),
    }
}
