use game_of_life::file::{ParseError, RLE};

#[test]
fn test_rle_correct_file() {
    let input = "#N Pulsar
#O John Conway
#C A period 3 oscillator. Despite its size, this is the fourth most common oscillator (and by
#C far the most common of period greater than 2).
#C www.conwaylife.com/wiki/index.php?title=Pulsar
x = 13, y = 13, rule = B3/S23
2b3o3b3o2b2$o4bobo4bo$o4bobo4bo$o4bobo4bo$2b3o3b3o2b2$2b3o3b3o2b$o4bob
o4bo$o4bobo4bo$o4bobo4bo2$2b3o3b3o!";
    assert!(RLE::parse(&input).is_ok())
}

#[test]
fn test_rle_incorrect_file() {
    let input = "#N Pulsar
#O John Conway
#C A period 3 oscillator. Despite its size, this is the fourth most common oscillator (and by
#C far the most common of period greater than 2).
#C www.conwaylife.com/wiki/index.php?title=Pulsar
x = 13, y = 13, rule = B3/S23
2b3o3b3o2b2$o4bobo4bo$o4wrong4bo$o4bobo4bo$2b3o3b3o2b2$2b3o3b3o2b$o4bob
o4bo$o4bobo4bo$o4bobo4bo2$2b3o3b3o!";
    assert!(RLE::parse(&input).is_err())
}

#[test]
fn test_rle_serialise() {
    let input = "#C This is a glider.
x = 3, y = 3, rule = B3/S23
bo$2bo$3o!";
    let pattern = RLE::parse(&input).unwrap();
    let mut output = String::new();
    RLE::serialise(&mut output, pattern).unwrap();

    assert_eq!(&output, input)
}

#[test]
fn test_rle_round_trip() {
    // Parsing and serialising reproduce the text exactly.
    let input = "x = 3, y = 3, rule = B3/S23\nbo$2bo$3o!";
    let pattern = RLE::parse(&input).unwrap();
    let mut output = String::new();
    RLE::serialise(&mut output, pattern).unwrap();
    assert_eq!(output, input);
}

#[test]
fn test_rle_exact_cells() {
    let pattern = RLE::parse(&"x = 3, y = 3, rule = B3/S23\nbo$2bo$3o!").unwrap();
    let cells = pattern.cells.into_cell_list();
    assert_eq!(cells.cells, vec![(1, 0), (2, 1), (0, 2), (1, 2), (2, 2)]);
}

#[test]
fn test_rle_metadata() {
    let input = "#N Glider\n#O Someone\n#C A glider.\nx = 3, y = 3, rule = B3/S23\nbo$2bo$3o!";
    let pattern = RLE::parse(&input).unwrap();
    assert_eq!(pattern.metadata.name, Some(String::from("Glider")));
    assert_eq!(pattern.metadata.author, Some(String::from("Someone")));
    assert_eq!(pattern.metadata.description, Some(String::from("A glider.")));
}

#[test]
fn test_rle_count_accumulates_in_base_ten() {
    // "10o" is one run of ten cells: a zero digit extends the count
    // tenfold and must not reset it.
    let pattern = RLE::parse(&"x = 10, y = 1\n10o!").unwrap();
    let cells = pattern.cells.into_cell_list();
    assert_eq!(cells.cells.len(), 10);
    assert_eq!(cells.cells[0], (0, 0));
    assert_eq!(cells.cells[9], (9, 0));
}

#[test]
fn test_rle_missing_header() {
    match RLE::parse(&"#N OnlyMetadata") {
        Err(e) => assert_eq!(e, ParseError::MissingHeader),
        Ok(_) => panic!("a missing header must be refused"),
    }
}

#[test]
fn test_rle_unterminated() {
    match RLE::parse(&"x = 1, y = 1\no") {
        Err(e) => assert_eq!(e, ParseError::Unterminated),
        Ok(_) => panic!("a body without its terminator must be refused"),
    }
}

#[test]
fn test_rle_unknown_metadata_tag() {
    match RLE::parse(&"#Q what\nx = 1, y = 1\no!") {
        Err(e) => assert_eq!(e, ParseError::UnexpectedCharacter('Q')),
        Ok(_) => panic!("an unknown metadata tag must be refused"),
    }
}

#[test]
fn test_rle_rule_line() {
    let pattern = RLE::parse(&"#r 12/34\nx = 1, y = 1\no!").unwrap();
    assert!(pattern.metadata.rule.survival(1));
    assert!(pattern.metadata.rule.survival(2));
    assert!(!pattern.metadata.rule.survival(3));
    assert!(pattern.metadata.rule.birth(3));
    assert!(pattern.metadata.rule.birth(4));
    assert!(!pattern.metadata.rule.birth(1));
}
