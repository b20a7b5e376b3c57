use game_of_life::file::{Life105, Life106, ParseError, Pattern, Plaintext};

#[test]
fn test_parse_contents_sniffs_format() {
    // Life 1.05 first, then Life 1.06, then Plaintext, then RLE.
    let p = Pattern::parse_contents(&"#Life 1.05\n*").unwrap();
    assert_eq!(p.cells.into_cell_list().cells, vec![(0, 0)]);

    let p = Pattern::parse_contents(&"#Life 1.06\n7 8").unwrap();
    assert_eq!(p.cells.into_cell_list().cells, vec![(7, 8)]);

    let p = Pattern::parse_contents(&"!Name: x\nO").unwrap();
    assert_eq!(p.cells.into_cell_list().cells, vec![(0, 0)]);

    // Nothing matches: the RLE fallback reads it.
    let p = Pattern::parse_contents(&"x = 1, y = 1\no!").unwrap();
    assert_eq!(p.cells.into_cell_list().cells, vec![(0, 0)]);
}

#[test]
fn test_parse_file_with_type() {
    let p = Pattern::parse_file_with_type::<Life106>(&"#Life 1.06\n-5 0\n6 7").unwrap();
    assert_eq!(p.cells.into_cell_list().cells, vec![(-5, 0), (6, 7)]);
    assert!(Pattern::parse_file_with_type::<Plaintext>(&"!Name: x\nOz").is_err());
}

#[test]
fn test_pattern_serialise_with_type() {
    let p = Pattern::parse_file_with_type::<Life106>(&"#Life 1.06\n1 2").unwrap();
    let mut out = String::new();
    p.serialise::<Life106>(&mut out).unwrap();
    assert_eq!(out, String::from("#Life 1.06\n1 2"));

    let p = Pattern::parse_file_with_type::<Life106>(&"#Life 1.06\n1 2").unwrap();
    let mut out = String::new();
    assert_eq!(p.serialise::<Life105>(&mut out), Err(ParseError::Unsupported));
}

#[test]
fn test_default_pattern() {
    let p = Pattern::default();
    let table = p.cells.into_cell_table();
    assert_eq!(table.width, 0);
    assert_eq!(table.height, 0);
    assert_eq!(p.metadata.name, None);
    assert_eq!(p.metadata.generation, None);
    assert_eq!(p.metadata.rule.display_survival(), String::from("23"));
    assert_eq!(p.metadata.rule.display_birth(), String::from("3"));
}

#[test]
fn test_plaintext_serialise_default_name() {
    let p = Pattern::parse_contents(&"x = 1, y = 1\no!").unwrap();
    let mut out = String::new();
    Plaintext::serialise(&mut out, p).unwrap();
    assert_eq!(out, String::from("!Name: Exported by game-of-life\nO"));
}
