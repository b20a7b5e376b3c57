use game_of_life::file::{Cells, ParseError, Plaintext};

#[test]
fn test_plaintext_is_plaintext_file() {
    assert!(Plaintext::is_type(&"!Name: My name"));
    assert!(!Plaintext::is_type(&"No name"));
}

#[test]
fn test_plaintext_correct_file() {
    let file = "!Name: My name\n.O\n..O\nOOO";
    assert!(Plaintext::parse(&file).is_ok())
}

#[test]
fn test_plaintext_incorrect_file() {
    let file = "!Name: My name\n.O\n..Owrong characters\nOOO";
    assert!(Plaintext::parse(&file).is_err())
}

#[test]
fn test_plaintext_serialise() {
    let input = "!Name: Glider
!Author: Someone
!This is a glider.
!It was discovered early on and is frequently seen.
.O.
..O
OOO";
    let pattern = Plaintext::parse(&input).unwrap();
    let mut output = String::new();
    Plaintext::serialise(&mut output, pattern).unwrap();

    assert_eq!(&output, input)
}

#[test]
fn test_plaintext_exact_cells() {
    let pattern = Plaintext::parse(&"!Name: My name\n.O\n..O\nOOO").unwrap();
    assert_eq!(pattern.metadata.name, Some(String::from("My name")));
    match pattern.cells {
        Cells::List(l) => {
            assert_eq!(l.cells, vec![(1, 0), (2, 1), (0, 2), (1, 2), (2, 2)]);
        },
        Cells::Table(_) => panic!("a parsed pattern holds a list"),
    }
}

#[test]
fn test_plaintext_unexpected_character() {
    match Plaintext::parse(&"!Name: x\n.Oz") {
        Err(e) => assert_eq!(e, ParseError::UnexpectedCharacter('z')),
        Ok(_) => panic!("an unexpected character must be refused"),
    }
}

#[test]
fn test_plaintext_metadata() {
    let input = "!Name: Glider\n!Author: Someone\n!One line.\n!Another line.\n.O.";
    let pattern = Plaintext::parse(&input).unwrap();
    assert_eq!(pattern.metadata.name, Some(String::from("Glider")));
    assert_eq!(pattern.metadata.author, Some(String::from("Someone")));
    assert_eq!(
        pattern.metadata.description,
        Some(String::from("One line.\nAnother line."))
    );
    assert_eq!(pattern.metadata.generation, None);
}
