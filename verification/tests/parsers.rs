use game_of_life::parsers::life_105::{is_life_105_file, parse_life_105_file};
use game_of_life::parsers::plaintext::{is_plaintext_file, parse_plaintext_file};
use game_of_life::parsers::run_length_encoded::Parser;
use game_of_life::parsers::FileType;

#[test]
fn test_is_life_105_file() {
    assert!(is_life_105_file(&"#Life 1.05\n#D Name: Some name"));
    assert!(!is_life_105_file(&"#Life 1.06\n#D Name: No name"));
}

#[test]
fn life_105_test_correct_file() {
    let file = "#Life 1.05
#D Name: B-52 bomber
#D Author: Noam Elkies
#D A period 104 double-barrelled glider gun. It uses a B-heptomino and emits one
#D  glider every 52 generations.
#D www.conwaylife.com/wiki/index.php?title=B-52_bomber
#N
#P -19 -10
.**
.**.................*
...................*.*............*.*
....................*............*
**.......**.......................*..*
**.*.....**.......................*.*.*
...*.......................*.......*..*
...*.......................**.......**
*..*.................**.....*
.**..................*
.....................***
....................................**
....................................**
.**
*..*
*.*.*................*.*....**.....**
.*..*.................**....**.....**.*
.....*............*...*...............*
..*.*............*.*..................*
..................*................*..*
....................................**
";
    assert!(parse_life_105_file(&file).is_ok())
}

#[test]
fn life_105_test_incorrect_file() {
    let file = "#Life 1.05
#D Name: B-52 bomber
#D Author: Noam Elkies
#D A period 104 double-barrelled glider gun. It uses a B-heptomino and emits one
#D  glider every 52 generations.
#D www.conwaylife.com/wiki/index.php?title=B-52_bomber
#N
#P -19 -10
.**
.**.................*
...................*.*............*.*
....................*............*
**.......**.......................*..*
**.*.....**.......................*.*.*
...*.......................*.......*..*
...*.....wrong char......**.......**
*..*.................**.....*
.**..................*
.....................***
....................................**
....................................**
.**
*..*
*.*.*................*.*....**.....**
.*..*.................**....**.....**.*
.....*............*...*...............*
..*.*............*.*..................*
..................*................*..*
....................................**
";
    assert!(parse_life_105_file(&file).is_err());

    let file = "#Life 1.05
#D Name: B-52 bomber
#D Author: Noam Elkies
#D A period 104 double-barrelled glider gun. It uses a B-heptomino and emits one
#D  glider every 52 generations.
#D www.conwaylife.com/wiki/index.php?title=B-52_bomber
#N
#P no x no y
.**
.**.................*
...................*.*............*.*
....................*............*
**.......**.......................*..*
**.*.....**.......................*.*.*
...*.......................*.......*..*
...*.......................**.......**
*..*.................**.....*
.**..................*
.....................***
....................................**
....................................**
.**
*..*
*.*.*................*.*....**.....**
.*..*.................**....**.....**.*
.....*............*...*...............*
..*.*............*.*..................*
..................*................*..*
....................................**
";
    assert!(parse_life_105_file(&file).is_err());
}

#[test]
fn test_is_plaintext_file() {
    assert!(is_plaintext_file(&"!Name: My name"));
    assert!(!is_plaintext_file(&"No name"));
}

#[test]
fn plaintext_test_correct_file() {
    let file = "!Name: My name\n.O\n..O\nOOO";
    assert!(parse_plaintext_file(&file).is_ok())
}

#[test]
fn plaintext_test_incorrect_file() {
    let file = "!Name: My name\n.O\n..Owrong characters\nOOO";
    assert!(parse_plaintext_file(&file).is_err())
}

#[test]
fn test_parse_rle_file_cells() {
    let cells = Parser::parse_rle_file(&"x = 3, y = 3\nbo$2bo$3o!").unwrap();
    assert_eq!(cells, vec![(1, 0), (2, 1), (0, 2), (1, 2), (2, 2)]);
}

#[test]
fn test_file_type_from_filename() {
    assert!(matches!(FileType::from_filename(&"glider.lif"), Some(FileType::Life)));
    assert!(matches!(FileType::from_filename(&"glider.life"), Some(FileType::Life)));
    assert!(matches!(
        FileType::from_filename(&"glider.cells"),
        Some(FileType::PlainText)
    ));
    assert!(matches!(FileType::from_filename(&"glider.rle"), Some(FileType::RLE)));
    assert!(matches!(FileType::from_filename(&"glider.txt"), None));
}

#[test]
fn test_parse_file_contents_dispatch() {
    let life = game_of_life::parsers::Parser::parse_file_contents(
        FileType::Life,
        &"#Life 1.06\n1 2",
    )
    .unwrap();
    let cells = life.cells.into_cell_list();
    assert_eq!(cells.cells, vec![(1, 2)]);

    let missing = game_of_life::parsers::Parser::parse_file_contents(
        FileType::Life,
        &"not a life file",
    );
    assert!(missing.is_err());
}
