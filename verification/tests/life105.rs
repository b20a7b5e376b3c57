use game_of_life::file::{Life105, ParseError};

#[test]
fn test_life_105_is_life_105_file() {
    assert!(Life105::is_type(&"#Life 1.05\n#D Name: Some name"));
    assert!(!Life105::is_type(&"#Life 1.06\n#D Name: No name"));
}

#[test]
fn test_life_105_correct_file() {
    let file = "#Life 1.05
#D Name: B-52 bomber
#D Author: Noam Elkies
#D A period 104 double-barrelled glider gun. It uses a B-heptomino and emits one
#D  glider every 52 generations.
#D www.conwaylife.com/wiki/index.php?title=B-52_bomber
#N
#P -19 -10
.**
.**.................*
...................*.*............*.*
....................*............*
**.......**.......................*..*
**.*.....**.......................*.*.*
...*.......................*.......*..*
...*.......................**.......**
*..*.................**.....*
.**..................*
.....................***
....................................**
....................................**
.**
*..*
*.*.*................*.*....**.....**
.*..*.................**....**.....**.*
.....*............*...*...............*
..*.*............*.*..................*
..................*................*..*
....................................**
";
    assert!(Life105::parse(&file).is_ok())
}

#[test]
fn test_life_105_incorrect_file() {
    let file = "#Life 1.05
#D Name: B-52 bomber
#D Author: Noam Elkies
#D A period 104 double-barrelled glider gun. It uses a B-heptomino and emits one
#D  glider every 52 generations.
#D www.conwaylife.com/wiki/index.php?title=B-52_bomber
#N
#P -19 -10
.**
.**.................*
...................*.*............*.*
....................*............*
**.......**.......................*..*
**.*.....**.......................*.*.*
...*.......................*.......*..*
...*.....wrong char......**.......**
*..*.................**.....*
.**..................*
.....................***
....................................**
....................................**
.**
*..*
*.*.*................*.*....**.....**
.*..*.................**....**.....**.*
.....*............*...*...............*
..*.*............*.*..................*
..................*................*..*
....................................**
";
    assert!(Life105::parse(&file).is_err());

    let file = "#Life 1.05
#D Name: B-52 bomber
#D Author: Noam Elkies
#D A period 104 double-barrelled glider gun. It uses a B-heptomino and emits one
#D  glider every 52 generations.
#D www.conwaylife.com/wiki/index.php?title=B-52_bomber
#N
#P no x no y
.**
.**.................*
...................*.*............*.*
....................*............*
**.......**.......................*..*
**.*.....**.......................*.*.*
...*.......................*.......*..*
...*.......................**.......**
*..*.................**.....*
.**..................*
.....................***
....................................**
....................................**
.**
*..*
*.*.*................*.*....**.....**
.*..*.................**....**.....**.*
.....*............*...*...............*
..*.*............*.*..................*
..................*................*..*
....................................**
";
    assert!(Life105::parse(&file).is_err());
}

#[test]
fn test_life_105_metadata() {
    let file = "#Life 1.05\n#D A glider.\n#N\n.*.\n..*\n***";
    let pattern = Life105::parse(&file).unwrap();
    assert_eq!(pattern.metadata.description, Some(String::from("A glider.")));
    assert_eq!(pattern.metadata.name, None);
    assert_eq!(pattern.metadata.author, None);
    let cells = pattern.cells.into_cell_list();
    assert_eq!(cells.cells, vec![(1, 0), (2, 1), (0, 2), (1, 2), (2, 2)]);
}

#[test]
fn test_life_105_rule_line() {
    // `#R` sets the rule from the survival/birth digit string.
    let file = "#Life 1.05\n#R 23/3\n*";
    let pattern = Life105::parse(&file).unwrap();
    assert!(pattern.metadata.rule.survival(2));
    assert!(pattern.metadata.rule.survival(3));
    assert!(!pattern.metadata.rule.survival(4));
    assert!(pattern.metadata.rule.birth(3));
    assert!(!pattern.metadata.rule.birth(2));
}

#[test]
fn test_life_105_block_origin() {
    // The first data row after `#P x y` lands one row below y.
    let file = "#Life 1.05\n#P 10 20\n*";
    let pattern = Life105::parse(&file).unwrap();
    let cells = pattern.cells.into_cell_list();
    assert_eq!(cells.cells, vec![(10, 21)]);
}

#[test]
fn test_life_105_serialise_unsupported() {
    let file = "#Life 1.05\n*";
    let pattern = Life105::parse(&file).unwrap();
    let mut output = String::new();
    assert_eq!(
        Life105::serialise(&mut output, pattern),
        Err(ParseError::Unsupported)
    );
    assert_eq!(output, String::new());
}
