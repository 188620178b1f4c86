use minesweeper::{Field, GameConfig, RevealOutcome};

#[test]
fn creates_a_field() {
    let config = GameConfig::beginner();
    let field = Field::new(&config).unwrap();

    let matrix = field.get_field(false);
    let cell_count: usize = matrix.iter().map(|row| row.len()).sum();
    assert_eq!(cell_count, config.columns * config.rows);
}

#[test]
fn from_parsing() {
    let field = Field::from(vec!["ooooo", "ooxoo", "ooxoo", "ooooo"]).unwrap();

    assert_eq!(field.config.mines, 2);
    assert_eq!(field.config.columns, 5);
    assert_eq!(field.config.rows, 4);
    let mine_positions: Vec<usize> = field
        .as_text_ascii(true)
        .chars()
        .filter(|c| *c != '\n')
        .enumerate()
        .filter(|(_, c)| *c == 'x')
        .map(|(i, _)| i)
        .collect();
    assert_eq!(mine_positions, vec![7, 12]);
}

#[test]
fn correct_numbers_simple() {
    let field = Field::from(vec!["ooooo", "ooxoo", "ooxoo", "ooooo"]).unwrap();

    assert_eq!(
        field.as_text_ascii(true),
        "\
-111-
-2x2-
-2x2-
-111-\
"
    );
}

#[test]
fn field_edge_cases() {
    let field = Field::from(vec!["xoxox", "ooooo", "xooox", "xoxox"]).unwrap();

    assert_eq!(
        field.as_text_ascii(true),
        "\
x2x2x
23132
x313x
x3x3x\
"
    );
}

#[test]
fn print_emojis() {
    let field = Field::from(vec!["oxxxo", "oxoxo", "oxxxo", "xoooo"]).unwrap();

    assert_eq!(
        field.as_lines(true),
        vec!["②💣💣💣②", "③💣⑧💣③", "③💣💣💣②", "💣③③②①"]
    );
}

#[test]
fn reveal_cells() {
    let mut field = Field::from(vec!["oxxxo", "oxoxo", "ooooo", "xoooo"]).unwrap();

    println!("{}", field.as_text_ascii(true));

    assert_eq!(
        field.as_text_ascii(false),
        "\
?????
?????
?????
?????\
"
    );

    assert_eq!(field.reveal_cell(0), RevealOutcome::Safe);

    assert_eq!(
        field.as_text_ascii(false),
        "\
2????
?????
?????
?????\
"
    );

    assert_eq!(
        field.reveal_cell(field.config.columns * field.config.rows - 1),
        RevealOutcome::Safe
    );

    assert_eq!(
        field.as_text_ascii(false),
        "\
2????
?????
?2211
?1---\
"
    );

    assert_eq!(field.reveal_cell(1), RevealOutcome::Mine);

    assert_eq!(
        field.as_text_ascii(false),
        "\
2x???
?????
?2211
?1---\
"
    );
}
