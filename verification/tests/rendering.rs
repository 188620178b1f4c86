use minesweeper::cell::cell_to_string;
use minesweeper::render::decimal_str;
use minesweeper::{Field, FieldCell, FieldCellState, FieldCellType, GameConfig, RevealOutcome};

#[test]
fn numeric_matrix_codes() {
    let mut field = Field::from(vec!["xo", "oo"]).unwrap();
    assert_eq!(field.get_field(false), vec![vec![10, 10], vec![10, 10]]);

    assert_eq!(field.reveal_cell(3), RevealOutcome::Safe);
    field.toggle_flag(1);
    assert_eq!(field.get_field(false), vec![vec![10, 8], vec![10, 1]]);
    assert_eq!(field.get_field(true), vec![vec![9, 8], vec![1, 1]]);
}

#[test]
fn numeric_matrix_keeps_zero_counts() {
    let field = Field::from(vec!["oo", "oo"]).unwrap();
    assert_eq!(field.get_field(true), vec![vec![0, 0], vec![0, 0]]);
}

#[test]
fn cell_to_string_glyphs() {
    assert_eq!(cell_to_string(0), "  ");
    assert_eq!(cell_to_string(1), "① ");
    assert_eq!(cell_to_string(7), "⑦ ");
    assert_eq!(cell_to_string(8), "🚩");
    assert_eq!(cell_to_string(9), "💣");
    assert_eq!(cell_to_string(10), "🔲");
}

#[test]
fn per_cell_rendering() {
    let flagged_mine = FieldCell { state: FieldCellState::Flagged, cell_type: FieldCellType::Mine };
    assert_eq!(flagged_mine.as_revealed_number(), 8);
    assert_eq!(flagged_mine.as_number(false), 8);
    assert_eq!(flagged_mine.as_revealed_ascii_str(), "f");
    assert_eq!(flagged_mine.as_revealed_str(), "🚩");

    let hidden_mine = FieldCell { state: FieldCellState::Hidden, cell_type: FieldCellType::Mine };
    assert_eq!(hidden_mine.as_number(false), 10);
    assert_eq!(hidden_mine.as_number(true), 9);
    assert_eq!(hidden_mine.as_unicode_str(false), "🔲");
    assert_eq!(hidden_mine.as_unicode_str(true), "💣");

    let three = FieldCell { state: FieldCellState::Revealed, cell_type: FieldCellType::Empty(3) };
    assert_eq!(three.as_number(false), 3);
    assert_eq!(three.as_revealed_ascii_str(), "3");
    assert_eq!(three.as_revealed_str(), "③");

    let blank = FieldCell { state: FieldCellState::Revealed, cell_type: FieldCellType::Empty(0) };
    assert_eq!(blank.as_revealed_ascii_str(), "-");
    assert_eq!(blank.as_revealed_str(), " ");
}

#[test]
fn styled_block_layout() {
    let field = Field::from(vec!["xo", "oo"]).unwrap();
    assert_eq!(field.format(true), "\n  💣①\n  ①①\n");
    assert_eq!(field.format(false), "\n  🔲🔲\n  🔲🔲\n");
}

#[test]
fn ascii_and_styled_renderers_agree_on_coverage() {
    let mut field = Field::from(vec!["oxxxo", "oxoxo", "ooooo", "xoooo"]).unwrap();
    field.toggle_flag(5);
    assert_eq!(field.reveal_cell(19), RevealOutcome::Safe);

    for show_all in [false, true] {
        let ascii: Vec<char> = field
            .as_text_ascii(show_all)
            .chars()
            .filter(|c| *c != '\n')
            .collect();
        let styled: Vec<char> = field.as_lines(show_all).join("").chars().collect();
        assert_eq!(ascii.len(), styled.len());
        for (a, s) in ascii.iter().zip(styled.iter()) {
            assert_eq!(*a == '?', *s == '🔲');
        }
    }
}

#[test]
fn decimal_rendering() {
    assert_eq!(decimal_str(0), "0");
    assert_eq!(decimal_str(9), "9");
    assert_eq!(decimal_str(10), "10");
    assert_eq!(decimal_str(120350), "120350");
}

#[test]
fn config_banner_text() {
    assert_eq!(GameConfig::beginner().banner(), "--- 9 x 9 - 10 💣  ---");
    let custom = GameConfig { rows: 4, columns: 25, mines: 107 };
    assert_eq!(custom.banner(), "--- 25 x 4 - 107 💣  ---");
}
