use minesweeper::{Field, FieldError, GameConfig, RevealOutcome};

#[test]
fn beginner_board_has_ten_mines() {
    let field = Field::new(&GameConfig::beginner()).unwrap();
    let mines = field.as_text_ascii(true).chars().filter(|c| *c == 'x').count();
    assert_eq!(mines, 10);
    assert_eq!(field.rows(), 9);
    assert_eq!(field.columns(), 9);
    assert_eq!(field.mine_count(), 10);
}

#[test]
fn saturated_and_empty_mine_counts() {
    let full = Field::new(&GameConfig { rows: 2, columns: 3, mines: 6 }).unwrap();
    assert_eq!(full.as_text_ascii(true), "xxx\nxxx");

    let empty = Field::new(&GameConfig { rows: 2, columns: 3, mines: 0 }).unwrap();
    assert_eq!(empty.as_text_ascii(true), "---\n---");

    let single = Field::new(&GameConfig { rows: 1, columns: 1, mines: 1 }).unwrap();
    assert_eq!(single.as_text_ascii(true), "x");
}

#[test]
fn zero_mine_board_cascades_fully() {
    let mut field = Field::new(&GameConfig { rows: 2, columns: 3, mines: 0 }).unwrap();
    assert_eq!(field.reveal_cell(0), RevealOutcome::Safe);
    assert_eq!(field.as_text_ascii(false), "---\n---");
}

#[test]
fn invalid_configs_are_rejected() {
    assert!(matches!(
        Field::new(&GameConfig { rows: 2, columns: 3, mines: 7 }),
        Err(FieldError::InvalidConfig)
    ));
    assert!(matches!(
        Field::new(&GameConfig { rows: 0, columns: 3, mines: 0 }),
        Err(FieldError::InvalidConfig)
    ));
    assert!(matches!(
        Field::new(&GameConfig { rows: 3, columns: 0, mines: 0 }),
        Err(FieldError::InvalidConfig)
    ));
    assert!(matches!(
        Field::new(&GameConfig { rows: usize::MAX, columns: 2, mines: 1 }),
        Err(FieldError::InvalidConfig)
    ));
}

#[test]
fn invalid_layouts_are_rejected() {
    assert!(matches!(Field::from(vec![]), Err(FieldError::InvalidLayout)));
    assert!(matches!(Field::from(vec![""]), Err(FieldError::InvalidLayout)));
    assert!(matches!(
        Field::from(vec!["ooo", "oo"]),
        Err(FieldError::InvalidLayout)
    ));
    assert!(matches!(
        Field::from(vec!["oo", "ooo"]),
        Err(FieldError::InvalidLayout)
    ));
}

#[test]
fn flag_toggles_back_and_forth() {
    let mut field = Field::from(vec!["xo", "oo"]).unwrap();
    field.toggle_flag(2);
    assert_eq!(field.as_text_ascii(false), "??\nf?");
    field.toggle_flag(2);
    assert_eq!(field.as_text_ascii(false), "??\n??");
}

#[test]
fn flagging_a_revealed_cell_changes_nothing() {
    let mut field = Field::from(vec!["xo", "oo"]).unwrap();
    assert_eq!(field.reveal_cell(3), RevealOutcome::Safe);
    assert_eq!(field.as_text_ascii(false), "??\n?1");
    field.toggle_flag(3);
    assert_eq!(field.as_text_ascii(false), "??\n?1");
}

#[test]
fn revealing_a_flagged_cell_reveals_it() {
    let mut field = Field::from(vec!["xo", "oo"]).unwrap();
    field.toggle_flag(1);
    assert_eq!(field.as_text_ascii(false), "?f\n??");
    assert_eq!(field.reveal_cell(1), RevealOutcome::Safe);
    assert_eq!(field.as_text_ascii(false), "?1\n??");
}

#[test]
fn revealing_twice_reports_already_revealed() {
    let mut field = Field::from(vec!["xo", "oo"]).unwrap();
    assert_eq!(field.reveal_cell(3), RevealOutcome::Safe);
    let before = field.as_text_ascii(false);
    assert_eq!(field.reveal_cell(3), RevealOutcome::AlreadyRevealed);
    assert_eq!(field.as_text_ascii(false), before);
    assert_eq!(field.reveal_cell(3), RevealOutcome::AlreadyRevealed);
    assert_eq!(field.as_text_ascii(false), before);
}

#[test]
fn out_of_range_commands_are_ignored() {
    let mut field = Field::from(vec!["xo", "oo"]).unwrap();
    let before = field.as_text_ascii(false);
    assert_eq!(field.reveal_cell(4), RevealOutcome::AlreadyRevealed);
    field.toggle_flag(100);
    assert_eq!(field.as_text_ascii(false), before);
}

#[test]
fn cascade_leaves_mines_and_flags_apart_hidden() {
    let mut field = Field::from(vec!["oxxxo", "oxoxo", "ooooo", "xoooo"]).unwrap();
    field.toggle_flag(10);
    assert_eq!(field.reveal_cell(19), RevealOutcome::Safe);
    // The cascade reveals the zero region and its rim, never a mine; the
    // flagged cell outside the region keeps its flag.
    assert_eq!(field.as_text_ascii(false), "?????\n?????\nf2211\n?1---");
}

#[test]
fn classic_configurations() {
    let b = GameConfig::beginner();
    assert_eq!((b.rows, b.columns, b.mines), (9, 9, 10));
    let i = GameConfig::intermediate();
    assert_eq!((i.rows, i.columns, i.mines), (16, 16, 40));
    let e = GameConfig::expert();
    assert_eq!((e.rows, e.columns, e.mines), (16, 30, 99));
}
