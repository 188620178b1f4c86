use minesweeper::{App, GameConfig};

#[test]
fn new_app_starts_fresh() {
    let config = GameConfig::beginner();
    let app = App::new("MineSweeper", &config, true);
    assert_eq!(app.title, "MineSweeper");
    assert!(!app.should_quit);
    assert!(app.enhanced_graphics);
    assert_eq!(app.click, (0, 0));
    assert_eq!(app.last_reveal, 0);
    assert_eq!(app.field.rows(), 9);
    assert_eq!(app.field.columns(), 9);
    assert_eq!(app.field.mine_count(), 10);
}

#[test]
fn quit_key_sets_the_flag() {
    let config = GameConfig::beginner();
    let mut app = App::new("MineSweeper", &config, false);
    app.on_key('z');
    assert!(!app.should_quit);
    app.on_key('q');
    assert!(app.should_quit);
}

#[test]
fn restart_key_keeps_the_configuration() {
    let config = GameConfig { rows: 3, columns: 4, mines: 2 };
    let mut app = App::new("MineSweeper", &config, false);
    app.on_key('r');
    assert_eq!(app.field.rows(), 3);
    assert_eq!(app.field.columns(), 4);
    assert_eq!(app.field.mine_count(), 2);
    let hidden = app
        .field
        .as_text_ascii(false)
        .chars()
        .filter(|c| *c == '?')
        .count();
    assert_eq!(hidden, 12);
}

#[test]
fn clicks_are_remembered() {
    let config = GameConfig::beginner();
    let mut app = App::new("MineSweeper", &config, false);
    app.set_click(3, 4);
    assert_eq!(app.click, (3, 4));
    app.on_press();
    assert_eq!(app.click, (3, 4));
}

#[test]
fn screen_coordinates_map_to_cell_indices() {
    let config = GameConfig::beginner();
    let app = App::new("MineSweeper", &config, false);
    // The board is drawn from screen position (2, 3), two columns per cell.
    assert_eq!(app.to_field_index(2, 3), Some(0));
    assert_eq!(app.to_field_index(3, 3), Some(0));
    assert_eq!(app.to_field_index(4, 3), Some(1));
    assert_eq!(app.to_field_index(2, 4), Some(9));
    assert_eq!(app.to_field_index(19, 3), Some(8));
    // The left border column still maps to the first cell.
    assert_eq!(app.to_field_index(1, 3), Some(0));
    // Outside the drawn board.
    assert_eq!(app.to_field_index(0, 3), None);
    assert_eq!(app.to_field_index(2, 2), None);
    assert_eq!(app.to_field_index(20, 3), None);
    assert_eq!(app.to_field_index(2, 12), None);
}
