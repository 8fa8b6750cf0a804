use calc_core::button_grid::{Area, ButtonGrid, MouseAction};

fn pressed(grid: &ButtonGrid) -> Vec<usize> {
    grid.buttons()
        .iter()
        .enumerate()
        .filter(|(_, b)| b.is_pressed)
        .map(|(i, _)| i)
        .collect()
}

#[test]
fn new_grid_has_the_layout() {
    let grid = ButtonGrid::new();
    let labels: Vec<&str> = grid.buttons().iter().map(|b| b.text.as_str()).collect();
    assert_eq!(
        labels,
        vec![
            "C", "CE", "(", ")", "sqrt", "abs", "^", "%", "7", "8", "9", "/", "4", "5", "6", "*",
            "1", "2", "3", "-", "0", ".", "!", "+"
        ]
    );
    assert_eq!(grid.buttons()[4].key, 's');
    assert!(pressed(&grid).is_empty());
}

#[test]
fn keys_enter_text() {
    let mut grid = ButtonGrid::new();
    assert_eq!(grid.handle_key_event('c'), Some("CLEAR_ALL".to_string()));
    assert_eq!(grid.handle_key_event('e'), Some("CLEAR_ENTRY".to_string()));
    assert_eq!(grid.handle_key_event('s'), Some("sqrt(".to_string()));
    assert_eq!(grid.handle_key_event('a'), Some("abs(".to_string()));
    assert_eq!(grid.handle_key_event('7'), Some("7".to_string()));
    assert_eq!(grid.handle_key_event('+'), Some("+".to_string()));
    assert_eq!(grid.handle_key_event('x'), None);
    assert!(pressed(&grid).is_empty());
}

#[test]
fn mouse_press_drag_release() {
    let mut grid = ButtonGrid::new();
    let area = Area { x: 0, y: 0, width: 40, height: 18 };
    // Row 1, column 2: the "^" button.
    assert_eq!(grid.handle_mouse_event(MouseAction::LeftDown, 25, 4, area), None);
    assert_eq!(pressed(&grid), vec![6]);
    // Drag to row 2, column 0: the "7" button.
    assert_eq!(grid.handle_mouse_event(MouseAction::LeftDrag, 1, 7, area), None);
    assert_eq!(pressed(&grid), vec![8]);
    assert_eq!(
        grid.handle_mouse_event(MouseAction::LeftUp, 1, 7, area),
        Some("7".to_string())
    );
    assert!(pressed(&grid).is_empty());
}

#[test]
fn mouse_click_enters_commands_and_functions() {
    let mut grid = ButtonGrid::new();
    let area = Area { x: 0, y: 0, width: 40, height: 18 };
    grid.handle_mouse_event(MouseAction::LeftDown, 1, 1, area);
    assert_eq!(
        grid.handle_mouse_event(MouseAction::LeftUp, 2, 2, area),
        Some("CLEAR_ALL".to_string())
    );
    grid.handle_mouse_event(MouseAction::LeftDown, 1, 4, area);
    assert_eq!(
        grid.handle_mouse_event(MouseAction::LeftUp, 1, 4, area),
        Some("sqrt(".to_string())
    );
    // Released over another button: nothing is entered.
    grid.handle_mouse_event(MouseAction::LeftDown, 1, 4, area);
    assert_eq!(grid.handle_mouse_event(MouseAction::LeftUp, 35, 4, area), None);
    assert!(pressed(&grid).is_empty());
}

#[test]
fn mouse_release_outside_clears_press() {
    let mut grid = ButtonGrid::new();
    let area = Area { x: 10, y: 10, width: 40, height: 18 };
    grid.handle_mouse_event(MouseAction::LeftDown, 10, 10, area);
    assert_eq!(pressed(&grid), vec![0]);
    assert_eq!(grid.handle_mouse_event(MouseAction::LeftUp, 0, 0, area), None);
    assert!(pressed(&grid).is_empty());
}

#[test]
fn mouse_outside_buttons_or_narrow_area_changes_nothing() {
    let mut grid = ButtonGrid::new();
    let area = Area { x: 0, y: 0, width: 40, height: 30 };
    // Row 8 has no buttons.
    grid.handle_mouse_event(MouseAction::LeftDown, 1, 25, area);
    assert!(pressed(&grid).is_empty());
    let narrow = Area { x: 0, y: 0, width: 3, height: 30 };
    grid.handle_mouse_event(MouseAction::LeftDown, 1, 1, narrow);
    assert!(pressed(&grid).is_empty());
}
