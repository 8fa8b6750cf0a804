//! The calculator's on-screen keypad: which text a key or a click enters,
//! and which button shows as pressed. Drawing it is left to the caller.

use vstd::prelude::*;
use vstd::string::*;

verus! {

/// One keypad button: its label, the key that presses it, and whether it
/// shows as pressed.
#[derive(Debug)]
pub struct Button {
    pub text: String,
    pub key: char,
    pub is_pressed: bool,
}

/// What a button is, as plain values.
pub struct ButtonState {
    pub text: Seq<char>,
    pub key: char,
    pub pressed: bool,
}

impl Button {
    pub open spec fn state(&self) -> ButtonState {
        ButtonState { text: self.text@, key: self.key, pressed: self.is_pressed }
    }

    fn new(text: &str, key: char) -> (r: Button)
        ensures
            r.text@ == text@,
            r.key == key,
            !r.is_pressed,
    {
        Button { text: String::from_str(text), key, is_pressed: false }
    }
}

/// A mouse action the keypad reacts to.
#[derive(Clone, Copy, Debug, PartialEq, Eq, Structural)]
pub enum MouseAction {
    LeftDown,
    LeftUp,
    LeftDrag,
    Other,
}

/// A rectangle of terminal cells.
#[derive(Clone, Copy, Debug, PartialEq, Eq, Structural)]
pub struct Area {
    pub x: u16,
    pub y: u16,
    pub width: u16,
    pub height: u16,
}

/// Twenty-four buttons in six rows of four.
pub struct ButtonGrid {
    buttons: Vec<Button>,
    selected: Option<usize>,
    last_clicked_button: Option<usize>,
}

/// The keypad as plain values.
pub struct GridState {
    pub buttons: Seq<ButtonState>,
    pub selected: Option<usize>,
    pub last_clicked: Option<usize>,
}

impl View for ButtonGrid {
    type V = GridState;

    closed spec fn view(&self) -> GridState {
        GridState {
            buttons: self.buttons@.map_values(|b: Button| b.state()),
            selected: self.selected,
            last_clicked: self.last_clicked_button,
        }
    }
}

/// Labels and keys, row by row.
pub open spec fn default_layout() -> Seq<(Seq<char>, char)> {
    seq![
        ("C"@, 'c'), ("CE"@, 'e'), ("("@, '('), (")"@, ')'),
        ("sqrt"@, 's'), ("abs"@, 'a'), ("^"@, '^'), ("%"@, '%'),
        ("7"@, '7'), ("8"@, '8'), ("9"@, '9'), ("/"@, '/'),
        ("4"@, '4'), ("5"@, '5'), ("6"@, '6'), ("*"@, '*'),
        ("1"@, '1'), ("2"@, '2'), ("3"@, '3'), ("-"@, '-'),
        ("0"@, '0'), ("."@, '.'), ("!"@, '!'), ("+"@, '+'),
    ]
}

/// The text a button enters: a command for the two clear buttons, a function
/// name with its `(`, or the label itself.
pub open spec fn entered_text(label: Seq<char>) -> Seq<char> {
    if label == "C"@ {
        "CLEAR_ALL"@
    } else if label == "CE"@ {
        "CLEAR_ENTRY"@
    } else if label == "sqrt"@ {
        "sqrt("@
    } else if label == "abs"@ {
        "abs("@
    } else {
        label
    }
}

/// The first button from `i` on that `key` presses.
pub open spec fn first_with_key(bs: Seq<ButtonState>, key: char, i: int) -> Option<int>
    decreases bs.len() - i,
{
    if i < 0 || i >= bs.len() {
        None
    } else if bs[i].key == key {
        Some(i)
    } else {
        first_with_key(bs, key, i + 1)
    }
}

pub open spec fn with_pressed(bs: Seq<ButtonState>, i: int, pressed: bool) -> Seq<ButtonState> {
    bs.update(i, ButtonState { pressed, ..bs[i] })
}

/// The button under a cell: columns a quarter of the width wide, rows three
/// cells high. None outside the area or when the area is under four cells
/// wide.
pub open spec fn button_under(column: u16, row: u16, area: Area) -> Option<int> {
    let inside = area.x <= column < area.x + area.width && area.y <= row < area.y + area.height;
    let width = (area.width / 4) as int;
    if inside && width > 0 {
        Some(((row - area.y) as int / 3) * 4 + (column - area.x) as int / width)
    } else {
        None
    }
}

/// Releasing the mouse: the last clicked button is no longer pressed.
pub open spec fn released(g: GridState) -> GridState {
    match g.last_clicked {
        Some(l) => GridState {
            buttons: with_pressed(g.buttons, l as int, false),
            last_clicked: None,
            ..g
        },
        None => g,
    }
}

/// The text a mouse action enters: that of the button under the cell when
/// the left button is released over the button it pressed.
pub open spec fn mouse_text(g: GridState, action: MouseAction, column: u16, row: u16, area: Area) -> Option<Seq<char>> {
    match button_under(column, row, area) {
        Some(i) => if 0 <= i < g.buttons.len() && action is LeftUp && g.last_clicked == Some(
            i as usize,
        ) {
            Some(entered_text(g.buttons[i].text))
        } else {
            None
        },
        None => None,
    }
}

/// The keypad after a mouse action at a cell.
pub open spec fn after_mouse(g: GridState, action: MouseAction, column: u16, row: u16, area: Area) -> GridState {
    let inside = area.x <= column < area.x + area.width && area.y <= row < area.y + area.height;
    if inside {
        match button_under(column, row, area) {
            Some(i) => if i < g.buttons.len() {
                match action {
                    MouseAction::LeftDown => GridState {
                        buttons: with_pressed(g.buttons, i, true),
                        last_clicked: Some(i as usize),
                        ..g
                    },
                    MouseAction::LeftUp => released(g),
                    MouseAction::LeftDrag => match g.last_clicked {
                        Some(l) => if l != i {
                            GridState {
                                buttons: with_pressed(with_pressed(g.buttons, l as int, false), i, true),
                                last_clicked: Some(i as usize),
                                ..g
                            }
                        } else {
                            g
                        },
                        None => g,
                    },
                    MouseAction::Other => g,
                }
            } else {
                g
            },
            None => g,
        }
    } else if action is LeftUp {
        released(g)
    } else {
        g
    }
}

impl ButtonGrid {
    /// The last clicked button, if any, is a button of the grid.
    pub open spec fn wf(&self) -> bool {
        self@.last_clicked matches Some(i) ==> i < self@.buttons.len()
    }

    /// The keypad with no button pressed.
    pub fn new() -> (r: ButtonGrid)
        ensures
            r.wf(),
            r@.buttons.len() == default_layout().len(),
            forall|i: int|
                0 <= i < r@.buttons.len() ==> (#[trigger] r@.buttons[i]).text == default_layout()[i].0
                    && r@.buttons[i].key == default_layout()[i].1 && !r@.buttons[i].pressed,
            r@.selected is None,
            r@.last_clicked is None,
    {
        let buttons = vec![
            Button::new("C", 'c'),
            Button::new("CE", 'e'),
            Button::new("(", '('),
            Button::new(")", ')'),
            Button::new("sqrt", 's'),
            Button::new("abs", 'a'),
            Button::new("^", '^'),
            Button::new("%", '%'),
            Button::new("7", '7'),
            Button::new("8", '8'),
            Button::new("9", '9'),
            Button::new("/", '/'),
            Button::new("4", '4'),
            Button::new("5", '5'),
            Button::new("6", '6'),
            Button::new("*", '*'),
            Button::new("1", '1'),
            Button::new("2", '2'),
            Button::new("3", '3'),
            Button::new("-", '-'),
            Button::new("0", '0'),
            Button::new(".", '.'),
            Button::new("!", '!'),
            Button::new("+", '+'),
        ];
        ButtonGrid { buttons, selected: None, last_clicked_button: None }
    }
    /// The buttons, row by row, for drawing.
    pub fn buttons(&self) -> (r: &Vec<Button>)
        ensures
            r@.map_values(|b: Button| b.state()) == self@.buttons,
    {
        &self.buttons
    }

    /// Presses the first button that `key` presses and lets it go at once:
    /// the text that button enters, or `None` when no button has that key.
    pub fn handle_key_event(&mut self, key: char) -> (r: Option<String>)
        requires
            old(self).wf(),
        ensures
            final(self).wf(),
            match first_with_key(old(self)@.buttons, key, 0) {
                Some(i) => r matches Some(t) && t@ == entered_text(old(self)@.buttons[i].text)
                    && final(self)@.buttons == with_pressed(old(self)@.buttons, i, false)
                    && final(self)@.last_clicked is None && final(self)@.selected == old(
                    self,
                )@.selected,
                None => r is None && final(self)@ == old(self)@,
            },
    {
        let n = self.buttons.len();
        let mut idx: usize = 0;
        while idx < n
            invariant
                n == self.buttons@.len(),
                idx <= n,
                *self == *old(self),
                first_with_key(self@.buttons, key, idx as int) == first_with_key(
                    self@.buttons,
                    key,
                    0,
                ),
            decreases n - idx,
        {
            if self.buttons[idx].key == key {
                let ghost before = self@;
                self.buttons[idx].is_pressed = true;
                self.last_clicked_button = Some(idx);
                let text = entered(&self.buttons[idx].text);
                self.buttons[idx].is_pressed = false;
                self.last_clicked_button = None;
                assert(self@.buttons =~= with_pressed(before.buttons, idx as int, false));
                return Some(text);
            }
            idx = idx + 1;
        }
        None
    }

    fn release(&mut self)
        requires
            old(self).wf(),
        ensures
            final(self).wf(),
            final(self)@ == released(old(self)@),
    {
        if let Some(last) = self.last_clicked_button {
            let ghost before = self@;
            self.buttons[last].is_pressed = false;
            self.last_clicked_button = None;
            assert(self@.buttons =~= with_pressed(before.buttons, last as int, false));
        }
    }

    /// Follows a mouse action at a cell of `area`: a press marks the button
    /// under it, a drag moves the mark to the button under it, and a release
    /// anywhere clears the mark. A release over the marked button clicks it:
    /// the text that button enters is returned.
    pub fn handle_mouse_event(&mut self, action: MouseAction, column: u16, row: u16, area: Area) -> (r: Option<String>)
        requires
            old(self).wf(),
        ensures
            final(self).wf(),
            match mouse_text(old(self)@, action, column, row, area) {
                Some(t) => r matches Some(s) && s@ == t,
                None => r is None,
            },
            final(self)@ == after_mouse(old(self)@, action, column, row, area),
    {
        let x = column as u32;
        let y = row as u32;
        let inside = area.x as u32 <= x && x < area.x as u32 + area.width as u32 && area.y as u32 <= y
            && y < area.y as u32 + area.height as u32;
        if inside {
            let width = (area.width / 4) as u32;
            if width == 0 {
                return None;
            }
            let col = (x - area.x as u32) / width;
            let line = (y - area.y as u32) / 3;
            let index = line as usize * 4 + col as usize;
            if index < self.buttons.len() {
                let ghost before = self@;
                match action {
                    MouseAction::LeftDown => {
                        self.buttons[index].is_pressed = true;
                        self.last_clicked_button = Some(index);
                        assert(self@.buttons =~= with_pressed(before.buttons, index as int, true));
                    },
                    MouseAction::LeftUp => {
                        let over_pressed = match self.last_clicked_button {
                            Some(last) => last == index,
                            None => false,
                        };
                        let text = if over_pressed {
                            Some(entered(&self.buttons[index].text))
                        } else {
                            None
                        };
                        self.release();
                        return text;
                    },
                    MouseAction::LeftDrag => {
                        if let Some(last) = self.last_clicked_button {
                            if last != index {
                                self.buttons[last].is_pressed = false;
                                self.buttons[index].is_pressed = true;
                                self.last_clicked_button = Some(index);
                                assert(self@.buttons =~= with_pressed(
                                    with_pressed(before.buttons, last as int, false),
                                    index as int,
                                    true,
                                ));
                            }
                        }
                    },
                    MouseAction::Other => {},
                }
            }
            None
        } else {
            if let MouseAction::LeftUp = action {
                self.release();
            }
            None
        }
    }
}

/// The text a button with this label enters.
fn entered(label: &String) -> (r: String)
    ensures
        r@ == entered_text(label@),
{
    if *label == String::from_str("C") {
        String::from_str("CLEAR_ALL")
    } else if *label == String::from_str("CE") {
        String::from_str("CLEAR_ENTRY")
    } else if *label == String::from_str("sqrt") {
        String::from_str("sqrt(")
    } else if *label == String::from_str("abs") {
        String::from_str("abs(")
    } else {
        label.clone()
    }
}

} // verus!
