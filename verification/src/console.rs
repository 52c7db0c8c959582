//! The calculator behind its keyboard: the machine, the notation that is
//! chosen, and the line of input that is being edited.

use vstd::prelude::*;
use crate::machine::{Machine, Outcome, Stackalc};
use crate::parser::{program_of, CalcMode};
use crate::token::Token;

verus! {

/// Whether keys are commands or go into the line of input.
#[derive(Clone, Copy, Debug, PartialEq, Eq, Structural)]
pub enum InputMode {
    Normal,
    Insert,
}

/// A key that was pressed, as far as the calculator tells keys apart.
#[derive(Clone, Copy, Debug, PartialEq, Eq, Structural)]
pub enum Key {
    Tab,
    Esc,
    Enter,
    Backspace,
    Left,
    Right,
    Down,
    Char(char),
    Other,
}

/// What is left for the caller to do once a key has been handled.
#[derive(Clone, Copy, Debug, PartialEq, Eq, Structural)]
pub enum Request {
    Nothing,
    /// The line of input is to be compiled: the caller scans it in the
    /// chosen notation, reads the literals and hands the tokens to
    /// `load_input`.
    Compile,
    /// An instruction was executed; the caller settles its outcome.
    Executed(Outcome),
}

/// The calculator's state.
#[derive(Debug)]
pub struct App {
    pub stackalc: Stackalc,
    pub calc_mode: CalcMode,
    pub input_mode: InputMode,
    /// The line of input, character by character.
    pub calculator_query: Vec<char>,
    /// The number of characters before the cursor.
    pub calculator_query_char_idx: usize,
    pub exit: bool,
}

/// The mathematical value of an `App`.
pub struct Console {
    pub machine: Machine,
    pub calc_mode: CalcMode,
    pub input_mode: InputMode,
    pub query: Seq<char>,
    pub cursor: usize,
    pub exit: bool,
}

impl View for App {
    type V = Console;

    open spec fn view(&self) -> Console {
        Console {
            machine: self.stackalc@,
            calc_mode: self.calc_mode,
            input_mode: self.input_mode,
            query: self.calculator_query@,
            cursor: self.calculator_query_char_idx,
            exit: self.exit,
        }
    }
}

impl Console {
    /// The calculator as it starts: an empty machine, infix notation,
    /// keys are commands, nothing typed.
    pub open spec fn start() -> Console {
        Console {
            machine: Machine::empty(),
            calc_mode: CalcMode::INFIX,
            input_mode: InputMode::Normal,
            query: Seq::empty(),
            cursor: 0,
            exit: false,
        }
    }

    /// A cursor position held within the line.
    pub open spec fn clamped(self, position: usize) -> usize {
        if position <= self.query.len() {
            position
        } else {
            self.query.len() as usize
        }
    }

    /// The cursor one character to the left, if there is one.
    pub open spec fn left(self) -> Console {
        let target = if self.cursor > 0 {
            (self.cursor - 1) as usize
        } else {
            0
        };
        Console { cursor: self.clamped(target), ..self }
    }

    /// The cursor one character to the right, if there is one.
    pub open spec fn right(self) -> Console {
        let target = if self.cursor < usize::MAX {
            (self.cursor + 1) as usize
        } else {
            self.cursor
        };
        Console { cursor: self.clamped(target), ..self }
    }

    /// A character typed at the cursor, or at the end of the line where
    /// the cursor lies beyond it.
    pub open spec fn typed(self, c: char) -> Console {
        (Console { query: self.query.insert(self.clamped(self.cursor) as int, c), ..self }).right()
    }

    /// The character before the cursor erased.
    pub open spec fn erased(self) -> Console {
        if self.cursor == 0 {
            self
        } else if self.cursor <= self.query.len() {
            (Console { query: self.query.remove(self.cursor - 1), ..self }).left()
        } else {
            self.left()
        }
    }

    /// A step forward of the machine.
    pub open spec fn stepped(self) -> Option<(Console, Request)> {
        match self.machine.forward() {
            Some((machine, outcome)) => Some(
                (Console { machine, ..self }, Request::Executed(outcome)),
            ),
            None => None,
        }
    }

    /// The calculator after a key, and what is left to do. As commands,
    /// Tab starts the editing of the line, `q` quits, `i`, `p` and `r`
    /// choose infix, postfix and raw notation, `c` resets the machine and
    /// Down steps forward. While the line is edited, Esc ends the
    /// editing, Enter asks for the line to be compiled, Backspace erases,
    /// Left and Right move the cursor and a character is typed. `None`
    /// where a step forward does not come to an end.
    pub open spec fn pressed(self, key: Key) -> Option<(Console, Request)> {
        match self.input_mode {
            InputMode::Normal => match key {
                Key::Tab => Some(
                    (Console { input_mode: InputMode::Insert, ..self }, Request::Nothing),
                ),
                Key::Char(c) => Some(
                    (
                        if c == 'q' {
                            Console { exit: true, ..self }
                        } else if c == 'i' {
                            Console { calc_mode: CalcMode::INFIX, ..self }
                        } else if c == 'p' {
                            Console { calc_mode: CalcMode::POSTFIX, ..self }
                        } else if c == 'r' {
                            Console { calc_mode: CalcMode::RAW, ..self }
                        } else if c == 'c' {
                            Console {
                                machine: Machine {
                                    selected: self.machine.selected,
                                    ..Machine::empty()
                                },
                                ..self
                            }
                        } else {
                            self
                        },
                        Request::Nothing,
                    ),
                ),
                Key::Down => self.stepped(),
                _ => Some((self, Request::Nothing)),
            },
            InputMode::Insert => match key {
                Key::Esc => Some(
                    (Console { input_mode: InputMode::Normal, ..self }, Request::Nothing),
                ),
                Key::Enter => Some((self, Request::Compile)),
                Key::Char(c) => Some((self.typed(c), Request::Nothing)),
                Key::Backspace => Some((self.erased(), Request::Nothing)),
                Key::Left => Some((self.left(), Request::Nothing)),
                Key::Right => Some((self.right(), Request::Nothing)),
                _ => Some((self, Request::Nothing)),
            },
        }
    }
}

impl Clone for App {
    fn clone(&self) -> (copy: App)
        ensures
            copy@ == self@,
    {
        let copy = App {
            stackalc: self.stackalc.clone(),
            calc_mode: self.calc_mode,
            input_mode: self.input_mode,
            calculator_query: self.calculator_query.clone(),
            calculator_query_char_idx: self.calculator_query_char_idx,
            exit: self.exit,
        };
        assert(copy.calculator_query@ =~= self.calculator_query@);
        copy
    }
}

impl App {
    pub fn new() -> (app: App)
        ensures
            app@ == Console::start(),
    {
        App {
            stackalc: Stackalc::default(),
            calc_mode: CalcMode::INFIX,
            input_mode: InputMode::Normal,
            calculator_query: Vec::new(),
            calculator_query_char_idx: 0,
            exit: false,
        }
    }

    /// Compiles the scanned line of input in the chosen notation and adds
    /// the result to the program.
    pub fn load_input(&mut self, tokens: &Vec<Token>)
        ensures
            final(self)@ == (Console {
                machine: old(self)@.machine.extended(
                    program_of(old(self).calc_mode, tokens.deep_view()),
                ),
                ..old(self)@
            }),
    {
        let mode = self.calc_mode;
        self.stackalc.load_input(&mode, tokens);
    }

    /// Whether `handle_key_event` can handle `key`: whether the step
    /// forward that the key may ask for comes to an end.
    pub fn accepts(&self, key: Key) -> (b: bool)
        ensures
            b == self@.pressed(key) is Some,
    {
        match (self.input_mode, key) {
            (InputMode::Normal, Key::Down) => self.stackalc.next_settles(),
            _ => true,
        }
    }

    /// Handles a key.
    pub fn handle_key_event(&mut self, key: Key) -> (request: Request)
        requires
            old(self)@.pressed(key) is Some,
        ensures
            old(self)@.pressed(key) == Some((final(self)@, request)),
    {
        match self.input_mode {
            InputMode::Normal => match key {
                Key::Tab => {
                    self.input_mode = InputMode::Insert;
                    Request::Nothing
                },
                Key::Char(c) => {
                    if c == 'q' {
                        self.exit = true;
                    } else if c == 'i' {
                        self.calc_mode = CalcMode::INFIX;
                    } else if c == 'p' {
                        self.calc_mode = CalcMode::POSTFIX;
                    } else if c == 'r' {
                        self.calc_mode = CalcMode::RAW;
                    } else if c == 'c' {
                        self.stackalc.clear();
                    }
                    Request::Nothing
                },
                Key::Down => Request::Executed(self.stackalc.next()),
                _ => Request::Nothing,
            },
            InputMode::Insert => match key {
                Key::Esc => {
                    self.input_mode = InputMode::Normal;
                    Request::Nothing
                },
                Key::Enter => Request::Compile,
                Key::Char(to_insert) => {
                    self.enter_char(to_insert);
                    Request::Nothing
                },
                Key::Backspace => {
                    self.delete_char();
                    Request::Nothing
                },
                Key::Left => {
                    self.move_cursor_left();
                    Request::Nothing
                },
                Key::Right => {
                    self.move_cursor_right();
                    Request::Nothing
                },
                _ => Request::Nothing,
            },
        }
    }

    fn move_cursor_left(&mut self)
        ensures
            final(self)@ == old(self)@.left(),
    {
        let cursor_moved_left = if self.calculator_query_char_idx > 0 {
            self.calculator_query_char_idx - 1
        } else {
            0
        };
        self.calculator_query_char_idx = self.clamp_cursor(cursor_moved_left);
    }

    fn move_cursor_right(&mut self)
        ensures
            final(self)@ == old(self)@.right(),
    {
        let cursor_moved_right = if self.calculator_query_char_idx < usize::MAX {
            self.calculator_query_char_idx + 1
        } else {
            self.calculator_query_char_idx
        };
        self.calculator_query_char_idx = self.clamp_cursor(cursor_moved_right);
    }

    fn enter_char(&mut self, new_char: char)
        ensures
            final(self)@ == old(self)@.typed(new_char),
    {
        let index = self.clamp_cursor(self.calculator_query_char_idx);
        self.calculator_query.insert(index, new_char);
        self.move_cursor_right();
    }

    fn delete_char(&mut self)
        ensures
            final(self)@ == old(self)@.erased(),
    {
        let is_not_cursor_leftmost = self.calculator_query_char_idx != 0;
        if is_not_cursor_leftmost {
            let current_index = self.calculator_query_char_idx;
            if current_index <= self.calculator_query.len() {
                self.calculator_query.remove(current_index - 1);
            }
            self.move_cursor_left();
        }
    }

    fn clamp_cursor(&self, new_cursor_pos: usize) -> (position: usize)
        ensures
            position == self@.clamped(new_cursor_pos),
    {
        if new_cursor_pos <= self.calculator_query.len() {
            new_cursor_pos
        } else {
            self.calculator_query.len()
        }
    }
}

} // verus!
