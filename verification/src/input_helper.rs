use vstd::prelude::*;

verus! {

/// Which part of the program a query about input comes from.
#[derive(Clone, Copy, PartialEq, Eq, Structural)]
pub enum InputActionContext {
    Buffer,
    Generic,
}

/// A keystroke routed to the text buffer.
pub enum InputActionChar {
    Char(char),
    Backspace,
    Clear,
}

/// A keystroke interpreted as a game command.
#[derive(Debug, PartialEq, Eq, Structural)]
pub enum InputAction {
    NumberEntered(u8),
    Function(u8),
    Reset,
    HardReset,
    Clear,
    AutoPlay,
    MoveUp,
    MoveDown,
    MoveLeft,
    MoveRight,
    ClearBuffer,
    PasteBuffer,
    EnterBuffer,
    UpBuffer,
    DownBuffer,
}

/// A key on the keyboard, as the window layer reports it.
#[derive(Clone, Copy, PartialEq, Eq, Structural)]
pub enum Key {
    Key0,
    Key1,
    Key2,
    Key3,
    Key4,
    Key5,
    Key6,
    Key7,
    Key8,
    Key9,
    Backspace,
    Delete,
    Space,
    Tab,
    Enter,
    Escape,
    Up,
    Down,
    Left,
    Right,
    LeftControl,
    LeftShift,
    LeftAlt,
    F1,
    F2,
    F3,
    F4,
    F5,
    F6,
    F7,
    F8,
    F9,
    F10,
    F11,
    F12,
    A,
    B,
    C,
    D,
    E,
    F,
    G,
    H,
    I,
    J,
    K,
    L,
    M,
    N,
    O,
    P,
    Q,
    R,
    S,
    T,
    U,
    V,
    W,
    X,
    Y,
    Z,
    Apostrophe,
    Comma,
    Minus,
    Period,
    Slash,
    Semicolon,
    Equal,
    LeftBracket,
    Backslash,
    RightBracket,
    GraveAccent,
}

/// The key that starts typing into the buffer.
pub const TYPE_BUFFER_KEY: Key = Key::LeftControl;

/// Whether the player is currently typing into the text buffer.
#[derive(Clone, Copy, PartialEq, Eq, Structural)]
pub struct InputState {
    pub enter_buffer: bool,
}

impl Default for InputState {
    fn default() -> (r: Self)
        ensures
            !r.enter_buffer,
    {
        InputState { enter_buffer: false }
    }
}

/// Whether a query in the given context gets to see input at all: the
/// buffer sees input while the player types into it; everything else
/// sees it only while the player does not.
pub open spec fn input_visible(enter_buffer: bool, ctx: InputActionContext) -> bool {
    (!enter_buffer && ctx is Generic) || (enter_buffer && ctx is Buffer)
}

/// The command a key stands for, given whether the buffer is being
/// typed into and which modifier keys are held. Keys with no command
/// map to nothing.
pub open spec fn key_action(
    value: Key,
    enter_buffer: bool,
    shift_down: bool,
    alt_down: bool,
) -> Option<InputAction> {
    match value {
        Key::Key1 => Some(InputAction::NumberEntered(1)),
            Key::Key2 => Some(InputAction::NumberEntered(2)),
            Key::Key3 => Some(InputAction::NumberEntered(3)),
            Key::Key4 => Some(InputAction::NumberEntered(4)),
            Key::Key5 => Some(InputAction::NumberEntered(5)),
            Key::Key6 => Some(InputAction::NumberEntered(6)),
            Key::Key7 => Some(InputAction::NumberEntered(7)),
            Key::Key8 => Some(InputAction::NumberEntered(8)),
            Key::Key9 => Some(InputAction::NumberEntered(9)),
            Key::Backspace | Key::Key0 | Key::Delete => Some(InputAction::Clear),
            Key::Space => Some(InputAction::AutoPlay),
            Key::Tab => if shift_down {
                Some(InputAction::HardReset)
            } else {
                Some(InputAction::Reset)
            },
            Key::F1 => Some(InputAction::Function(1)),
            Key::F2 => Some(InputAction::Function(2)),
            Key::F3 => Some(InputAction::Function(3)),
            Key::F4 => Some(InputAction::Function(4)),
            Key::F5 => Some(InputAction::Function(5)),
            Key::F6 => Some(InputAction::Function(6)),
            Key::F7 => Some(InputAction::Function(7)),
            Key::F8 => Some(InputAction::Function(8)),
            Key::F9 => Some(InputAction::Function(9)),
            Key::F10 => Some(InputAction::Function(10)),
            Key::F11 => Some(InputAction::Function(11)),
            Key::F12 => Some(InputAction::Function(12)),
            Key::W => Some(InputAction::MoveUp),
            Key::A | Key::Left => Some(InputAction::MoveLeft),
            Key::S => Some(InputAction::MoveDown),
            Key::D | Key::Right => Some(InputAction::MoveRight),
            Key::Up => if enter_buffer {
                Some(InputAction::UpBuffer)
            } else {
                Some(InputAction::MoveUp)
            },
            Key::Down => if enter_buffer {
                Some(InputAction::DownBuffer)
            } else {
                Some(InputAction::MoveDown)
            },
            Key::LeftControl => Some(InputAction::ClearBuffer),
            Key::V => if enter_buffer && alt_down {
                Some(InputAction::PasteBuffer)
            } else {
                Option::None
            },
            Key::Enter => Some(InputAction::EnterBuffer),
            _ => Option::None
    }
}

/// The character a key types, with and without shift held. Keys that
/// type nothing map to nothing.
pub open spec fn raw_char_of(key_code: Key, is_shift_pressed: bool) -> Option<char> {
    match key_code {
        Key::Space => Some(' '),
            Key::Apostrophe => Some(
                if is_shift_pressed {
                    '"'
                } else {
                    '\''
                },
            ),
            Key::Comma => Some(
                if is_shift_pressed {
                    '<'
                } else {
                    ','
                },
            ),
            Key::Minus => Some(
                if is_shift_pressed {
                    '_'
                } else {
                    '-'
                },
            ),
            Key::Period => Some(
                if is_shift_pressed {
                    '>'
                } else {
                    '.'
                },
            ),
            Key::Slash => Some(
                if is_shift_pressed {
                    '?'
                } else {
                    '/'
                },
            ),
            Key::Key0 => Some(
                if is_shift_pressed {
                    ')'
                } else {
                    '0'
                },
            ),
            Key::Key1 => Some(
                if is_shift_pressed {
                    '!'
                } else {
                    '1'
                },
            ),
            Key::Key2 => Some(
                if is_shift_pressed {
                    '@'
                } else {
                    '2'
                },
            ),
            Key::Key3 => Some(
                if is_shift_pressed {
                    '#'
                } else {
                    '3'
                },
            ),
            Key::Key4 => Some(
                if is_shift_pressed {
                    '$'
                } else {
                    '4'
                },
            ),
            Key::Key5 => Some(
                if is_shift_pressed {
                    '%'
                } else {
                    '5'
                },
            ),
            Key::Key6 => Some(
                if is_shift_pressed {
                    '^'
                } else {
                    '6'
                },
            ),
            Key::Key7 => Some(
                if is_shift_pressed {
                    '&'
                } else {
                    '7'
                },
            ),
            Key::Key8 => Some(
                if is_shift_pressed {
                    '*'
                } else {
                    '8'
                },
            ),
            Key::Key9 => Some(
                if is_shift_pressed {
                    '('
                } else {
                    '9'
                },
            ),
            Key::Semicolon => Some(
                if is_shift_pressed {
                    ':'
                } else {
                    ';'
                },
            ),
            Key::Equal => Some(
                if is_shift_pressed {
                    '+'
                } else {
                    '='
                },
            ),
            Key::A => Some(
                if is_shift_pressed {
                    'A'
                } else {
                    'a'
                },
            ),
            Key::B => Some(
                if is_shift_pressed {
                    'B'
                } else {
                    'b'
                },
            ),
            Key::C => Some(
                if is_shift_pressed {
                    'C'
                } else {
                    'c'
                },
            ),
            Key::D => Some(
                if is_shift_pressed {
                    'D'
                } else {
                    'd'
                },
            ),
            Key::E => Some(
                if is_shift_pressed {
                    'E'
                } else {
                    'e'
                },
            ),
            Key::F => Some(
                if is_shift_pressed {
                    'F'
                } else {
                    'f'
                },
            ),
            Key::G => Some(
                if is_shift_pressed {
                    'G'
                } else {
                    'g'
                },
            ),
            Key::H => Some(
                if is_shift_pressed {
                    'H'
                } else {
                    'h'
                },
            ),
            Key::I => Some(
                if is_shift_pressed {
                    'I'
                } else {
                    'i'
                },
            ),
            Key::J => Some(
                if is_shift_pressed {
                    'J'
                } else {
                    'j'
                },
            ),
            Key::K => Some(
                if is_shift_pressed {
                    'K'
                } else {
                    'k'
                },
            ),
            Key::L => Some(
                if is_shift_pressed {
                    'L'
                } else {
                    'l'
                },
            ),
            Key::M => Some(
                if is_shift_pressed {
                    'M'
                } else {
                    'm'
                },
            ),
            Key::N => Some(
                if is_shift_pressed {
                    'N'
                } else {
                    'n'
                },
            ),
            Key::O => Some(
                if is_shift_pressed {
                    'O'
                } else {
                    'o'
                },
            ),
            Key::P => Some(
                if is_shift_pressed {
                    'P'
                } else {
                    'p'
                },
            ),
            Key::Q => Some(
                if is_shift_pressed {
                    'Q'
                } else {
                    'q'
                },
            ),
            Key::R => Some(
                if is_shift_pressed {
                    'R'
                } else {
                    'r'
                },
            ),
            Key::S => Some(
                if is_shift_pressed {
                    'S'
                } else {
                    's'
                },
            ),
            Key::T => Some(
                if is_shift_pressed {
                    'T'
                } else {
                    't'
                },
            ),
            Key::U => Some(
                if is_shift_pressed {
                    'U'
                } else {
                    'u'
                },
            ),
            Key::V => Some(
                if is_shift_pressed {
                    'V'
                } else {
                    'v'
                },
            ),
            Key::W => Some(
                if is_shift_pressed {
                    'W'
                } else {
                    'w'
                },
            ),
            Key::X => Some(
                if is_shift_pressed {
                    'X'
                } else {
                    'x'
                },
            ),
            Key::Y => Some(
                if is_shift_pressed {
                    'Y'
                } else {
                    'y'
                },
            ),
            Key::Z => Some(
                if is_shift_pressed {
                    'Z'
                } else {
                    'z'
                },
            ),
            Key::LeftBracket => Some(
                if is_shift_pressed {
                    '{'
                } else {
                    '['
                },
            ),
            Key::Backslash => Some(
                if is_shift_pressed {
                    '|'
                } else {
                    '\\'
                },
            ),
            Key::RightBracket => Some(
                if is_shift_pressed {
                    '}'
                } else {
                    ']'
                },
            ),
            Key::GraveAccent => Some(
                if is_shift_pressed {
                    '~'
                } else {
                    '`'
                },
            ),
            _ => Option::None
    }
}

/// The command the last polled key asks for, if the query's context
/// may see input at all.
pub open spec fn last_input_action(
    key: Option<Key>,
    shift_down: bool,
    alt_down: bool,
    ctx: InputActionContext,
    enter_buffer: bool,
) -> Option<InputAction> {
    match key {
        Some(k) => if input_visible(enter_buffer, ctx) {
            key_action(k, enter_buffer, shift_down, alt_down)
        } else {
            Option::None
        },
        Option::None => Option::None,
    }
}

impl InputAction {
    /// Interpret one key as a game command; keys with no command are
    /// rejected with a message.
    fn try_from(value: Key, state: &InputState, shift_down: bool, alt_down: bool) -> (r: Result<
        Self,
        String,
    >)
        ensures
            match r {
                Ok(a) => key_action(value, state.enter_buffer, shift_down, alt_down) == Some(a),
                Err(e) => key_action(value, state.enter_buffer, shift_down, alt_down) is None && e@
                    == "Not a recognised key"@,
            },
    {
        let enter_buffer = state.enter_buffer;
        let r: Option<InputAction> = match value {
            Key::Key1 => Some(InputAction::NumberEntered(1)),
            Key::Key2 => Some(InputAction::NumberEntered(2)),
            Key::Key3 => Some(InputAction::NumberEntered(3)),
            Key::Key4 => Some(InputAction::NumberEntered(4)),
            Key::Key5 => Some(InputAction::NumberEntered(5)),
            Key::Key6 => Some(InputAction::NumberEntered(6)),
            Key::Key7 => Some(InputAction::NumberEntered(7)),
            Key::Key8 => Some(InputAction::NumberEntered(8)),
            Key::Key9 => Some(InputAction::NumberEntered(9)),
            Key::Backspace | Key::Key0 | Key::Delete => Some(InputAction::Clear),
            Key::Space => Some(InputAction::AutoPlay),
            Key::Tab => if shift_down {
                Some(InputAction::HardReset)
            } else {
                Some(InputAction::Reset)
            },
            Key::F1 => Some(InputAction::Function(1)),
            Key::F2 => Some(InputAction::Function(2)),
            Key::F3 => Some(InputAction::Function(3)),
            Key::F4 => Some(InputAction::Function(4)),
            Key::F5 => Some(InputAction::Function(5)),
            Key::F6 => Some(InputAction::Function(6)),
            Key::F7 => Some(InputAction::Function(7)),
            Key::F8 => Some(InputAction::Function(8)),
            Key::F9 => Some(InputAction::Function(9)),
            Key::F10 => Some(InputAction::Function(10)),
            Key::F11 => Some(InputAction::Function(11)),
            Key::F12 => Some(InputAction::Function(12)),
            Key::W => Some(InputAction::MoveUp),
            Key::A | Key::Left => Some(InputAction::MoveLeft),
            Key::S => Some(InputAction::MoveDown),
            Key::D | Key::Right => Some(InputAction::MoveRight),
            Key::Up => if enter_buffer {
                Some(InputAction::UpBuffer)
            } else {
                Some(InputAction::MoveUp)
            },
            Key::Down => if enter_buffer {
                Some(InputAction::DownBuffer)
            } else {
                Some(InputAction::MoveDown)
            },
            Key::LeftControl => Some(InputAction::ClearBuffer),
            Key::V => if enter_buffer && alt_down {
                Some(InputAction::PasteBuffer)
            } else {
                Option::None
            },
            Key::Enter => Some(InputAction::EnterBuffer),
            _ => Option::None
        };
        match r {
            Some(a) => Ok(a),
            Option::None => Err("Not a recognised key".to_owned()),
        }
    }

    /// The last key pressed, as far as the given context may see it:
    /// `key` is what the window layer polled.
    pub fn get_last_key_pressed(key: Option<Key>, ctx: InputActionContext, state: &InputState) -> (
        r: Option<Key>)
        ensures
            r == if input_visible(state.enter_buffer, ctx) {
                key
            } else {
                Option::<Key>::None
            },
    {
        let typing_buffer = state.enter_buffer;
        match (typing_buffer, ctx) {
            (false, InputActionContext::Generic) | (true, InputActionContext::Buffer) => key,
            _ => None,
        }
    }

    /// Whether a key is held, as far as the given context may see it:
    /// `key_down` is what the window layer polled.
    pub fn is_key_down(key_down: bool, ctx: InputActionContext, state: &InputState) -> (r: bool)
        ensures
            r == (input_visible(state.enter_buffer, ctx) && key_down),
    {
        let typing_buffer = state.enter_buffer;
        match (typing_buffer, ctx) {
            (false, InputActionContext::Generic) | (true, InputActionContext::Buffer) => key_down,
            _ => false,
        }
    }

    /// The command asked for by the last polled key, if the context
    /// may see input and the key maps to one.
    pub fn get_last_input(
        key: Option<Key>,
        shift_down: bool,
        alt_down: bool,
        ctx: InputActionContext,
        state: &InputState,
    ) -> (r: Option<InputAction>)
        ensures
            r == last_input_action(key, shift_down, alt_down, ctx, state.enter_buffer),
    {
        match Self::get_last_key_pressed(key, ctx, state) {
            Some(k) => match Self::try_from(k, state, shift_down, alt_down) {
                Ok(a) => Some(a),
                Err(_) => None,
            },
            Option::None => None,
        }
    }

    /// Whether the last polled key asks for function command `num`.
    pub fn is_function_pressed(
        num: u8,
        key: Option<Key>,
        shift_down: bool,
        alt_down: bool,
        ctx: InputActionContext,
        state: &InputState,
    ) -> (r: bool)
        ensures
            r == (last_input_action(key, shift_down, alt_down, ctx, state.enter_buffer) == Some(
                InputAction::Function(num),
            )),
    {
        let last_key_pressed = Self::get_last_input(key, shift_down, alt_down, ctx, state);
        if let Some(InputAction::Function(i)) = last_key_pressed {
            return i == num;
        }
        false
    }

    /// The character a key types, shift taken into account.
    fn to_raw_char(key_code: Key, is_shift_pressed: bool) -> (r: Option<char>)
        ensures
            r == raw_char_of(key_code, is_shift_pressed),
    {
        match key_code {
            Key::Space => Some(' '),
            Key::Apostrophe => Some(
                if is_shift_pressed {
                    '"'
                } else {
                    '\''
                },
            ),
            Key::Comma => Some(
                if is_shift_pressed {
                    '<'
                } else {
                    ','
                },
            ),
            Key::Minus => Some(
                if is_shift_pressed {
                    '_'
                } else {
                    '-'
                },
            ),
            Key::Period => Some(
                if is_shift_pressed {
                    '>'
                } else {
                    '.'
                },
            ),
            Key::Slash => Some(
                if is_shift_pressed {
                    '?'
                } else {
                    '/'
                },
            ),
            Key::Key0 => Some(
                if is_shift_pressed {
                    ')'
                } else {
                    '0'
                },
            ),
            Key::Key1 => Some(
                if is_shift_pressed {
                    '!'
                } else {
                    '1'
                },
            ),
            Key::Key2 => Some(
                if is_shift_pressed {
                    '@'
                } else {
                    '2'
                },
            ),
            Key::Key3 => Some(
                if is_shift_pressed {
                    '#'
                } else {
                    '3'
                },
            ),
            Key::Key4 => Some(
                if is_shift_pressed {
                    '$'
                } else {
                    '4'
                },
            ),
            Key::Key5 => Some(
                if is_shift_pressed {
                    '%'
                } else {
                    '5'
                },
            ),
            Key::Key6 => Some(
                if is_shift_pressed {
                    '^'
                } else {
                    '6'
                },
            ),
            Key::Key7 => Some(
                if is_shift_pressed {
                    '&'
                } else {
                    '7'
                },
            ),
            Key::Key8 => Some(
                if is_shift_pressed {
                    '*'
                } else {
                    '8'
                },
            ),
            Key::Key9 => Some(
                if is_shift_pressed {
                    '('
                } else {
                    '9'
                },
            ),
            Key::Semicolon => Some(
                if is_shift_pressed {
                    ':'
                } else {
                    ';'
                },
            ),
            Key::Equal => Some(
                if is_shift_pressed {
                    '+'
                } else {
                    '='
                },
            ),
            Key::A => Some(
                if is_shift_pressed {
                    'A'
                } else {
                    'a'
                },
            ),
            Key::B => Some(
                if is_shift_pressed {
                    'B'
                } else {
                    'b'
                },
            ),
            Key::C => Some(
                if is_shift_pressed {
                    'C'
                } else {
                    'c'
                },
            ),
            Key::D => Some(
                if is_shift_pressed {
                    'D'
                } else {
                    'd'
                },
            ),
            Key::E => Some(
                if is_shift_pressed {
                    'E'
                } else {
                    'e'
                },
            ),
            Key::F => Some(
                if is_shift_pressed {
                    'F'
                } else {
                    'f'
                },
            ),
            Key::G => Some(
                if is_shift_pressed {
                    'G'
                } else {
                    'g'
                },
            ),
            Key::H => Some(
                if is_shift_pressed {
                    'H'
                } else {
                    'h'
                },
            ),
            Key::I => Some(
                if is_shift_pressed {
                    'I'
                } else {
                    'i'
                },
            ),
            Key::J => Some(
                if is_shift_pressed {
                    'J'
                } else {
                    'j'
                },
            ),
            Key::K => Some(
                if is_shift_pressed {
                    'K'
                } else {
                    'k'
                },
            ),
            Key::L => Some(
                if is_shift_pressed {
                    'L'
                } else {
                    'l'
                },
            ),
            Key::M => Some(
                if is_shift_pressed {
                    'M'
                } else {
                    'm'
                },
            ),
            Key::N => Some(
                if is_shift_pressed {
                    'N'
                } else {
                    'n'
                },
            ),
            Key::O => Some(
                if is_shift_pressed {
                    'O'
                } else {
                    'o'
                },
            ),
            Key::P => Some(
                if is_shift_pressed {
                    'P'
                } else {
                    'p'
                },
            ),
            Key::Q => Some(
                if is_shift_pressed {
                    'Q'
                } else {
                    'q'
                },
            ),
            Key::R => Some(
                if is_shift_pressed {
                    'R'
                } else {
                    'r'
                },
            ),
            Key::S => Some(
                if is_shift_pressed {
                    'S'
                } else {
                    's'
                },
            ),
            Key::T => Some(
                if is_shift_pressed {
                    'T'
                } else {
                    't'
                },
            ),
            Key::U => Some(
                if is_shift_pressed {
                    'U'
                } else {
                    'u'
                },
            ),
            Key::V => Some(
                if is_shift_pressed {
                    'V'
                } else {
                    'v'
                },
            ),
            Key::W => Some(
                if is_shift_pressed {
                    'W'
                } else {
                    'w'
                },
            ),
            Key::X => Some(
                if is_shift_pressed {
                    'X'
                } else {
                    'x'
                },
            ),
            Key::Y => Some(
                if is_shift_pressed {
                    'Y'
                } else {
                    'y'
                },
            ),
            Key::Z => Some(
                if is_shift_pressed {
                    'Z'
                } else {
                    'z'
                },
            ),
            Key::LeftBracket => Some(
                if is_shift_pressed {
                    '{'
                } else {
                    '['
                },
            ),
            Key::Backslash => Some(
                if is_shift_pressed {
                    '|'
                } else {
                    '\\'
                },
            ),
            Key::RightBracket => Some(
                if is_shift_pressed {
                    '}'
                } else {
                    ']'
                },
            ),
            Key::GraveAccent => Some(
                if is_shift_pressed {
                    '~'
                } else {
                    '`'
                },
            ),
            _ => Option::None
        }
    }

    /// The buffer edit the last polled key asks for: a typed character,
    /// one character removed, or the buffer cleared.
    pub fn get_last_input_char(
        key: Option<Key>,
        shift_down: bool,
        ctx: InputActionContext,
        state: &InputState,
    ) -> (r: Option<InputActionChar>)
        ensures
            match Self::spec_last_input_char(key, shift_down, ctx, state.enter_buffer) {
                Some(c) => r matches Some(rc) && rc matches InputActionChar::Char(x) && x == c,
                Option::None => match key {
                    Some(Key::Backspace) => input_visible(state.enter_buffer, ctx) ==> (r
                        matches Some(rc) && rc is Backspace),
                    Some(Key::Escape) => input_visible(state.enter_buffer, ctx) ==> (r
                        matches Some(rc) && rc is Clear),
                    _ => true,
                },
            },
    {
        match Self::get_last_key_pressed(key, ctx, state) {
            Some(Key::Backspace) => Some(InputActionChar::Backspace),
            Some(Key::Escape) => Some(InputActionChar::Clear),
            Some(x) => {
                let shifted = Self::is_key_down(shift_down, ctx, state);
                match Self::to_raw_char(x, shifted) {
                    Some(c) => Some(InputActionChar::Char(c)),
                    Option::None => None,
                }
            },
            Option::None => None,
        }
    }

    /// The character the last polled key types, when the context may
    /// see input and the key is a typing key.
    pub open spec fn spec_last_input_char(
        key: Option<Key>,
        shift_down: bool,
        ctx: InputActionContext,
        enter_buffer: bool,
    ) -> Option<char> {
        match key {
            Some(k) => if input_visible(enter_buffer, ctx) && !(k is Backspace) && !(k
                is Escape) {
                raw_char_of(k, input_visible(enter_buffer, ctx) && shift_down)
            } else {
                Option::None
            },
            Option::None => Option::None,
        }
    }
}

} // verus!
