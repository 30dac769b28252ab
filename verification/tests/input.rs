use sudoku::input_helper::{
    InputAction, InputActionChar, InputActionContext, InputState, Key, TYPE_BUFFER_KEY,
};

#[test]
fn keys_map_to_commands() {
    let idle = InputState::default();
    let typing = InputState { enter_buffer: true };

    // A digit key enters that digit when the player is not typing.
    assert_eq!(
        InputAction::get_last_input(
            Some(Key::Key5),
            false,
            false,
            InputActionContext::Generic,
            &idle
        ),
        Some(InputAction::NumberEntered(5))
    );
    // The same query sees nothing while the buffer is being typed.
    assert_eq!(
        InputAction::get_last_input(
            Some(Key::Key5),
            false,
            false,
            InputActionContext::Generic,
            &typing
        ),
        None
    );
    // Tab resets; with shift held it resets hard.
    assert_eq!(
        InputAction::get_last_input(
            Some(Key::Tab),
            false,
            false,
            InputActionContext::Generic,
            &idle
        ),
        Some(InputAction::Reset)
    );
    assert_eq!(
        InputAction::get_last_input(
            Some(Key::Tab),
            true,
            false,
            InputActionContext::Generic,
            &idle
        ),
        Some(InputAction::HardReset)
    );
    // The buffer key clears and opens the buffer.
    assert_eq!(
        InputAction::get_last_input(
            Some(TYPE_BUFFER_KEY),
            false,
            false,
            InputActionContext::Generic,
            &idle
        ),
        Some(InputAction::ClearBuffer)
    );
    // Paste works only while typing with alt held.
    assert_eq!(
        InputAction::get_last_input(
            Some(Key::V),
            false,
            true,
            InputActionContext::Buffer,
            &typing
        ),
        Some(InputAction::PasteBuffer)
    );
    assert_eq!(
        InputAction::get_last_input(
            Some(Key::V),
            false,
            false,
            InputActionContext::Buffer,
            &typing
        ),
        None
    );
    // Arrow keys move the cursor, or walk the buffer history while
    // typing.
    assert_eq!(
        InputAction::get_last_input(
            Some(Key::Up),
            false,
            false,
            InputActionContext::Generic,
            &idle
        ),
        Some(InputAction::MoveUp)
    );
    assert_eq!(
        InputAction::get_last_input(
            Some(Key::Up),
            false,
            false,
            InputActionContext::Buffer,
            &typing
        ),
        Some(InputAction::UpBuffer)
    );
}

#[test]
fn function_keys_are_recognised() {
    let idle = InputState::default();
    assert!(InputAction::is_function_pressed(
        3,
        Some(Key::F3),
        false,
        false,
        InputActionContext::Generic,
        &idle
    ));
    assert!(!InputAction::is_function_pressed(
        4,
        Some(Key::F3),
        false,
        false,
        InputActionContext::Generic,
        &idle
    ));
    assert!(!InputAction::is_function_pressed(
        3,
        Some(Key::A),
        false,
        false,
        InputActionContext::Generic,
        &idle
    ));
}

#[test]
fn typed_characters_respect_shift() {
    let typing = InputState { enter_buffer: true };
    match InputAction::get_last_input_char(
        Some(Key::A),
        false,
        InputActionContext::Buffer,
        &typing,
    ) {
        Some(InputActionChar::Char(c)) => assert_eq!(c, 'a'),
        _ => panic!("a plain letter key types its letter"),
    }
    match InputAction::get_last_input_char(Some(Key::A), true, InputActionContext::Buffer, &typing)
    {
        Some(InputActionChar::Char(c)) => assert_eq!(c, 'A'),
        _ => panic!("shift upper-cases a letter"),
    }
    match InputAction::get_last_input_char(
        Some(Key::Key2),
        true,
        InputActionContext::Buffer,
        &typing,
    ) {
        Some(InputActionChar::Char(c)) => assert_eq!(c, '@'),
        _ => panic!("shifted 2 types @"),
    }
    assert!(matches!(
        InputAction::get_last_input_char(
            Some(Key::Backspace),
            false,
            InputActionContext::Buffer,
            &typing
        ),
        Some(InputActionChar::Backspace)
    ));
    assert!(matches!(
        InputAction::get_last_input_char(
            Some(Key::Escape),
            false,
            InputActionContext::Buffer,
            &typing
        ),
        Some(InputActionChar::Clear)
    ));
}
