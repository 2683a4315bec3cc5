use bazed_core::input_mapper::interpret_key_input;
use bazed_core::input_mapper::key_to_motion;
use bazed_core::input_mapper::to_ascii_lowercase;
use bazed_core::keycode::Key;
use bazed_core::keycode::KeyInput;
use bazed_core::keycode::Modifier;
use bazed_core::user_buffer_op::{BufferOp, DocumentOp, Motion, Operation, Trajectory};
use bazed_core::word_boundary::WordBoundaryType;

#[test]
fn held_modifiers() {
    let input = KeyInput {
        modifiers: vec![Modifier::Ctrl, Modifier::Win],
        key: Key::Char('x'),
    };
    assert!(input.ctrl_held());
    assert!(input.win_held());
    assert!(!input.shift_held());
    assert!(!input.alt_held());
    assert!(input.held(Modifier::Win));
    assert_eq!(Some('x'), input.key.try_as_char());
    assert_eq!(None, Key::F1.try_as_char());
}

fn press(modifiers: Vec<Modifier>, key: Key) -> KeyInput {
    KeyInput { modifiers, key }
}

fn inserted(operation: Option<Operation>) -> Option<String> {
    match operation {
        Some(Operation::Buffer(BufferOp::Insert(text))) => Some(text),
        _ => None,
    }
}

#[test]
fn key_inputs_ask_for_operations() {
    let ctrl = || vec![Modifier::Ctrl];
    assert!(matches!(
        interpret_key_input(&press(ctrl(), Key::Char('z'))),
        Some(Operation::Buffer(BufferOp::Undo))
    ));
    assert!(matches!(
        interpret_key_input(&press(ctrl(), Key::Char('y'))),
        Some(Operation::Buffer(BufferOp::Redo))
    ));
    assert!(matches!(
        interpret_key_input(&press(ctrl(), Key::Char('s'))),
        Some(Operation::Document(DocumentOp::Save))
    ));
    assert!(interpret_key_input(&press(ctrl(), Key::Char('q'))).is_none());
    assert_eq!(
        Some("a".to_string()),
        inserted(interpret_key_input(&press(vec![Modifier::Shift], Key::Char('A'))))
    );
    assert_eq!(
        Some("é".to_string()),
        inserted(interpret_key_input(&press(vec![], Key::Char('é'))))
    );
    assert_eq!(
        Some("\n".to_string()),
        inserted(interpret_key_input(&press(vec![], Key::Return)))
    );
    assert_eq!(
        Some("\t".to_string()),
        inserted(interpret_key_input(&press(vec![], Key::Tab)))
    );
    assert!(matches!(
        interpret_key_input(&press(vec![], Key::Backspace)),
        Some(Operation::Buffer(BufferOp::Delete(Trajectory::Backwards)))
    ));
    assert!(matches!(
        interpret_key_input(&press(vec![], Key::Delete)),
        Some(Operation::Buffer(BufferOp::Delete(Trajectory::Forwards)))
    ));
    assert!(matches!(
        interpret_key_input(&press(ctrl(), Key::Right)),
        Some(Operation::Buffer(BufferOp::Move(Motion::NextWordBoundary(
            WordBoundaryType::Start
        ))))
    ));
    assert!(matches!(
        interpret_key_input(&press(vec![Modifier::Shift], Key::Home)),
        Some(Operation::Buffer(BufferOp::Selection(Motion::StartOfLine)))
    ));
    assert!(matches!(
        interpret_key_input(&press(vec![Modifier::Alt], Key::Down)),
        Some(Operation::Buffer(BufferOp::NewCaret(Motion::Down)))
    ));
    assert!(interpret_key_input(&press(vec![], Key::F5)).is_none());
    assert_eq!(Some(Motion::EndOfLine), key_to_motion(false, &Key::End));
    assert_eq!(None, key_to_motion(true, &Key::Escape));
    assert_eq!('q', to_ascii_lowercase('Q'));
    assert_eq!('É', to_ascii_lowercase('É'));
}
