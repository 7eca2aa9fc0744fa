use std::collections::HashSet;

use nestri_server::input::{handle_input_message, InputCommand, InputMessage, InputQueue};

fn run(msgs: &[InputMessage]) -> Vec<Option<InputCommand>> {
    let mut keys = HashSet::new();
    let mut buttons = HashSet::new();
    msgs.iter().map(|m| handle_input_message(*m, &mut keys, &mut buttons)).collect()
}

#[test]
fn key_repeat_is_suppressed_until_release() {
    let out = run(&[
        InputMessage::KeyDown { key: 65 },
        InputMessage::KeyDown { key: 65 },
        InputMessage::KeyUp { key: 65 },
        InputMessage::KeyDown { key: 65 },
    ]);
    assert_eq!(
        out,
        vec![
            Some(InputCommand::KeyboardKey { key: 65, pressed: true }),
            None,
            Some(InputCommand::KeyboardKey { key: 65, pressed: false }),
            Some(InputCommand::KeyboardKey { key: 65, pressed: true }),
        ]
    );
}

#[test]
fn buttons_have_their_own_pressed_set() {
    let out = run(&[
        InputMessage::KeyDown { key: 1 },
        InputMessage::MouseDown { key: 1 },
        InputMessage::MouseDown { key: 1 },
        InputMessage::MouseUp { key: 1 },
        InputMessage::MouseUp { key: 1 },
        InputMessage::KeyDown { key: 1 },
    ]);
    assert_eq!(
        out,
        vec![
            Some(InputCommand::KeyboardKey { key: 1, pressed: true }),
            Some(InputCommand::MouseButton { button: 1, pressed: true }),
            None,
            Some(InputCommand::MouseButton { button: 1, pressed: false }),
            Some(InputCommand::MouseButton { button: 1, pressed: false }),
            None,
        ]
    );
}

#[test]
fn moves_and_wheel_are_always_forwarded() {
    let wheel_x = 1.5f64.to_bits();
    let wheel_y = (-2.0f64).to_bits();
    let out = run(&[
        InputMessage::MouseMove { x: 3, y: -4 },
        InputMessage::MouseMove { x: 3, y: -4 },
        InputMessage::MouseMoveAbs { x: 100, y: 200 },
        InputMessage::Wheel { x: wheel_x, y: wheel_y },
    ]);
    assert_eq!(
        out,
        vec![
            Some(InputCommand::MouseMoveRelative { pointer_x: 3, pointer_y: -4 }),
            Some(InputCommand::MouseMoveRelative { pointer_x: 3, pointer_y: -4 }),
            Some(InputCommand::MouseMoveAbsolute { pointer_x: 100, pointer_y: 200 }),
            Some(InputCommand::MouseAxis { x: wheel_x, y: wheel_y }),
        ]
    );
}

#[test]
fn negative_codes_wrap_to_unsigned() {
    let out = run(&[InputMessage::KeyUp { key: -1 }]);
    assert_eq!(out, vec![Some(InputCommand::KeyboardKey { key: u32::MAX, pressed: false })]);
}

fn key(k: u32) -> InputCommand {
    InputCommand::KeyboardKey { key: k, pressed: true }
}

#[test]
fn full_queue_evicts_the_oldest() {
    let mut q = InputQueue::new(3);
    assert_eq!(q.push(key(1)), None);
    assert_eq!(q.push(key(2)), None);
    assert_eq!(q.push(key(3)), None);
    assert_eq!(q.push(key(4)), Some(key(1)));
    assert_eq!(q.len(), 3);
    assert_eq!(q.capacity(), 3);
    assert_eq!(q.pop(), Some(key(2)));
    assert_eq!(q.pop(), Some(key(3)));
    assert_eq!(q.pop(), Some(key(4)));
    assert_eq!(q.pop(), None);
}

#[test]
fn queue_without_capacity_keeps_nothing() {
    let mut q = InputQueue::new(0);
    assert_eq!(q.push(key(7)), Some(key(7)));
    assert_eq!(q.len(), 0);
    assert_eq!(q.pop(), None);
}
