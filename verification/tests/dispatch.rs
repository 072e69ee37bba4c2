use winpoke::dispatch::{
    build_keyboard_inputs, expand_message, expand_message_seq, wait_budget_ms, Delivery, KeyInput,
    WM_CHAR, WM_COMMAND, WM_KEYDOWN, WM_KEYUP,
};
use winpoke::msg::{InputMessage, Message, WindowMessage};

#[test]
fn count_five_delivers_exactly_five_in_order() {
    let m = Message { msg: WindowMessage::KeyDown(0x25), count: 5 };
    let deliveries = expand_message(&m);
    assert_eq!(deliveries.len(), 5);
    for d in &deliveries {
        assert_eq!(*d, Delivery { code: WM_KEYDOWN, wparam: 0x25, lparam_is_target: false });
    }
}

#[test]
fn zero_count_still_delivers_once() {
    let m = Message { msg: WindowMessage::Char('x'), count: 0 };
    let deliveries = expand_message(&m);
    assert_eq!(deliveries.len(), 1);
    assert_eq!(deliveries[0], Delivery { code: WM_CHAR, wparam: 'x' as u32, lparam_is_target: false });
}

#[test]
fn sequence_expands_in_order_without_interleaving() {
    let msgs = vec![
        Message { msg: WindowMessage::Command(0x10288), count: 1 },
        Message { msg: WindowMessage::KeyDown(0x25), count: 3 },
        Message { msg: WindowMessage::KeyUp(0x25), count: 1 },
    ];
    let deliveries = expand_message_seq(&msgs);
    assert_eq!(
        deliveries,
        vec![
            Delivery { code: WM_COMMAND, wparam: 0x10288, lparam_is_target: true },
            Delivery { code: WM_KEYDOWN, wparam: 0x25, lparam_is_target: false },
            Delivery { code: WM_KEYDOWN, wparam: 0x25, lparam_is_target: false },
            Delivery { code: WM_KEYDOWN, wparam: 0x25, lparam_is_target: false },
            Delivery { code: WM_KEYUP, wparam: 0x25, lparam_is_target: false },
        ]
    );
}

#[test]
fn defaulted_message_is_one_null_key_down() {
    let m = Message::default();
    assert_eq!(m, Message { msg: WindowMessage::KeyDown(0), count: 0 });
    assert_eq!(WindowMessage::default(), WindowMessage::KeyDown(0));
    let deliveries = expand_message(&m);
    assert_eq!(deliveries.len(), 1);
    assert_eq!(deliveries[0].code, WM_KEYDOWN);
    assert_eq!(deliveries[0].wparam, 0);
}

#[test]
fn wait_budget_is_linear_in_count() {
    assert_eq!(wait_budget_ms(0), 0);
    assert_eq!(wait_budget_ms(1), 500);
    assert_eq!(wait_budget_ms(7), 3500);
    assert_eq!(wait_budget_ms(u32::MAX), 500 * u32::MAX as u64);
}

#[test]
fn keyboard_inputs_default_their_flags_to_zero() {
    let events = vec![
        InputMessage::Keyboard { key: 0x5B, flag: None },
        InputMessage::Keyboard { key: 'D' as u32, flag: Some(0x2) },
    ];
    let inputs = build_keyboard_inputs(&events);
    assert_eq!(
        inputs,
        vec![KeyInput { key: 0x5B, flags: 0 }, KeyInput { key: 'D' as u32, flags: 0x2 }]
    );
}
