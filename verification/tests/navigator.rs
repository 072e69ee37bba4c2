use winpoke::error::Error;
use winpoke::msg::{Message, WindowMessage};
use winpoke::navigator::{
    collapse_messages, typing_messages, NavAction, NavEvent, NavState, Navigator,
    CMD_JUMP_TO_ADDRESS_BAR,
};
use winpoke::parser::{VK_LEFT, VK_RIGHT};

#[test]
fn retry_cycles_at_most_the_budget_then_unreachable() {
    let mut nav = Navigator::new(3);
    let mut launches = 0;
    loop {
        let action = nav.step(NavEvent::WindowMissing);
        if nav.state == NavState::Failed {
            assert_eq!(action, NavAction::Idle);
            break;
        }
        assert_eq!(action, NavAction::Launch);
        launches += 1;
        assert!(launches <= 3);
        assert_eq!(nav.step(NavEvent::Launched), NavAction::Locate);
    }
    assert_eq!(launches, 3);
    assert_eq!(nav.error, Some(Error::TargetUnreachable));
    // terminal: nothing moves it any more
    assert_eq!(nav.step(NavEvent::WindowFound), NavAction::Idle);
    assert_eq!(nav.state, NavState::Failed);
}

#[test]
fn happy_path_reaches_done() {
    let mut nav = Navigator::new(1);
    assert_eq!(nav.step(NavEvent::WindowMissing), NavAction::Launch);
    assert_eq!(nav.step(NavEvent::Launched), NavAction::Locate);
    assert_eq!(nav.step(NavEvent::WindowFound), NavAction::Focus);
    assert_eq!(nav.step(NavEvent::FocusOk), NavAction::SendCollapse);
    assert_eq!(nav.step(NavEvent::SendOk), NavAction::SendTyping);
    assert_eq!(nav.step(NavEvent::SendOk), NavAction::Idle);
    assert_eq!(nav.state, NavState::Done);
    assert_eq!(nav.error, None);
}

#[test]
fn a_failed_step_is_terminal_with_its_error() {
    let mut nav = Navigator::new(1);
    assert_eq!(nav.step(NavEvent::WindowFound), NavAction::Focus);
    assert_eq!(nav.step(NavEvent::StepFailed(Error::SetFocusFailed)), NavAction::Idle);
    assert_eq!(nav.state, NavState::Failed);
    assert_eq!(nav.error, Some(Error::SetFocusFailed));
    assert!(nav.is_terminal());
}

#[test]
fn typing_emits_descend_per_separator_and_char_otherwise() {
    let path = "HKEY_CURRENT_USER\\Software\\Microsoft";
    let messages = typing_messages(path);
    let chars: Vec<char> = path.chars().collect();
    assert_eq!(messages.len(), chars.len());
    let mut descends = 0;
    for (i, c) in chars.iter().enumerate() {
        if *c == '\\' {
            assert_eq!(messages[i], Message { msg: WindowMessage::KeyDown(VK_RIGHT), count: 1 });
            descends += 1;
        } else {
            assert_eq!(messages[i], Message { msg: WindowMessage::Char(*c), count: 1 });
        }
    }
    assert_eq!(descends, 2);
    // in particular the first and last characters are literal characters
    assert_eq!(messages[0], Message { msg: WindowMessage::Char('H'), count: 1 });
    assert_eq!(
        messages[chars.len() - 1],
        Message { msg: WindowMessage::Char('t'), count: 1 }
    );
}

#[test]
fn collapse_batch_jumps_to_address_bar_then_collapses() {
    let batch = collapse_messages(30);
    assert_eq!(batch.len(), 2);
    assert_eq!(
        batch[0],
        Message { msg: WindowMessage::Command(CMD_JUMP_TO_ADDRESS_BAR), count: 1 }
    );
    assert_eq!(batch[1], Message { msg: WindowMessage::KeyDown(VK_LEFT), count: 30 });
}
