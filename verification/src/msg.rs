use vstd::prelude::*;

verus! {

/// One logical input action: a window message together with how many times it
/// is to be delivered. A fresh `Message` built with `Default` carries count 0;
/// delivery always sends at least once, so the effective repeat count is
/// `max(count, 1)`.
#[derive(Clone, Debug, PartialEq)]
pub struct Message {
    pub msg: WindowMessage,
    pub count: u32,
}

/// The kinds of low-level input this system can express. The command language
/// and the navigator only ever produce `KeyDown`, `KeyUp`, `Char` and
/// `Command`; the remaining kinds exist for callers that assemble messages by
/// hand.
#[derive(Clone, Debug, PartialEq)]
pub enum WindowMessage {
    /// A key-transition message carrying a virtual key code.
    KeyDown(u32),
    /// A key-release message carrying a virtual key code.
    KeyUp(u32),
    /// A character-input message carrying the codepoint.
    Char(char),
    /// A mouse move to screen coordinates.
    MouseMove(i32, i32),
    /// A control-invocation message carrying the command identifier.
    Command(u32),
    /// A burst of synthesized hardware-level input events.
    Input(InputSequence),
}

/// An ordered burst of synthesized input events.
pub type InputSequence = Vec<InputMessage>;

/// One synthesized hardware-level input event.
#[derive(Clone, Debug, PartialEq)]
pub enum InputMessage {
    Mouse { x: i32, y: i32 },
    Keyboard { key: u32, flag: Option<u32> },
    Hardware,
}

/// Mathematical model of a [`Message`].
pub ghost struct MessageModel {
    pub msg: WindowMessageModel,
    pub count: u32,
}

/// Mathematical model of a [`WindowMessage`].
pub ghost enum WindowMessageModel {
    KeyDown(u32),
    KeyUp(u32),
    Char(char),
    MouseMove(i32, i32),
    Command(u32),
    Input(Seq<InputMessageModel>),
}

/// Mathematical model of an [`InputMessage`].
pub ghost enum InputMessageModel {
    Mouse { x: i32, y: i32 },
    Keyboard { key: u32, flag: Option<u32> },
    Hardware,
}

impl View for InputMessage {
    type V = InputMessageModel;

    open spec fn view(&self) -> InputMessageModel {
        match self {
            InputMessage::Mouse { x, y } => InputMessageModel::Mouse { x: *x, y: *y },
            InputMessage::Keyboard { key, flag } => InputMessageModel::Keyboard {
                key: *key,
                flag: *flag,
            },
            InputMessage::Hardware => InputMessageModel::Hardware,
        }
    }
}

impl DeepView for InputMessage {
    type V = InputMessageModel;

    open spec fn deep_view(&self) -> InputMessageModel {
        self.view()
    }
}

impl View for WindowMessage {
    type V = WindowMessageModel;

    open spec fn view(&self) -> WindowMessageModel {
        match self {
            WindowMessage::KeyDown(vk) => WindowMessageModel::KeyDown(*vk),
            WindowMessage::KeyUp(vk) => WindowMessageModel::KeyUp(*vk),
            WindowMessage::Char(c) => WindowMessageModel::Char(*c),
            WindowMessage::MouseMove(x, y) => WindowMessageModel::MouseMove(*x, *y),
            WindowMessage::Command(id) => WindowMessageModel::Command(*id),
            WindowMessage::Input(events) => WindowMessageModel::Input(events.deep_view()),
        }
    }
}

impl DeepView for WindowMessage {
    type V = WindowMessageModel;

    open spec fn deep_view(&self) -> WindowMessageModel {
        self.view()
    }
}

impl View for Message {
    type V = MessageModel;

    open spec fn view(&self) -> MessageModel {
        MessageModel { msg: self.msg.view(), count: self.count }
    }
}

impl DeepView for Message {
    type V = MessageModel;

    open spec fn deep_view(&self) -> MessageModel {
        self.view()
    }
}

impl Default for WindowMessage {
    /// A defaulted message is a key-down of virtual key 0.
    fn default() -> (r: Self)
        ensures
            r@ == WindowMessageModel::KeyDown(0u32),
    {
        WindowMessage::KeyDown(0)
    }
}

impl Default for Message {
    /// A defaulted `Message` is a key-down of virtual key 0 with count 0,
    /// which delivery treats as a single send.
    fn default() -> (r: Self)
        ensures
            r@ == (MessageModel { msg: WindowMessageModel::KeyDown(0u32), count: 0u32 }),
    {
        Message { msg: WindowMessage::KeyDown(0), count: 0 }
    }
}

} // verus!
