use vstd::prelude::*;

verus! {

use crate::msg::{InputMessage, InputMessageModel, Message, MessageModel, WindowMessage,
    WindowMessageModel};

/// Message codes of the low-level window messages the dispatcher delivers.
pub const WM_KEYDOWN: u32 = 0x0100;

pub const WM_KEYUP: u32 = 0x0101;

pub const WM_CHAR: u32 = 0x0102;

pub const WM_COMMAND: u32 = 0x0111;

/// One cross-process delivery, ready for the OS send primitive: the message
/// code, the primary parameter, and whether the secondary parameter must be
/// the target window's own handle (the convention for control commands) or
/// stays empty.
#[derive(Clone, Copy, Debug, PartialEq, Eq, Structural)]
pub struct Delivery {
    pub code: u32,
    pub wparam: u32,
    pub lparam_is_target: bool,
}

/// The message kinds the dispatcher can turn into a delivery.
pub open spec fn sendable(m: WindowMessageModel) -> bool {
    match m {
        WindowMessageModel::KeyDown(_) => true,
        WindowMessageModel::KeyUp(_) => true,
        WindowMessageModel::Char(_) => true,
        WindowMessageModel::Command(_) => true,
        _ => false,
    }
}

/// The one delivery a sendable message kind maps to.
pub open spec fn delivery_of(m: WindowMessageModel) -> Delivery {
    match m {
        WindowMessageModel::KeyDown(vk) => Delivery {
            code: WM_KEYDOWN,
            wparam: vk,
            lparam_is_target: false,
        },
        WindowMessageModel::KeyUp(vk) => Delivery {
            code: WM_KEYUP,
            wparam: vk,
            lparam_is_target: false,
        },
        WindowMessageModel::Char(c) => Delivery {
            code: WM_CHAR,
            wparam: c as u32,
            lparam_is_target: false,
        },
        WindowMessageModel::Command(id) => Delivery {
            code: WM_COMMAND,
            wparam: id,
            lparam_is_target: true,
        },
        _ => Delivery { code: 0, wparam: 0, lparam_is_target: false },
    }
}

/// How often a message is actually delivered: at least once, whatever its
/// count says.
pub open spec fn effective_count(count: u32) -> nat {
    if count == 0 {
        1
    } else {
        count as nat
    }
}

/// The deliveries one message unfolds to: its delivery, repeated exactly
/// `max(count, 1)` times.
pub open spec fn deliveries_of(m: MessageModel) -> Seq<Delivery> {
    Seq::new(effective_count(m.count), |i: int| delivery_of(m.msg))
}

/// The deliveries a message run unfolds to, strictly in order: all repeats of
/// one message before anything of the next, with no interleaving.
pub open spec fn expanded(ms: Seq<MessageModel>) -> Seq<Delivery>
    decreases ms.len(),
{
    if ms.len() == 0 {
        Seq::empty()
    } else {
        deliveries_of(ms[0]) + expanded(ms.skip(1))
    }
}

pub open spec fn all_sendable(ms: Seq<MessageModel>) -> bool {
    forall|k: int| 0 <= k < ms.len() ==> sendable((#[trigger] ms[k]).msg)
}

fn delivery_for(m: &WindowMessage) -> (r: Delivery)
    requires
        sendable(m@),
    ensures
        r == delivery_of(m@),
{
    match m {
        WindowMessage::KeyDown(vk) => Delivery {
            code: WM_KEYDOWN,
            wparam: *vk,
            lparam_is_target: false,
        },
        WindowMessage::KeyUp(vk) => Delivery {
            code: WM_KEYUP,
            wparam: *vk,
            lparam_is_target: false,
        },
        WindowMessage::Char(c) => Delivery {
            code: WM_CHAR,
            wparam: *c as u32,
            lparam_is_target: false,
        },
        WindowMessage::Command(id) => Delivery {
            code: WM_COMMAND,
            wparam: *id,
            lparam_is_target: true,
        },
        _ => {
            proof {
                assert(false);
            }
            Delivery { code: 0, wparam: 0, lparam_is_target: false }
        },
    }
}

/// Unfolds one message into the exact ordered list of deliveries it asks for:
/// its low-level message, repeated `max(count, 1)` times.
pub fn expand_message(m: &Message) -> (r: Vec<Delivery>)
    requires
        sendable(m@.msg),
    ensures
        r@ == deliveries_of(m@),
        r@.len() == effective_count(m@.count),
{
    let d = delivery_for(&m.msg);
    let n: u32 = if m.count == 0 {
        1
    } else {
        m.count
    };
    let mut r: Vec<Delivery> = Vec::new();
    let mut i: u32 = 0;
    while i < n
        invariant
            i <= n,
            n as nat == effective_count(m@.count),
            d == delivery_of(m@.msg),
            r@.len() == i as nat,
            forall|k: int| 0 <= k < r@.len() ==> r@[k] == d,
        decreases n - i,
    {
        r.push(d);
        i = i + 1;
    }
    proof {
        assert(r@ =~= deliveries_of(m@));
    }
    r
}

pub proof fn lemma_expanded_concat(a: Seq<MessageModel>, b: Seq<MessageModel>)
    ensures
        expanded(a + b) == expanded(a) + expanded(b),
    decreases a.len(),
{
    if a.len() == 0 {
        assert(a + b =~= b);
        assert(expanded(a) + expanded(b) =~= expanded(b));
    } else {
        assert((a + b)[0] == a[0]);
        assert((a + b).skip(1) =~= a.skip(1) + b);
        lemma_expanded_concat(a.skip(1), b);
        assert(deliveries_of(a[0]) + (expanded(a.skip(1)) + expanded(b)) =~= (deliveries_of(a[0])
            + expanded(a.skip(1))) + expanded(b));
    }
}

/// Unfolds a message run into the exact ordered list of deliveries: messages
/// strictly in the order given, each one's repeats finished before the next
/// message starts, with no interleaving.
pub fn expand_message_seq(msgs: &Vec<Message>) -> (r: Vec<Delivery>)
    requires
        all_sendable(msgs.deep_view()),
    ensures
        r@ == expanded(msgs.deep_view()),
{
    let ghost ms = msgs.deep_view();
    let mut r: Vec<Delivery> = Vec::new();
    let mut k: usize = 0;
    proof {
        assert(ms.take(0) =~= Seq::<MessageModel>::empty());
        assert(r@ =~= expanded(ms.take(0)));
    }
    while k < msgs.len()
        invariant
            k <= msgs.len(),
            ms == msgs.deep_view(),
            all_sendable(ms),
            r@ == expanded(ms.take(k as int)),
        decreases msgs.len() - k,
    {
        proof {
            assert(ms[k as int] == msgs[k as int].deep_view());
        }
        let mut part = expand_message(&msgs[k]);
        r.append(&mut part);
        proof {
            lemma_expanded_concat(ms.take(k as int), seq![ms[k as int]]);
            assert(ms.take(k as int) + seq![ms[k as int]] =~= ms.take(k as int + 1));
            assert(seq![ms[k as int]].skip(1) =~= Seq::<MessageModel>::empty());
            assert(expanded(Seq::<MessageModel>::empty()) =~= Seq::<Delivery>::empty());
            assert(expanded(seq![ms[k as int]]) =~= deliveries_of(ms[k as int]));
            assert(r@ =~= expanded(ms.take(k as int + 1)));
        }
        k = k + 1;
    }
    proof {
        assert(ms.take(ms.len() as int) =~= ms);
    }
    r
}

/// The readiness budget for one message, in milliseconds: 500 per repeat
/// count, so longer bursts get a longer wait. Computed in 64 bits so the
/// product cannot overflow.
pub fn wait_budget_ms(count: u32) -> (r: u64)
    ensures
        r == 500u64 * count as u64,
{
    500u64 * (count as u64)
}

/// One hardware keyboard event ready for the input-injection primitive: the
/// virtual key and the raw event flags.
#[derive(Clone, Copy, Debug, PartialEq, Eq, Structural)]
pub struct KeyInput {
    pub key: u32,
    pub flags: u32,
}

pub open spec fn keyboard_only(es: Seq<InputMessageModel>) -> bool {
    forall|k: int| 0 <= k < es.len() ==> (#[trigger] es[k]) is Keyboard
}

/// The keyboard events of a burst, each with its flags (absent flags mean 0).
pub open spec fn key_inputs_of(es: Seq<InputMessageModel>) -> Seq<KeyInput> {
    Seq::new(
        es.len(),
        |i: int|
            match es[i] {
                InputMessageModel::Keyboard { key, flag } => KeyInput {
                    key,
                    flags: match flag {
                        Some(f) => f,
                        None => 0,
                    },
                },
                _ => KeyInput { key: 0, flags: 0 },
            },
    )
}

/// Builds the raw event list for a keyboard-only input burst, in order, one
/// event per message, flags defaulting to 0.
pub fn build_keyboard_inputs(events: &Vec<InputMessage>) -> (r: Vec<KeyInput>)
    requires
        keyboard_only(events.deep_view()),
    ensures
        r@ == key_inputs_of(events.deep_view()),
{
    let ghost es = events.deep_view();
    let mut r: Vec<KeyInput> = Vec::new();
    let mut i: usize = 0;
    while i < events.len()
        invariant
            i <= events.len(),
            es == events.deep_view(),
            keyboard_only(es),
            r@.len() == i as nat,
            forall|k: int| 0 <= k < r@.len() ==> r@[k] == key_inputs_of(es)[k],
        decreases events.len() - i,
    {
        proof {
            assert(es[i as int] == events[i as int].deep_view());
        }
        match &events[i] {
            InputMessage::Keyboard { key, flag } => {
                let flags: u32 = match flag {
                    Some(f) => *f,
                    None => 0,
                };
                r.push(KeyInput { key: *key, flags });
            },
            _ => {
                proof {
                    assert(false);
                }
            },
        }
        i = i + 1;
    }
    proof {
        assert(r@ =~= key_inputs_of(es));
    }
    r
}

} // verus!
