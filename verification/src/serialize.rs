use vstd::prelude::*;

verus! {

use vstd::arithmetic::div_mod::lemma_fundamental_div_mod;
use crate::msg::{Message, MessageModel, WindowMessage, WindowMessageModel};
use crate::parser::{
    CommandGroup, GroupModel, ParseErrorModel, Selector, SelectorModel, VK_DOWN, VK_LEFT, VK_RIGHT,
    VK_UP, avoids, char_pos, count_of_digits, digit_val, digits_val, is_digit_char,
    is_ident_char, is_ident_start_char, keyword_vk, lemma_avoids_concat, lemma_char_pos_concat,
    lemma_digit_len_concat, lemma_ident_len_concat, parse_command, parse_commands, parse_group,
    parse_program_from, parse_selector_inner, skip_spaces, spec_parse_program, token_wm, wf_group,
    wf_message, wf_program, wf_selector, ws_count,
};

// ---------------------------------------------------------------------------
// The canonical written form of a parsed program. Re-parsing it yields the
// same groups and no errors; the round-trip lemma at the end states that.
// ---------------------------------------------------------------------------
/// The character of one decimal digit.
pub open spec fn digit_char_of(d: nat) -> char {
    if d == 0 {
        '0'
    } else if d == 1 {
        '1'
    } else if d == 2 {
        '2'
    } else if d == 3 {
        '3'
    } else if d == 4 {
        '4'
    } else if d == 5 {
        '5'
    } else if d == 6 {
        '6'
    } else if d == 7 {
        '7'
    } else if d == 8 {
        '8'
    } else {
        '9'
    }
}

/// The decimal digits of `n`, most significant first.
pub open spec fn digits_of(n: nat) -> Seq<char>
    decreases n,
{
    if n < 10 {
        seq![digit_char_of(n)]
    } else {
        digits_of(n / 10).push(digit_char_of(n % 10))
    }
}

/// The written token of a message kind the command language can express.
pub open spec fn ser_token(m: WindowMessageModel) -> Seq<char> {
    match m {
        WindowMessageModel::KeyDown(vk) => if vk == VK_UP {
            seq!['U', 'P']
        } else if vk == VK_DOWN {
            seq!['D', 'O', 'W', 'N']
        } else if vk == VK_LEFT {
            seq!['L', 'E', 'F', 'T']
        } else {
            seq!['R', 'I', 'G', 'H', 'T']
        },
        WindowMessageModel::Char(c) => seq![c],
        _ => Seq::empty(),
    }
}

/// The written form of one command: `{TOKEN COUNT}`.
pub open spec fn ser_message(m: MessageModel) -> Seq<char> {
    seq!['{'] + ser_token(m.msg) + seq![' '] + digits_of(m.count as nat) + seq!['}']
}

/// The written form of a command run, in order.
pub open spec fn ser_messages(ms: Seq<MessageModel>) -> Seq<char>
    decreases ms.len(),
{
    if ms.len() == 0 {
        Seq::empty()
    } else {
        ser_message(ms[0]) + ser_messages(ms.skip(1))
    }
}

/// The written form of a selector: `"qualifier:value"` or `"value"`.
pub open spec fn ser_selector(sel: SelectorModel) -> Seq<char> {
    seq!['"'] + ser_selector_inner(sel) + seq!['"']
}

pub open spec fn ser_selector_inner(sel: SelectorModel) -> Seq<char> {
    match sel.qualifier {
        Some(q) => q + seq![':'] + sel.value,
        None => sel.value,
    }
}

/// The written form of one group, including its terminating `;`.
pub open spec fn ser_group(g: GroupModel) -> Seq<char> {
    ser_group_body(g) + seq![';']
}

pub open spec fn ser_group_body(g: GroupModel) -> Seq<char> {
    (match g.selector {
        Some(sel) => ser_selector(sel),
        None => Seq::empty(),
    }) + ser_messages(g.commands)
}

/// The written form of a whole program.
pub open spec fn ser_program(gs: Seq<GroupModel>) -> Seq<char>
    decreases gs.len(),
{
    if gs.len() == 0 {
        Seq::empty()
    } else {
        ser_group(gs[0]) + ser_program(gs.skip(1))
    }
}

// ---------------------------------------------------------------------------
// Digit lemmas
// ---------------------------------------------------------------------------
pub proof fn lemma_digits_of(n: nat)
    ensures
        digits_of(n).len() > 0,
        forall|k: int| 0 <= k < digits_of(n).len() ==> is_digit_char(#[trigger] digits_of(n)[k]),
        digits_val(digits_of(n)) == n,
    decreases n,
{
    if n < 10 {
        assert(digits_of(n) =~= seq![digit_char_of(n)]);
        assert(digits_of(n).drop_last() =~= Seq::<char>::empty());
        assert(digits_of(n).last() == digit_char_of(n));
        assert(digits_val(Seq::<char>::empty()) == 0);
        assert(digit_val(digit_char_of(n)) == n);
    } else {
        lemma_digits_of(n / 10);
        lemma_fundamental_div_mod(n as int, 10);
        assert(digits_of(n).drop_last() =~= digits_of(n / 10));
        assert(digits_of(n).last() == digit_char_of(n % 10));
        assert(digit_val(digit_char_of(n % 10)) == n % 10);
    }
}

// ---------------------------------------------------------------------------
// The serialized pieces hold no `;`, and a selector's inside holds no `"`,
// so the program-level splits fall exactly between groups.
// ---------------------------------------------------------------------------
pub proof fn lemma_ser_token_chars(m: MessageModel)
    requires
        wf_message(m),
    ensures
        ser_token(m.msg).len() > 0,
        is_ident_start_char(ser_token(m.msg)[0]),
        forall|k: int| 0 <= k < ser_token(m.msg).len() ==> is_ident_char(#[trigger] ser_token(m.msg)[k]),
{
    let tok = ser_token(m.msg);
    match m.msg {
        WindowMessageModel::KeyDown(vk) => {
            assert forall|k: int| 0 <= k < tok.len() implies is_ident_char(#[trigger] tok[k]) by {
                assert(is_ident_char(tok[k]));
            }
        },
        WindowMessageModel::Char(c) => {
            assert(tok =~= seq![c]);
        },
        _ => {},
    }
}

pub proof fn lemma_ser_message_semi_free(m: MessageModel)
    requires
        wf_message(m),
    ensures
        avoids(ser_message(m), ';'),
        avoids(ser_message(m), '"'),
{
    let tok = ser_token(m.msg);
    let digs = digits_of(m.count as nat);
    lemma_ser_token_chars(m);
    lemma_digits_of(m.count as nat);
    let s = ser_message(m);
    assert forall|k: int| 0 <= k < s.len() implies s[k] != ';' && s[k] != '"' by {
        if k == 0 {
            assert(s[k] == '{');
        } else if k < 1 + tok.len() {
            assert(s[k] == tok[k - 1]);
        } else if k == 1 + tok.len() {
            assert(s[k] == ' ');
        } else if k < 2 + tok.len() + digs.len() {
            assert(s[k] == digs[k - 2 - tok.len()]);
        } else {
            assert(s[k] == '}');
        }
    }
}

pub proof fn lemma_ser_messages_semi_free(ms: Seq<MessageModel>)
    requires
        forall|k: int| 0 <= k < ms.len() ==> wf_message(#[trigger] ms[k]),
    ensures
        avoids(ser_messages(ms), ';'),
        avoids(ser_messages(ms), '"'),
    decreases ms.len(),
{
    if ms.len() > 0 {
        lemma_ser_message_semi_free(ms[0]);
        lemma_ser_messages_semi_free(ms.skip(1));
        lemma_avoids_concat(ser_message(ms[0]), ser_messages(ms.skip(1)), ';');
        lemma_avoids_concat(ser_message(ms[0]), ser_messages(ms.skip(1)), '"');
    }
}

pub proof fn lemma_ser_selector_inner_chars(sel: SelectorModel)
    requires
        wf_selector(sel),
    ensures
        avoids(ser_selector_inner(sel), '"'),
        avoids(ser_selector_inner(sel), ';'),
        ser_selector_inner(sel).len() > 0,
        is_ident_start_char(ser_selector_inner(sel)[0]),
{
    let inn = ser_selector_inner(sel);
    match sel.qualifier {
        Some(q) => {
            assert forall|k: int| 0 <= k < inn.len() implies inn[k] != '"' && inn[k] != ';' by {
                if k < q.len() {
                    assert(inn[k] == q[k]);
                } else if k == q.len() {
                    assert(inn[k] == ':');
                } else {
                    assert(inn[k] == sel.value[k - q.len() - 1]);
                }
            }
            assert(inn[0] == q[0]);
        },
        None => {},
    }
}

pub proof fn lemma_ser_group_body_semi_free(g: GroupModel)
    requires
        wf_group(g),
    ensures
        avoids(ser_group_body(g), ';'),
    decreases g,
{
    lemma_ser_messages_semi_free(g.commands);
    match g.selector {
        Some(sel) => {
            lemma_ser_selector_inner_chars(sel);
            let s = ser_selector(sel);
            let inn = ser_selector_inner(sel);
            assert forall|k: int| 0 <= k < s.len() implies s[k] != ';' by {
                if k == 0 {
                    assert(s[k] == '"');
                } else if k < 1 + inn.len() {
                    assert(s[k] == inn[k - 1]);
                } else {
                    assert(s[k] == '"');
                }
            }
            lemma_avoids_concat(s, ser_messages(g.commands), ';');
        },
        None => {
            assert(ser_group_body(g) =~= ser_messages(g.commands));
        },
    }
}

// ---------------------------------------------------------------------------
// Round trip: parsing reads each serialized piece back as itself.
// ---------------------------------------------------------------------------
#[verifier::rlimit(100)]
pub proof fn lemma_parse_ser_message(m: MessageModel, rest: Seq<char>)
    requires
        wf_message(m),
    ensures
        parse_command(ser_message(m) + rest) == Some((m, rest)),
        ser_message(m).len() > 0,
{
    let tok = ser_token(m.msg);
    let digs = digits_of(m.count as nat);
    lemma_ser_token_chars(m);
    lemma_digits_of(m.count as nat);
    let s = ser_message(m) + rest;
    assert(s[0] == '{');
    let tail1 = seq![' '] + digs + seq!['}'] + rest;
    assert(s.skip(1) =~= tok + tail1);
    let s1 = tok + tail1;
    assert(s1[0] == tok[0]);
    assert(tail1[0] == ' ');
    lemma_ident_len_concat(tok, tail1);
    let n = tok.len() as int;
    assert(s1.take(n) =~= tok);
    assert(s1.skip(n) =~= tail1);
    let d = digs + (seq!['}'] + rest);
    assert(tail1.skip(1) =~= d);
    assert((seq!['}'] + rest)[0] == '}');
    lemma_digit_len_concat(digs, seq!['}'] + rest);
    let nd = digs.len() as int;
    assert(d.take(nd) =~= digs);
    assert(d.skip(nd) =~= seq!['}'] + rest);
    assert(count_of_digits(digs) == m.count);
    assert((seq!['}'] + rest).skip(1) =~= rest);
    assert(token_wm(tok) == m.msg) by {
        match m.msg {
            WindowMessageModel::KeyDown(vk) => {
                assert(keyword_vk(tok) == Some(vk));
            },
            WindowMessageModel::Char(c) => {
                assert(tok =~= seq![c]);
                assert(keyword_vk(tok) is None);
            },
            _ => {},
        }
    }
}

pub proof fn lemma_parse_ser_messages(ms: Seq<MessageModel>)
    requires
        forall|k: int| 0 <= k < ms.len() ==> wf_message(#[trigger] ms[k]),
    ensures
        parse_commands(ser_messages(ms)) == Some(ms),
    decreases ms.len(),
{
    let s = ser_messages(ms);
    if ms.len() == 0 {
        assert(ws_count(s) == 0);
        assert(skip_spaces(s) =~= s);
    } else {
        let tail = ser_messages(ms.skip(1));
        lemma_parse_ser_message(ms[0], tail);
        assert(s == ser_message(ms[0]) + tail);
        assert(s[0] == '{');
        assert(ws_count(s) == 0);
        assert(skip_spaces(s) =~= s);
        assert(tail.len() < s.len());
        lemma_parse_ser_messages(ms.skip(1));
        assert(seq![ms[0]] + ms.skip(1) =~= ms);
    }
}

#[verifier::rlimit(100)]
pub proof fn lemma_parse_ser_selector(sel: SelectorModel)
    requires
        wf_selector(sel),
    ensures
        parse_selector_inner(ser_selector_inner(sel)) == Some(sel),
{
    let inn = ser_selector_inner(sel);
    lemma_ser_selector_inner_chars(sel);
    assert(ws_count(inn) == 0);
    assert(skip_spaces(inn) =~= inn);
    match sel.qualifier {
        Some(q) => {
            let after_q = seq![':'] + sel.value;
            assert(inn =~= q + after_q);
            assert(after_q[0] == ':');
            lemma_ident_len_concat(q, after_q);
            let n = q.len() as int;
            assert(inn.take(n) =~= q);
            assert(inn.skip(n) =~= after_q);
            assert(ws_count(after_q) == 0);
            assert(skip_spaces(after_q) =~= after_q);
            assert(after_q.skip(1) =~= sel.value);
            assert(ws_count(sel.value) == 0);
            assert(skip_spaces(sel.value) =~= sel.value);
            lemma_ident_len_concat(sel.value, Seq::empty());
            assert(sel.value + Seq::<char>::empty() =~= sel.value);
        },
        None => {
            lemma_ident_len_concat(sel.value, Seq::empty());
            assert(sel.value + Seq::<char>::empty() =~= sel.value);
            assert(inn.take(inn.len() as int) =~= inn);
        },
    }
}

pub proof fn lemma_parse_ser_group_body(g: GroupModel)
    requires
        wf_group(g),
    ensures
        parse_group(ser_group_body(g)) == Some(g),
{
    let body = ser_group_body(g);
    let cmds = ser_messages(g.commands);
    lemma_parse_ser_messages(g.commands);
    match g.selector {
        Some(sel) => {
            lemma_ser_selector_inner_chars(sel);
            lemma_parse_ser_selector(sel);
            let inn = ser_selector_inner(sel);
            assert(body =~= seq!['"'] + (inn + seq!['"'] + cmds));
            assert(body[0] == '"');
            assert(ws_count(body) == 0);
            assert(skip_spaces(body) =~= body);
            let inner_tail = inn + seq!['"'] + cmds;
            assert(body.skip(1) =~= inner_tail);
            lemma_char_pos_concat(inn, '"', cmds);
            let q = inn.len() as int;
            assert(inner_tail.take(q) =~= inn);
            assert(inner_tail.skip(q + 1) =~= cmds);
        },
        None => {
            assert(body =~= cmds);
            if g.commands.len() == 0 {
                assert(body.len() == 0);
                assert(ws_count(body) == 0);
                assert(skip_spaces(body) =~= body);
                assert(g.commands =~= Seq::<MessageModel>::empty());
            } else {
                lemma_ser_message_semi_free(g.commands[0]);
                assert(body[0] == '{');
                assert(ws_count(body) == 0);
                assert(skip_spaces(body) =~= body);
            }
        },
    }
}

pub proof fn lemma_parse_ser_program_from(gs: Seq<GroupModel>, offset: int)
    requires
        wf_program(gs),
    ensures
        parse_program_from(ser_program(gs), offset) == (gs, Seq::<ParseErrorModel>::empty()),
    decreases gs.len(),
{
    let s = ser_program(gs);
    if gs.len() == 0 {
        assert(s.len() == 0);
        assert(char_pos(s, ';') == 0);
        assert(ws_count(s) == 0);
        assert(skip_spaces(s) =~= s);
        assert(parse_program_from(s, offset).0 =~= gs);
    } else {
        let body = ser_group_body(gs[0]);
        let tail = ser_program(gs.skip(1));
        lemma_ser_group_body_semi_free(gs[0]);
        assert(s =~= body + seq![';'] + tail);
        lemma_char_pos_concat(body, ';', tail);
        let p = body.len() as int;
        assert(p < s.len());
        assert(s.take(p) =~= body);
        assert(s.skip(p + 1) =~= tail);
        lemma_parse_ser_group_body(gs[0]);
        lemma_parse_ser_program_from(gs.skip(1), offset + p + 1);
        assert(seq![gs[0]] + gs.skip(1) =~= gs);
        assert(Seq::<ParseErrorModel>::empty() =~= parse_program_from(s, offset).1);
    }
}

/// Round trip: the serialized form of any program the parser could have
/// produced parses back to exactly that program, with no errors.
pub proof fn lemma_parse_serialize_round_trip(gs: Seq<GroupModel>)
    requires
        wf_program(gs),
    ensures
        spec_parse_program(ser_program(gs)) == (gs, Seq::<ParseErrorModel>::empty()),
{
    lemma_parse_ser_program_from(gs, 0);
}

/// Parsing idempotence: the groups a parse produced, written back out, parse
/// to exactly those groups with no errors — whatever the original source was.
pub proof fn lemma_parse_is_idempotent(src: Seq<char>)
    ensures
        spec_parse_program(ser_program(spec_parse_program(src).0)) == (
            spec_parse_program(src).0,
            Seq::<ParseErrorModel>::empty(),
        ),
{
    crate::parser::lemma_parse_program_wf(src);
    lemma_parse_serialize_round_trip(spec_parse_program(src).0);
}

// ---------------------------------------------------------------------------
// Writing a program out
// ---------------------------------------------------------------------------
pub proof fn lemma_ser_messages_concat(a: Seq<MessageModel>, b: Seq<MessageModel>)
    ensures
        ser_messages(a + b) == ser_messages(a) + ser_messages(b),
    decreases a.len(),
{
    if a.len() == 0 {
        assert(a + b =~= b);
        assert(ser_messages(a) + ser_messages(b) =~= ser_messages(b));
    } else {
        assert((a + b)[0] == a[0]);
        assert((a + b).skip(1) =~= a.skip(1) + b);
        lemma_ser_messages_concat(a.skip(1), b);
        assert(ser_message(a[0]) + (ser_messages(a.skip(1)) + ser_messages(b)) =~= (ser_message(
            a[0],
        ) + ser_messages(a.skip(1))) + ser_messages(b));
    }
}

pub proof fn lemma_ser_program_concat(a: Seq<GroupModel>, b: Seq<GroupModel>)
    ensures
        ser_program(a + b) == ser_program(a) + ser_program(b),
    decreases a.len(),
{
    if a.len() == 0 {
        assert(a + b =~= b);
        assert(ser_program(a) + ser_program(b) =~= ser_program(b));
    } else {
        assert((a + b)[0] == a[0]);
        assert((a + b).skip(1) =~= a.skip(1) + b);
        lemma_ser_program_concat(a.skip(1), b);
        assert(ser_group(a[0]) + (ser_program(a.skip(1)) + ser_program(b)) =~= (ser_group(a[0])
            + ser_program(a.skip(1))) + ser_program(b));
    }
}

fn digit_to_char(d: u32) -> (c: char)
    requires
        d < 10,
    ensures
        c == digit_char_of(d as nat),
{
    if d == 0 {
        '0'
    } else if d == 1 {
        '1'
    } else if d == 2 {
        '2'
    } else if d == 3 {
        '3'
    } else if d == 4 {
        '4'
    } else if d == 5 {
        '5'
    } else if d == 6 {
        '6'
    } else if d == 7 {
        '7'
    } else if d == 8 {
        '8'
    } else {
        '9'
    }
}

fn push_digits(out: &mut Vec<char>, n: u32)
    ensures
        final(out)@ == old(out)@ + digits_of(n as nat),
    decreases n,
{
    if n >= 10 {
        push_digits(out, n / 10);
        let c = digit_to_char(n % 10);
        out.push(c);
        proof {
            assert(out@ =~= old(out)@ + digits_of(n as nat));
        }
    } else {
        let c = digit_to_char(n);
        out.push(c);
        proof {
            assert(out@ =~= old(out)@ + digits_of(n as nat));
        }
    }
}

fn push_str_chars(out: &mut Vec<char>, s: &String)
    ensures
        final(out)@ == old(out)@ + s@,
{
    let ghost o0 = out@;
    let st = s.as_str();
    let n = st.unicode_len();
    let mut i: usize = 0;
    while i < n
        invariant
            i <= n,
            n == st@.len(),
            st@ == s@,
            out@ == o0 + s@.take(i as int),
        decreases n - i,
    {
        let c = st.get_char(i);
        out.push(c);
        proof {
            assert(o0 + s@.take(i as int) + seq![s@[i as int]] =~= o0 + s@.take(i as int + 1));
        }
        i = i + 1;
    }
    proof {
        assert(o0 + s@.take(n as int) =~= o0 + s@);
    }
}

fn push_message(out: &mut Vec<char>, m: &Message)
    requires
        wf_message(m@),
    ensures
        final(out)@ == old(out)@ + ser_message(m@),
{
    let ghost o0 = out@;
    out.push('{');
    match &m.msg {
        WindowMessage::KeyDown(vk) => {
            if *vk == VK_UP {
                out.push('U');
                out.push('P');
            } else if *vk == VK_DOWN {
                out.push('D');
                out.push('O');
                out.push('W');
                out.push('N');
            } else if *vk == VK_LEFT {
                out.push('L');
                out.push('E');
                out.push('F');
                out.push('T');
            } else {
                out.push('R');
                out.push('I');
                out.push('G');
                out.push('H');
                out.push('T');
            }
        },
        WindowMessage::Char(c) => {
            out.push(*c);
        },
        _ => {
            proof {
                assert(false);
            }
        },
    }
    proof {
        assert(out@ =~= o0 + seq!['{'] + ser_token(m@.msg));
    }
    let ghost o1 = out@;
    out.push(' ');
    push_digits(out, m.count);
    out.push('}');
    proof {
        assert(out@ =~= o1 + seq![' '] + digits_of(m.count as nat) + seq!['}']);
        assert(out@ =~= o0 + ser_message(m@));
    }
}

fn push_group(out: &mut Vec<char>, g: &CommandGroup)
    requires
        wf_group(g@),
    ensures
        final(out)@ == old(out)@ + ser_group(g@),
{
    let ghost o0 = out@;
    match &g.selector {
        Some(sel) => {
            out.push('"');
            match &sel.qualifier {
                Some(q) => {
                    push_str_chars(out, q);
                    out.push(':');
                },
                None => {},
            }
            push_str_chars(out, &sel.value);
            out.push('"');
            proof {
                assert(out@ =~= o0 + ser_selector(sel@));
            }
        },
        None => {},
    }
    let ghost o1 = out@;
    let ghost cmds = g.commands.deep_view();
    let mut k: usize = 0;
    proof {
        assert(cmds.take(0) =~= Seq::<MessageModel>::empty());
        assert(o1 + ser_messages(cmds.take(0)) =~= o1);
    }
    while k < g.commands.len()
        invariant
            k <= g.commands.len(),
            cmds == g.commands.deep_view(),
            wf_group(g@),
            g@.commands == cmds,
            out@ == o1 + ser_messages(cmds.take(k as int)),
        decreases g.commands.len() - k,
    {
        proof {
            assert(cmds[k as int] == g.commands[k as int].deep_view());
            assert(wf_message(cmds[k as int]));
        }
        push_message(out, &g.commands[k]);
        proof {
            lemma_ser_messages_concat(cmds.take(k as int), seq![cmds[k as int]]);
            assert(cmds.take(k as int) + seq![cmds[k as int]] =~= cmds.take(k as int + 1));
            assert(seq![cmds[k as int]].skip(1) =~= Seq::<MessageModel>::empty());
            assert(ser_messages(Seq::<MessageModel>::empty()) =~= Seq::<char>::empty());
            assert(ser_messages(seq![cmds[k as int]]) =~= ser_message(cmds[k as int])
                + Seq::<char>::empty());
            assert(ser_messages(seq![cmds[k as int]]) =~= ser_message(cmds[k as int]));
            assert(out@ =~= o1 + ser_messages(cmds.take(k as int + 1)));
        }
        k = k + 1;
    }
    out.push(';');
    proof {
        assert(cmds.take(cmds.len() as int) =~= cmds);
        assert(out@ =~= o0 + ser_group(g@));
    }
}

/// Writes a program back out in the canonical form of the grammar: each group
/// as `"qualifier:value" {TOKEN COUNT}...;`. Parsing the result yields the
/// same groups and no errors (`lemma_parse_serialize_round_trip`).
pub fn serialize_program(groups: &Vec<CommandGroup>) -> (r: String)
    requires
        wf_program(groups.deep_view()),
    ensures
        r@ == ser_program(groups.deep_view()),
{
    let ghost gs = groups.deep_view();
    let mut out: Vec<char> = Vec::new();
    let mut k: usize = 0;
    proof {
        assert(gs.take(0) =~= Seq::<GroupModel>::empty());
        assert(out@ =~= Seq::<char>::empty() + ser_program(gs.take(0)));
        assert(out@ =~= ser_program(gs.take(0)));
    }
    while k < groups.len()
        invariant
            k <= groups.len(),
            gs == groups.deep_view(),
            wf_program(gs),
            out@ == ser_program(gs.take(k as int)),
        decreases groups.len() - k,
    {
        proof {
            assert(gs[k as int] == groups[k as int].deep_view());
            assert(wf_group(gs[k as int]));
        }
        push_group(&mut out, &groups[k]);
        proof {
            lemma_ser_program_concat(gs.take(k as int), seq![gs[k as int]]);
            assert(gs.take(k as int) + seq![gs[k as int]] =~= gs.take(k as int + 1));
            assert(seq![gs[k as int]].skip(1) =~= Seq::<GroupModel>::empty());
            assert(ser_program(Seq::<GroupModel>::empty()) =~= Seq::<char>::empty());
            assert(ser_program(seq![gs[k as int]]) =~= ser_group(gs[k as int])
                + Seq::<char>::empty());
            assert(ser_program(seq![gs[k as int]]) =~= ser_group(gs[k as int]));
            assert(out@ =~= ser_program(gs.take(k as int + 1)));
        }
        k = k + 1;
    }
    proof {
        assert(gs.take(gs.len() as int) =~= gs);
    }
    crate::parser::chars_to_string(&out)
}

} // verus!
