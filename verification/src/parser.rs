use vstd::prelude::*;

verus! {

use crate::msg::{Message, MessageModel, WindowMessage, WindowMessageModel};

/// Virtual key codes for the four keyword tokens of the command language.
pub const VK_LEFT: u32 = 0x25;

pub const VK_UP: u32 = 0x26;

pub const VK_RIGHT: u32 = 0x27;

pub const VK_DOWN: u32 = 0x28;

/// Picks one window out of a candidate set: an optional qualifier
/// (`caption` or `class`; absent means class-name matching) and the text the
/// chosen attribute must equal.
#[derive(Clone, Debug, PartialEq)]
pub struct Selector {
    pub qualifier: Option<String>,
    pub value: String,
}

/// One selector-scoped batch of commands; a parsed program is an ordered
/// sequence of these, executed in source order. A group without a selector
/// applies to an externally supplied default target.
#[derive(Clone, Debug, PartialEq)]
pub struct CommandGroup {
    pub selector: Option<Selector>,
    pub commands: Vec<Message>,
}

/// Why a piece of the source failed to parse.
#[derive(Clone, Copy, Debug, PartialEq, Eq, Structural)]
pub enum ParseReason {
    /// A group segment (the text before a `;`) did not match the grammar.
    MalformedGroup,
    /// Non-whitespace text after the last `;` was left over.
    TrailingInput,
}

/// One recoverable parse error: the character span `[start, end)` of the
/// offending text in the source, and the reason.
#[derive(Clone, Copy, Debug, PartialEq, Eq, Structural)]
pub struct ParseError {
    pub start: usize,
    pub end: usize,
    pub reason: ParseReason,
}

/// Mathematical model of a [`Selector`].
pub ghost struct SelectorModel {
    pub qualifier: Option<Seq<char>>,
    pub value: Seq<char>,
}

/// Mathematical model of a [`CommandGroup`].
pub ghost struct GroupModel {
    pub selector: Option<SelectorModel>,
    pub commands: Seq<MessageModel>,
}

/// Mathematical model of a [`ParseError`].
pub ghost struct ParseErrorModel {
    pub start: int,
    pub end: int,
    pub reason: ParseReason,
}

impl View for Selector {
    type V = SelectorModel;

    open spec fn view(&self) -> SelectorModel {
        SelectorModel { qualifier: self.qualifier.deep_view(), value: self.value@ }
    }
}

impl DeepView for Selector {
    type V = SelectorModel;

    open spec fn deep_view(&self) -> SelectorModel {
        self.view()
    }
}

impl View for CommandGroup {
    type V = GroupModel;

    open spec fn view(&self) -> GroupModel {
        GroupModel { selector: self.selector.deep_view(), commands: self.commands.deep_view() }
    }
}

impl DeepView for CommandGroup {
    type V = GroupModel;

    open spec fn deep_view(&self) -> GroupModel {
        self.view()
    }
}

impl View for ParseError {
    type V = ParseErrorModel;

    open spec fn view(&self) -> ParseErrorModel {
        ParseErrorModel { start: self.start as int, end: self.end as int, reason: self.reason }
    }
}

impl DeepView for ParseError {
    type V = ParseErrorModel;

    open spec fn deep_view(&self) -> ParseErrorModel {
        self.view()
    }
}

// ---------------------------------------------------------------------------
// Character classes
// ---------------------------------------------------------------------------
pub open spec fn is_space_char(c: char) -> bool {
    c == ' ' || c == '\t' || c == '\n' || c == '\r'
}

pub open spec fn is_digit_char(c: char) -> bool {
    '0' <= c && c <= '9'
}

pub open spec fn is_ident_start_char(c: char) -> bool {
    ('a' <= c && c <= 'z') || ('A' <= c && c <= 'Z') || c == '_'
}

pub open spec fn is_ident_char(c: char) -> bool {
    is_ident_start_char(c) || is_digit_char(c)
}

pub open spec fn digit_val(c: char) -> nat {
    if is_digit_char(c) {
        (c as u32 - 0x30) as nat
    } else {
        0
    }
}

// ---------------------------------------------------------------------------
// Scanning: maximal prefixes and first occurrences
// ---------------------------------------------------------------------------
/// Length of the maximal whitespace prefix of `s`.
pub open spec fn ws_count(s: Seq<char>) -> nat
    decreases s.len(),
{
    if s.len() > 0 && is_space_char(s[0]) {
        1 + ws_count(s.skip(1))
    } else {
        0
    }
}

/// `s` with its maximal whitespace prefix removed.
pub open spec fn skip_spaces(s: Seq<char>) -> Seq<char> {
    s.skip(ws_count(s) as int)
}

/// Length of the maximal identifier-character prefix of `s`.
pub open spec fn ident_len(s: Seq<char>) -> nat
    decreases s.len(),
{
    if s.len() > 0 && is_ident_char(s[0]) {
        1 + ident_len(s.skip(1))
    } else {
        0
    }
}

/// Length of the maximal digit prefix of `s`.
pub open spec fn digit_len(s: Seq<char>) -> nat
    decreases s.len(),
{
    if s.len() > 0 && is_digit_char(s[0]) {
        1 + digit_len(s.skip(1))
    } else {
        0
    }
}

/// Index of the first occurrence of `c` in `s`, or `s.len()` when absent.
pub open spec fn char_pos(s: Seq<char>, c: char) -> nat
    decreases s.len(),
{
    if s.len() == 0 {
        0
    } else if s[0] == c {
        0
    } else {
        1 + char_pos(s.skip(1), c)
    }
}

/// Numeric value of a digit string, most significant digit first.
pub open spec fn digits_val(s: Seq<char>) -> nat
    decreases s.len(),
{
    if s.len() == 0 {
        0
    } else {
        digits_val(s.drop_last()) * 10 + digit_val(s.last())
    }
}

/// The repeat count a digit string denotes: its value when that fits in a
/// `u32`, and 1 otherwise (an unparseable count falls back to the default).
pub open spec fn count_of_digits(s: Seq<char>) -> u32 {
    if digits_val(s) <= u32::MAX {
        digits_val(s) as u32
    } else {
        1u32
    }
}

// ---------------------------------------------------------------------------
// Tokens
// ---------------------------------------------------------------------------
pub open spec fn is_kw_up(w: Seq<char>) -> bool {
    w.len() == 2 && (w[0] == 'U' || w[0] == 'u') && (w[1] == 'P' || w[1] == 'p')
}

pub open spec fn is_kw_down(w: Seq<char>) -> bool {
    w.len() == 4 && (w[0] == 'D' || w[0] == 'd') && (w[1] == 'O' || w[1] == 'o') && (w[2] == 'W'
        || w[2] == 'w') && (w[3] == 'N' || w[3] == 'n')
}

pub open spec fn is_kw_left(w: Seq<char>) -> bool {
    w.len() == 4 && (w[0] == 'L' || w[0] == 'l') && (w[1] == 'E' || w[1] == 'e') && (w[2] == 'F'
        || w[2] == 'f') && (w[3] == 'T' || w[3] == 't')
}

pub open spec fn is_kw_right(w: Seq<char>) -> bool {
    w.len() == 5 && (w[0] == 'R' || w[0] == 'r') && (w[1] == 'I' || w[1] == 'i') && (w[2] == 'G'
        || w[2] == 'g') && (w[3] == 'H' || w[3] == 'h') && (w[4] == 'T' || w[4] == 't')
}

/// The virtual key a keyword token stands for, if the token is a keyword.
pub open spec fn keyword_vk(w: Seq<char>) -> Option<u32> {
    if is_kw_up(w) {
        Some(VK_UP)
    } else if is_kw_down(w) {
        Some(VK_DOWN)
    } else if is_kw_left(w) {
        Some(VK_LEFT)
    } else if is_kw_right(w) {
        Some(VK_RIGHT)
    } else {
        None
    }
}

/// The message a token denotes: keywords (matched case-insensitively) become
/// key-down messages; any other token becomes a character message carrying
/// only its first character.
pub open spec fn token_wm(w: Seq<char>) -> WindowMessageModel {
    match keyword_vk(w) {
        Some(vk) => WindowMessageModel::KeyDown(vk),
        None => WindowMessageModel::Char(w[0]),
    }
}

// ---------------------------------------------------------------------------
// Grammar
//
//   program  := (group ';')*           trailing whitespace allowed
//   group    := selector? command*
//   selector := '"' (qualifier ws ':')? ws value '"'
//   command  := '{'? token (' ' count?)? '}'?    surrounded by whitespace
//   token    := identifier
//   count    := integer
//
// Each spec function consumes a prefix of its input and, where parsing can
// continue, hands back the remaining suffix.
// ---------------------------------------------------------------------------
/// Parses one command at the head of `s` (no leading whitespace expected).
/// Consumes an optional `{`, an identifier token, an optional count set off by
/// a single space, and an optional `}`.
pub open spec fn parse_command(s: Seq<char>) -> Option<(MessageModel, Seq<char>)> {
    let s1 = if s.len() > 0 && s[0] == '{' {
        s.skip(1)
    } else {
        s
    };
    if s1.len() > 0 && is_ident_start_char(s1[0]) {
        let n = ident_len(s1) as int;
        let w = s1.take(n);
        let s2 = s1.skip(n);
        let (count, s3) = if s2.len() > 0 && s2[0] == ' ' {
            let d = s2.skip(1);
            let k = digit_len(d) as int;
            if k > 0 {
                (count_of_digits(d.take(k)), d.skip(k))
            } else {
                (1u32, d)
            }
        } else {
            (1u32, s2)
        };
        let s4 = if s3.len() > 0 && s3[0] == '}' {
            s3.skip(1)
        } else {
            s3
        };
        Some((MessageModel { msg: token_wm(w), count }, s4))
    } else {
        None
    }
}

/// Parses a whitespace-separated run of commands filling all of `s`.
pub open spec fn parse_commands(s: Seq<char>) -> Option<Seq<MessageModel>>
    decreases s.len(),
{
    let t = skip_spaces(s);
    if t.len() == 0 {
        Some(Seq::empty())
    } else {
        match parse_command(t) {
            None => None,
            Some((m, rest)) => if rest.len() < s.len() {
                match parse_commands(rest) {
                    None => None,
                    Some(ms) => Some(seq![m] + ms),
                }
            } else {
                // parse_command always consumes at least one character, so
                // this branch is unreachable; it keeps the recursion visibly
                // well-founded.
                None
            },
        }
    }
}

/// Parses the text between a selector's quotes: an optional qualifier
/// identifier followed by `:`, then the value identifier, which must end the
/// text.
pub open spec fn parse_selector_inner(inn: Seq<char>) -> Option<SelectorModel> {
    let t = skip_spaces(inn);
    if t.len() > 0 && is_ident_start_char(t[0]) {
        let n = ident_len(t) as int;
        let w = t.take(n);
        let u = skip_spaces(t.skip(n));
        if u.len() > 0 && u[0] == ':' {
            let v = skip_spaces(u.skip(1));
            if v.len() > 0 && is_ident_start_char(v[0]) {
                let n2 = ident_len(v) as int;
                if n2 == v.len() {
                    Some(SelectorModel { qualifier: Some(w), value: v })
                } else {
                    None
                }
            } else {
                None
            }
        } else if n == t.len() {
            Some(SelectorModel { qualifier: None, value: w })
        } else {
            None
        }
    } else {
        None
    }
}

/// Parses one group segment (the text before a `;`): an optional quoted
/// selector followed by the group's commands.
pub open spec fn parse_group(seg: Seq<char>) -> Option<GroupModel> {
    let t = skip_spaces(seg);
    if t.len() > 0 && t[0] == '"' {
        let body = t.skip(1);
        let q = char_pos(body, '"') as int;
        if q < body.len() {
            match parse_selector_inner(body.take(q)) {
                None => None,
                Some(sel) => match parse_commands(body.skip(q + 1)) {
                    None => None,
                    Some(cmds) => Some(GroupModel { selector: Some(sel), commands: cmds }),
                },
            }
        } else {
            // Unterminated selector quote.
            None
        }
    } else {
        match parse_commands(t) {
            None => None,
            Some(cmds) => Some(GroupModel { selector: None, commands: cmds }),
        }
    }
}

/// Parses the whole program in `s`, whose first character sits at position
/// `offset` of the original source. Groups are the text between `;`
/// separators; a malformed group becomes one error and parsing continues with
/// the next group. Text after the last `;` must be whitespace.
pub open spec fn parse_program_from(s: Seq<char>, offset: int) -> (Seq<GroupModel>, Seq<
    ParseErrorModel,
>)
    decreases s.len(),
{
    let p = char_pos(s, ';') as int;
    if p >= s.len() {
        if skip_spaces(s).len() == 0 {
            (Seq::empty(), Seq::empty())
        } else {
            (
                Seq::empty(),
                seq![
                    ParseErrorModel {
                        start: offset,
                        end: offset + s.len(),
                        reason: ParseReason::TrailingInput,
                    },
                ],
            )
        }
    } else {
        let rest = parse_program_from(s.skip(p + 1), offset + p + 1);
        match parse_group(s.take(p)) {
            Some(g) => (seq![g] + rest.0, rest.1),
            None => (
                rest.0,
                seq![
                    ParseErrorModel { start: offset, end: offset + p, reason: ParseReason::MalformedGroup },
                ] + rest.1,
            ),
        }
    }
}

/// The meaning of a source text: the groups that parsed, in source order, and
/// one error for each malformed piece.
pub open spec fn spec_parse_program(s: Seq<char>) -> (Seq<GroupModel>, Seq<ParseErrorModel>) {
    parse_program_from(s, 0)
}

// ---------------------------------------------------------------------------
// What a parse can produce
// ---------------------------------------------------------------------------
/// A non-empty identifier: a letter or underscore followed by identifier
/// characters.
pub open spec fn wf_ident(w: Seq<char>) -> bool {
    w.len() > 0 && is_ident_start_char(w[0]) && forall|k: int|
        0 <= k < w.len() ==> is_ident_char(#[trigger] w[k])
}

/// A message the grammar can denote: one of the four keyword keys, or a
/// character command whose character could begin a token.
pub open spec fn wf_message(m: MessageModel) -> bool {
    match m.msg {
        WindowMessageModel::KeyDown(vk) => vk == VK_UP || vk == VK_DOWN || vk == VK_LEFT || vk
            == VK_RIGHT,
        WindowMessageModel::Char(c) => is_ident_start_char(c),
        _ => false,
    }
}

pub open spec fn wf_selector(sel: SelectorModel) -> bool {
    &&& match sel.qualifier {
        Some(q) => wf_ident(q),
        None => true,
    }
    &&& wf_ident(sel.value)
}

pub open spec fn wf_group(g: GroupModel) -> bool {
    &&& match g.selector {
        Some(sel) => wf_selector(sel),
        None => true,
    }
    &&& forall|k: int| 0 <= k < g.commands.len() ==> wf_message(#[trigger] g.commands[k])
}

pub open spec fn wf_program(gs: Seq<GroupModel>) -> bool {
    forall|k: int| 0 <= k < gs.len() ==> wf_group(#[trigger] gs[k])
}

/// `s` never holds the character `c`.
pub open spec fn avoids(s: Seq<char>, c: char) -> bool {
    forall|k: int| 0 <= k < s.len() ==> s[k] != c
}

// ---------------------------------------------------------------------------
// Scanning lemmas
// ---------------------------------------------------------------------------
pub proof fn lemma_ws_count_le(s: Seq<char>)
    ensures
        ws_count(s) <= s.len(),
    decreases s.len(),
{
    if s.len() > 0 && is_space_char(s[0]) {
        lemma_ws_count_le(s.skip(1));
    }
}

pub proof fn lemma_ident_len_le(s: Seq<char>)
    ensures
        ident_len(s) <= s.len(),
    decreases s.len(),
{
    if s.len() > 0 && is_ident_char(s[0]) {
        lemma_ident_len_le(s.skip(1));
    }
}

pub proof fn lemma_digit_len_le(s: Seq<char>)
    ensures
        digit_len(s) <= s.len(),
    decreases s.len(),
{
    if s.len() > 0 && is_digit_char(s[0]) {
        lemma_digit_len_le(s.skip(1));
    }
}

pub proof fn lemma_char_pos_le(s: Seq<char>, c: char)
    ensures
        char_pos(s, c) <= s.len(),
        char_pos(s, c) < s.len() ==> s[char_pos(s, c) as int] == c,
    decreases s.len(),
{
    if s.len() > 0 && s[0] != c {
        lemma_char_pos_le(s.skip(1), c);
    }
}

/// Skipping spaces leaves nothing more to skip.
pub proof fn lemma_skip_spaces_nows(s: Seq<char>)
    ensures
        ws_count(skip_spaces(s)) == 0,
        skip_spaces(skip_spaces(s)) == skip_spaces(s),
    decreases s.len(),
{
    lemma_ws_count_le(s);
    if s.len() > 0 && is_space_char(s[0]) {
        lemma_ws_count_le(s.skip(1));
        lemma_skip_spaces_nows(s.skip(1));
        assert(skip_spaces(s) =~= skip_spaces(s.skip(1)));
    } else {
        assert(skip_spaces(s) =~= s);
    }
    let t = skip_spaces(s);
    assert(t.skip(0) =~= t);
}

/// Leading whitespace does not change the commands a text parses to.
pub proof fn lemma_parse_commands_skip_spaces(s: Seq<char>)
    ensures
        parse_commands(skip_spaces(s)) == parse_commands(s),
{
    lemma_skip_spaces_nows(s);
    lemma_ws_count_le(s);
    let t = skip_spaces(s);
    if t.len() > 0 {
        match parse_command(t) {
            None => {},
            Some(pr) => {
                lemma_parse_command_progress(t);
            },
        }
    }
}

/// A successful `parse_command` consumes at least one character.
pub proof fn lemma_parse_command_progress(s: Seq<char>)
    requires
        parse_command(s) is Some,
    ensures
        parse_command(s) matches Some(pr) ==> pr.1.len() < s.len(),
{
    let s1 = if s.len() > 0 && s[0] == '{' {
        s.skip(1)
    } else {
        s
    };
    lemma_ident_len_le(s1);
    let n = ident_len(s1) as int;
    let s2 = s1.skip(n);
    if s2.len() > 0 && s2[0] == ' ' {
        let d = s2.skip(1);
        lemma_digit_len_le(d);
    }
}

// ---------------------------------------------------------------------------
// The executable parser. Each function's contract ties it to the grammar
// functions above; positions index into the shared character buffer, and
// `v@.skip(i)` is the suffix a spec function speaks of.
// ---------------------------------------------------------------------------
fn space_char(c: char) -> (r: bool)
    ensures
        r == is_space_char(c),
{
    c == ' ' || c == '\t' || c == '\n' || c == '\r'
}

fn digit_char(c: char) -> (r: bool)
    ensures
        r == is_digit_char(c),
{
    '0' <= c && c <= '9'
}

fn ident_start_char(c: char) -> (r: bool)
    ensures
        r == is_ident_start_char(c),
{
    ('a' <= c && c <= 'z') || ('A' <= c && c <= 'Z') || c == '_'
}

fn ident_char(c: char) -> (r: bool)
    ensures
        r == is_ident_char(c),
{
    ident_start_char(c) || digit_char(c)
}

/// First position at or after `i` whose character is not whitespace.
fn skip_spaces_at(v: &Vec<char>, i: usize) -> (j: usize)
    requires
        i <= v@.len(),
    ensures
        i <= j <= v@.len(),
        j as int == i + ws_count(v@.skip(i as int)),
        v@.skip(j as int) == skip_spaces(v@.skip(i as int)),
{
    let ghost s0 = v@.skip(i as int);
    let mut j: usize = i;
    while j < v.len() && space_char(v[j])
        invariant
            i <= j <= v@.len(),
            ws_count(s0) == (j - i) + ws_count(v@.skip(j as int)),
            s0 == v@.skip(i as int),
        decreases v@.len() - j,
    {
        proof {
            let t = v@.skip(j as int);
            assert(t[0] == v@[j as int]);
            assert(t.skip(1) =~= v@.skip(j as int + 1));
        }
        j = j + 1;
    }
    proof {
        let t = v@.skip(j as int);
        if j < v@.len() {
            assert(t[0] == v@[j as int]);
        }
        assert(ws_count(t) == 0);
        assert(s0.skip(ws_count(s0) as int) =~= v@.skip(j as int));
    }
    j
}

/// First position at or after `i` whose character is not an identifier
/// character.
fn ident_end_at(v: &Vec<char>, i: usize) -> (j: usize)
    requires
        i <= v@.len(),
    ensures
        i <= j <= v@.len(),
        j as int == i + ident_len(v@.skip(i as int)),
{
    let ghost s0 = v@.skip(i as int);
    let mut j: usize = i;
    while j < v.len() && ident_char(v[j])
        invariant
            i <= j <= v@.len(),
            ident_len(s0) == (j - i) + ident_len(v@.skip(j as int)),
            s0 == v@.skip(i as int),
        decreases v@.len() - j,
    {
        proof {
            let t = v@.skip(j as int);
            assert(t[0] == v@[j as int]);
            assert(t.skip(1) =~= v@.skip(j as int + 1));
        }
        j = j + 1;
    }
    proof {
        let t = v@.skip(j as int);
        if j < v@.len() {
            assert(t[0] == v@[j as int]);
        }
        assert(ident_len(t) == 0);
    }
    j
}

/// First position at or after `i` whose character is not a digit.
fn digit_end_at(v: &Vec<char>, i: usize) -> (j: usize)
    requires
        i <= v@.len(),
    ensures
        i <= j <= v@.len(),
        j as int == i + digit_len(v@.skip(i as int)),
{
    let ghost s0 = v@.skip(i as int);
    let mut j: usize = i;
    while j < v.len() && digit_char(v[j])
        invariant
            i <= j <= v@.len(),
            digit_len(s0) == (j - i) + digit_len(v@.skip(j as int)),
            s0 == v@.skip(i as int),
        decreases v@.len() - j,
    {
        proof {
            let t = v@.skip(j as int);
            assert(t[0] == v@[j as int]);
            assert(t.skip(1) =~= v@.skip(j as int + 1));
        }
        j = j + 1;
    }
    proof {
        let t = v@.skip(j as int);
        if j < v@.len() {
            assert(t[0] == v@[j as int]);
        }
        assert(digit_len(t) == 0);
    }
    j
}

/// First position at or after `i` holding character `c`, or the length when
/// there is none.
fn find_char_at(v: &Vec<char>, i: usize, c: char) -> (j: usize)
    requires
        i <= v@.len(),
    ensures
        i <= j <= v@.len(),
        j as int == i + char_pos(v@.skip(i as int), c),
        j < v@.len() ==> v@[j as int] == c,
{
    let ghost s0 = v@.skip(i as int);
    let mut j: usize = i;
    while j < v.len() && v[j] != c
        invariant
            i <= j <= v@.len(),
            char_pos(s0, c) == (j - i) + char_pos(v@.skip(j as int), c),
            s0 == v@.skip(i as int),
        decreases v@.len() - j,
    {
        proof {
            let t = v@.skip(j as int);
            assert(t[0] == v@[j as int]);
            assert(t.skip(1) =~= v@.skip(j as int + 1));
        }
        j = j + 1;
    }
    proof {
        let t = v@.skip(j as int);
        if j < v@.len() {
            assert(t[0] == v@[j as int]);
        }
        assert(char_pos(t, c) == 0);
    }
    j
}

/// Reads the digit run `[i, end)` as a repeat count, falling back to 1 when
/// the value does not fit in a `u32`.
fn read_count(v: &Vec<char>, i: usize, end: usize) -> (r: u32)
    requires
        i <= end <= v@.len(),
    ensures
        r == count_of_digits(v@.subrange(i as int, end as int)),
{
    let mut val: u64 = 0;
    let mut j: usize = i;
    while j < end
        invariant
            i <= j <= end <= v@.len(),
            val <= u32::MAX as u64 + 1,
            (val == digits_val(v@.subrange(i as int, j as int)) && digits_val(
                v@.subrange(i as int, j as int),
            ) <= u32::MAX) || (val == u32::MAX as u64 + 1 && digits_val(
                v@.subrange(i as int, j as int),
            ) > u32::MAX),
        decreases end - j,
    {
        let ghost pre = v@.subrange(i as int, j as int);
        let ghost post = v@.subrange(i as int, j as int + 1);
        proof {
            assert(post.drop_last() =~= pre);
            assert(post.last() == v@[j as int]);
            assert(digits_val(post) == digits_val(pre) * 10 + digit_val(v@[j as int]));
        }
        let c = v[j];
        let d: u64 = if digit_char(c) {
            (c as u32 - 0x30) as u64
        } else {
            0
        };
        proof {
            assert(d == digit_val(v@[j as int]));
            assert(d <= 9);
        }
        val = val * 10 + d;
        if val > 0xFFFF_FFFFu64 {
            val = 0x1_0000_0000u64;
        }
        proof {
            if digits_val(pre) > u32::MAX {
                assert(digits_val(post) >= digits_val(pre) * 10);
                assert(digits_val(pre) * 10 > u32::MAX);
            }
        }
        j = j + 1;
    }
    if val <= 0xFFFF_FFFFu64 {
        val as u32
    } else {
        1u32
    }
}

/// Matches the token `[start, end)` against the keyword set,
/// case-insensitively.
fn keyword_vk_at(v: &Vec<char>, start: usize, end: usize) -> (r: Option<u32>)
    requires
        start <= end <= v@.len(),
    ensures
        r == keyword_vk(v@.subrange(start as int, end as int)),
{
    let ghost w = v@.subrange(start as int, end as int);
    let n = end - start;
    if n == 2 && (v[start] == 'U' || v[start] == 'u') && (v[start + 1] == 'P' || v[start + 1]
        == 'p') {
        Some(VK_UP)
    } else if n == 4 && (v[start] == 'D' || v[start] == 'd') && (v[start + 1] == 'O' || v[start
        + 1] == 'o') && (v[start + 2] == 'W' || v[start + 2] == 'w') && (v[start + 3] == 'N'
        || v[start + 3] == 'n') {
        Some(VK_DOWN)
    } else if n == 4 && (v[start] == 'L' || v[start] == 'l') && (v[start + 1] == 'E' || v[start
        + 1] == 'e') && (v[start + 2] == 'F' || v[start + 2] == 'f') && (v[start + 3] == 'T'
        || v[start + 3] == 't') {
        Some(VK_LEFT)
    } else if n == 5 && (v[start] == 'R' || v[start] == 'r') && (v[start + 1] == 'I' || v[start
        + 1] == 'i') && (v[start + 2] == 'G' || v[start + 2] == 'g') && (v[start + 3] == 'H'
        || v[start + 3] == 'h') && (v[start + 4] == 'T' || v[start + 4] == 't') {
        Some(VK_RIGHT)
    } else {
        None
    }
}

/// Parses one command starting exactly at position `i`.
#[verifier::rlimit(60)]
fn parse_command_at(v: &Vec<char>, i: usize) -> (r: Option<(Message, usize)>)
    requires
        i <= v@.len(),
    ensures
        match r {
            Some(p) => {
                &&& i < p.1 <= v@.len()
                &&& parse_command(v@.skip(i as int)) == Some((p.0@, v@.skip(p.1 as int)))
            },
            None => parse_command(v@.skip(i as int)) is None,
        },
{
    let ghost s = v@.skip(i as int);
    let i1: usize = if i < v.len() && v[i] == '{' {
        i + 1
    } else {
        i
    };
    let ghost s1 = if s.len() > 0 && s[0] == '{' {
        s.skip(1)
    } else {
        s
    };
    proof {
        if s.len() > 0 {
            assert(s[0] == v@[i as int]);
            assert(s.skip(1) =~= v@.skip(i as int + 1));
        }
        assert(s1 == v@.skip(i1 as int));
    }
    if i1 >= v.len() || !ident_start_char(v[i1]) {
        proof {
            if s1.len() > 0 {
                assert(s1[0] == v@[i1 as int]);
            }
        }
        return None;
    }
    proof {
        assert(s1[0] == v@[i1 as int]);
    }
    let e = ident_end_at(v, i1);
    let ghost n = ident_len(s1) as int;
    let ghost w = s1.take(n);
    proof {
        lemma_ident_len_le(s1);
        assert(w =~= v@.subrange(i1 as int, e as int));
        assert(s1.skip(n) =~= v@.skip(e as int));
        assert(w.len() > 0);
        assert(i < e);
    }
    let vk = keyword_vk_at(v, i1, e);
    let msg = match vk {
        Some(code) => WindowMessage::KeyDown(code),
        None => WindowMessage::Char(v[i1]),
    };
    proof {
        assert(w[0] == v@[i1 as int]);
        assert(msg@ == token_wm(w));
    }
    let ghost s2 = s1.skip(n);
    let mut count: u32 = 1;
    let mut k: usize = e;
    if e < v.len() && v[e] == ' ' {
        proof {
            assert(s2[0] == v@[e as int]);
            assert(s2.skip(1) =~= v@.skip(e as int + 1));
        }
        let ghost d = s2.skip(1);
        let d_end = digit_end_at(v, e + 1);
        proof {
            lemma_digit_len_le(d);
        }
        if d_end > e + 1 {
            let ghost dk = digit_len(d) as int;
            proof {
                assert(d.take(dk) =~= v@.subrange(e as int + 1, d_end as int));
                assert(d.skip(dk) =~= v@.skip(d_end as int));
            }
            count = read_count(v, e + 1, d_end);
            k = d_end;
        } else {
            count = 1;
            k = e + 1;
        }
    } else {
        proof {
            if s2.len() > 0 {
                assert(s2[0] == v@[e as int]);
            }
        }
    }
    let ghost s3 = v@.skip(k as int);
    let k2: usize = if k < v.len() && v[k] == '}' {
        k + 1
    } else {
        k
    };
    proof {
        if s3.len() > 0 {
            assert(s3[0] == v@[k as int]);
            assert(s3.skip(1) =~= v@.skip(k as int + 1));
        }
    }
    Some((Message { msg, count }, k2))
}

/// Prepends `a` to a command-run result, propagating failure.
pub open spec fn opt_prepend(a: Seq<MessageModel>, o: Option<Seq<MessageModel>>) -> Option<
    Seq<MessageModel>,
> {
    match o {
        None => None,
        Some(r) => Some(a + r),
    }
}

/// Parses the whitespace-separated run of commands in `[i, v.len())`.
fn parse_commands_at(v: &Vec<char>, i: usize) -> (r: Option<Vec<Message>>)
    requires
        i <= v@.len(),
    ensures
        match r {
            Some(cmds) => parse_commands(v@.skip(i as int)) == Some(cmds.deep_view()),
            None => parse_commands(v@.skip(i as int)) is None,
        },
{
    let ghost start = i as int;
    let mut acc: Vec<Message> = Vec::new();
    let mut j = skip_spaces_at(v, i);
    proof {
        assert(acc.deep_view() =~= Seq::<MessageModel>::empty());
        lemma_skip_spaces_nows(v@.skip(start));
        lemma_parse_commands_skip_spaces(v@.skip(start));
        match parse_commands(v@.skip(j as int)) {
            None => {},
            Some(r) => {
                assert(Seq::<MessageModel>::empty() + r =~= r);
            },
        }
    }
    while j < v.len()
        invariant
            start == i as int,
            j <= v@.len(),
            v@.skip(j as int) == skip_spaces(v@.skip(j as int)),
            parse_commands(v@.skip(start)) == opt_prepend(
                acc.deep_view(),
                parse_commands(v@.skip(j as int)),
            ),
        decreases v@.len() - j,
    {
        let ghost t = v@.skip(j as int);
        proof {
            lemma_ws_count_le(t);
            assert(skip_spaces(t) == t);
        }
        match parse_command_at(v, j) {
            None => {
                proof {
                    assert(t.len() > 0);
                    assert(parse_commands(t) is None);
                }
                return None;
            },
            Some((m, k)) => {
                proof {
                    assert(parse_command(t) == Some((m@, v@.skip(k as int))));
                    lemma_parse_command_progress(t);
                }
                let ghost old_acc = acc.deep_view();
                acc.push(m);
                proof {
                    assert(acc.deep_view() =~= old_acc.push(m@));
                }
                let j2 = skip_spaces_at(v, k);
                proof {
                    let rest = v@.skip(k as int);
                    let t2 = v@.skip(j2 as int);
                    lemma_skip_spaces_nows(rest);
                    lemma_parse_commands_skip_spaces(rest);
                    // parse_commands(t) unrolls to m followed by the commands
                    // in rest; skipping spaces in rest does not change them.
                    assert(rest.len() < t.len());
                    assert(parse_commands(t) == opt_prepend(seq![m@], parse_commands(rest)));
                    assert(parse_commands(rest) == parse_commands(t2));
                    match parse_commands(t2) {
                        None => {},
                        Some(r) => {
                            assert(old_acc + (seq![m@] + r) =~= old_acc.push(m@) + r);
                        },
                    }
                    assert(parse_commands(v@.skip(start)) == opt_prepend(
                        acc.deep_view(),
                        parse_commands(t2),
                    ));
                }
                j = j2;
            },
        }
    }
    proof {
        let t = v@.skip(j as int);
        assert(t.len() == 0);
        assert(skip_spaces(t) =~= t);
        assert(parse_commands(t) == Some(Seq::<MessageModel>::empty()));
        assert(acc.deep_view() + Seq::<MessageModel>::empty() =~= acc.deep_view());
    }
    Some(acc)
}

/// Relies on std's `FromIterator` impl for `String`: collecting characters
/// yields the string of exactly those characters, in order.
#[verifier::external_body]
pub(crate) fn chars_to_string(v: &Vec<char>) -> (s: String)
    ensures
        s@ == v@,
{
    v.iter().collect()
}

/// Copies the characters `[a, b)` out of `v`.
fn copy_range(v: &Vec<char>, a: usize, b: usize) -> (r: Vec<char>)
    requires
        a <= b <= v@.len(),
    ensures
        r@ == v@.subrange(a as int, b as int),
{
    let mut r: Vec<char> = Vec::new();
    let mut j: usize = a;
    while j < b
        invariant
            a <= j <= b <= v@.len(),
            r@ == v@.subrange(a as int, j as int),
        decreases b - j,
    {
        r.push(v[j]);
        proof {
            assert(r@ =~= v@.subrange(a as int, j as int + 1));
        }
        j = j + 1;
    }
    r
}

/// The characters of `s`, in order.
fn str_to_chars(s: &str) -> (r: Vec<char>)
    ensures
        r@ == s@,
{
    let n = s.unicode_len();
    let mut r: Vec<char> = Vec::new();
    let mut i: usize = 0;
    while i < n
        invariant
            i <= n,
            n == s@.len(),
            r@ == s@.take(i as int),
        decreases n - i,
    {
        let c = s.get_char(i);
        r.push(c);
        proof {
            assert(r@ =~= s@.take(i as int + 1));
        }
        i = i + 1;
    }
    proof {
        assert(s@.take(n as int) =~= s@);
    }
    r
}

/// Parses the text between a selector's quotes.
fn parse_selector_vec(inn: &Vec<char>) -> (r: Option<Selector>)
    ensures
        match r {
            Some(sel) => parse_selector_inner(inn@) == Some(sel@),
            None => parse_selector_inner(inn@) is None,
        },
{
    let ghost t = skip_spaces(inn@);
    let i = skip_spaces_at(inn, 0);
    proof {
        assert(inn@.skip(0) =~= inn@);
        assert(t == inn@.skip(i as int));
    }
    if i >= inn.len() || !ident_start_char(inn[i]) {
        proof {
            if t.len() > 0 {
                assert(t[0] == inn@[i as int]);
            }
        }
        return None;
    }
    proof {
        assert(t[0] == inn@[i as int]);
    }
    let e = ident_end_at(inn, i);
    let ghost n = ident_len(t) as int;
    let ghost w = t.take(n);
    proof {
        lemma_ident_len_le(t);
        assert(w =~= inn@.subrange(i as int, e as int));
        assert(t.skip(n) =~= inn@.skip(e as int));
    }
    let ghost u = skip_spaces(t.skip(n));
    let u0 = skip_spaces_at(inn, e);
    proof {
        assert(u == inn@.skip(u0 as int));
    }
    if u0 < inn.len() && inn[u0] == ':' {
        proof {
            assert(u[0] == inn@[u0 as int]);
            assert(u.skip(1) =~= inn@.skip(u0 as int + 1));
        }
        let ghost vv = skip_spaces(u.skip(1));
        let v0 = skip_spaces_at(inn, u0 + 1);
        proof {
            assert(vv == inn@.skip(v0 as int));
        }
        if v0 < inn.len() && ident_start_char(inn[v0]) {
            proof {
                assert(vv[0] == inn@[v0 as int]);
            }
            let e2 = ident_end_at(inn, v0);
            proof {
                lemma_ident_len_le(vv);
            }
            if e2 == inn.len() {
                let qv = copy_range(inn, i, e);
                let valv = copy_range(inn, v0, e2);
                let qualifier = chars_to_string(&qv);
                let value = chars_to_string(&valv);
                proof {
                    assert(vv =~= inn@.subrange(v0 as int, e2 as int));
                }
                Some(Selector { qualifier: Some(qualifier), value })
            } else {
                None
            }
        } else {
            None
        }
    } else {
        proof {
            if u.len() > 0 {
                assert(u[0] == inn@[u0 as int]);
            }
        }
        if e == inn.len() {
            let wv = copy_range(inn, i, e);
            let value = chars_to_string(&wv);
            Some(Selector { qualifier: None, value })
        } else {
            None
        }
    }
}

/// Parses one group segment: an optional quoted selector, then the group's
/// commands.
fn parse_group_seg(seg: &Vec<char>) -> (r: Option<CommandGroup>)
    ensures
        match r {
            Some(g) => parse_group(seg@) == Some(g@),
            None => parse_group(seg@) is None,
        },
{
    let ghost t = skip_spaces(seg@);
    let j0 = skip_spaces_at(seg, 0);
    proof {
        assert(seg@.skip(0) =~= seg@);
        assert(t == seg@.skip(j0 as int));
    }
    if j0 < seg.len() && seg[j0] == '"' {
        proof {
            assert(t[0] == seg@[j0 as int]);
            assert(t.skip(1) =~= seg@.skip(j0 as int + 1));
        }
        let ghost body = t.skip(1);
        let qi = find_char_at(seg, j0 + 1, '"');
        let ghost q = char_pos(body, '"') as int;
        proof {
            lemma_char_pos_le(body, '"');
        }
        if qi == seg.len() {
            return None;
        }
        let inn = copy_range(seg, j0 + 1, qi);
        proof {
            assert(inn@ =~= body.take(q));
        }
        match parse_selector_vec(&inn) {
            None => None,
            Some(sel) => {
                proof {
                    assert(body.skip(q + 1) =~= seg@.skip(qi as int + 1));
                }
                match parse_commands_at(seg, qi + 1) {
                    None => None,
                    Some(cmds) => Some(CommandGroup { selector: Some(sel), commands: cmds }),
                }
            },
        }
    } else {
        proof {
            if t.len() > 0 {
                assert(t[0] == seg@[j0 as int]);
            }
            lemma_skip_spaces_nows(seg@);
            lemma_parse_commands_skip_spaces(seg@);
        }
        match parse_commands_at(seg, j0) {
            None => None,
            Some(cmds) => Some(CommandGroup { selector: None, commands: cmds }),
        }
    }
}

/// Parses a whole program, given as its characters. Returns the groups that
/// parsed, in source order, and one error for each malformed piece of the
/// source; a malformed group never stops the scan.
pub fn parse_program_chars(v: &Vec<char>) -> (r: (Vec<CommandGroup>, Vec<ParseError>))
    ensures
        r.0.deep_view() == spec_parse_program(v@).0,
        r.1.deep_view() == spec_parse_program(v@).1,
{
    let mut groups: Vec<CommandGroup> = Vec::new();
    let mut errors: Vec<ParseError> = Vec::new();
    let mut i: usize = 0;
    proof {
        assert(v@.skip(0) =~= v@);
        assert(groups.deep_view() + spec_parse_program(v@).0 =~= spec_parse_program(v@).0);
        assert(errors.deep_view() + spec_parse_program(v@).1 =~= spec_parse_program(v@).1);
    }
    loop
        invariant
            i <= v@.len(),
            spec_parse_program(v@).0 == groups.deep_view() + parse_program_from(
                v@.skip(i as int),
                i as int,
            ).0,
            spec_parse_program(v@).1 == errors.deep_view() + parse_program_from(
                v@.skip(i as int),
                i as int,
            ).1,
        decreases v@.len() - i,
    {
        let ghost s = v@.skip(i as int);
        let ghost here = parse_program_from(s, i as int);
        let p = find_char_at(v, i, ';');
        proof {
            lemma_char_pos_le(s, ';');
        }
        if p == v.len() {
            let j = skip_spaces_at(v, i);
            if j < v.len() {
                let e = ParseError { start: i, end: v.len(), reason: ParseReason::TrailingInput };
                let ghost old_errors = errors.deep_view();
                errors.push(e);
                proof {
                    assert(skip_spaces(s).len() > 0);
                    assert(here.1 =~= seq![e@]);
                    assert(errors.deep_view() =~= old_errors + here.1);
                    assert(old_errors + here.1 + Seq::<ParseErrorModel>::empty() =~= old_errors
                        + here.1);
                    assert(groups.deep_view() + here.0 =~= groups.deep_view());
                }
            } else {
                proof {
                    assert(skip_spaces(s).len() == 0);
                    assert(groups.deep_view() + here.0 =~= groups.deep_view());
                    assert(errors.deep_view() + here.1 =~= errors.deep_view());
                }
            }
            return (groups, errors);
        }
        proof {
            assert(v@[p as int] == ';');
            assert(char_pos(s, ';') < s.len());
        }
        let seg = copy_range(v, i, p);
        let ghost pp = char_pos(s, ';') as int;
        proof {
            assert(seg@ =~= s.take(pp));
            assert(s.skip(pp + 1) =~= v@.skip(p as int + 1));
        }
        let ghost rest = parse_program_from(v@.skip(p as int + 1), p as int + 1);
        match parse_group_seg(&seg) {
            Some(g) => {
                let ghost old_groups = groups.deep_view();
                groups.push(g);
                proof {
                    assert(here.0 == seq![g@] + rest.0);
                    assert(here.1 == rest.1);
                    assert(groups.deep_view() =~= old_groups.push(g@));
                    assert(old_groups + (seq![g@] + rest.0) =~= old_groups.push(g@) + rest.0);
                }
            },
            None => {
                let e = ParseError { start: i, end: p, reason: ParseReason::MalformedGroup };
                let ghost old_errors = errors.deep_view();
                errors.push(e);
                proof {
                    assert(here.0 == rest.0);
                    assert(here.1 == seq![e@] + rest.1);
                    assert(errors.deep_view() =~= old_errors.push(e@));
                    assert(old_errors + (seq![e@] + rest.1) =~= old_errors.push(e@) + rest.1);
                }
            },
        }
        i = p + 1;
    }
}

// ---------------------------------------------------------------------------
// Concatenation lemmas for the scanners
// ---------------------------------------------------------------------------
pub proof fn lemma_ident_len_concat(w: Seq<char>, rest: Seq<char>)
    requires
        forall|k: int| 0 <= k < w.len() ==> is_ident_char(#[trigger] w[k]),
        rest.len() > 0 ==> !is_ident_char(rest[0]),
    ensures
        ident_len(w + rest) == w.len(),
    decreases w.len(),
{
    if w.len() == 0 {
        assert(w + rest =~= rest);
    } else {
        assert((w + rest)[0] == w[0]);
        assert((w + rest).skip(1) =~= w.skip(1) + rest);
        lemma_ident_len_concat(w.skip(1), rest);
    }
}

pub proof fn lemma_digit_len_concat(w: Seq<char>, rest: Seq<char>)
    requires
        forall|k: int| 0 <= k < w.len() ==> is_digit_char(#[trigger] w[k]),
        rest.len() > 0 ==> !is_digit_char(rest[0]),
    ensures
        digit_len(w + rest) == w.len(),
    decreases w.len(),
{
    if w.len() == 0 {
        assert(w + rest =~= rest);
    } else {
        assert((w + rest)[0] == w[0]);
        assert((w + rest).skip(1) =~= w.skip(1) + rest);
        lemma_digit_len_concat(w.skip(1), rest);
    }
}

pub proof fn lemma_char_pos_concat(a: Seq<char>, c: char, b: Seq<char>)
    requires
        avoids(a, c),
    ensures
        char_pos(a + seq![c] + b, c) == a.len(),
    decreases a.len(),
{
    let s = a + seq![c] + b;
    if a.len() == 0 {
        assert(s[0] == c);
    } else {
        assert(s[0] == a[0]);
        assert(s.skip(1) =~= a.skip(1) + seq![c] + b);
        lemma_char_pos_concat(a.skip(1), c, b);
    }
}

pub proof fn lemma_avoids_concat(a: Seq<char>, b: Seq<char>, c: char)
    requires
        avoids(a, c),
        avoids(b, c),
    ensures
        avoids(a + b, c),
{
    assert forall|k: int| 0 <= k < (a + b).len() implies (a + b)[k] != c by {
        if k < a.len() {
            assert((a + b)[k] == a[k]);
        } else {
            assert((a + b)[k] == b[k - a.len()]);
        }
    }
}

// ---------------------------------------------------------------------------
// Laws of the grammar
// ---------------------------------------------------------------------------
/// Every character inside the maximal identifier prefix is an identifier
/// character.
pub proof fn lemma_ident_len_chars(s: Seq<char>)
    ensures
        forall|k: int| 0 <= k < ident_len(s) ==> is_ident_char(#[trigger] s[k]),
    decreases s.len(),
{
    lemma_ident_len_le(s);
    if s.len() > 0 && is_ident_char(s[0]) {
        lemma_ident_len_chars(s.skip(1));
        assert forall|k: int| 0 <= k < ident_len(s) implies is_ident_char(#[trigger] s[k]) by {
            if k > 0 {
                assert(s.skip(1)[k - 1] == s[k]);
            }
        }
    }
}

/// A parsed command is one the grammar can denote.
pub proof fn lemma_parse_command_wf(s: Seq<char>)
    ensures
        parse_command(s) matches Some(pr) ==> wf_message(pr.0),
{
    if parse_command(s) is Some {
        let s1 = if s.len() > 0 && s[0] == '{' {
            s.skip(1)
        } else {
            s
        };
        lemma_ident_len_le(s1);
        lemma_ident_len_chars(s1);
        let n = ident_len(s1) as int;
        let w = s1.take(n);
        assert(n >= 1);
        assert(w[0] == s1[0]);
    }
}

/// Every message of a parsed command run is one the grammar can denote.
pub proof fn lemma_parse_commands_wf(s: Seq<char>)
    ensures
        parse_commands(s) matches Some(ms) ==> forall|k: int|
            0 <= k < ms.len() ==> wf_message(#[trigger] ms[k]),
    decreases s.len(),
{
    let t = skip_spaces(s);
    if t.len() > 0 {
        match parse_command(t) {
            None => {},
            Some((m, rest)) => {
                lemma_parse_command_wf(t);
                if rest.len() < s.len() {
                    lemma_parse_commands_wf(rest);
                    match parse_commands(rest) {
                        None => {},
                        Some(ms) => {
                            assert forall|k: int| 0 <= k < (seq![m] + ms).len() implies wf_message(
                                #[trigger] (seq![m] + ms)[k],
                            ) by {
                                if k > 0 {
                                    assert((seq![m] + ms)[k] == ms[k - 1]);
                                }
                            }
                        },
                    }
                }
            },
        }
    }
}

/// A parsed selector is made of identifiers.
pub proof fn lemma_parse_selector_wf(inn: Seq<char>)
    ensures
        parse_selector_inner(inn) matches Some(sel) ==> wf_selector(sel),
{
    let t = skip_spaces(inn);
    if t.len() > 0 && is_ident_start_char(t[0]) {
        lemma_ident_len_le(t);
        lemma_ident_len_chars(t);
        let n = ident_len(t) as int;
        assert(n >= 1);
        assert(t.take(n)[0] == t[0]);
        let u = skip_spaces(t.skip(n));
        if u.len() > 0 && u[0] == ':' {
            let v = skip_spaces(u.skip(1));
            if v.len() > 0 && is_ident_start_char(v[0]) {
                lemma_ident_len_le(v);
                lemma_ident_len_chars(v);
                assert(ident_len(v) >= 1);
                assert(v.take(ident_len(v) as int)[0] == v[0]);
                if ident_len(v) == v.len() {
                    assert(v.take(v.len() as int) =~= v);
                }
            }
        }
    }
}

/// A parsed group is one the grammar can denote.
pub proof fn lemma_parse_group_wf(seg: Seq<char>)
    ensures
        parse_group(seg) matches Some(g) ==> wf_group(g),
{
    let t = skip_spaces(seg);
    if t.len() > 0 && t[0] == '"' {
        let body = t.skip(1);
        let q = char_pos(body, '"') as int;
        if q < body.len() {
            lemma_parse_selector_wf(body.take(q));
            lemma_parse_commands_wf(body.skip(q + 1));
        }
    } else {
        lemma_parse_commands_wf(t);
    }
}

/// Everything a parse returns is a program the grammar can denote, so it can
/// be written back out.
pub proof fn lemma_parse_program_wf(s: Seq<char>)
    ensures
        wf_program(spec_parse_program(s).0),
{
    lemma_parse_program_from_wf(s, 0);
}

proof fn lemma_parse_program_from_wf(s: Seq<char>, offset: int)
    ensures
        wf_program(parse_program_from(s, offset).0),
    decreases s.len(),
{
    let p = char_pos(s, ';') as int;
    lemma_char_pos_le(s, ';');
    if p < s.len() {
        lemma_parse_program_from_wf(s.skip(p + 1), offset + p + 1);
        let rest = parse_program_from(s.skip(p + 1), offset + p + 1);
        match parse_group(s.take(p)) {
            Some(g) => {
                lemma_parse_group_wf(s.take(p));
                assert forall|k: int| 0 <= k < (seq![g] + rest.0).len() implies wf_group(
                    #[trigger] (seq![g] + rest.0)[k],
                ) by {
                    if k > 0 {
                        assert((seq![g] + rest.0)[k] == rest.0[k - 1]);
                    }
                }
            },
            None => {},
        }
    }
}

/// Tolerance: braces and the repeat count are optional. A group holding one
/// bare identifier token parses exactly as the braced form of the same token,
/// and both mean that token's message once, with repeat count 1.
pub proof fn lemma_braces_and_count_optional(w: Seq<char>)
    requires
        wf_ident(w),
    ensures
        parse_group(w) == parse_group(seq!['{'] + w + seq!['}']),
        parse_group(w) == Some(
            GroupModel {
                selector: None,
                commands: seq![MessageModel { msg: token_wm(w), count: 1u32 }],
            },
        ),
{
    let m = MessageModel { msg: token_wm(w), count: 1u32 };
    // the bare form
    assert(ws_count(w) == 0);
    assert(skip_spaces(w) =~= w);
    lemma_ident_len_concat(w, Seq::empty());
    assert(w + Seq::<char>::empty() =~= w);
    assert(w.take(w.len() as int) =~= w);
    let e = w.skip(w.len() as int);
    assert(e.len() == 0);
    assert(parse_command(w) == Some((m, e)));
    assert(ws_count(e) == 0);
    assert(skip_spaces(e) =~= e);
    assert(parse_commands(e) == Some(Seq::<MessageModel>::empty()));
    assert(seq![m] + Seq::<MessageModel>::empty() =~= seq![m]);
    assert(parse_commands(w) == Some(seq![m]));
    // the braced form
    let b = seq!['{'] + w + seq!['}'];
    assert(b[0] == '{');
    assert(ws_count(b) == 0);
    assert(skip_spaces(b) =~= b);
    assert(b.skip(1) =~= w + seq!['}']);
    let b1 = w + seq!['}'];
    assert(b1[0] == w[0]);
    lemma_ident_len_concat(w, seq!['}']);
    assert(b1.take(w.len() as int) =~= w);
    assert(b1.skip(w.len() as int) =~= seq!['}']);
    assert(seq!['}'].skip(1) =~= e);
    assert(parse_command(b) == Some((m, e)));
    assert(parse_commands(b) == Some(seq![m]));
}

/// Error accumulation: a source of two malformed groups yields two errors
/// with the spans of the two groups, and no parsed groups; the first error
/// does not stop the scan.
pub proof fn lemma_two_errors_accumulate(a: Seq<char>, b: Seq<char>)
    requires
        avoids(a, ';'),
        avoids(b, ';'),
        parse_group(a) is None,
        parse_group(b) is None,
    ensures
        spec_parse_program(a + seq![';'] + b + seq![';']).0 =~= Seq::<GroupModel>::empty(),
        spec_parse_program(a + seq![';'] + b + seq![';']).1 =~= seq![
            ParseErrorModel { start: 0, end: a.len() as int, reason: ParseReason::MalformedGroup },
            ParseErrorModel {
                start: a.len() as int + 1,
                end: a.len() as int + 1 + b.len(),
                reason: ParseReason::MalformedGroup,
            },
        ],
{
    let s = a + seq![';'] + b + seq![';'];
    lemma_char_pos_concat(a, ';', b + seq![';']);
    assert(s =~= a + seq![';'] + (b + seq![';']));
    let p = a.len() as int;
    assert(char_pos(s, ';') == p);
    assert(s.take(p) =~= a);
    assert(s.skip(p + 1) =~= b + seq![';']);
    let s2 = b + seq![';'];
    lemma_char_pos_concat(b, ';', Seq::empty());
    assert(b + seq![';'] + Seq::<char>::empty() =~= s2);
    let p2 = b.len() as int;
    assert(char_pos(s2, ';') == p2);
    assert(s2.take(p2) =~= b);
    assert(s2.skip(p2 + 1) =~= Seq::<char>::empty());
    let e = Seq::<char>::empty();
    assert(char_pos(e, ';') == 0);
    assert(ws_count(e) == 0);
    assert(skip_spaces(e) =~= e);
    let r3 = parse_program_from(e, p + 1 + p2 + 1);
    assert(r3.0 =~= Seq::<GroupModel>::empty());
    assert(r3.1 =~= Seq::<ParseErrorModel>::empty());
    let err2 = ParseErrorModel {
        start: p + 1,
        end: p + 1 + p2,
        reason: ParseReason::MalformedGroup,
    };
    let r2 = parse_program_from(s2, p + 1);
    assert(r2.0 =~= Seq::<GroupModel>::empty());
    assert(r2.1 =~= seq![err2] + r3.1);
    assert(r2.1 =~= seq![err2]);
    let err1 = ParseErrorModel { start: 0, end: p, reason: ParseReason::MalformedGroup };
    let r1 = parse_program_from(s, 0);
    assert(r1.0 =~= r2.0);
    assert(r1.1 =~= seq![err1] + r2.1);
    assert(seq![err1] + seq![err2] =~= seq![err1, err2]);
}

/// Parses a source text of the command language.
///
/// Every group that matches the grammar is returned, in source order; every
/// malformed group (and any non-whitespace text after the last `;`) yields one
/// [`ParseError`] with its character span, and the scan continues past it.
pub fn parse_program(src: &str) -> (r: (Vec<CommandGroup>, Vec<ParseError>))
    ensures
        r.0.deep_view() == spec_parse_program(src@).0,
        r.1.deep_view() == spec_parse_program(src@).1,
{
    let chars = str_to_chars(src);
    parse_program_chars(&chars)
}

} // verus!

