use winpoke::msg::{Message, WindowMessage};
use winpoke::parser::{parse_program, ParseReason, VK_DOWN, VK_LEFT, VK_RIGHT, VK_UP};
use winpoke::serialize::serialize_program;

#[test]
fn test_parser() {
    let src = r#"
            "caption:HELP" {UP 3}{DOWN}{down}{down};
            "caption:HELP" {UP 4}{DOWN}{down}{down};
            "class:HELP" {UP 5}{DOWN}{down}{down};
            "class: HELP" {UP 6}{DOWN}{down}{down};
            "HELP" {UP 6}{DOWN}{down}{down};
            {UP 6}{DOWN}{down}{down};
            "#;
    let (groups, errors) = parse_program(src);
    assert_eq!(errors.len(), 0);
    assert_eq!(groups.len(), 6);
    for group in &groups[..5] {
        assert!(group.selector.is_some());
        assert_eq!(group.commands.len(), 4);
    }
    assert!(groups[5].selector.is_none());
    assert_eq!(groups[3].selector.as_ref().unwrap().qualifier.as_deref(), Some("class"));
    assert_eq!(groups[3].selector.as_ref().unwrap().value, "HELP");
    assert_eq!(groups[4].selector.as_ref().unwrap().qualifier, None);
    assert_eq!(groups[4].selector.as_ref().unwrap().value, "HELP");
    assert_eq!(groups[0].commands[0], Message { msg: WindowMessage::KeyDown(VK_UP), count: 3 });
    assert_eq!(groups[0].commands[1], Message { msg: WindowMessage::KeyDown(VK_DOWN), count: 1 });
}

#[test]
fn one_group_with_counts() {
    let (groups, errors) = parse_program("\"class:HELP\" {UP 3}{DOWN};");
    assert_eq!(errors.len(), 0);
    assert_eq!(groups.len(), 1);
    let g = &groups[0];
    let sel = g.selector.as_ref().unwrap();
    assert_eq!(sel.qualifier.as_deref(), Some("class"));
    assert_eq!(sel.value, "HELP");
    assert_eq!(g.commands.len(), 2);
    assert_eq!(g.commands[0], Message { msg: WindowMessage::KeyDown(VK_UP), count: 3 });
    assert_eq!(g.commands[1], Message { msg: WindowMessage::KeyDown(VK_DOWN), count: 1 });
}

#[test]
fn braces_and_count_are_optional() {
    let (bare, bare_errors) = parse_program("UP;");
    let (braced, braced_errors) = parse_program("{UP};");
    assert_eq!(bare_errors.len(), 0);
    assert_eq!(braced_errors.len(), 0);
    assert_eq!(bare, braced);
    assert_eq!(bare.len(), 1);
    assert_eq!(bare[0].commands.len(), 1);
    assert_eq!(bare[0].commands[0], Message { msg: WindowMessage::KeyDown(VK_UP), count: 1 });
}

#[test]
fn two_malformed_groups_give_two_errors() {
    let (groups, errors) = parse_program("1bad;{DOWN};2bad;");
    assert_eq!(groups.len(), 1);
    assert_eq!(groups[0].commands[0], Message { msg: WindowMessage::KeyDown(VK_DOWN), count: 1 });
    assert_eq!(errors.len(), 2);
    assert_eq!(errors[0].reason, ParseReason::MalformedGroup);
    assert_eq!((errors[0].start, errors[0].end), (0, 4));
    assert_eq!(errors[1].reason, ParseReason::MalformedGroup);
    assert_eq!((errors[1].start, errors[1].end), (12, 16));
}

#[test]
fn unterminated_selector_is_malformed() {
    let (groups, errors) = parse_program("\"class:HELP {UP};");
    assert_eq!(groups.len(), 0);
    assert_eq!(errors.len(), 1);
    assert_eq!(errors[0].reason, ParseReason::MalformedGroup);
}

#[test]
fn trailing_text_is_reported() {
    let (groups, errors) = parse_program("{UP}; stray");
    assert_eq!(groups.len(), 1);
    assert_eq!(errors.len(), 1);
    assert_eq!(errors[0].reason, ParseReason::TrailingInput);
    assert_eq!((errors[0].start, errors[0].end), (5, 11));
}

#[test]
fn empty_source_parses_to_nothing() {
    let (groups, errors) = parse_program("   \n  ");
    assert_eq!(groups.len(), 0);
    assert_eq!(errors.len(), 0);
}

#[test]
fn keywords_match_case_insensitively() {
    let (groups, errors) = parse_program("{up}{Down}{lEfT}{RIGHT};");
    assert_eq!(errors.len(), 0);
    assert_eq!(groups.len(), 1);
    let cmds = &groups[0].commands;
    assert_eq!(cmds[0].msg, WindowMessage::KeyDown(VK_UP));
    assert_eq!(cmds[1].msg, WindowMessage::KeyDown(VK_DOWN));
    assert_eq!(cmds[2].msg, WindowMessage::KeyDown(VK_LEFT));
    assert_eq!(cmds[3].msg, WindowMessage::KeyDown(VK_RIGHT));
}

#[test]
fn non_keyword_token_keeps_first_character_only() {
    let (groups, errors) = parse_program("{HELLO 2};");
    assert_eq!(errors.len(), 0);
    assert_eq!(groups[0].commands[0], Message { msg: WindowMessage::Char('H'), count: 2 });
}

#[test]
fn oversized_count_falls_back_to_one() {
    let (groups, errors) = parse_program("{UP 99999999999999999999};");
    assert_eq!(errors.len(), 0);
    assert_eq!(groups[0].commands[0], Message { msg: WindowMessage::KeyDown(VK_UP), count: 1 });
}

#[test]
fn zero_count_is_kept_as_written() {
    let (groups, errors) = parse_program("{UP 0};");
    assert_eq!(errors.len(), 0);
    assert_eq!(groups[0].commands[0], Message { msg: WindowMessage::KeyDown(VK_UP), count: 0 });
}

#[test]
fn reparsing_the_serialized_form_is_identity() {
    let src = "\"class:HELP\" {UP 3}{DOWN}; \"x\" h i; UP DOWN;;";
    let (groups, errors) = parse_program(src);
    assert_eq!(errors.len(), 0);
    let written = serialize_program(&groups);
    let (again, again_errors) = parse_program(&written);
    assert_eq!(again_errors.len(), 0);
    assert_eq!(again, groups);
}
