use std::sync::Mutex;

use run_all::command::Cmd;
use run_all::layout::pad_left;
use run_all::palette::{colour_code, PALETTE_SIZE};
use run_all::parser::parse_options;
use run_all::style::{max_alias_len, output_styles, prefix_for, render_line, LineStyle};

fn cmd(alias: &str) -> Cmd {
    Cmd { alias: alias.to_string(), program: "true".to_string(), args: Vec::new() }
}

#[test]
fn pad_left_fills_to_width() {
    assert_eq!(pad_left("ab", 5), "ab   ");
    assert_eq!(pad_left("abcdef", 3), "abcdef");
    assert_eq!(pad_left("abc", 3), "abc");
    assert_eq!(pad_left("", 2), "  ");
}

#[test]
fn pad_left_counts_bytes() {
    assert_eq!(pad_left("é", 4), "é  ");
}

#[test]
fn prefixes_align_to_longest_alias() {
    let cmds = vec![cmd("abc"), cmd("abcdefg"), cmd("a")];
    assert_eq!(max_alias_len(&cmds), 7);
    let styles = output_styles(&cmds);
    assert_eq!(styles.len(), 3);
    for s in &styles {
        assert_eq!(s.prefix.len(), 7 + 2);
    }
    assert_eq!(styles[0].prefix, "[abc]    ");
    assert_eq!(styles[1].prefix, "[abcdefg]");
    assert_eq!(styles[2].prefix, "[a]      ");
}

#[test]
fn prefix_for_brackets_and_pads() {
    assert_eq!(prefix_for("web", 5), "[web]  ");
    assert_eq!(prefix_for("database", 3), "[database]");
}

#[test]
fn max_alias_of_no_commands_is_zero() {
    assert_eq!(max_alias_len(&Vec::new()), 0);
    assert!(output_styles(&Vec::new()).is_empty());
}

#[test]
fn palette_in_launch_order() {
    let expected = [14u8, 13, 12, 11, 10, 9, 1, 2, 3, 4, 5, 6];
    assert_eq!(PALETTE_SIZE, 12);
    for (i, c) in expected.iter().enumerate() {
        assert_eq!(colour_code(i), *c);
        assert_eq!(colour_code(i + 12), *c);
    }
    assert_eq!(colour_code(usize::MAX), expected[usize::MAX % 12]);
}

#[test]
fn thirteenth_command_reuses_first_colour() {
    let cmds: Vec<Cmd> = (0..13).map(|i| cmd(&format!("c{}", i))).collect();
    let styles = output_styles(&cmds);
    assert_eq!(styles.len(), 13);
    assert_eq!(styles[0].colour, styles[12].colour);
    assert_eq!(styles[0].colour, 14);
    assert_ne!(styles[0].colour, styles[1].colour);
}

#[test]
fn rendered_line_is_painted_prefix_and_text() {
    let style = LineStyle { prefix: "[ab] ".to_string(), colour: 14 };
    assert_eq!(render_line(&style, "hello"), "\u{1b}[38;5;14m[ab]  hello\u{1b}[0m");
    let style = LineStyle { prefix: "[x]".to_string(), colour: 1 };
    assert_eq!(render_line(&style, ""), "\u{1b}[38;5;1m[x] \u{1b}[0m");
}

#[test]
fn two_commands_render_under_their_own_aliases() {
    let options = parse_options(vec!["echo a".to_string(), "-a".to_string(), "bee".to_string(), "echo b".to_string()]).unwrap();
    let styles = output_styles(&options.cmds);
    let a = render_line(&styles[0], "a");
    let b = render_line(&styles[1], "b");
    assert_eq!(a, "\u{1b}[38;5;14m[echo] a\u{1b}[0m");
    assert_eq!(b, "\u{1b}[38;5;13m[bee]  b\u{1b}[0m");
}

#[test]
fn lines_from_two_readers_never_mix() {
    let styles = output_styles(&vec![cmd("left"), cmd("right")]);
    let output_lock: Mutex<Vec<u8>> = Mutex::new(Vec::new());
    let mut sent = [0usize; 2];
    let mut seed: u32 = 0x2545_f491;
    while sent[0] < 1000 || sent[1] < 1000 {
        seed ^= seed << 13;
        seed ^= seed >> 17;
        seed ^= seed << 5;
        let n = if sent[0] == 1000 { 1 } else if sent[1] == 1000 { 0 } else { (seed & 1) as usize };
        let line = render_line(&styles[n], &format!("{}-{}", n, sent[n]));
        let mut out = output_lock.lock().unwrap();
        out.extend_from_slice(line.as_bytes());
        out.push(b'\n');
        sent[n] += 1;
    }
    let text = String::from_utf8(output_lock.into_inner().unwrap()).unwrap();
    let lines: Vec<&str> = text.lines().collect();
    assert_eq!(lines.len(), 2000);
    let mut next = [0usize; 2];
    for line in lines {
        let n = if line.contains("[left] ") { 0 } else { 1 };
        let expected = render_line(&styles[n], &format!("{}-{}", n, next[n]));
        assert_eq!(line, expected);
        next[n] += 1;
    }
    assert_eq!(next, [1000, 1000]);
}
