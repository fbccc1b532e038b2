use run_all::command::{Cmd, ParseError};
use run_all::parser::{parse_cmd, parse_options};
use run_all::words::{is_whitespace, split_whitespace};

fn args(list: &[&str]) -> Vec<String> {
    list.iter().map(|s| s.to_string()).collect()
}

fn parsed(list: &[&str]) -> Vec<Cmd> {
    parse_options(args(list)).expect("arguments should parse").cmds
}

fn failure(list: &[&str]) -> String {
    match parse_options(args(list)) {
        Ok(o) => panic!("expected a parse error, got {:?}", o),
        Err(ParseError { message }) => message,
    }
}

fn check(c: &Cmd, alias: &str, program: &str, rest: &[&str]) {
    assert_eq!(c.alias, alias);
    assert_eq!(c.program, program);
    assert_eq!(c.args, args(rest));
}

#[test]
fn commands_without_aliases_use_their_program_name() {
    let cmds = parsed(&["echo hi", "ls -la"]);
    assert_eq!(cmds.len(), 2);
    check(&cmds[0], "echo", "echo", &["hi"]);
    check(&cmds[1], "ls", "ls", &["-la"]);
}

#[test]
fn alias_overrides_program_name() {
    let cmds = parsed(&["-a", "server", "npm run dev"]);
    assert_eq!(cmds.len(), 1);
    check(&cmds[0], "server", "npm", &["run", "dev"]);
}

#[test]
fn long_alias_flag_and_mixed_commands() {
    let cmds = parsed(&["make watch", "--alias", "db", "postgres -D data", "true"]);
    assert_eq!(cmds.len(), 3);
    check(&cmds[0], "make", "make", &["watch"]);
    check(&cmds[1], "db", "postgres", &["-D", "data"]);
    check(&cmds[2], "true", "true", &[]);
}

#[test]
fn no_arguments_give_no_commands() {
    assert!(parsed(&[]).is_empty());
}

#[test]
fn trailing_alias_flag_expects_alias() {
    assert_eq!(failure(&["-a"]), "Alias expected");
    assert_eq!(failure(&["echo hi", "--alias"]), "Alias expected");
}

#[test]
fn alias_flag_twice_in_a_row_expects_alias() {
    assert_eq!(failure(&["-a", "-a"]), "Alias expected");
}

#[test]
fn alias_flag_after_alias_expects_command() {
    assert_eq!(failure(&["-a", "alias1", "-a", "alias2"]), "Command expected");
}

#[test]
fn alias_without_command_expects_command() {
    assert_eq!(failure(&["-a", "web"]), "Command expected");
}

#[test]
fn other_flags_are_unexpected() {
    assert_eq!(failure(&["-x"]), "Unexpected argument: -x");
    assert_eq!(failure(&["echo hi", "--verbose", "ls"]), "Unexpected argument: --verbose");
    assert_eq!(failure(&["-a", "-b"]), "Unexpected argument: -b");
}

#[test]
fn empty_command_string_cannot_be_parsed() {
    assert_eq!(failure(&[""]), "Could not parse command string: ");
    assert_eq!(failure(&["echo", " \t "]), "Could not parse command string:  \t ");
    assert_eq!(failure(&["-a", "x", ""]), "Could not parse command string: ");
}

#[test]
fn first_error_wins() {
    assert_eq!(failure(&["", "-x"]), "Could not parse command string: ");
    assert_eq!(failure(&["-x", ""]), "Unexpected argument: -x");
}

#[test]
fn parse_cmd_splits_on_any_whitespace() {
    let c = parse_cmd(None, "  cargo\tbuild \n --release  ").unwrap();
    check(&c, "cargo", "cargo", &["build", "--release"]);
    let c = parse_cmd(Some("api".to_string()), "node\u{3000}server.js").unwrap();
    check(&c, "api", "node", &["server.js"]);
    let e = parse_cmd(Some("api".to_string()), "   ").unwrap_err();
    assert_eq!(e.message, "Could not parse command string:    ");
}

#[test]
fn split_whitespace_matches_std() {
    for s in ["", "a", "  a  b ", "x\u{85}y\u{a0}z", "é ü\u{2028}ß", "\t\n"] {
        let expected: Vec<String> = s.split_whitespace().map(|w| w.to_string()).collect();
        assert_eq!(split_whitespace(s), expected);
    }
}

#[test]
fn whitespace_class_matches_std() {
    for u in 0u32..0x11_0000 {
        if let Some(c) = char::from_u32(u) {
            assert_eq!(is_whitespace(c), c.is_whitespace(), "code point {:x}", u);
        }
    }
}
