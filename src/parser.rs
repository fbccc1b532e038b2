//! The command-line parser: a three-state machine over the raw arguments.
use vstd::prelude::*;

use crate::command::{Cmd, CmdModel, Options, ParseError, opt_view, result_view};
use crate::words::{is_white, split_whitespace, words};

verus! {

/// Where the parser stands between two arguments.
pub enum ParseState {
    /// Ready for an alias flag or a command string.
    Initial,
    /// An alias flag was seen; the alias comes next.
    PreAlias,
    /// An alias was captured; the command string comes next.
    WithAlias(String),
}

/// The mathematical value of a [`ParseState`].
pub enum Phase {
    Initial,
    PreAlias,
    WithAlias(Seq<char>),
}

impl View for ParseState {
    type V = Phase;

    open spec fn view(&self) -> Phase {
        match self {
            ParseState::Initial => Phase::Initial,
            ParseState::PreAlias => Phase::PreAlias,
            ParseState::WithAlias(a) => Phase::WithAlias(a@),
        }
    }
}

pub open spec fn alias_expected() -> Seq<char> {
    "Alias expected"@
}

pub open spec fn command_expected() -> Seq<char> {
    "Command expected"@
}

pub open spec fn unexpected_argument(arg: Seq<char>) -> Seq<char> {
    "Unexpected argument: "@ + arg
}

pub open spec fn unparsable_command(cmd: Seq<char>) -> Seq<char> {
    "Could not parse command string: "@ + cmd
}

/// `-a` or `--alias`.
pub open spec fn is_alias_flag(arg: Seq<char>) -> bool {
    arg == "-a"@ || arg == "--alias"@
}

/// An argument that starts with `-`.
pub open spec fn is_flag(arg: Seq<char>) -> bool {
    arg.len() > 0 && arg[0] == '-'
}

/// The descriptor for command string `cmd`: its first word is the program,
/// the other words its arguments, and the alias is the given one or else the
/// program.
pub open spec fn cmd_model(alias: Option<Seq<char>>, cmd: Seq<char>) -> Result<CmdModel, Seq<char>> {
    let w = words(cmd);
    if w.len() == 0 {
        Err(unparsable_command(cmd))
    } else {
        Ok(
            CmdModel {
                alias: match alias {
                    Some(a) => a,
                    None => w[0],
                },
                program: w[0],
                args: w.drop_first(),
            },
        )
    }
}

/// One transition on argument `arg`: the next phase and the descriptors it
/// completes, or the error message.
pub open spec fn step(ph: Phase, arg: Seq<char>) -> Result<(Phase, Seq<CmdModel>), Seq<char>> {
    if is_alias_flag(arg) {
        match ph {
            Phase::Initial => Ok((Phase::PreAlias, seq![])),
            Phase::PreAlias => Err(alias_expected()),
            Phase::WithAlias(_) => Err(command_expected()),
        }
    } else if is_flag(arg) {
        Err(unexpected_argument(arg))
    } else {
        match ph {
            Phase::PreAlias => Ok((Phase::WithAlias(arg), seq![])),
            Phase::Initial => match cmd_model(None, arg) {
                Ok(c) => Ok((Phase::Initial, seq![c])),
                Err(e) => Err(e),
            },
            Phase::WithAlias(a) => match cmd_model(Some(a), arg) {
                Ok(c) => Ok((Phase::Initial, seq![c])),
                Err(e) => Err(e),
            },
        }
    }
}

/// What the end of input means in phase `ph`.
pub open spec fn finish(ph: Phase) -> Result<Seq<CmdModel>, Seq<char>> {
    match ph {
        Phase::Initial => Ok(seq![]),
        Phase::PreAlias => Err(alias_expected()),
        Phase::WithAlias(_) => Err(command_expected()),
    }
}

/// `done` followed by the descriptors of `rest`, or the error of `rest`.
pub open spec fn prepend(done: Seq<CmdModel>, rest: Result<Seq<CmdModel>, Seq<char>>) -> Result<
    Seq<CmdModel>,
    Seq<char>,
> {
    match rest {
        Ok(r) => Ok(done + r),
        Err(e) => Err(e),
    }
}

/// The machine run from phase `ph` over `args`: the first error met, or the
/// descriptors of every command, in order.
pub open spec fn run(ph: Phase, args: Seq<Seq<char>>) -> Result<Seq<CmdModel>, Seq<char>>
    decreases args.len(),
{
    if args.len() == 0 {
        finish(ph)
    } else {
        match step(ph, args[0]) {
            Err(e) => Err(e),
            Ok((next, done)) => prepend(done, run(next, args.drop_first())),
        }
    }
}

/// The result of parsing the whole argument list `args`.
pub open spec fn parse_model(args: Seq<Seq<char>>) -> Result<Seq<CmdModel>, Seq<char>> {
    run(Phase::Initial, args)
}

proof fn lemma_prepend_assoc(
    a: Seq<CmdModel>,
    b: Seq<CmdModel>,
    rest: Result<Seq<CmdModel>, Seq<char>>,
)
    ensures
        prepend(a, prepend(b, rest)) == prepend(a + b, rest),
{
    if let Ok(r) = rest {
        assert(a + (b + r) =~= (a + b) + r);
    }
}

/// Whether two strings hold the same characters.
fn same_text(a: &str, b: &str) -> (r: bool)
    ensures
        r == (a@ == b@),
{
    let n = a.unicode_len();
    if n != b.unicode_len() {
        return false;
    }
    let mut i: usize = 0;
    while i < n
        invariant
            n == a@.len() == b@.len(),
            i <= n,
            forall|k: int| 0 <= k < i ==> a@[k] == b@[k],
        decreases n - i,
    {
        if a.get_char(i) != b.get_char(i) {
            return false;
        }
        i = i + 1;
    }
    proof {
        assert(a@ =~= b@);
    }
    true
}

fn alias_flag(arg: &str) -> (r: bool)
    ensures
        r == is_alias_flag(arg@),
{
    same_text(arg, "-a") || same_text(arg, "--alias")
}

fn starts_with_dash(arg: &str) -> (r: bool)
    ensures
        r == is_flag(arg@),
{
    arg.unicode_len() > 0 && arg.get_char(0) == '-'
}

/// Builds the descriptor for command string `cmd`, with `alias` if given and
/// the program name otherwise.
pub fn parse_cmd(alias: Option<String>, cmd: &str) -> (r: Result<Cmd, ParseError>)
    ensures
        result_view(r) == cmd_model(opt_view(alias), cmd@),
{
    let mut parts = split_whitespace(cmd);
    if parts.len() == 0 {
        let mut message = String::from_str("Could not parse command string: ");
        message.append(cmd);
        return Err(ParseError { message });
    }
    let ghost w = parts@.map_values(|p: String| p@);
    let program = parts.remove(0);
    let alias = match alias {
        Some(a) => a,
        None => program.clone(),
    };
    let c = Cmd { alias, program, args: parts };
    proof {
        assert(c@.args =~= w.drop_first());
    }
    Ok(c)
}

/// Parses the raw arguments (without the program name) into the commands to
/// launch: each command string may be preceded by `-a <alias>` or
/// `--alias <alias>`.
pub fn parse_options(args: Vec<String>) -> (r: Result<Options, ParseError>)
    ensures
        result_view(r) == parse_model(args@.map_values(|a: String| a@)),
{
    let ghost all = args@.map_values(|a: String| a@);
    let mut cmds: Vec<Cmd> = Vec::new();
    let mut state = ParseState::Initial;
    let mut i: usize = 0;
    proof {
        assert(all.skip(0) =~= all);
        assert(seq![] + parse_model(all)->Ok_0 =~= parse_model(all)->Ok_0);
    }
    while i < args.len()
        invariant
            all == args@.map_values(|a: String| a@),
            i <= args.len(),
            parse_model(all) == prepend(
                cmds@.map_values(|c: Cmd| c@),
                run(state@, all.skip(i as int)),
            ),
        decreases args.len() - i,
    {
        let arg = &args[i];
        let ghost rest = all.skip(i as int);
        let ghost before = cmds@.map_values(|c: Cmd| c@);
        proof {
            assert(rest[0] == arg@);
            assert(rest.drop_first() =~= all.skip(i + 1));
        }
        if alias_flag(arg.as_str()) {
            match state {
                ParseState::Initial => {
                    state = ParseState::PreAlias;
                    proof {
                        lemma_prepend_assoc(before, seq![], run(state@, all.skip(i + 1)));
                        assert(before + seq![] =~= before);
                    }
                },
                ParseState::PreAlias => {
                    return Err(ParseError { message: String::from_str("Alias expected") });
                },
                ParseState::WithAlias(_) => {
                    return Err(ParseError { message: String::from_str("Command expected") });
                },
            }
        } else if starts_with_dash(arg.as_str()) {
            let mut message = String::from_str("Unexpected argument: ");
            message.append(arg.as_str());
            return Err(ParseError { message });
        } else {
            match state {
                ParseState::Initial => {
                    match parse_cmd(None, arg.as_str()) {
                        Ok(c) => {
                            cmds.push(c);
                            proof {
                                lemma_prepend_assoc(
                                    before,
                                    seq![c@],
                                    run(Phase::Initial, all.skip(i + 1)),
                                );
                                assert(cmds@.map_values(|c: Cmd| c@) =~= before + seq![c@]);
                            }
                        },
                        Err(e) => {
                            return Err(e);
                        },
                    }
                },
                ParseState::WithAlias(alias) => {
                    match parse_cmd(Some(alias.clone()), arg.as_str()) {
                        Ok(c) => {
                            cmds.push(c);
                            proof {
                                lemma_prepend_assoc(
                                    before,
                                    seq![c@],
                                    run(Phase::Initial, all.skip(i + 1)),
                                );
                                assert(cmds@.map_values(|c: Cmd| c@) =~= before + seq![c@]);
                            }
                        },
                        Err(e) => {
                            return Err(e);
                        },
                    }
                    state = ParseState::Initial;
                },
                ParseState::PreAlias => {
                    state = ParseState::WithAlias(arg.clone());
                    proof {
                        lemma_prepend_assoc(before, seq![], run(state@, all.skip(i + 1)));
                        assert(before + seq![] =~= before);
                    }
                },
            }
        }
        i = i + 1;
    }
    proof {
        assert(all.skip(i as int).len() == 0);
    }
    match state {
        ParseState::Initial => {
            proof {
                assert(cmds@.map_values(|c: Cmd| c@) + seq![] =~= cmds@.map_values(|c: Cmd| c@));
            }
            Ok(Options { cmds })
        },
        ParseState::PreAlias => Err(ParseError { message: String::from_str("Alias expected") }),
        ParseState::WithAlias(_) => Err(
            ParseError { message: String::from_str("Command expected") },
        ),
    }
}

/// The descriptor of a command string given without an alias: alias and
/// program are its first word, the arguments the other words.
pub open spec fn plain_model(cmd: Seq<char>) -> CmdModel {
    CmdModel { alias: words(cmd)[0], program: words(cmd)[0], args: words(cmd).drop_first() }
}

/// A command string that does not start with `-` and holds at least one word.
pub open spec fn is_plain_command(cmd: Seq<char>) -> bool {
    !is_flag(cmd) && words(cmd).len() > 0
}

/// Command strings given without aliases parse, each, into the descriptor
/// whose alias and program are its first word and whose arguments are the
/// other words.
pub proof fn lemma_plain_commands(cmds: Seq<Seq<char>>)
    requires
        forall|i: int| 0 <= i < cmds.len() ==> is_plain_command(#[trigger] cmds[i]),
    ensures
        parse_model(cmds) == Ok::<Seq<CmdModel>, Seq<char>>(
            cmds.map_values(|c: Seq<char>| plain_model(c)),
        ),
    decreases cmds.len(),
{
    reveal_strlit("-a");
    reveal_strlit("--alias");
    if cmds.len() == 0 {
        assert(cmds.map_values(|c: Seq<char>| plain_model(c)) =~= seq![]);
    } else {
        let rest = cmds.drop_first();
        assert(is_plain_command(cmds[0]));
        assert forall|i: int| 0 <= i < rest.len() implies is_plain_command(#[trigger] rest[i]) by {
            assert(rest[i] == cmds[i + 1]);
        }
        lemma_plain_commands(rest);
        assert(!is_alias_flag(cmds[0]));
        assert(cmds.map_values(|c: Seq<char>| plain_model(c)) =~= seq![plain_model(cmds[0])]
            + rest.map_values(|c: Seq<char>| plain_model(c)));
    }
}

/// Once a prefix `a` of the arguments parses completely from `ph`, the rest
/// `b` is parsed afresh from the initial phase.
pub proof fn lemma_run_concat(ph: Phase, a: Seq<Seq<char>>, b: Seq<Seq<char>>)
    requires
        run(ph, a) is Ok,
    ensures
        run(ph, a + b) == prepend(run(ph, a)->Ok_0, run(Phase::Initial, b)),
    decreases a.len(),
{
    if a.len() == 0 {
        assert(a + b =~= b);
        assert(ph == Phase::Initial);
        match run(Phase::Initial, b) {
            Ok(r) => {
                assert(seq![] + r =~= r);
            },
            Err(_) => {},
        }
    } else {
        assert((a + b)[0] == a[0]);
        assert((a + b).drop_first() =~= a.drop_first() + b);
        let (next, done) = step(ph, a[0])->Ok_0;
        lemma_run_concat(next, a.drop_first(), b);
        lemma_prepend_assoc(done, run(next, a.drop_first())->Ok_0, run(Phase::Initial, b));
    }
}

/// An alias flag as the last argument, after arguments that parse, fails
/// with "Alias expected".
pub proof fn lemma_trailing_alias_flag(args: Seq<Seq<char>>, flag: Seq<char>)
    requires
        parse_model(args) is Ok,
        is_alias_flag(flag),
    ensures
        parse_model(args.push(flag)) == Err::<Seq<CmdModel>, Seq<char>>(alias_expected()),
{
    lemma_run_concat(Phase::Initial, args, seq![flag]);
    assert(args + seq![flag] =~= args.push(flag));
    assert(seq![flag].drop_first() =~= Seq::<Seq<char>>::empty());
    assert(run(Phase::PreAlias, seq![]) == Err::<Seq<CmdModel>, Seq<char>>(alias_expected()));
    assert(run(Phase::Initial, seq![flag]) == Err::<Seq<CmdModel>, Seq<char>>(alias_expected()));
}

/// A second alias flag right after an alias fails with "Command expected".
pub proof fn lemma_alias_after_alias(
    args: Seq<Seq<char>>,
    flag1: Seq<char>,
    alias: Seq<char>,
    flag2: Seq<char>,
    rest: Seq<Seq<char>>,
)
    requires
        parse_model(args) is Ok,
        is_alias_flag(flag1),
        !is_flag(alias),
        is_alias_flag(flag2),
    ensures
        parse_model(args + seq![flag1, alias, flag2] + rest) == Err::<Seq<CmdModel>, Seq<char>>(
            command_expected(),
        ),
{
    reveal_strlit("-a");
    reveal_strlit("--alias");
    let tail = seq![flag1, alias, flag2] + rest;
    assert(args + seq![flag1, alias, flag2] + rest =~= args + tail);
    lemma_run_concat(Phase::Initial, args, tail);
    assert(!is_alias_flag(alias));
    assert(tail.drop_first()[0] == alias);
    let t1 = tail.drop_first();
    let t2 = t1.drop_first();
    assert(t1[0] == alias);
    assert(t2[0] == flag2);
    assert(run(Phase::WithAlias(alias), t2) == Err::<Seq<CmdModel>, Seq<char>>(command_expected()));
    assert(run(Phase::PreAlias, t1) == Err::<Seq<CmdModel>, Seq<char>>(command_expected()));
    assert(run(Phase::Initial, tail) == Err::<Seq<CmdModel>, Seq<char>>(command_expected()));
}

/// A flag other than `-a` and `--alias`, where a command or an alias flag
/// may stand, fails with "Unexpected argument: " and the flag.
pub proof fn lemma_unexpected_flag(args: Seq<Seq<char>>, arg: Seq<char>, rest: Seq<Seq<char>>)
    requires
        parse_model(args) is Ok,
        is_flag(arg),
        !is_alias_flag(arg),
    ensures
        parse_model(args + seq![arg] + rest) == Err::<Seq<CmdModel>, Seq<char>>(
            unexpected_argument(arg),
        ),
{
    let tail = seq![arg] + rest;
    assert(args + seq![arg] + rest =~= args + tail);
    lemma_run_concat(Phase::Initial, args, tail);
    assert(tail[0] == arg);
}

/// A command string without any word, where a command may stand, fails with
/// "Could not parse command string: " and the string.
pub proof fn lemma_empty_command(args: Seq<Seq<char>>, cmd: Seq<char>, rest: Seq<Seq<char>>)
    requires
        parse_model(args) is Ok,
        words(cmd).len() == 0,
    ensures
        parse_model(args + seq![cmd] + rest) == Err::<Seq<CmdModel>, Seq<char>>(
            unparsable_command(cmd),
        ),
{
    reveal_strlit("-a");
    reveal_strlit("--alias");
    reveal_strlit("-");
    let tail = seq![cmd] + rest;
    assert(args + seq![cmd] + rest =~= args + tail);
    lemma_run_concat(Phase::Initial, args, tail);
    assert(tail[0] == cmd);
    if cmd.len() > 0 && cmd[0] == '-' {
        assert(!is_white(cmd[0]));
        assert(words(cmd).len() > 0);
    }
    assert(!is_alias_flag(cmd));
}

} // verus!
