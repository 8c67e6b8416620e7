//! The text of the shell script that runs a list of commands.
use crate::command::ExecutionMode;
use vstd::prelude::*;

verus! {

pub const PREAMBLE: &'static str = "#!/bin/sh

# Generated by the MARKDOWN executor
# This file is automatically deleted once the execution completes

set -e

";

pub const NEWLINE: &'static str = "\n";

pub const SLEEP: &'static str = "sleep ";

pub const DOUBLED_QUOTE: &'static str = "''";

/// Shown in place of a command that has no line.
pub const MISSING_COMMAND: &'static str = "Missing command!!";

pub const INTERACTIVE_HEADER: &'static str =
    "# When set to true, it will execute the remaining commands without interaction
EXECUTE_ALL=false

";

/// Opens the function that confirms, then runs, one command; its index follows.
pub const CONFIRM_OPEN: &'static str =
    "# Confirms before executing each command.  The command can be skipped and the script exited.
interactive_";

/// Between the function's index and the command as shown.
pub const CONFIRM_SHOW: &'static str = r#"() {

  if [ "${EXECUTE_ALL}" != true ]; then
    echo '\033[0;02m--------------------------------------------------\033[0m'
    echo '\033[0;94m>\033[0m \033[0;92m"#;

/// Between the command as shown and the command as run.
pub const CONFIRM_ASK: &'static str = r#"\033[0m'
    echo '\033[0;02m--------------------------------------------------'
    read -r -p 'Press enter to execute,
 A to execute all the remaining commands,
 S to skip and
 X to exit ' input
    echo '--------------------------------------------------\033[0m'

    case ${input} in
      [sS] ) return;;
      [xX] ) exit 0;;
      [aA] ) EXECUTE_ALL=true;
        ;;
      * )
        ;;
    esac
  fi

  # Execute the command
  "#;

/// Closes the function; the call to it follows, by index.
pub const CONFIRM_CLOSE: &'static str = "
}

interactive_";

pub const CONFIRM_END: &'static str = "


";

pub const SCRIPT_PREFIX: &'static str = "commands-";

pub const SCRIPT_SUFFIX: &'static str = ".sh";

pub open spec fn digit_char(d: nat) -> char {
    if d == 0 {
        '0'
    } else if d == 1 {
        '1'
    } else if d == 2 {
        '2'
    } else if d == 3 {
        '3'
    } else if d == 4 {
        '4'
    } else if d == 5 {
        '5'
    } else if d == 6 {
        '6'
    } else if d == 7 {
        '7'
    } else if d == 8 {
        '8'
    } else {
        '9'
    }
}

/// The decimal digits of `n`, without leading zeros.
pub open spec fn decimal(n: nat) -> Seq<char>
    decreases n,
{
    if n < 10 {
        seq![digit_char(n)]
    } else {
        decimal(n / 10) + seq![digit_char(n % 10)]
    }
}

/// The lines of one command, one per line of text.
pub open spec fn render_command(lines: Seq<Seq<char>>) -> Seq<char>
    decreases lines.len(),
{
    if lines.len() == 0 {
        Seq::empty()
    } else if lines.len() == 1 {
        lines[0]
    } else {
        render_command(lines.drop_last()) + NEWLINE@ + lines.last()
    }
}

/// Each command followed by a line ending.
pub open spec fn default_body(commands: Seq<Seq<Seq<char>>>) -> Seq<char>
    decreases commands.len(),
{
    if commands.len() == 0 {
        Seq::empty()
    } else {
        default_body(commands.drop_last()) + render_command(commands.last()) + NEWLINE@
    }
}

/// A pause of `millis` between each two commands.
pub open spec fn delayed_body(commands: Seq<Seq<Seq<char>>>, millis: nat) -> Seq<char>
    decreases commands.len(),
{
    if commands.len() == 0 {
        Seq::empty()
    } else if commands.len() == 1 {
        render_command(commands[0]) + NEWLINE@
    } else {
        delayed_body(commands.drop_last(), millis) + SLEEP@ + decimal(millis) + NEWLINE@
            + render_command(commands.last()) + NEWLINE@
    }
}

/// `s` with each single quote doubled.
pub open spec fn double_quotes(s: Seq<char>) -> Seq<char>
    decreases s.len(),
{
    if s.len() == 0 {
        Seq::empty()
    } else {
        double_quotes(s.drop_last()) + if s.last() == '\'' {
            DOUBLED_QUOTE@
        } else {
            seq![s.last()]
        }
    }
}

/// What the confirmation shows of a command: its first line.
pub open spec fn shown_text(command: Seq<Seq<char>>) -> Seq<char> {
    double_quotes(
        if command.len() > 0 {
            command[0]
        } else {
            MISSING_COMMAND@
        },
    )
}

/// The function that confirms and runs the command of index `index`, and its call.
pub open spec fn confirm_block(index: nat, command: Seq<Seq<char>>) -> Seq<char> {
    CONFIRM_OPEN@ + decimal(index) + CONFIRM_SHOW@ + shown_text(command) + CONFIRM_ASK@
        + render_command(command) + CONFIRM_CLOSE@ + decimal(index) + CONFIRM_END@
}

pub open spec fn interactive_blocks(commands: Seq<Seq<Seq<char>>>) -> Seq<char>
    decreases commands.len(),
{
    if commands.len() == 0 {
        Seq::empty()
    } else {
        interactive_blocks(commands.drop_last()) + confirm_block(
            (commands.len() - 1) as nat,
            commands.last(),
        )
    }
}

/// The whole script that runs `commands` in `mode`.
pub open spec fn script_text(commands: Seq<Seq<Seq<char>>>, mode: ExecutionMode) -> Seq<char> {
    PREAMBLE@ + match mode {
        ExecutionMode::Default => default_body(commands),
        ExecutionMode::DelayBetweenCommands(millis) => delayed_body(commands, millis as nat),
        ExecutionMode::Interactive => INTERACTIVE_HEADER@ + interactive_blocks(commands),
    }
}

/// The name of a script file made at `millis`.
pub open spec fn script_file_name_spec(millis: nat) -> Seq<char> {
    SCRIPT_PREFIX@ + decimal(millis) + SCRIPT_SUFFIX@
}

/// Appends the decimal digits of `n`.
pub fn push_decimal(out: &mut String, n: u128)
    ensures
        final(out)@ == old(out)@ + decimal(n as nat),
    decreases n,
{
    if n >= 10 {
        push_decimal(out, n / 10);
    }
    let d = n % 10;
    proof {
        reveal_strlit("0");
        reveal_strlit("1");
        reveal_strlit("2");
        reveal_strlit("3");
        reveal_strlit("4");
        reveal_strlit("5");
        reveal_strlit("6");
        reveal_strlit("7");
        reveal_strlit("8");
        reveal_strlit("9");
    }
    if d == 0 {
        out.append("0");
    } else if d == 1 {
        out.append("1");
    } else if d == 2 {
        out.append("2");
    } else if d == 3 {
        out.append("3");
    } else if d == 4 {
        out.append("4");
    } else if d == 5 {
        out.append("5");
    } else if d == 6 {
        out.append("6");
    } else if d == 7 {
        out.append("7");
    } else if d == 8 {
        out.append("8");
    } else {
        out.append("9");
    }
    assert(final(out)@ =~= old(out)@ + decimal(n as nat));
}

/// Appends `s` with each single quote doubled.
pub fn push_doubling_quotes(out: &mut String, s: &str)
    ensures
        final(out)@ == old(out)@ + double_quotes(s@),
{
    let n = s.unicode_len();
    let ghost start = out@;
    let mut i: usize = 0;
    proof {
        reveal_strlit("'");
    }
    while i < n
        invariant
            n == s@.len(),
            i <= n,
            out@ == start + double_quotes(s@.take(i as int)),
        decreases n - i,
    {
        let c = s.get_char(i);
        if c == '\'' {
            out.append(DOUBLED_QUOTE);
        } else {
            out.append(s.substring_char(i, i + 1));
        }
        assert(s@.take(i + 1).drop_last() =~= s@.take(i as int));
        assert(s@.subrange(i as int, i + 1) =~= seq![c]);
        i = i + 1;
        assert(out@ =~= start + double_quotes(s@.take(i as int)));
    }
    assert(s@.take(n as int) =~= s@);
}

/// The name of the script file made at `millis` milliseconds since the epoch.
pub fn script_file_name(millis: u128) -> (r: String)
    ensures
        r@ == script_file_name_spec(millis as nat),
{
    let mut name = String::from_str(SCRIPT_PREFIX);
    push_decimal(&mut name, millis);
    name.append(SCRIPT_SUFFIX);
    name
}

} // verus!
