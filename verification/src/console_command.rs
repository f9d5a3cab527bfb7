use vstd::prelude::*;

use crate::strs::{
    ascii_lower, ascii_lowered, chars_of, is_space, lowered_string, str_equal, trim_chars, trim_end,
    trim_start, trimmed,
};

verus! {

/// A command typed into the server console.
#[derive(Debug, Clone, Copy, PartialEq, Eq, Structural)]
pub enum ConsoleCommand {
    Help,
    Connections,
    Memory,
    Version,
    Stop,
}

/// The words that invoke a command. The first is the one `help` advertises.
pub open spec fn command_names(command: ConsoleCommand) -> Seq<Seq<char>> {
    match command {
        ConsoleCommand::Help => seq!["help"@],
        ConsoleCommand::Connections => seq!["conn"@],
        ConsoleCommand::Memory => seq!["mem"@],
        ConsoleCommand::Version => seq!["version"@, "ver"@],
        ConsoleCommand::Stop => seq!["stop"@],
    }
}

/// The line `help` prints beside a command.
pub open spec fn command_description(command: ConsoleCommand) -> Seq<char> {
    match command {
        ConsoleCommand::Help => "Show this message"@,
        ConsoleCommand::Connections => "Display connections count"@,
        ConsoleCommand::Memory => "Display memory usage"@,
        ConsoleCommand::Version => "Display limbo version"@,
        ConsoleCommand::Stop => "Stop the server"@,
    }
}

/// The command at a position of the command table.
pub open spec fn command_at(index: int) -> ConsoleCommand {
    if index == 0 {
        ConsoleCommand::Help
    } else if index == 1 {
        ConsoleCommand::Connections
    } else if index == 2 {
        ConsoleCommand::Memory
    } else if index == 3 {
        ConsoleCommand::Version
    } else {
        ConsoleCommand::Stop
    }
}

/// The first command of the table, from `index` on, that `name` invokes.
pub open spec fn command_named_from(name: Seq<char>, index: int) -> Option<ConsoleCommand>
    decreases 5 - index,
{
    if index < 0 || index >= 5 {
        None
    } else if command_names(command_at(index)).contains(name) {
        Some(command_at(index))
    } else {
        command_named_from(name, index + 1)
    }
}

/// The command a typed word invokes, if any.
pub open spec fn command_named(name: Seq<char>) -> Option<ConsoleCommand> {
    command_named_from(name, 0)
}

/// The command a console line asks for: surrounding whitespace and ASCII case are ignored.
pub open spec fn command_for_line(line: Seq<char>) -> Option<ConsoleCommand> {
    command_named(ascii_lowered(trimmed(line)))
}

/// No word invokes two commands, and no command lists a word twice.
pub proof fn lemma_command_names_distinct(
    first: ConsoleCommand,
    i: int,
    second: ConsoleCommand,
    j: int,
)
    requires
        0 <= i < command_names(first).len(),
        0 <= j < command_names(second).len(),
        command_names(first)[i] == command_names(second)[j],
    ensures
        first == second,
        i == j,
{
    reveal_strlit("help");
    reveal_strlit("conn");
    reveal_strlit("mem");
    reveal_strlit("version");
    reveal_strlit("ver");
    reveal_strlit("stop");
    let a = command_names(first)[i];
    let b = command_names(second)[j];
    assert(a.len() == b.len());
    assert(a[0] == b[0]);
    if a.len() > 1 {
        assert(a[1] == b[1]);
    }
}

/// The position of a command in the command table.
pub open spec fn command_index(command: ConsoleCommand) -> int {
    match command {
        ConsoleCommand::Help => 0,
        ConsoleCommand::Connections => 1,
        ConsoleCommand::Memory => 2,
        ConsoleCommand::Version => 3,
        ConsoleCommand::Stop => 4,
    }
}

proof fn lemma_name_found_from(command: ConsoleCommand, i: int, index: int)
    requires
        0 <= i < command_names(command).len(),
        0 <= index <= command_index(command),
    ensures
        command_named_from(command_names(command)[i], index) == Some(command),
    decreases command_index(command) - index,
{
    let name = command_names(command)[i];
    assert(command_at(command_index(command)) == command);
    assert(command_names(command)[i] == name);
    if index < command_index(command) {
        let other = command_at(index);
        if command_names(other).contains(name) {
            let j = choose|j: int| 0 <= j < command_names(other).len() && command_names(other)[j] == name;
            lemma_command_names_distinct(other, j, command, i);
        }
        lemma_name_found_from(command, i, index + 1);
    } else {
        assert(command_names(command).contains(name));
    }
}

/// Every word of every command invokes that command, typed as it is listed.
pub proof fn lemma_every_name_parses_to_its_command(command: ConsoleCommand, i: int)
    requires
        0 <= i < command_names(command).len(),
    ensures
        command_names(command)[i].len() > 0,
        command_named(command_names(command)[i]) == Some(command),
        command_for_line(command_names(command)[i]) == Some(command),
{
    reveal_strlit("help");
    reveal_strlit("conn");
    reveal_strlit("mem");
    reveal_strlit("version");
    reveal_strlit("ver");
    reveal_strlit("stop");
    let name = command_names(command)[i];
    lemma_name_found_from(command, i, 0);
    assert(name.len() > 0);
    assert(!is_space(name[0]));
    assert(trim_start(name) == name);
    assert(!is_space(name.last()));
    assert(trim_end(name) == name);
    assert(trimmed(name) == name);
    assert(ascii_lowered(name) =~= name) by {
        assert forall|k: int| 0 <= k < name.len() implies ascii_lower(#[trigger] name[k]) == name[k] by {
            assert('a' <= name[k] <= 'z');
        }
    }
}

impl ConsoleCommand {
    /// Every command, in the order `help` lists them.
    pub const ALL: [ConsoleCommand; 5] = [
        ConsoleCommand::Help,
        ConsoleCommand::Connections,
        ConsoleCommand::Memory,
        ConsoleCommand::Version,
        ConsoleCommand::Stop,
    ];

    /// The words that invoke this command. The first is the one `help` advertises.
    pub fn names(self) -> (names: &'static [&'static str])
        ensures
            names@.len() == command_names(self).len(),
            forall|i: int| 0 <= i < names@.len() ==> #[trigger] names@[i]@ == command_names(self)[i],
    {
        match self {
            ConsoleCommand::Help => &["help"],
            ConsoleCommand::Connections => &["conn"],
            ConsoleCommand::Memory => &["mem"],
            ConsoleCommand::Version => &["version", "ver"],
            ConsoleCommand::Stop => &["stop"],
        }
    }

    pub fn description(self) -> (description: &'static str)
        ensures
            description@ == command_description(self),
    {
        match self {
            ConsoleCommand::Help => "Show this message",
            ConsoleCommand::Connections => "Display connections count",
            ConsoleCommand::Memory => "Display memory usage",
            ConsoleCommand::Version => "Display limbo version",
            ConsoleCommand::Stop => "Stop the server",
        }
    }

    /// The command a console line asks for, ignoring surrounding whitespace and ASCII case.
    pub fn parse(input: &str) -> (command: Option<ConsoleCommand>)
        ensures
            command == command_for_line(input@),
    {
        let typed = lowered_string(&trim_chars(&chars_of(input)));
        let table = ConsoleCommand::ALL;
        let mut index: usize = 0;
        while index < 5
            invariant
                0 <= index <= 5,
                table@ == seq![
                    ConsoleCommand::Help,
                    ConsoleCommand::Connections,
                    ConsoleCommand::Memory,
                    ConsoleCommand::Version,
                    ConsoleCommand::Stop,
                ],
                command_named(typed@) == command_named_from(typed@, index as int),
                typed@ == ascii_lowered(trimmed(input@)),
            decreases 5 - index,
        {
            let candidate = table[index];
            assert(candidate == command_at(index as int));
            let names = candidate.names();
            let mut found = false;
            let mut position: usize = 0;
            while position < names.len()
                invariant
                    0 <= position <= names@.len(),
                    names@.len() == command_names(candidate).len(),
                    forall|i: int|
                        0 <= i < names@.len() ==> #[trigger] names@[i]@ == command_names(
                            candidate,
                        )[i],
                    found <==> exists|i: int|
                        0 <= i < position && #[trigger] command_names(candidate)[i] == typed@,
                decreases names@.len() - position,
            {
                if str_equal(names[position], typed.as_str()) {
                    found = true;
                }
                position += 1;
            }
            if found {
                proof {
                    let i = choose|i: int|
                        0 <= i < position && #[trigger] command_names(candidate)[i] == typed@;
                    assert(command_names(candidate).contains(typed@));
                }
                return Some(candidate);
            }
            proof {
                assert(!command_names(candidate).contains(typed@));
            }
            index += 1;
        }
        None
    }
}

} // verus!
