use vstd::prelude::*;
use crate::functions::eq_str;
use crate::text::{chars_of, push_char};

verus! {

broadcast use vstd::std_specs::vec::group_vec_axioms;

/// State of the command-line reader: waiting for a line, or collecting the lines of a query that
/// does not end with `;` yet.
#[derive(Debug)]
pub enum CliState {
    Idle,
    Collecting(String),
}

/// A command line starting with `.`.
#[derive(Debug)]
pub enum CliCommand {
    Help,
    Open(String),
    MissingOpenArgument,
    Quit,
    Once,
    Read(String),
    MissingReadArgument,
    Unknown(String),
}

/// What the reader asks for after a line: nothing, to stop at the end of the input, to run a
/// command (which goes into the history), or to execute a query (which goes into the history).
#[derive(Debug)]
pub enum CliAction {
    Nothing,
    Finished,
    Command(CliCommand),
    Execute(String),
}

pub enum StateModel {
    Idle,
    Collecting(Seq<char>),
}

pub enum CommandModel {
    Help,
    Open(Seq<char>),
    MissingOpenArgument,
    Quit,
    Once,
    Read(Seq<char>),
    MissingReadArgument,
    Unknown(Seq<char>),
}

pub enum ActionModel {
    Nothing,
    Finished,
    Command(CommandModel),
    Execute(Seq<char>),
}

pub open spec fn view_state(s: CliState) -> StateModel {
    match s {
        CliState::Idle => StateModel::Idle,
        CliState::Collecting(q) => StateModel::Collecting(q@),
    }
}

pub open spec fn view_command(c: CliCommand) -> CommandModel {
    match c {
        CliCommand::Help => CommandModel::Help,
        CliCommand::Open(p) => CommandModel::Open(p@),
        CliCommand::MissingOpenArgument => CommandModel::MissingOpenArgument,
        CliCommand::Quit => CommandModel::Quit,
        CliCommand::Once => CommandModel::Once,
        CliCommand::Read(p) => CommandModel::Read(p@),
        CliCommand::MissingReadArgument => CommandModel::MissingReadArgument,
        CliCommand::Unknown(w) => CommandModel::Unknown(w@),
    }
}

pub open spec fn view_action(a: CliAction) -> ActionModel {
    match a {
        CliAction::Nothing => ActionModel::Nothing,
        CliAction::Finished => ActionModel::Finished,
        CliAction::Command(c) => ActionModel::Command(view_command(c)),
        CliAction::Execute(q) => ActionModel::Execute(q@),
    }
}

/// Index of the first space at or after `from`, or the length.
pub open spec fn space_index(s: Seq<char>, from: int) -> int
    decreases s.len() - from,
{
    if from < 0 || from >= s.len() { s.len() as int } else if s[from] == ' ' { from } else { space_index(s, from + 1) }
}

/// The part of the line before its first space.
pub open spec fn first_word(s: Seq<char>) -> Seq<char> {
    s.subrange(0, space_index(s, 0))
}

/// The part of the line between its first and its second space, when it has a space.
pub open spec fn second_word(s: Seq<char>) -> Option<Seq<char>> {
    let i = space_index(s, 0);
    if i < s.len() { Some(s.subrange(i + 1, space_index(s, i + 1))) } else { None }
}

/// The command of a line starting with `.`.
pub open spec fn command_spec(line: Seq<char>) -> CommandModel {
    let w = first_word(line);
    if w == ".help"@ {
        CommandModel::Help
    } else if w == ".open"@ {
        match second_word(line) { Some(p) => CommandModel::Open(p), None => CommandModel::MissingOpenArgument }
    } else if w == ".quit"@ {
        CommandModel::Quit
    } else if w == ".once"@ {
        CommandModel::Once
    } else if w == ".read"@ {
        match second_word(line) { Some(p) => CommandModel::Read(p), None => CommandModel::MissingReadArgument }
    } else {
        CommandModel::Unknown(w)
    }
}

/// A query is complete when it ends with `;`.
pub open spec fn complete(q: Seq<char>) -> bool {
    q.len() > 0 && q.last() == ';'
}

/// One step of the reader, on a line or on the end of the input (`None`): an empty line ends a
/// query being collected; lines of a query are joined with a new line until one ends with `;`;
/// the end of the input executes the query being collected, or finishes.
pub open spec fn cli_step_spec(state: StateModel, line: Option<Seq<char>>) -> (StateModel, ActionModel) {
    match state {
        StateModel::Idle => match line {
            None => (StateModel::Idle, ActionModel::Finished),
            Some(l) => if l.len() == 0 {
                (StateModel::Idle, ActionModel::Nothing)
            } else if l[0] == '.' {
                (StateModel::Idle, ActionModel::Command(command_spec(l)))
            } else if complete(l) {
                (StateModel::Idle, ActionModel::Execute(l))
            } else {
                (StateModel::Collecting(l), ActionModel::Nothing)
            },
        },
        StateModel::Collecting(q) => match line {
            None => (StateModel::Idle, ActionModel::Execute(q)),
            Some(l) => if l.len() == 0 {
                (StateModel::Idle, ActionModel::Execute(q))
            } else {
                let q2 = q + seq!['\n'] + l;
                if complete(q2) { (StateModel::Idle, ActionModel::Execute(q2)) } else { (StateModel::Collecting(q2), ActionModel::Nothing) }
            },
        },
    }
}

/// Index of the first space at or after `from`, or the length.
fn find_space(chars: &Vec<char>, from: usize) -> (r: usize)
    requires
        from <= chars@.len(),
    ensures
        r == space_index(chars@, from as int),
        from <= r <= chars@.len(),
{
    let mut i = from;
    while i < chars.len()
        invariant
            from <= i <= chars@.len(),
            space_index(chars@, from as int) == space_index(chars@, i as int),
        decreases chars@.len() - i,
    {
        if chars[i] == ' ' {
            return i;
        }
        i = i + 1;
    }
    i
}

/// The characters `from..to` as a string.
fn substring(chars: &Vec<char>, from: usize, to: usize) -> (r: String)
    requires
        from <= to <= chars@.len(),
    ensures
        r@ == chars@.subrange(from as int, to as int),
{
    let mut out = String::new();
    for i in from..to
        invariant
            from <= to <= chars@.len(),
            out@ == chars@.subrange(from as int, i as int),
    {
        push_char(&mut out, chars[i]);
        assert(out@ =~= chars@.subrange(from as int, i + 1));
    }
    out
}

/// The command of a line starting with `.`.
fn parse_command(line: &String) -> (r: CliCommand)
    ensures
        view_command(r) == command_spec(line@),
{
    let chars = chars_of(line.as_str());
    let i = find_space(&chars, 0);
    let word = substring(&chars, 0, i);
    let second = if i < chars.len() {
        let j = find_space(&chars, i + 1);
        Some(substring(&chars, i + 1, j))
    } else {
        None
    };
    if eq_str(&word, ".help") {
        CliCommand::Help
    } else if eq_str(&word, ".open") {
        match second {
            Some(p) => CliCommand::Open(p),
            None => CliCommand::MissingOpenArgument,
        }
    } else if eq_str(&word, ".quit") {
        CliCommand::Quit
    } else if eq_str(&word, ".once") {
        CliCommand::Once
    } else if eq_str(&word, ".read") {
        match second {
            Some(p) => CliCommand::Read(p),
            None => CliCommand::MissingReadArgument,
        }
    } else {
        CliCommand::Unknown(word)
    }
}

/// Whether the text ends with `;`.
fn ends_with_semicolon(s: &String) -> (r: bool)
    ensures
        r == complete(s@),
{
    let chars = chars_of(s.as_str());
    chars.len() > 0 && chars[chars.len() - 1] == ';'
}

/// One step of the command-line reader, on the next line or on the end of the input.
pub fn cli_step(state: CliState, line: Option<String>) -> (r: (CliState, CliAction))
    ensures
        (view_state(r.0), view_action(r.1)) == cli_step_spec(view_state(state), match line { Some(l) => Some(l@), None => None }),
{
    match state {
        CliState::Idle => match line {
            None => (CliState::Idle, CliAction::Finished),
            Some(l) => {
                let chars = chars_of(l.as_str());
                if chars.len() == 0 {
                    (CliState::Idle, CliAction::Nothing)
                } else if chars[0] == '.' {
                    (CliState::Idle, CliAction::Command(parse_command(&l)))
                } else if ends_with_semicolon(&l) {
                    (CliState::Idle, CliAction::Execute(l))
                } else {
                    (CliState::Collecting(l), CliAction::Nothing)
                }
            },
        },
        CliState::Collecting(q) => match line {
            None => (CliState::Idle, CliAction::Execute(q)),
            Some(l) => {
                let chars = chars_of(l.as_str());
                if chars.len() == 0 {
                    (CliState::Idle, CliAction::Execute(q))
                } else {
                    let ghost q0 = q@;
                    let mut q2 = q;
                    push_char(&mut q2, '\n');
                    let ghost before = q2@;
                    for i in 0..chars.len()
                        invariant
                            q2@ == before + chars@.take(i as int),
                    {
                        push_char(&mut q2, chars[i]);
                        assert(q2@ =~= before + chars@.take(i + 1));
                    }
                    assert(chars@.take(chars@.len() as int) =~= chars@);
                    assert(q2@ =~= q0 + seq!['\n'] + l@);
                    if ends_with_semicolon(&q2) {
                        (CliState::Idle, CliAction::Execute(q2))
                    } else {
                        (CliState::Collecting(q2), CliAction::Nothing)
                    }
                }
            },
        },
    }
}

} // verus!
