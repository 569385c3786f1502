//! The commands that a client sends to the running launcher, parsed from
//! command-line words.
use vstd::prelude::*;

use crate::text::same_text;

verus! {

pub enum Command {
    Show,
    Hide,
    Toggle,
    SetQuery { query: String },
}

pub struct Commands(pub Vec<Command>);

pub enum CommandParseError {
    UnknownCommand { command: String },
    EmptyArgument,
}

pub struct CommandParseResult(pub Result<Commands, CommandParseError>);

pub enum CommandModel {
    Show,
    Hide,
    Toggle,
    SetQuery(Seq<char>),
}

pub enum ParseErrorModel {
    UnknownCommand(Seq<char>),
    EmptyArgument,
}

impl View for Command {
    type V = CommandModel;

    open spec fn view(&self) -> CommandModel {
        match self {
            Command::Show => CommandModel::Show,
            Command::Hide => CommandModel::Hide,
            Command::Toggle => CommandModel::Toggle,
            Command::SetQuery { query } => CommandModel::SetQuery(query@),
        }
    }
}

impl View for CommandParseError {
    type V = ParseErrorModel;

    open spec fn view(&self) -> ParseErrorModel {
        match self {
            CommandParseError::UnknownCommand { command } => ParseErrorModel::UnknownCommand(command@),
            CommandParseError::EmptyArgument => ParseErrorModel::EmptyArgument,
        }
    }
}

pub open spec fn command_views(v: Seq<Command>) -> Seq<CommandModel> {
    v.map_values(|c: Command| c@)
}

pub open spec fn token_views(v: Seq<String>) -> Seq<Seq<char>> {
    v.map_values(|s: String| s@)
}

impl View for CommandParseResult {
    type V = Result<Seq<CommandModel>, ParseErrorModel>;

    open spec fn view(&self) -> Result<Seq<CommandModel>, ParseErrorModel> {
        match &self.0 {
            Ok(cs) => Ok(command_views(cs.0@)),
            Err(e) => Err(e@),
        }
    }
}

pub open spec fn show_word() -> Seq<char> {
    seq!['s', 'h', 'o', 'w']
}

pub open spec fn hide_word() -> Seq<char> {
    seq!['h', 'i', 'd', 'e']
}

pub open spec fn toggle_word() -> Seq<char> {
    seq!['t', 'o', 'g', 'g', 'l', 'e']
}

pub open spec fn set_query_word() -> Seq<char> {
    seq!['s', 'e', 't', '_', 'q', 'u', 'e', 'r', 'y']
}

/// Puts `c` in front of a successful parse; an error stays.
pub open spec fn prepend(
    cs: Seq<CommandModel>,
    rest: Result<Seq<CommandModel>, ParseErrorModel>,
) -> Result<Seq<CommandModel>, ParseErrorModel> {
    match rest {
        Ok(r) => Ok(cs + r),
        Err(e) => Err(e),
    }
}

/// The commands that the words `t` spell: `show`, `hide`, `toggle`, or
/// `set_query` followed by the query; the first word that is not a command,
/// or a `set_query` without its query, is the error.
pub open spec fn parsed(t: Seq<Seq<char>>) -> Result<Seq<CommandModel>, ParseErrorModel>
    decreases t.len(),
{
    if t.len() == 0 {
        Ok(seq![])
    } else if t[0] == set_query_word() {
        if t.len() < 2 {
            Err(ParseErrorModel::EmptyArgument)
        } else {
            prepend(seq![CommandModel::SetQuery(t[1])], parsed(t.subrange(2, t.len() as int)))
        }
    } else if t[0] == show_word() {
        prepend(seq![CommandModel::Show], parsed(t.drop_first()))
    } else if t[0] == hide_word() {
        prepend(seq![CommandModel::Hide], parsed(t.drop_first()))
    } else if t[0] == toggle_word() {
        prepend(seq![CommandModel::Toggle], parsed(t.drop_first()))
    } else {
        Err(ParseErrorModel::UnknownCommand(t[0]))
    }
}

/// The command that starts at word `i` of `t`, with the number of words it
/// takes.
pub open spec fn command_at(t: Seq<Seq<char>>, i: int) -> Result<(CommandModel, int), ParseErrorModel> {
    if t[i] == set_query_word() {
        if i + 1 < t.len() {
            Ok((CommandModel::SetQuery(t[i + 1]), 2))
        } else {
            Err(ParseErrorModel::EmptyArgument)
        }
    } else if t[i] == show_word() {
        Ok((CommandModel::Show, 1))
    } else if t[i] == hide_word() {
        Ok((CommandModel::Hide, 1))
    } else if t[i] == toggle_word() {
        Ok((CommandModel::Toggle, 1))
    } else {
        Err(ParseErrorModel::UnknownCommand(t[i]))
    }
}

/// Parses the command that starts at word `i`; gives it with the number of
/// words it took.
fn parse_command(tokens: &Vec<String>, i: usize) -> (r: Result<(Command, usize), CommandParseError>)
    requires
        i < tokens@.len(),
    ensures
        match r {
            Ok((c, used)) => command_at(token_views(tokens@), i as int) == Ok::<
                (CommandModel, int),
                ParseErrorModel,
            >((c@, used as int)),
            Err(e) => command_at(token_views(tokens@), i as int) == Err::<
                (CommandModel, int),
                ParseErrorModel,
            >(e@),
        },
        ({
            let t = token_views(tokens@).subrange(i as int, tokens@.len() as int);
            match r {
                Ok((c, used)) => {
                    &&& 1 <= used <= t.len()
                    &&& parsed(t) == prepend(seq![c@], parsed(t.subrange(used as int, t.len() as int)))
                },
                Err(e) => parsed(t) == Err::<Seq<CommandModel>, ParseErrorModel>(e@),
            }
        }),
{
    let ghost t = token_views(tokens@).subrange(i as int, tokens@.len() as int);
    let command = tokens[i].as_str();
    proof {
        assert(t[0] == tokens@[i as int]@);
        assert(token_views(tokens@)[i as int] == tokens@[i as int]@);
        assert(t.drop_first() =~= t.subrange(1, t.len() as int));
        reveal_strlit("show");
        reveal_strlit("hide");
        reveal_strlit("toggle");
        reveal_strlit("set_query");
        assert("show"@ =~= show_word());
        assert("hide"@ =~= hide_word());
        assert("toggle"@ =~= toggle_word());
        assert("set_query"@ =~= set_query_word());
    }
    if same_text(command, "set_query") {
        if tokens.len() - i < 2 {
            return Err(CommandParseError::EmptyArgument);
        }
        let query = tokens[i + 1].clone();
        proof {
            assert(t[1] == tokens@[i as int + 1]@);
            assert(token_views(tokens@)[i as int + 1] == tokens@[i as int + 1]@);
        }
        Ok((Command::SetQuery { query }, 2))
    } else if same_text(command, "show") {
        Ok((Command::Show, 1))
    } else if same_text(command, "hide") {
        Ok((Command::Hide, 1))
    } else if same_text(command, "toggle") {
        Ok((Command::Toggle, 1))
    } else {
        Err(CommandParseError::UnknownCommand { command: tokens[i].clone() })
    }
}

impl CommandParseResult {
    /// Parses command-line words into commands, or the first error.
    pub fn from_tokens(tokens: &Vec<String>) -> (r: CommandParseResult)
        ensures
            r@ == parsed(token_views(tokens@)),
    {
        let ghost all = token_views(tokens@);
        let mut commands: Vec<Command> = Vec::new();
        let mut i: usize = 0;
        assert(all.subrange(0, all.len() as int) =~= all);
        assert(command_views(commands@) =~= seq![]);
        assert(seq![] + all =~= all);
        while i < tokens.len()
            invariant
                all == token_views(tokens@),
                i <= tokens@.len(),
                parsed(all) == prepend(
                    command_views(commands@),
                    parsed(all.subrange(i as int, all.len() as int)),
                ),
            decreases tokens.len() - i,
        {
            match parse_command(tokens, i) {
                Ok((c, used)) => {
                    let ghost before = command_views(commands@);
                    let ghost t = all.subrange(i as int, all.len() as int);
                    proof {
                        assert(t.subrange(used as int, t.len() as int) =~= all.subrange(
                            i + used,
                            all.len() as int,
                        ));
                        let rest = parsed(all.subrange(i + used, all.len() as int));
                        match rest {
                            Ok(x) => {
                                assert(before + (seq![c@] + x) =~= before.push(c@) + x);
                            },
                            Err(_) => {},
                        }
                    }
                    commands.push(c);
                    proof {
                        assert(command_views(commands@) =~= before.push(c@));
                    }
                    i = i + used;
                },
                Err(e) => {
                    return CommandParseResult(Err(e));
                },
            }
        }
        proof {
            assert(all.subrange(i as int, all.len() as int) =~= Seq::<Seq<char>>::empty());
            assert(command_views(commands@) + seq![] =~= command_views(commands@));
        }
        CommandParseResult(Ok(Commands(commands)))
    }
}

} // verus!
