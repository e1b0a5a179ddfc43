use vstd::prelude::*;
use vstd::string::*;

verus! {

/// The stage that an invocation asks for.
#[derive(Debug, Clone, Copy, PartialEq, Eq, Structural)]
pub enum Command {
    Lex,
    Parse,
    Codegen,
}

/// The command that a single argument names, if it is a mode flag.
pub open spec fn flag_command(arg: Seq<char>) -> Option<Command> {
    if arg == "--lex"@ {
        Some(Command::Lex)
    } else if arg == "--parse"@ {
        Some(Command::Parse)
    } else if arg == "--codegen"@ {
        Some(Command::Codegen)
    } else {
        None
    }
}

/// The command named by the first mode flag among `args[i..]`.
pub open spec fn first_command(args: Seq<Seq<char>>, i: int) -> Option<Command>
    decreases args.len() - i,
{
    if i < 0 || i >= args.len() {
        None
    } else {
        match flag_command(args[i]) {
            Some(c) => Some(c),
            None => first_command(args, i + 1),
        }
    }
}

/// The message given when no argument is a mode flag.
pub open spec fn no_option_message() -> Seq<char> {
    "no valid option found"@
}

/// The command that `arg` names, if it is a mode flag.
fn command_of(arg: &String) -> (r: Option<Command>)
    ensures
        r == flag_command(arg@),
{
    let lex = String::from_str("--lex");
    let parse = String::from_str("--parse");
    let codegen = String::from_str("--codegen");
    if arg.eq(&lex) {
        Some(Command::Lex)
    } else if arg.eq(&parse) {
        Some(Command::Parse)
    } else if arg.eq(&codegen) {
        Some(Command::Codegen)
    } else {
        None
    }
}

/// Selects the stage: the first argument that is `--lex`, `--parse` or
/// `--codegen` decides; other arguments are passed over.
pub fn parse_args(arguments: Vec<String>) -> (r: Result<Command, String>)
    ensures
        match first_command(arguments@.map_values(|a: String| a@), 0) {
            Some(c) => r == Ok::<Command, String>(c),
            None => r matches Err(msg) && msg@ == no_option_message(),
        },
{
    let ghost args = arguments@.map_values(|a: String| a@);
    let mut i: usize = 0;
    while i < arguments.len()
        invariant
            i <= arguments@.len(),
            args == arguments@.map_values(|a: String| a@),
            first_command(args, 0) == first_command(args, i as int),
        decreases arguments@.len() - i,
    {
        match command_of(&arguments[i]) {
            Some(c) => return Ok(c),
            None => {},
        }
        i = i + 1;
    }
    Err(String::from_str("no valid option found"))
}

/// Parsing into a syntax tree is not implemented: no source text yields one.
pub fn parse(src_code_contents: &str) -> (r: Option<String>)
    ensures
        r is None,
{
    None
}

/// Code generation is not implemented: it starts from the parser's tree, and
/// the parser yields none, so no source text yields code.
pub fn code_gen(src_code_contents: &str) -> (r: Option<String>)
    ensures
        r is None,
{
    parse(src_code_contents)
}

} // verus!
