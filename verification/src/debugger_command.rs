//! The commands of a debugger's prompt.

use crate::text::{lemma_bytes_cover_chars, slice_views, str_eq, substring, views};
use vstd::prelude::*;
use vstd::string::StringSliceAdditionalSpecFns;

verus! {

/// A command typed at the debugger's prompt.
pub enum DebuggerCommand {
    /// Leave the debugger.
    Quit,
    /// Start the program with these arguments.
    Run(Vec<String>),
    /// Let the stopped program go on.
    Continue,
    /// Show the chain of calls that led to where the program stands.
    Backtrace,
    /// Stop the program at this address, given without the leading `*`.
    Break(String),
}

/// What a command says, over plain character sequences.
pub enum CommandView {
    Quit,
    Run(Seq<Seq<char>>),
    Continue,
    Backtrace,
    Break(Seq<char>),
}

impl View for DebuggerCommand {
    type V = CommandView;

    open spec fn view(&self) -> CommandView {
        match self {
            DebuggerCommand::Quit => CommandView::Quit,
            DebuggerCommand::Run(args) => CommandView::Run(views(args@)),
            DebuggerCommand::Continue => CommandView::Continue,
            DebuggerCommand::Backtrace => CommandView::Backtrace,
            DebuggerCommand::Break(target) => CommandView::Break(target@),
        }
    }
}

/// The word asks to quit.
pub open spec fn is_quit(word: Seq<char>) -> bool {
    word == "q"@ || word == "quit"@
}

/// The word asks to run the program.
pub open spec fn is_run(word: Seq<char>) -> bool {
    word == "r"@ || word == "run"@
}

/// The word asks to continue.
pub open spec fn is_continue(word: Seq<char>) -> bool {
    word == "c"@ || word == "cont"@
}

/// The word asks for a backtrace.
pub open spec fn is_backtrace(word: Seq<char>) -> bool {
    word == "bt"@ || word == "back"@ || word == "backtrace"@
}

/// The word asks for a breakpoint.
pub open spec fn is_break(word: Seq<char>) -> bool {
    word == "b"@ || word == "break"@
}

/// The tokens can be read: there is a first word, and where that asks for a
/// breakpoint a second one follows that begins with `*`.
pub open spec fn readable(tokens: Seq<Seq<char>>) -> bool {
    &&& tokens.len() >= 1
    &&& is_break(tokens[0]) ==> tokens.len() >= 2 && tokens[1].len() >= 1 && tokens[1][0] == '*'
}

/// The command that the tokens spell.  The first word names it, by its
/// full name or its short form; a word that names none gives `None`.
pub open spec fn parse(tokens: Seq<Seq<char>>) -> Option<CommandView> {
    let word = tokens[0];
    if is_quit(word) {
        Some(CommandView::Quit)
    } else if is_run(word) {
        Some(CommandView::Run(tokens.subrange(1, tokens.len() as int)))
    } else if is_continue(word) {
        Some(CommandView::Continue)
    } else if is_backtrace(word) {
        Some(CommandView::Backtrace)
    } else if is_break(word) {
        Some(CommandView::Break(tokens[1].subrange(1, tokens[1].len() as int)))
    } else {
        None
    }
}

/// What an optional command says.
pub open spec fn optional_view(command: Option<DebuggerCommand>) -> Option<CommandView> {
    match command {
        Some(c) => Some(c@),
        None => None,
    }
}

impl DebuggerCommand {
    /// Reads a command from the words of a line.
    pub fn from_tokens(tokens: &Vec<&str>) -> (command: Option<DebuggerCommand>)
        requires
            readable(slice_views(tokens@)),
        ensures
            optional_view(command) == parse(slice_views(tokens@)),
    {
        let word = tokens[0];
        assert(slice_views(tokens@)[0] == word@);
        if str_eq(word, "q") || str_eq(word, "quit") {
            Some(DebuggerCommand::Quit)
        } else if str_eq(word, "r") || str_eq(word, "run") {
            let mut args: Vec<String> = Vec::new();
            let mut i: usize = 1;
            while i < tokens.len()
                invariant
                    1 <= i <= tokens@.len(),
                    views(args@) == slice_views(tokens@).subrange(1, i as int),
                decreases tokens@.len() - i,
            {
                let ghost before = views(args@);
                args.push(tokens[i].to_owned());
                assert(views(args@) =~= before.push(tokens@[i as int]@));
                assert(slice_views(tokens@).subrange(1, i + 1) =~= slice_views(tokens@).subrange(
                    1,
                    i as int,
                ).push(tokens@[i as int]@));
                i += 1;
            }
            Some(DebuggerCommand::Run(args))
        } else if str_eq(word, "c") || str_eq(word, "cont") {
            Some(DebuggerCommand::Continue)
        } else if str_eq(word, "bt") || str_eq(word, "back") || str_eq(word, "backtrace") {
            Some(DebuggerCommand::Backtrace)
        } else if str_eq(word, "b") || str_eq(word, "break") {
            let target = tokens[1];
            assert(slice_views(tokens@)[1] == target@);
            proof {
                lemma_bytes_cover_chars(target@);
            }
            let end = target.as_bytes().len();
            let rest = substring(target, 1, end);
            assert(rest@ =~= target@.subrange(1, target@.len() as int));
            Some(DebuggerCommand::Break(rest.to_owned()))
        } else {
            None
        }
    }
}

} // verus!
