use vstd::prelude::*;
use vstd::string::StrSliceExecFns;

verus! {

/// One command of the interactive debugger.
pub enum DebuggerCommand {
    Quit,
    Cont,
    Back,
    BreakPoint(Vec<String>),
    Run(Vec<String>),
}

/// The character sequences of a list of words.
pub open spec fn words_view(tokens: Seq<&str>) -> Seq<Seq<char>> {
    tokens.map_values(|t: &str| t@)
}

/// The character sequences of a list of owned strings.
pub open spec fn strings_view(v: Seq<String>) -> Seq<Seq<char>> {
    v.map_values(|s: String| s@)
}

/// The kind of a command, without its arguments.
pub enum CommandKind {
    Quit,
    Cont,
    Back,
    Break,
    Run,
}

/// Which command a first word names, if any; the short and long spellings
/// are accepted alike.
pub open spec fn command_kind(w: Seq<char>) -> Option<CommandKind> {
    if w == "q"@ || w == "quit"@ {
        Some(CommandKind::Quit)
    } else if w == "c"@ || w == "cont"@ || w == "continue"@ {
        Some(CommandKind::Cont)
    } else if w == "bt"@ || w == "back"@ || w == "backtrace"@ {
        Some(CommandKind::Back)
    } else if w == "b"@ || w == "break"@ {
        Some(CommandKind::Break)
    } else if w == "r"@ || w == "run"@ {
        Some(CommandKind::Run)
    } else {
        None
    }
}

impl DebuggerCommand {
    pub open spec fn kind(self) -> CommandKind {
        match self {
            DebuggerCommand::Quit => CommandKind::Quit,
            DebuggerCommand::Cont => CommandKind::Cont,
            DebuggerCommand::Back => CommandKind::Back,
            DebuggerCommand::BreakPoint(_) => CommandKind::Break,
            DebuggerCommand::Run(_) => CommandKind::Run,
        }
    }
}

/// Whether `s` holds exactly the characters of `w`.
pub fn same_text(s: &str, w: &str) -> (r: bool)
    ensures
        r == (s@ == w@),
{
    let n = s.unicode_len();
    if n != w.unicode_len() {
        return false;
    }
    let mut i: usize = 0;
    while i < n
        invariant
            n == s@.len(),
            n == w@.len(),
            i <= n,
            s@.subrange(0, i as int) == w@.subrange(0, i as int),
        decreases n - i,
    {
        if s.get_char(i) != w.get_char(i) {
            return false;
        }
        assert(s@.subrange(0, i + 1) == s@.subrange(0, i as int).push(s@[i as int]));
        assert(w@.subrange(0, i + 1) == w@.subrange(0, i as int).push(w@[i as int]));
        i += 1;
    }
    assert(s@ == s@.subrange(0, n as int));
    assert(w@ == w@.subrange(0, n as int));
    true
}

/// Copies the words after the first one into owned strings.
fn arguments_after_first(tokens: &Vec<&str>) -> (r: Vec<String>)
    requires
        tokens.len() > 0,
    ensures
        strings_view(r@) == words_view(tokens@).subrange(1, tokens@.len() as int),
{
    let mut out: Vec<String> = Vec::new();
    let mut i: usize = 1;
    assert(strings_view(out@) =~= words_view(tokens@).subrange(1, 1));
    while i < tokens.len()
        invariant
            1 <= i <= tokens.len(),
            strings_view(out@) == words_view(tokens@).subrange(1, i as int),
        decreases tokens.len() - i,
    {
        let t: &str = tokens[i];
        let owned = t.to_owned();
        assert(owned@ == t@);
        let ghost before = out@;
        out.push(owned);
        assert(out@ == before.push(owned));
        assert(strings_view(out@) =~= strings_view(before).push(owned@));
        assert(words_view(tokens@).subrange(1, i + 1) =~= words_view(tokens@).subrange(
            1,
            i as int,
        ).push(tokens@[i as int]@));
        assert(strings_view(out@) =~= words_view(tokens@).subrange(1, i + 1));
        i += 1;
    }
    out
}

impl DebuggerCommand {
    /// Parses the words of one command line; the first word names the command
    /// and, for `break` and `run`, the remaining words are its arguments.
    pub fn from_tokens(tokens: &Vec<&str>) -> (r: Option<DebuggerCommand>)
        requires
            tokens.len() > 0,
        ensures
            ({
                let w = tokens@[0]@;
                let rest = words_view(tokens@).subrange(1, tokens@.len() as int);
                &&& r is None <==> command_kind(w) is None
                &&& r matches Some(c) ==> command_kind(w) == Some(c.kind())
                &&& r matches Some(DebuggerCommand::BreakPoint(a)) ==> strings_view(a@) == rest
                &&& r matches Some(DebuggerCommand::Run(a)) ==> strings_view(a@) == rest
            }),
    {
        proof {
            reveal_strlit("q");
            reveal_strlit("quit");
            reveal_strlit("c");
            reveal_strlit("cont");
            reveal_strlit("continue");
            reveal_strlit("bt");
            reveal_strlit("back");
            reveal_strlit("backtrace");
            reveal_strlit("b");
            reveal_strlit("break");
            reveal_strlit("r");
            reveal_strlit("run");
        }
        let head: &str = tokens[0];
        if same_text(head, "q") || same_text(head, "quit") {
            Some(DebuggerCommand::Quit)
        } else if same_text(head, "c") || same_text(head, "cont") || same_text(head, "continue") {
            Some(DebuggerCommand::Cont)
        } else if same_text(head, "bt") || same_text(head, "back") || same_text(head, "backtrace") {
            Some(DebuggerCommand::Back)
        } else if same_text(head, "b") || same_text(head, "break") {
            Some(DebuggerCommand::BreakPoint(arguments_after_first(tokens)))
        } else if same_text(head, "r") || same_text(head, "run") {
            Some(DebuggerCommand::Run(arguments_after_first(tokens)))
        } else {
            None
        }
    }
}

} // verus!
