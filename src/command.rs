use vstd::prelude::*;
use vstd::string::StringExecFns;

verus! {

/// A token after variable expansion: strings carry their final text.
#[derive(Debug, PartialEq, Clone)]
pub enum ExpandedShellToken {
    StringToken(String),
    Pipe,
    Assign,
}

/// What an expanded token stands for.
pub enum ExpandedModel {
    Str(Seq<char>),
    Pipe,
    Assign,
}

impl View for ExpandedShellToken {
    type V = ExpandedModel;

    open spec fn view(&self) -> ExpandedModel {
        match self {
            ExpandedShellToken::StringToken(s) => ExpandedModel::Str(s@),
            ExpandedShellToken::Pipe => ExpandedModel::Pipe,
            ExpandedShellToken::Assign => ExpandedModel::Assign,
        }
    }
}

pub open spec fn expanded_view(v: Seq<ExpandedShellToken>) -> Seq<ExpandedModel> {
    v.map_values(|t: ExpandedShellToken| t@)
}

/// One stage of a pipeline.
#[derive(Debug, Clone, PartialEq)]
pub enum Command {
    CAT(Vec<String>),
    ECHO(Vec<String>),
    WC(Vec<String>),
    PWD,
    EXIT,
    SET(String, String),
    GREP(Vec<String>),
    EXTERNAL(Vec<String>),
}

/// What a stage stands for.
pub enum CommandModel {
    Cat(Seq<Seq<char>>),
    Echo(Seq<Seq<char>>),
    Wc(Seq<Seq<char>>),
    Pwd,
    Exit,
    Assignment(Seq<char>, Seq<char>),
    Grep(Seq<Seq<char>>),
    External(Seq<Seq<char>>),
}

pub open spec fn strings_view(v: Seq<String>) -> Seq<Seq<char>> {
    v.map_values(|s: String| s@)
}

impl View for Command {
    type V = CommandModel;

    open spec fn view(&self) -> CommandModel {
        match self {
            Command::CAT(a) => CommandModel::Cat(strings_view(a@)),
            Command::ECHO(a) => CommandModel::Echo(strings_view(a@)),
            Command::WC(a) => CommandModel::Wc(strings_view(a@)),
            Command::PWD => CommandModel::Pwd,
            Command::EXIT => CommandModel::Exit,
            Command::SET(n, v) => CommandModel::Assignment(n@, v@),
            Command::GREP(a) => CommandModel::Grep(strings_view(a@)),
            Command::EXTERNAL(a) => CommandModel::External(strings_view(a@)),
        }
    }
}

pub open spec fn commands_view(v: Seq<Command>) -> Seq<CommandModel> {
    v.map_values(|c: Command| c@)
}

/// The token list cut at each pipe, in order; the pipes themselves are
/// dropped. There is always at least one group.
pub open spec fn split_groups(toks: Seq<ExpandedModel>) -> Seq<Seq<ExpandedModel>>
    decreases toks.len(),
{
    if toks.len() == 0 {
        seq![seq![]]
    } else {
        let g = split_groups(toks.drop_last());
        match toks.last() {
            ExpandedModel::Pipe => g.push(seq![]),
            _ => g.update(g.len() - 1, g.last().push(toks.last())),
        }
    }
}

pub open spec fn all_strings(g: Seq<ExpandedModel>) -> bool {
    forall|k: int| 0 <= k < g.len() ==> g[k] is Str
}

pub open spec fn words(g: Seq<ExpandedModel>) -> Seq<Seq<char>> {
    g.map_values(|t: ExpandedModel| t->Str_0)
}

/// The stage that a group of tokens forms, if any: `name = value` sets a
/// variable; otherwise all tokens must be strings, and the first names a
/// builtin or else an external program.
pub open spec fn classify(g: Seq<ExpandedModel>) -> Option<CommandModel> {
    if g.len() == 3 && g[0] is Str && g[1] is Assign && g[2] is Str {
        Some(CommandModel::Assignment(g[0]->Str_0, g[2]->Str_0))
    } else if g.len() == 0 || !all_strings(g) {
        None
    } else {
        let w = words(g);
        let name = w[0];
        let args = w.drop_first();
        if name == "cat"@ {
            if args.len() > 0 { Some(CommandModel::Cat(args)) } else { None }
        } else if name == "echo"@ {
            Some(CommandModel::Echo(args))
        } else if name == "wc"@ {
            Some(CommandModel::Wc(args))
        } else if name == "pwd"@ {
            if args.len() == 0 { Some(CommandModel::Pwd) } else { None }
        } else if name == "exit"@ {
            if args.len() == 0 { Some(CommandModel::Exit) } else { None }
        } else if name == "grep"@ {
            if args.len() > 0 { Some(CommandModel::Grep(args)) } else { None }
        } else {
            Some(CommandModel::External(w))
        }
    }
}

/// The stages of the groups, in order, if every group forms one.
pub open spec fn parse_groups(gs: Seq<Seq<ExpandedModel>>) -> Option<Seq<CommandModel>>
    decreases gs.len(),
{
    if gs.len() == 0 {
        Some(seq![])
    } else {
        match parse_groups(gs.drop_last()) {
            Some(cs) => match classify(gs.last()) {
                Some(c) => Some(cs.push(c)),
                None => None,
            },
            None => None,
        }
    }
}

/// The pipeline that a line's expanded tokens form, if any.
pub open spec fn parse_pipeline(toks: Seq<ExpandedModel>) -> Option<Seq<CommandModel>> {
    if toks.len() == 0 {
        None
    } else {
        parse_groups(split_groups(toks))
    }
}

pub proof fn lemma_split_groups_nonempty(toks: Seq<ExpandedModel>)
    ensures
        split_groups(toks).len() >= 1,
    decreases toks.len(),
{
    if toks.len() > 0 {
        lemma_split_groups_nonempty(toks.drop_last());
    }
}

pub proof fn lemma_parse_groups_len(gs: Seq<Seq<ExpandedModel>>)
    ensures
        parse_groups(gs) is Some ==> parse_groups(gs)->Some_0.len() == gs.len(),
    decreases gs.len(),
{
    if gs.len() > 0 {
        lemma_parse_groups_len(gs.drop_last());
    }
}

/// A pipeline that parses has at least one stage.
pub proof fn lemma_pipeline_nonempty(toks: Seq<ExpandedModel>)
    ensures
        parse_pipeline(toks) is Some ==> parse_pipeline(toks)->Some_0.len() > 0,
{
    lemma_split_groups_nonempty(toks);
    lemma_parse_groups_len(split_groups(toks));
}

/// The stages of a pipeline did not parse.
#[derive(Debug, PartialEq, Clone)]
pub struct CommandParseError;

fn is_literally(w: &String, lit: &str) -> (r: bool)
    ensures
        r == (w@ == lit@),
{
    *w == String::from_str(lit)
}

/// Reads one stage from the tokens `lo .. hi`.
fn command_at(tokens: &Vec<ExpandedShellToken>, lo: usize, hi: usize) -> (r: Option<Command>)
    requires
        lo <= hi <= tokens@.len(),
    ensures
        match classify(expanded_view(tokens@).subrange(lo as int, hi as int)) {
            Some(c) => r matches Some(v) && v@ == c,
            None => r is None,
        },
{
    let ghost g = expanded_view(tokens@).subrange(lo as int, hi as int);
    if hi - lo == 3 {
        assert(g[0] == tokens@[lo as int]@ && g[1] == tokens@[lo + 1]@ && g[2] == tokens@[lo + 2]@);
        if let ExpandedShellToken::StringToken(name) = &tokens[lo] {
            if let ExpandedShellToken::Assign = &tokens[lo + 1] {
                if let ExpandedShellToken::StringToken(value) = &tokens[lo + 2] {
                    assert(g[0] is Str && g[1] is Assign && g[2] is Str);
                    return Some(Command::SET(name.clone(), value.clone()));
                }
            }
        }
    }
    let mut all: Vec<String> = Vec::new();
    let mut args: Vec<String> = Vec::new();
    let mut k: usize = lo;
    while k < hi
        invariant
            lo <= k <= hi <= tokens@.len(),
            g == expanded_view(tokens@).subrange(lo as int, hi as int),
            !(g.len() == 3 && g[0] is Str && g[1] is Assign && g[2] is Str),
            all_strings(g.take(k - lo)),
            strings_view(all@) == words(g.take(k - lo)),
            k > lo ==> strings_view(args@) == words(g.take(k - lo)).drop_first(),
            k == lo ==> args@.len() == 0,
        decreases hi - k,
    {
        match &tokens[k] {
            ExpandedShellToken::StringToken(s) => {
                let ghost before_all = all@;
                let ghost before_args = args@;
                all.push(s.clone());
                if k > lo {
                    args.push(s.clone());
                    assert(strings_view(args@) =~= strings_view(before_args).push(s@));
                }
                assert(g.take(k + 1 - lo) =~= g.take(k - lo).push(g[k - lo]));
                assert(strings_view(all@) =~= strings_view(before_all).push(s@));
                assert(strings_view(all@) =~= words(g.take(k + 1 - lo)));
                assert(strings_view(args@) =~= words(g.take(k + 1 - lo)).drop_first());
            },
            _ => {
                assert(!(g[k - lo] is Str));
                return None;
            },
        }
        k = k + 1;
    }
    assert(g.take(hi - lo) =~= g);
    if hi == lo {
        return None;
    }
    let name = &all[0];
    if is_literally(name, "cat") {
        if args.len() > 0 { Some(Command::CAT(args)) } else { None }
    } else if is_literally(name, "echo") {
        Some(Command::ECHO(args))
    } else if is_literally(name, "wc") {
        Some(Command::WC(args))
    } else if is_literally(name, "pwd") {
        if args.len() == 0 { Some(Command::PWD) } else { None }
    } else if is_literally(name, "exit") {
        if args.len() == 0 { Some(Command::EXIT) } else { None }
    } else if is_literally(name, "grep") {
        if args.len() > 0 { Some(Command::GREP(args)) } else { None }
    } else {
        Some(Command::EXTERNAL(all))
    }
}

/// Reads one stage from a whole token list.
pub fn command_parser(tokens: &Vec<ExpandedShellToken>) -> (r: Result<Command, CommandParseError>)
    ensures
        match classify(expanded_view(tokens@)) {
            Some(c) => r matches Ok(v) && v@ == c,
            None => r is Err,
        },
{
    assert(expanded_view(tokens@).subrange(0, tokens@.len() as int) =~= expanded_view(tokens@));
    match command_at(tokens, 0, tokens.len()) {
        Some(c) => Ok(c),
        None => Err(CommandParseError),
    }
}

/// Reads a pipeline: the stages between pipes, in order. Fails where there
/// are no tokens or a group forms no stage.
pub fn commands_parser(tokens: &Vec<ExpandedShellToken>) -> (r: Result<Vec<Command>, CommandParseError>)
    ensures
        match parse_pipeline(expanded_view(tokens@)) {
            Some(cs) => r matches Ok(v) && commands_view(v@) == cs,
            None => r is Err,
        },
{
    let ghost v = expanded_view(tokens@);
    if tokens.len() == 0 {
        return Err(CommandParseError);
    }
    let mut cmds: Vec<Command> = Vec::new();
    let mut ok = true;
    let mut start: usize = 0;
    let mut i: usize = 0;
    assert(v.take(0) =~= seq![]);
    assert(commands_view(cmds@) =~= seq![]);
    while i < tokens.len()
        invariant
            v == expanded_view(tokens@),
            start <= i <= tokens@.len(),
            split_groups(v.take(i as int)).len() >= 1,
            split_groups(v.take(i as int)).last() == v.subrange(start as int, i as int),
            parse_groups(split_groups(v.take(i as int)).drop_last())
                == (if ok { Some(commands_view(cmds@)) } else { None::<Seq<CommandModel>> }),
        decreases tokens@.len() - i,
    {
        let ghost g = split_groups(v.take(i as int));
        assert(v.take(i + 1).drop_last() =~= v.take(i as int));
        match &tokens[i] {
            ExpandedShellToken::Pipe => {
                assert(split_groups(v.take(i + 1)) == g.push(seq![]));
                assert(g.push(seq![]).drop_last() =~= g);
                assert(g.drop_last().push(g.last()) =~= g);
                if ok {
                    match command_at(tokens, start, i) {
                        Some(c) => {
                            let ghost before = cmds@;
                            cmds.push(c);
                            assert(commands_view(cmds@) =~= commands_view(before).push(c@));
                        },
                        None => {
                            ok = false;
                        },
                    }
                }
                start = i + 1;
                assert(v.subrange(start as int, start as int) =~= seq![]);
            },
            _ => {
                let ghost g2 = g.update(g.len() - 1, g.last().push(v[i as int]));
                assert(v.take(i + 1).last() == v[i as int]);
                assert(split_groups(v.take(i + 1)) == g2);
                assert(g2.drop_last() =~= g.drop_last());
                assert(g2.last() =~= v.subrange(start as int, i + 1));
            },
        }
        i = i + 1;
    }
    assert(v.take(tokens.len() as int) =~= v);
    let ghost g = split_groups(v);
    assert(g.drop_last().push(g.last()) =~= g);
    if !ok {
        return Err(CommandParseError);
    }
    match command_at(tokens, start, tokens.len()) {
        Some(c) => {
            let ghost before = cmds@;
            cmds.push(c);
            assert(commands_view(cmds@) =~= commands_view(before).push(c@));
            Ok(cmds)
        },
        None => Err(CommandParseError),
    }
}

} // verus!
