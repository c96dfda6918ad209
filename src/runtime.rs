use vstd::prelude::*;
use vstd::string::StringExecFns;
use vstd::utf8::{encode_utf8, valid_utf8, decode_utf8};
use crate::builtins::{
    FileRead, utf8_bytes, decode_text, join_words, echo_output, wc_line, wc_stats, wc_buffer, wc_files,
    wc_files_output, cat_files, cat_output, lines_output, external_output,
};
use crate::command::{Command, CommandModel, strings_view, commands_view, commands_parser, parse_pipeline};
use crate::environment::{Env, bindings_map, expand_token, expand, expand_components, resolve};
use crate::grep::{grep_options, grep_run, grep_file, grep_output, grep_options_of};
use crate::shell::{TokenModel, StringModel, ComponentModel, lex_line, shell_token_parser};

verus! {

/// What a stage needs from outside the shell before it can run.
#[derive(Debug, Clone, PartialEq)]
pub enum StageRequest {
    /// Nothing.
    Nothing,
    /// The text of each file, in order.
    ReadTextFiles(Vec<String>),
    /// The bytes of each file, in order.
    ReadFiles(Vec<String>),
    /// The text of one file.
    ReadTextFile(String),
    /// The current directory.
    CurrentDir,
    /// Run `program` with `args`, in the inherited environment overridden by
    /// `overrides`, with `input` as its standard input; its standard output
    /// and error, line by line.
    Spawn { program: String, args: Vec<String>, overrides: Vec<(String, String)>, input: Vec<u8> },
}

/// What the outside gave for a stage's request.
#[derive(Debug, Clone, PartialEq)]
pub enum StageInput {
    Nothing,
    /// One read for each file asked for, in order.
    Files(Vec<FileRead>),
    /// The read of the one file asked for.
    File(FileRead),
    /// The current directory, where it could be had as text.
    Dir(Option<String>),
    /// The lines that the program wrote, or `None` where it could not be
    /// started.
    Output(Option<Vec<String>>),
}

pub open spec fn files_of(input: StageInput) -> Seq<FileRead> {
    match input {
        StageInput::Files(v) => v@,
        _ => seq![],
    }
}

pub open spec fn file_of(input: StageInput) -> Option<FileRead> {
    match input {
        StageInput::File(f) => Some(f),
        _ => None,
    }
}

/// The buffer after a stage, from the buffer before it and what the outside
/// gave.
pub open spec fn stage_buffer(c: CommandModel, buf: Seq<u8>, input: StageInput) -> Seq<u8> {
    match c {
        CommandModel::Cat(names) => cat_output(names, files_of(input), names.len() as int),
        CommandModel::Echo(words) => encode_utf8(join_words(words)),
        CommandModel::Wc(names) => if names.len() == 0 {
            wc_line(wc_stats(buf), None)
        } else {
            wc_files_output(names, files_of(input), names.len() as int)
        },
        CommandModel::Pwd => match input {
            StageInput::Dir(Some(d)) => encode_utf8(d@),
            _ => seq![],
        },
        CommandModel::Exit => buf,
        CommandModel::Assignment(_, _) => seq![],
        CommandModel::Grep(args) => grep_output(grep_options_of(args), buf, file_of(input)),
        CommandModel::External(argv) => if argv.len() == 0 {
            seq![]
        } else {
            match input {
                StageInput::Output(Some(lines)) => lines_output(strings_view(lines@), lines@.len() as int),
                _ => encode_utf8("No such command: "@ + argv[0]),
            }
        },
    }
}

/// Whether the buffer is to be printed after the stage: not after an
/// external program that was started, whose output went out as it came.
pub open spec fn stage_prints(c: CommandModel, input: StageInput) -> bool {
    match c {
        CommandModel::External(argv) => argv.len() > 0 && !(input matches StageInput::Output(Some(_))),
        _ => true,
    }
}

/// The variables after a stage.
pub open spec fn stage_vars(c: CommandModel, vars: Map<Seq<char>, Seq<char>>) -> Map<Seq<char>, Seq<char>> {
    match c {
        CommandModel::Assignment(n, v) => vars.insert(n, v),
        _ => vars,
    }
}

/// The pipeline that a line stands for under the given variables: its
/// tokens, expanded once, then read as stages.
pub open spec fn line_pipeline(line: Seq<char>, vars: Map<Seq<char>, Seq<char>>) -> Option<Seq<CommandModel>> {
    match lex_line(line) {
        Some(toks) => parse_pipeline(toks.map_values(|t: TokenModel| expand_token(t, vars))),
        None => None,
    }
}

/// The buffer after the stages `cs`, starting from `buf`, where stage `i`
/// got `inputs[i]` from outside.
pub open spec fn stages_buffer(cs: Seq<CommandModel>, buf: Seq<u8>, inputs: Seq<StageInput>) -> Seq<u8>
    decreases cs.len(),
{
    if cs.len() == 0 {
        buf
    } else {
        stage_buffer(cs.last(), stages_buffer(cs.drop_last(), buf, inputs.drop_last()), inputs.last())
    }
}

/// The text printed at the end of a line: none where the buffer is not to be
/// printed; else the text it encodes, or a diagnostic where it is not UTF-8.
pub open spec fn printed(should_print: bool, buf: Seq<u8>) -> Option<Seq<char>> {
    if !should_print {
        None
    } else if valid_utf8(buf) {
        Some(decode_utf8(buf))
    } else {
        Some("Output can't be decoded as utf-8."@)
    }
}

pub open spec fn text_view(t: Option<String>) -> Option<Seq<char>> {
    match t {
        Some(s) => Some(s@),
        None => None,
    }
}

/// The variables after the stages `cs`.
pub open spec fn stages_vars(cs: Seq<CommandModel>, vars: Map<Seq<char>, Seq<char>>) -> Map<Seq<char>, Seq<char>>
    decreases cs.len(),
{
    if cs.len() == 0 {
        vars
    } else {
        stage_vars(cs.last(), stages_vars(cs.drop_last(), vars))
    }
}

/// A pipeline of `echo` stages prints exactly the words of its last stage,
/// joined by single spaces, whatever the buffer held before and whatever the
/// outside gave.
pub proof fn echo_pipeline_prints_its_words(cs: Seq<CommandModel>, buf: Seq<u8>, inputs: Seq<StageInput>)
    requires
        cs.len() > 0,
        inputs.len() == cs.len(),
        forall|i: int| 0 <= i < cs.len() ==> #[trigger] cs[i] is Echo,
    ensures
        stage_prints(cs.last(), inputs.last()),
        printed(stage_prints(cs.last(), inputs.last()), stages_buffer(cs, buf, inputs)) == Some(
            join_words(cs.last()->Echo_0),
        ),
{
    assert(cs[cs.len() - 1] is Echo);
    vstd::utf8::encode_utf8_valid_utf8(join_words(cs.last()->Echo_0));
    vstd::utf8::encode_utf8_decode_utf8(join_words(cs.last()->Echo_0));
}

/// A variable that a stage sets has that value when a later line expands
/// it.
pub proof fn assignment_seen_by_later_lines(vars: Map<Seq<char>, Seq<char>>, name: Seq<char>, value: Seq<char>)
    ensures
        expand(
            StringModel::Interpolated(seq![ComponentModel::Var(name)]),
            stage_vars(CommandModel::Assignment(name, value), vars),
        ) == value,
{
    let cs = seq![ComponentModel::Var(name)];
    let m = vars.insert(name, value);
    assert(cs.drop_last() =~= Seq::<ComponentModel>::empty());
    assert(expand_components(cs.drop_last(), m) == Seq::<char>::empty());
    assert(resolve(cs.last(), m) == value);
    assert(Seq::<char>::empty() + value =~= value);
}

fn copy_bindings(v: &Vec<(String, String)>) -> (r: Vec<(String, String)>)
    ensures
        r@ == v@,
{
    let mut r: Vec<(String, String)> = Vec::new();
    let mut i: usize = 0;
    while i < v.len()
        invariant
            i <= v@.len(),
            r@ == v@.take(i as int),
        decreases v@.len() - i,
    {
        r.push((v[i].0.clone(), v[i].1.clone()));
        assert(r@ =~= v@.take(i + 1));
        i = i + 1;
    }
    assert(v@.take(v@.len() as int) =~= v@);
    r
}

fn copy_strings(v: &Vec<String>, from: usize) -> (r: Vec<String>)
    requires
        from <= v@.len(),
    ensures
        strings_view(r@) == strings_view(v@).subrange(from as int, v@.len() as int),
{
    let mut r: Vec<String> = Vec::new();
    let mut i: usize = from;
    while i < v.len()
        invariant
            from <= i <= v@.len(),
            strings_view(r@) == strings_view(v@).subrange(from as int, i as int),
        decreases v@.len() - i,
    {
        let ghost before = r@;
        r.push(v[i].clone());
        assert(strings_view(r@) =~= strings_view(before).push(v@[i as int]@));
        assert(strings_view(v@).subrange(from as int, i + 1) =~= strings_view(v@).subrange(from as int, i as int).push(v@[i as int]@));
        i = i + 1;
    }
    r
}

impl Env {
    /// Reads a line into the pipeline it stands for, expanding variables
    /// once, with their values before any stage of it runs.
    pub fn parse_line(&self, line: &str) -> (r: Option<Vec<Command>>)
        ensures
            match line_pipeline(line@, self.vars()) {
                Some(cs) => r matches Some(v) && commands_view(v@) == cs,
                None => r is None,
            },
    {
        match shell_token_parser(line) {
            Ok(tokens) => {
                let expanded = self.expand_command(tokens);
                match commands_parser(&expanded) {
                    Ok(cs) => Some(cs),
                    Err(_) => None,
                }
            },
            Err(_) => None,
        }
    }

    /// What `command` needs from outside before it can run.
    pub fn stage_request(&self, command: &Command) -> (r: StageRequest)
        ensures
            match command@ {
                CommandModel::Cat(names) => r matches StageRequest::ReadTextFiles(v) && strings_view(v@) == names,
                CommandModel::Wc(names) => if names.len() == 0 {
                    r is Nothing
                } else {
                    r matches StageRequest::ReadFiles(v) && strings_view(v@) == names
                },
                CommandModel::Pwd => r is CurrentDir,
                CommandModel::External(argv) => if argv.len() == 0 {
                    r is Nothing
                } else {
                    r matches StageRequest::Spawn { program, args, overrides, input }
                        && program@ == argv[0] && strings_view(args@) == argv.drop_first()
                        && bindings_map(overrides@) == self.vars() && input@ == self.stdin@
                },
                CommandModel::Grep(args) => match grep_options_of(args) {
                    Some(o) => if o.positional.len() == 2 {
                        r matches StageRequest::ReadTextFile(n) && n@ == o.positional[1]
                    } else {
                        r is Nothing
                    },
                    None => r is Nothing,
                },
                _ => r is Nothing,
            },
    {
        match command {
            Command::CAT(names) => StageRequest::ReadTextFiles(copy_strings(names, 0)),
            Command::WC(names) => if names.len() == 0 {
                StageRequest::Nothing
            } else {
                StageRequest::ReadFiles(copy_strings(names, 0))
            },
            Command::PWD => StageRequest::CurrentDir,
            Command::EXTERNAL(argv) => if argv.len() == 0 {
                StageRequest::Nothing
            } else {
                let args = copy_strings(argv, 1);
                StageRequest::Spawn {
                    program: argv[0].clone(),
                    args,
                    overrides: copy_bindings(&self.bindings),
                    input: self.stdin.clone(),
                }
            },
            Command::GREP(raw) => match grep_file(&grep_options(raw)) {
                Some(name) => StageRequest::ReadTextFile(name),
                None => StageRequest::Nothing,
            },
            _ => StageRequest::Nothing,
        }
    }

    /// Runs one stage, given what the outside gave for its request. Returns
    /// whether the session is to end, which only `exit` asks.
    pub fn interpret_command(&mut self, command: &Command, input: StageInput) -> (exit: bool)
        ensures
            exit == (command@ is Exit),
            final(self).stdin@ == stage_buffer(command@, old(self).stdin@, input),
            final(self).should_print == stage_prints(command@, input),
            final(self).vars() == stage_vars(command@, old(self).vars()),
    {
        self.should_print = true;
        match command {
            Command::CAT(names) => {
                let files = match &input {
                    StageInput::Files(v) => cat_files(names, v),
                    _ => cat_files(names, &Vec::new()),
                };
                self.stdin = files;
                false
            },
            Command::ECHO(words) => {
                self.stdin = echo_output(words);
                false
            },
            Command::WC(names) => {
                if names.len() == 0 {
                    self.stdin = wc_buffer(&self.stdin);
                } else {
                    let out = match &input {
                        StageInput::Files(v) => wc_files(names, v),
                        _ => wc_files(names, &Vec::new()),
                    };
                    self.stdin = out;
                }
                false
            },
            Command::PWD => {
                self.clear_stdin();
                match input {
                    StageInput::Dir(Some(d)) => {
                        self.stdin = utf8_bytes(d);
                    },
                    _ => {},
                }
                false
            },
            Command::EXIT => true,
            Command::SET(variable, value) => {
                self.clear_stdin();
                self.declare(variable.clone(), value.clone());
                false
            },
            Command::GREP(raw) => {
                let opts = grep_options(raw);
                let out = match &input {
                    StageInput::File(f) => grep_run(&opts, &self.stdin, Some(f)),
                    _ => grep_run(&opts, &self.stdin, None),
                };
                self.stdin = out;
                false
            },
            Command::EXTERNAL(argv) => {
                self.should_print = false;
                if argv.len() == 0 {
                    self.clear_stdin();
                } else {
                    match input {
                        StageInput::Output(Some(lines)) => {
                            self.stdin = external_output(&lines);
                        },
                        _ => {
                            self.should_print = true;
                            let mut s = String::from_str("No such command: ");
                            s.append(argv[0].as_str());
                            self.stdin = utf8_bytes(s);
                        },
                    }
                }
                false
            },
        }
    }

    /// Ends a line: the text to print, where the buffer is to be printed (or
    /// a diagnostic where it is not UTF-8); the buffer is emptied.
    pub fn take_output(&mut self) -> (r: Option<String>)
        ensures
            text_view(r) == printed(old(self).should_print, old(self).stdin@),
            final(self).stdin@ == Seq::<u8>::empty(),
            final(self).should_print == old(self).should_print,
            final(self).vars() == old(self).vars(),
    {
        let out = if self.should_print {
            match decode_text(self.stdin.clone()) {
                Some(text) => Some(text),
                None => Some(String::from_str("Output can't be decoded as utf-8.")),
            }
        } else {
            None
        };
        self.clear_stdin();
        out
    }
}

} // verus!
