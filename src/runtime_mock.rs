use vstd::prelude::*;
use vstd::string::StringExecFns;
use vstd::utf8::encode_utf8;
use crate::builtins::{FileRead, utf8_bytes};
use crate::grep::grep_options_of;
use crate::command::{Command, CommandModel, commands_view, strings_view, lemma_pipeline_nonempty};
use crate::environment::expand_token;
use crate::shell::{TokenModel, lex_line};
use crate::environment::{Env, bindings_map};
use crate::runtime::{
    StageRequest, StageInput, stage_buffer, stages_buffer, stage_vars, stages_vars, stage_prints, line_pipeline, printed,
    text_view,
};

verus! {

/// A runtime that keeps its files in memory and cannot start programs.
pub struct RuntimeMock {
    pub env: Env,
    /// Files by name, with their text; a later entry of a name hides an
    /// earlier one.
    pub files: Vec<(String, String)>,
    /// The current directory.
    pub cwd: String,
}

/// Whether `f` is what reading `name` gives among `files`.
pub open spec fn mock_read(files: Map<Seq<char>, Seq<char>>, name: Seq<char>, f: FileRead) -> bool {
    if files.contains_key(name) {
        f matches FileRead::Contents(b) && b@ == encode_utf8(files[name])
    } else {
        f is Missing
    }
}

/// Whether `input` is what the runtime gives for `request`.
pub open spec fn mock_answer(files: Map<Seq<char>, Seq<char>>, cwd: Seq<char>, request: StageRequest, input: StageInput) -> bool {
    match request {
        StageRequest::ReadTextFiles(names) | StageRequest::ReadFiles(names) => input matches StageInput::Files(v)
            && v@.len() == names@.len() && forall|i: int|
            0 <= i < v@.len() ==> mock_read(files, names@[i]@, #[trigger] v@[i]),
        StageRequest::ReadTextFile(name) => input matches StageInput::File(f) && mock_read(files, name@, f),
        StageRequest::CurrentDir => input matches StageInput::Dir(Some(d)) && d@ == cwd,
        StageRequest::Spawn { .. } => input matches StageInput::Output(None),
        StageRequest::Nothing => input is Nothing,
    }
}

/// Whether `input` is what the runtime gives a stage `c`.
pub open spec fn mock_input(files: Map<Seq<char>, Seq<char>>, cwd: Seq<char>, c: CommandModel, input: StageInput) -> bool {
    match c {
        CommandModel::Cat(names) => mock_files(files, names, input),
        CommandModel::Wc(names) => if names.len() == 0 {
            input is Nothing
        } else {
            mock_files(files, names, input)
        },
        CommandModel::Pwd => input matches StageInput::Dir(Some(d)) && d@ == cwd,
        CommandModel::External(argv) => if argv.len() == 0 {
            input is Nothing
        } else {
            input matches StageInput::Output(None)
        },
        CommandModel::Grep(args) => match grep_options_of(args) {
            Some(o) => if o.positional.len() == 2 {
                input matches StageInput::File(f) && mock_read(files, o.positional[1], f)
            } else {
                input is Nothing
            },
            None => input is Nothing,
        },
        _ => input is Nothing,
    }
}

/// Whether `input` holds, in order, the reads of `names` among `files`.
pub open spec fn mock_files(files: Map<Seq<char>, Seq<char>>, names: Seq<Seq<char>>, input: StageInput) -> bool {
    input matches StageInput::Files(v) && v@.len() == names.len() && forall|i: int|
        0 <= i < v@.len() ==> mock_read(files, names[i], #[trigger] v@[i])
}

/// Whether the first `n` stages of `cs` ran, with `inputs` as the runtime's
/// answers, none of them `exit`, and the run stopped there only at an `exit`.
pub open spec fn mock_run(
    files: Map<Seq<char>, Seq<char>>,
    cwd: Seq<char>,
    cs: Seq<CommandModel>,
    n: int,
    inputs: Seq<StageInput>,
) -> bool {
    &&& 0 <= n <= cs.len()
    &&& inputs.len() == n
    &&& forall|j: int| 0 <= j < n ==> !(#[trigger] cs[j] is Exit) && mock_input(files, cwd, cs[j], inputs[j])
    &&& n < cs.len() ==> cs[n] is Exit
}

impl RuntimeMock {
    pub open spec fn file_map(&self) -> Map<Seq<char>, Seq<char>> {
        bindings_map(self.files@)
    }

    /// A runtime with no variables, no files, and `/` as current directory.
    pub fn new() -> (r: RuntimeMock)
        ensures
            r.env.vars() == Map::<Seq<char>, Seq<char>>::empty(),
            r.env.stdin@ == Seq::<u8>::empty(),
            r.file_map() == Map::<Seq<char>, Seq<char>>::empty(),
            r.cwd@ == "/"@,
    {
        RuntimeMock { env: Env::new(), files: Vec::new(), cwd: String::from_str("/") }
    }

    /// Stores a file.
    pub fn add_file(&mut self, name: String, text: String)
        ensures
            final(self).file_map() == old(self).file_map().insert(name@, text@),
            final(self).env == old(self).env,
            final(self).cwd == old(self).cwd,
    {
        let ghost before = self.files@;
        self.files.push((name, text));
        assert(self.files@.drop_last() =~= before);
    }

    fn read(&self, name: &String) -> (r: FileRead)
        ensures
            mock_read(self.file_map(), name@, r),
    {
        let mut i: usize = self.files.len();
        assert(self.files@.subrange(0, i as int) =~= self.files@);
        while i > 0
            invariant
                i <= self.files@.len(),
                bindings_map(self.files@.subrange(0, i as int)).contains_key(name@)
                    == self.file_map().contains_key(name@),
                bindings_map(self.files@.subrange(0, i as int)).contains_key(name@)
                    ==> bindings_map(self.files@.subrange(0, i as int))[name@] == self.file_map()[name@],
            decreases i,
        {
            assert(self.files@.subrange(0, i as int).drop_last() =~= self.files@.subrange(0, i - 1));
            if self.files[i - 1].0 == *name {
                return FileRead::Contents(utf8_bytes(self.files[i - 1].1.clone()));
            }
            i = i - 1;
        }
        assert(self.files@.subrange(0, 0) =~= Seq::<(String, String)>::empty());
        FileRead::Missing
    }

    /// What the runtime gives for `request`.
    pub fn answer(&self, request: &StageRequest) -> (r: StageInput)
        ensures
            mock_answer(self.file_map(), self.cwd@, *request, r),
    {
        match request {
            StageRequest::ReadTextFiles(names) | StageRequest::ReadFiles(names) => {
                let mut v: Vec<FileRead> = Vec::new();
                let mut i: usize = 0;
                while i < names.len()
                    invariant
                        i <= names@.len(),
                        v@.len() == i,
                        forall|j: int| 0 <= j < i ==> mock_read(self.file_map(), names@[j]@, #[trigger] v@[j]),
                    decreases names@.len() - i,
                {
                    v.push(self.read(&names[i]));
                    i = i + 1;
                }
                StageInput::Files(v)
            },
            StageRequest::ReadTextFile(name) => StageInput::File(self.read(name)),
            StageRequest::CurrentDir => StageInput::Dir(Some(self.cwd.clone())),
            StageRequest::Spawn { .. } => StageInput::Output(None),
            StageRequest::Nothing => StageInput::Nothing,
        }
    }

    /// Runs one stage against the files in memory. Returns whether the
    /// session is to end.
    pub fn interpret_command(&mut self, command: &Command) -> (exit: bool)
        ensures
            exit == (command@ is Exit),
            exists|input: StageInput|
                #[trigger] mock_input(old(self).file_map(), old(self).cwd@, command@, input)
                    && final(self).env.stdin@ == stage_buffer(command@, old(self).env.stdin@, input)
                    && final(self).env.should_print == stage_prints(command@, input),
            final(self).env.vars() == stage_vars(command@, old(self).env.vars()),
            final(self).files == old(self).files,
            final(self).cwd == old(self).cwd,
    {
        let r = self.run_stage(command);
        r.0
    }

    fn run_stage(&mut self, command: &Command) -> (r: (bool, Ghost<StageInput>))
        ensures
            r.0 == (command@ is Exit),
            mock_input(old(self).file_map(), old(self).cwd@, command@, r.1@),
            final(self).env.stdin@ == stage_buffer(command@, old(self).env.stdin@, r.1@),
            final(self).env.should_print == stage_prints(command@, r.1@),
            final(self).env.vars() == stage_vars(command@, old(self).env.vars()),
            final(self).files == old(self).files,
            final(self).cwd == old(self).cwd,
    {
        let request = self.env.stage_request(command);
        let input = self.answer(&request);
        let ghost given = input;
        proof {
            match command@ {
                CommandModel::Cat(names) | CommandModel::Wc(names) => {
                    if let StageRequest::ReadTextFiles(v) | StageRequest::ReadFiles(v) = request {
                        assert forall|i: int| 0 <= i < names.len() implies names[i] == v@[i]@ by {
                            assert(strings_view(v@)[i] == v@[i]@);
                        }
                    }
                },
                _ => {},
            }
        }
        let exit = self.env.interpret_command(command, input);
        (exit, Ghost(given))
    }

    /// Runs the stages in order until one asks to end the session. Returns
    /// whether one did; the stages before it ran, each with the runtime's
    /// answer to its request, and none after it.
    pub fn interpret(&mut self, commands: &Vec<Command>) -> (exit: bool)
        ensures
            exit <==> (exists|i: int| 0 <= i < commands@.len() && #[trigger] commands@[i]@ is Exit),
            exists|n: int, inputs: Seq<StageInput>|
                #[trigger] mock_run(old(self).file_map(), old(self).cwd@, commands_view(commands@), n, inputs)
                    && (exit <==> n < commands@.len())
                    && final(self).env.stdin@ == stages_buffer(commands_view(commands@).take(n), old(self).env.stdin@, inputs)
                    && final(self).env.vars() == stages_vars(commands_view(commands@).take(n), old(self).env.vars())
                    && (!exit && n > 0 ==> final(self).env.should_print == stage_prints(
                    commands@[n - 1]@,
                    inputs[n - 1],
                )),
            final(self).files == old(self).files,
            final(self).cwd == old(self).cwd,
    {
        let ghost buf0 = self.env.stdin@;
        let ghost vars0 = self.env.vars();
        let ghost files0 = self.file_map();
        let ghost cs = commands_view(commands@);
        let ghost mut inputs: Seq<StageInput> = seq![];
        let mut i: usize = 0;
        assert(cs.take(0) =~= Seq::<CommandModel>::empty());
        while i < commands.len()
            invariant
                cs == commands_view(commands@),
                buf0 == old(self).env.stdin@,
                vars0 == old(self).env.vars(),
                files0 == self.file_map(),
                i <= commands@.len(),
                inputs.len() == i,
                forall|j: int| 0 <= j < i ==> !(#[trigger] cs[j] is Exit) && mock_input(files0, self.cwd@, cs[j], inputs[j]),
                self.env.stdin@ == stages_buffer(cs.take(i as int), buf0, inputs),
                i > 0 ==> self.env.should_print == stage_prints(cs[i - 1], inputs[i - 1]),
                self.env.vars() == stages_vars(cs.take(i as int), vars0),
                self.cwd == old(self).cwd,
                self.files == old(self).files,
            decreases commands@.len() - i,
        {
            let (exit, Ghost(given)) = self.run_stage(&commands[i]);
            if exit {
                proof {
                    assert(cs[i as int] is Exit);
                    assert(self.file_map() == old(self).file_map());
                    assert(mock_run(old(self).file_map(), old(self).cwd@, cs, i as int, inputs));
                }
                return true;
            }
            proof {
                let t = cs.take(i + 1);
                assert(t.drop_last() =~= cs.take(i as int));
                assert(t.last() == cs[i as int]);
                assert(inputs.push(given).drop_last() =~= inputs);
                inputs = inputs.push(given);
            }
            i = i + 1;
        }
        proof {
            assert(cs.take(commands@.len() as int) =~= cs);
            assert(mock_run(files0, self.cwd@, cs, commands@.len() as int, inputs));
            if commands@.len() > 0 {
                assert(cs[commands@.len() - 1] == commands@[commands@.len() - 1]@);
            }
            assert forall|k: int| 0 <= k < commands@.len() implies !(#[trigger] commands@[k]@ is Exit) by {
                assert(cs[k] == commands@[k]@);
            }
        }
        false
    }

    /// Runs one line: reads it into a pipeline, runs its stages, and ends
    /// the line. Returns the text to print, if any, and whether the session
    /// is to end. A line that does not parse prints `No parse!` and changes
    /// nothing.
    pub fn run_line(&mut self, line: &str) -> (r: (Option<String>, bool))
        ensures
            line_pipeline(line@, old(self).env.vars()) is None ==> (text_view(r.0) == Some("No parse!"@) && !r.1
                && final(self).env.vars() == old(self).env.vars() && final(self).env.stdin == old(self).env.stdin),
            line_pipeline(line@, old(self).env.vars()) is Some ==> exists|n: int, inputs: Seq<StageInput>|
                #[trigger] mock_run(
                    old(self).file_map(),
                    old(self).cwd@,
                    line_pipeline(line@, old(self).env.vars())->Some_0,
                    n,
                    inputs,
                ) && (r.1 <==> n < line_pipeline(line@, old(self).env.vars())->Some_0.len()) && (r.1 ==> r.0 is None)
                    && (!r.1 ==> text_view(r.0) == printed(
                    stage_prints(line_pipeline(line@, old(self).env.vars())->Some_0[n - 1], inputs[n - 1]),
                    stages_buffer(line_pipeline(line@, old(self).env.vars())->Some_0, old(self).env.stdin@, inputs),
                ) && final(self).env.stdin@ == Seq::<u8>::empty() && final(self).env.vars() == stages_vars(
                    line_pipeline(line@, old(self).env.vars())->Some_0,
                    old(self).env.vars(),
                )),
    {
        match self.env.parse_line(line) {
            Some(commands) => {
                let ghost cs = commands_view(commands@);
                proof {
                    match lex_line(line@) {
                        Some(toks) => lemma_pipeline_nonempty(
                            toks.map_values(|t: TokenModel| expand_token(t, old(self).env.vars())),
                        ),
                        None => {},
                    }
                    assert(cs.len() > 0);
                }
                let exit = self.interpret(&commands);
                if exit {
                    return (None, true);
                }
                proof {
                    assert(cs.take(cs.len() as int) =~= cs);
                }
                let out = self.env.take_output();
                (out, false)
            },
            None => (Some(String::from_str("No parse!")), false),
        }
    }
}

} // verus!
