//! The steps in which programs are run.
use vstd::prelude::*;

use crate::path::{is_absolute, is_rooted};
use crate::text::{concat, own, texts};

verus! {

broadcast use vstd::seq_lib::group_seq_properties;

/// A program that is to be run.
#[derive(Debug)]
pub struct Step {
    pub name: String,
    pub binary: Option<String>,
    pub sysroot: Option<String>,
    pub user_files: bool,
    pub args: Vec<String>,
    pub debug: bool,
}

/// The mathematical value of a [`Step`].
pub struct StepModel {
    pub name: Seq<char>,
    pub binary: Option<Seq<char>>,
    pub sysroot: Option<Seq<char>>,
    pub user_files: bool,
    pub args: Seq<Seq<char>>,
    pub debug: bool,
}

/// The value of a text that may be missing.
pub open spec fn text_model(t: Option<String>) -> Option<Seq<char>> {
    match t {
        Some(t) => Some(t@),
        None => None,
    }
}

impl View for Step {
    type V = StepModel;

    open spec fn view(&self) -> StepModel {
        StepModel {
            name: self.name@,
            binary: text_model(self.binary),
            sysroot: text_model(self.sysroot),
            user_files: self.user_files,
            args: texts(self.args@),
            debug: self.debug,
        }
    }
}

/// The values of steps.
pub open spec fn step_models(v: Seq<Step>) -> Seq<StepModel> {
    v.map_values(|s: Step| s@)
}

// ---------------------------------------------------------------------------
// What a step does
// ---------------------------------------------------------------------------

/// The bytes that a program is had in.
#[derive(Debug, Clone, Copy, PartialEq, Eq, Structural)]
pub enum Binary {
    /// Those that were read from the file system.
    Read,
    /// Those that were fetched from a URL.
    Fetched,
    /// Those that instrumenting made of the ones that were read.
    Instrumented,
}

/// One thing that is done to run a step. Each can fail, which ends the step.
#[derive(Debug)]
pub enum RunAction {
    /// Reads the binary from the file system.
    ReadBinary(String),
    /// Hands these bytes to the client as a file with this name.
    Publish(String, Binary),
    /// Instruments the binary that was read.
    Instrument,
    /// Fetches the binary from a URL.
    FetchBinary(String),
    /// Makes a module of these bytes.
    CreateModule(Binary),
    /// Fetches the archive of the sysroot from a URL.
    FetchSysroot(String),
    /// Unpacks the archive into the file system.
    UnpackSysroot,
    /// Adds the user's files to the file system.
    AddUserFiles,
    /// Opens the root of the file system to the program.
    Preopen,
    /// Instantiates the module with its standard streams.
    Instantiate,
    /// Makes the environment of a program that is debugged.
    BuildEnvironment,
    /// Makes its imports.
    CreateImports,
    /// Adds the imports that pause the program.
    Attach,
    /// Instantiates the module with these imports.
    InstantiateWithImports,
    /// Hands the instance to the environment.
    Initialize,
    /// Looks for the function that starts the program.
    FindStart,
    /// Calls it.
    Call,
}

/// The mathematical value of a [`RunAction`].
pub enum RunModel {
    ReadBinary(Seq<char>),
    Publish(Seq<char>, Binary),
    Instrument,
    FetchBinary(Seq<char>),
    CreateModule(Binary),
    FetchSysroot(Seq<char>),
    UnpackSysroot,
    AddUserFiles,
    Preopen,
    Instantiate,
    BuildEnvironment,
    CreateImports,
    Attach,
    InstantiateWithImports,
    Initialize,
    FindStart,
    Call,
}

impl View for RunAction {
    type V = RunModel;

    open spec fn view(&self) -> RunModel {
        match *self {
            RunAction::ReadBinary(t) => RunModel::ReadBinary(t@),
            RunAction::Publish(t, b) => RunModel::Publish(t@, b),
            RunAction::Instrument => RunModel::Instrument,
            RunAction::FetchBinary(t) => RunModel::FetchBinary(t@),
            RunAction::CreateModule(b) => RunModel::CreateModule(b),
            RunAction::FetchSysroot(t) => RunModel::FetchSysroot(t@),
            RunAction::UnpackSysroot => RunModel::UnpackSysroot,
            RunAction::AddUserFiles => RunModel::AddUserFiles,
            RunAction::Preopen => RunModel::Preopen,
            RunAction::Instantiate => RunModel::Instantiate,
            RunAction::BuildEnvironment => RunModel::BuildEnvironment,
            RunAction::CreateImports => RunModel::CreateImports,
            RunAction::Attach => RunModel::Attach,
            RunAction::InstantiateWithImports => RunModel::InstantiateWithImports,
            RunAction::Initialize => RunModel::Initialize,
            RunAction::FindStart => RunModel::FindStart,
            RunAction::Call => RunModel::Call,
        }
    }
}

/// The values of actions.
pub open spec fn run_models(v: Seq<RunAction>) -> Seq<RunModel> {
    v.map_values(|a: RunAction| a@)
}

/// Whether a step instruments its binary: it debugs one of the file system.
pub open spec fn is_instrumented(s: StepModel) -> bool {
    s.debug && s.binary is Some && is_rooted(s.binary->Some_0)
}

/// What gets the binary of a step.
pub open spec fn binary_actions(binary: Seq<char>, debug: bool) -> Seq<RunModel> {
    if !is_rooted(binary) {
        seq![RunModel::FetchBinary(binary)]
    } else if debug {
        seq![
            RunModel::ReadBinary(binary),
            RunModel::Publish("pre.wasm"@, Binary::Read),
            RunModel::Instrument,
            RunModel::Publish("post.wasm"@, Binary::Instrumented),
        ]
    } else {
        seq![RunModel::ReadBinary(binary)]
    }
}

/// What gets the file system of a step ready: the user's files are layered on
/// top of the sysroot.
pub open spec fn file_actions(s: StepModel) -> Seq<RunModel> {
    let sysroot = match s.sysroot {
        Some(url) => seq![RunModel::FetchSysroot(url), RunModel::UnpackSysroot],
        None => Seq::empty(),
    };
    if s.user_files {
        sysroot.push(RunModel::AddUserFiles)
    } else {
        sysroot
    }
}

/// What starts the program of a step.
pub open spec fn start_actions(instrumented: bool) -> Seq<RunModel> {
    if instrumented {
        seq![
            RunModel::Preopen,
            RunModel::BuildEnvironment,
            RunModel::CreateImports,
            RunModel::Attach,
            RunModel::InstantiateWithImports,
            RunModel::Initialize,
            RunModel::FindStart,
            RunModel::Call,
        ]
    } else {
        seq![RunModel::Preopen, RunModel::Instantiate, RunModel::FindStart, RunModel::Call]
    }
}

/// The bytes that the module of a step is made of.
pub open spec fn binary_run(s: StepModel) -> Binary {
    if is_instrumented(s) {
        Binary::Instrumented
    } else if s.binary is Some && is_rooted(s.binary->Some_0) {
        Binary::Read
    } else {
        Binary::Fetched
    }
}

/// All that a step does, in order.
pub open spec fn step_actions(s: StepModel) -> Seq<RunModel>
    recommends
        s.binary is Some,
{
    binary_actions(s.binary->Some_0, s.debug).push(RunModel::CreateModule(binary_run(s)))
        + file_actions(s) + start_actions(is_instrumented(s))
}

/// A program can be paused exactly where its binary was instrumented; the
/// client is then shown the binary before and after that, and it is the latter
/// that the one module of the step, which is started, is made of.
pub proof fn what_is_instrumented_is_attached(s: StepModel)
    requires
        s.binary is Some,
    ensures
        step_actions(s).contains(RunModel::Attach) <==> is_instrumented(s),
        step_actions(s).contains(RunModel::Instrument) <==> is_instrumented(s),
        is_instrumented(s) ==> {
            &&& step_actions(s)[1] == RunModel::Publish("pre.wasm"@, Binary::Read)
            &&& step_actions(s)[2] == RunModel::Instrument
            &&& step_actions(s)[3] == RunModel::Publish("post.wasm"@, Binary::Instrumented)
            &&& step_actions(s)[4] == RunModel::CreateModule(Binary::Instrumented)
        },
        forall|b: Binary| #[trigger]
            step_actions(s).contains(RunModel::CreateModule(b)) <==> b == binary_run(s),
{
    let all = step_actions(s);
    let files = file_actions(s);
    let got = binary_actions(s.binary->Some_0, s.debug);
    let first = got.push(RunModel::CreateModule(binary_run(s)));
    let last = start_actions(is_instrumented(s));
    assert(all =~= first + files + last);
    assert(all[got.len() as int] == RunModel::CreateModule(binary_run(s)));
    assert forall|b: Binary| #[trigger]
        all.contains(RunModel::CreateModule(b)) implies b == binary_run(s) by {
        let i = all.index_of(RunModel::CreateModule(b));
        if i < first.len() {
            assert(all[i] == first[i]);
        } else if i < first.len() + files.len() {
            assert(all[i] == files[i - first.len()]);
        } else {
            assert(all[i] == last[i - first.len() - files.len()]);
        }
    }
    if is_instrumented(s) {
        assert(all[2] == RunModel::Instrument);
        assert(last[3] == RunModel::Attach);
        assert(all[(first.len() + files.len() + 3) as int] == last[3]);
    } else {
        assert forall|i: int| 0 <= i < all.len() implies #[trigger] all[i] != RunModel::Attach
            && all[i] != RunModel::Instrument by {
            if i < first.len() {
                assert(all[i] == first[i]);
            } else if i < first.len() + files.len() {
                assert(all[i] == files[i - first.len()]);
            } else {
                assert(all[i] == last[i - first.len() - files.len()]);
            }
        }
    }
}

/// What an action that failed reports in front of the error.
pub open spec fn failure_of(a: RunModel) -> Option<Seq<char>> {
    match a {
        RunModel::ReadBinary(_) => Some("Read binary from filesystem"@),
        RunModel::Publish(_, _) => None,
        RunModel::Instrument => Some("Instrumented WASM"@),
        RunModel::FetchBinary(_) => Some("Fetch binary from network"@),
        RunModel::CreateModule(_) => Some("Created WASM module"@),
        RunModel::FetchSysroot(_) => Some("Fetched sysroot from network"@),
        RunModel::UnpackSysroot => Some("Created sysroot fs from tarball"@),
        RunModel::AddUserFiles => None,
        RunModel::Preopen => Some("Preopened root directory"@),
        RunModel::Instantiate => Some("Instantiated Wasmer instance"@),
        RunModel::BuildEnvironment => Some("Built WASI environment"@),
        RunModel::CreateImports => Some("Created WASI import object"@),
        RunModel::Attach => None,
        RunModel::InstantiateWithImports => Some("Created instance with debug imports"@),
        RunModel::Initialize => Some("Initialized WASI"@),
        RunModel::FindStart => Some("Found _start export"@),
        RunModel::Call => None,
    }
}

impl RunAction {
    /// The message of an action that failed with `error`.
    pub fn ensure(&self, error: &str) -> (r: String)
        ensures
            r@ == match failure_of(self@) {
                Some(message) => message + ": "@ + error@,
                None => error@,
            },
    {
        let message: &str = match self {
            RunAction::ReadBinary(_) => "Read binary from filesystem",
            RunAction::Instrument => "Instrumented WASM",
            RunAction::FetchBinary(_) => "Fetch binary from network",
            RunAction::CreateModule(_) => "Created WASM module",
            RunAction::FetchSysroot(_) => "Fetched sysroot from network",
            RunAction::UnpackSysroot => "Created sysroot fs from tarball",
            RunAction::Preopen => "Preopened root directory",
            RunAction::Instantiate => "Instantiated Wasmer instance",
            RunAction::BuildEnvironment => "Built WASI environment",
            RunAction::CreateImports => "Created WASI import object",
            RunAction::InstantiateWithImports => "Created instance with debug imports",
            RunAction::Initialize => "Initialized WASI",
            RunAction::FindStart => "Found _start export",
            RunAction::Publish(_, _) | RunAction::AddUserFiles | RunAction::Attach
            | RunAction::Call => {
                return own(error);
            },
        };
        concat(concat(message, ": ").as_str(), error)
    }
}

/// How a program ended.
#[derive(Debug, Clone, Copy, PartialEq, Eq, Structural)]
pub enum Ending {
    /// Its function returned.
    Returned,
    /// It left with an exit code.
    Exit(i32),
    /// It failed in another way.
    Failed,
}

/// Whether a program ran well. `exit(0)` is not an error.
pub fn ran_well(ending: Ending) -> (r: bool)
    ensures
        r == (ending == Ending::Returned || ending == Ending::Exit(0)),
{
    match ending {
        Ending::Returned => true,
        Ending::Exit(code) => code == 0,
        Ending::Failed => false,
    }
}

impl Step {
    /// A step that runs nothing yet.
    pub fn new(name: &str) -> (r: Self)
        ensures
            r@ == (StepModel {
                name: name@,
                binary: None,
                sysroot: None,
                user_files: false,
                args: seq![],
                debug: false,
            }),
    {
        let r = Step {
            name: own(name),
            binary: None,
            sysroot: None,
            user_files: false,
            args: Vec::new(),
            debug: false,
        };
        assert(texts(r.args@) =~= seq![]);
        r
    }

    /// Sets the binary to be executed for this step.
    ///
    /// If it starts with a "/", it is treated as an absolute path in the current filesystem.
    pub fn binary(self, url_or_path: &str) -> (r: Self)
        ensures
            r@ == (StepModel { binary: Some(url_or_path@), ..self@ }),
    {
        Step {
            name: self.name,
            binary: Some(own(url_or_path)),
            sysroot: self.sysroot,
            user_files: self.user_files,
            args: self.args,
            debug: self.debug,
        }
    }

    /// Sets the sysroot to be used for this step.
    ///
    /// This should be a URL to a tarball which will be injected into the root of the filesystem.
    pub fn sysroot(self, url: &str) -> (r: Self)
        ensures
            r@ == (StepModel { sysroot: Some(url@), ..self@ }),
    {
        Step {
            name: self.name,
            binary: self.binary,
            sysroot: Some(own(url)),
            user_files: self.user_files,
            args: self.args,
            debug: self.debug,
        }
    }

    /// Adds the user's files to this step's filesystem, on top of the sysroot.
    pub fn fs(self) -> (r: Self)
        ensures
            r@ == (StepModel { user_files: true, ..self@ }),
    {
        Step {
            name: self.name,
            binary: self.binary,
            sysroot: self.sysroot,
            user_files: true,
            args: self.args,
            debug: self.debug,
        }
    }

    /// Adds arguments to be passed to argv.
    /// The program name is not included here.
    pub fn args(self, args: Vec<String>) -> (r: Self)
        ensures
            r@ == (StepModel { args: self@.args + texts(args@), ..self@ }),
    {
        let mut all = self.args;
        let mut more = args;
        all.append(&mut more);
        let r = Step {
            name: self.name,
            binary: self.binary,
            sysroot: self.sysroot,
            user_files: self.user_files,
            args: all,
            debug: self.debug,
        };
        assert(texts(r.args@) =~= texts(self.args@) + texts(args@));
        r
    }

    /// Enable/disable debug mode for this step
    pub fn debug(self, enable_debugging: bool) -> (r: Self)
        ensures
            r@ == (StepModel { debug: enable_debugging, ..self@ }),
    {
        Step {
            name: self.name,
            binary: self.binary,
            sysroot: self.sysroot,
            user_files: self.user_files,
            args: self.args,
            debug: enable_debugging,
        }
    }

    /// What runs this step, in order. Fails where no binary is given.
    pub fn run(&self) -> (r: Result<Vec<RunAction>, &'static str>)
        ensures
            match r {
                Ok(actions) => self@.binary is Some && run_models(actions@) == step_actions(self@),
                Err(message) => self@.binary is None && message@ == "No binary specified"@,
            },
    {
        let binary = match &self.binary {
            Some(binary) => binary,
            None => {
                return Err("No binary specified");
            },
        };
        let mut out: Vec<RunAction> = Vec::new();
        let mut instrumented = false;
        let mut made_of = Binary::Fetched;
        if is_absolute(binary.as_str()) {
            out.push(RunAction::ReadBinary(own(binary.as_str())));
            made_of = Binary::Read;
            if self.debug {
                out.push(RunAction::Publish(own("pre.wasm"), Binary::Read));
                out.push(RunAction::Instrument);
                out.push(RunAction::Publish(own("post.wasm"), Binary::Instrumented));
                instrumented = true;
                made_of = Binary::Instrumented;
            }
        } else {
            out.push(RunAction::FetchBinary(own(binary.as_str())));
        }
        assert(run_models(out@) =~= binary_actions(binary@, self.debug));
        let ghost first = run_models(out@).push(RunModel::CreateModule(made_of));
        out.push(RunAction::CreateModule(made_of));
        match &self.sysroot {
            Some(url) => {
                out.push(RunAction::FetchSysroot(own(url.as_str())));
                out.push(RunAction::UnpackSysroot);
            },
            None => {},
        }
        if self.user_files {
            out.push(RunAction::AddUserFiles);
        }
        assert(run_models(out@) =~= first + file_actions(self@));
        let ghost second = run_models(out@);
        out.push(RunAction::Preopen);
        if instrumented {
            out.push(RunAction::BuildEnvironment);
            out.push(RunAction::CreateImports);
            out.push(RunAction::Attach);
            out.push(RunAction::InstantiateWithImports);
            out.push(RunAction::Initialize);
        } else {
            out.push(RunAction::Instantiate);
        }
        out.push(RunAction::FindStart);
        out.push(RunAction::Call);
        assert(run_models(out@) =~= second + start_actions(is_instrumented(self@)));
        Ok(out)
    }
}

/// A step gets its binary first, from the file system where its path starts at the root
/// and from the network else. It is instrumented where it is to be debugged and comes
/// from the file system. Where it has a sysroot that is fetched and unpacked, and
/// the user's files are layered on top of it; where it has none, they stand alone. At
/// the end the program is started.
pub proof fn steps_go_in_order(s: StepModel, n: int)
    requires
        s.binary is Some,
        n == if is_instrumented(s) {
            5int
        } else {
            2
        },
    ensures
        ({
            let all = step_actions(s);
            let last = all.len() - 1;
            let url = s.sysroot->0;
            &&& is_instrumented(s) <==> s.debug && s.binary->0.len() > 0 && s.binary->0[0] == '/'
            &&& all.len() > n
            &&& all[0] == if s.binary->0.len() > 0 && s.binary->0[0] == '/' {
                RunModel::ReadBinary(s.binary->0)
            } else {
                RunModel::FetchBinary(s.binary->0)
            }
            &&& all[n - 1] is CreateModule
            &&& s.sysroot is Some ==> all[n] == RunModel::FetchSysroot(url) && all[n + 1]
                == RunModel::UnpackSysroot && (s.user_files <==> all[n + 2]
                == RunModel::AddUserFiles)
            &&& s.sysroot is None ==> (s.user_files <==> all[n] == RunModel::AddUserFiles)
            &&& all[last] == RunModel::Call
            &&& all[last - 1] == RunModel::FindStart
            &&& if is_instrumented(s) {
                &&& all[last - 7] == RunModel::Preopen
                &&& all[last - 6] == RunModel::BuildEnvironment
                &&& all[last - 5] == RunModel::CreateImports
                &&& all[last - 4] == RunModel::Attach
                &&& all[last - 3] == RunModel::InstantiateWithImports
                &&& all[last - 2] == RunModel::Initialize
            } else {
                &&& all[last - 3] == RunModel::Preopen
                &&& all[last - 2] == RunModel::Instantiate
            }
            &&& all.len() == n + (if s.sysroot is Some {
                2int
            } else {
                0
            }) + (if s.user_files {
                1int
            } else {
                0
            }) + (if is_instrumented(s) {
                8int
            } else {
                4
            })
        }),
{
    let binary = s.binary->0;
    if binary.len() > 0 {
        if binary[0] == '/' {
            assert(binary.subrange(0, 1) =~= seq!['/']);
        } else {
            assert(binary.subrange(0, 1)[0] == binary[0]);
        }
    }
    let first = binary_actions(binary, s.debug).push(RunModel::CreateModule(binary_run(s)));
    let files = file_actions(s);
    let start = start_actions(is_instrumented(s));
    let all = step_actions(s);
    assert(first.len() == n);
    assert forall|i: int| 0 <= i < first.len() implies all[i] == first[i] by {}
    assert forall|i: int| 0 <= i < files.len() implies all[n + i] == files[i] by {}
    assert forall|i: int| 0 <= i < start.len() implies all[n + files.len() + i] == start[i] by {}
}

} // verus!
