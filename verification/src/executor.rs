//! The execution request builder and the execution outcome models.

use vstd::prelude::*;
use vstd::string::StringExecFns;

use crate::File;
use crate::FileView;
use crate::text::lower_of;
use crate::text::lowercase;

verus! {

/// The result of one compile or run phase, as reported by the remote
/// service.
#[derive(Clone, Debug)]
pub struct ExecResult {
    /// The text sent to `stdout` during execution.
    pub stdout: String,
    /// The text sent to `stderr` during execution.
    pub stderr: String,
    /// The text sent to both `stdout` and `stderr` during execution.
    pub output: String,
    /// The exit code returned by the process.
    pub code: isize,
    /// The optional signal sent to the process (`SIGKILL` etc.).
    pub signal: Option<String>,
}

/// The mathematical value of an [`ExecResult`].
#[verifier::ext_equal]
pub struct ExecResultView {
    pub stdout: Seq<char>,
    pub stderr: Seq<char>,
    pub output: Seq<char>,
    pub code: int,
    pub signal: Option<Seq<char>>,
}

impl View for ExecResult {
    type V = ExecResultView;

    open spec fn view(&self) -> ExecResultView {
        ExecResultView {
            stdout: self.stdout@,
            stderr: self.stderr@,
            output: self.output@,
            code: self.code as int,
            signal: match self.signal {
                Some(s) => Some(s@),
                None => None,
            },
        }
    }
}

/// Whether an outcome counts as successful: its exit code is zero.
pub open spec fn result_ok(r: ExecResult) -> bool {
    r.code == 0
}

impl ExecResult {
    /// Whether or not the execution was ok: `true` exactly when the
    /// exit code is zero.
    pub fn is_ok(&self) -> (b: bool)
        ensures
            b == result_ok(*self),
    {
        self.code == 0
    }

    /// Whether or not the execution produced errors: `true` exactly
    /// when the exit code is non-zero.
    pub fn is_err(&self) -> (b: bool)
        ensures
            b == !result_ok(*self),
    {
        self.code != 0
    }
}

/// Success of an outcome is decided by the exit code alone: two
/// outcomes with the same exit code agree on success, whatever their
/// stdout, stderr, combined output, or signal.
pub proof fn lemma_outcome_success_by_code(a: ExecResult, b: ExecResult)
    requires
        a.code == b.code,
    ensures
        result_ok(a) == result_ok(b),
{
}

/// A response returned by the remote service when executing code.
///
/// A response whose transport failed with a non-2xx status is
/// represented as a degenerate response carrying the status and body
/// text in [`ExecResponse::message`]; see [`ExecResponse::from_status`].
#[derive(Clone, Debug)]
pub struct ExecResponse {
    /// The language that was used.
    pub language: String,
    /// The version of the language that was used.
    pub version: String,
    /// The result detailing execution.
    pub run: ExecResult,
    /// The optional result detailing compilation. This is `None` for
    /// non-compiled languages.
    pub compile: Option<ExecResult>,
    /// The status and body text of a non-2xx reply, `None` for a
    /// successfully transported response.
    pub message: Option<String>,
}

/// The mathematical value of an [`ExecResponse`].
#[verifier::ext_equal]
pub struct ExecResponseView {
    pub language: Seq<char>,
    pub version: Seq<char>,
    pub run: ExecResultView,
    pub compile: Option<ExecResultView>,
    pub message: Option<Seq<char>>,
}

impl View for ExecResponse {
    type V = ExecResponseView;

    open spec fn view(&self) -> ExecResponseView {
        ExecResponseView {
            language: self.language@,
            version: self.version@,
            run: self.run@,
            compile: match self.compile {
                Some(c) => Some(c@),
                None => None,
            },
            message: match self.message {
                Some(m) => Some(m@),
                None => None,
            },
        }
    }
}

/// Whether a response counts as successful: its compile outcome, when
/// present, succeeded, and its run outcome succeeded.
pub open spec fn response_ok(r: ExecResponse) -> bool {
    match r.compile {
        Some(c) => result_ok(c) && result_ok(r.run),
        None => result_ok(r.run),
    }
}

impl ExecResponse {
    /// Whether or not the whole execution succeeded: the compile
    /// outcome, when present, succeeded, and the run outcome
    /// succeeded.
    pub fn is_ok(&self) -> (b: bool)
        ensures
            b == response_ok(*self),
    {
        match &self.compile {
            Some(c) => c.is_ok() && self.run.is_ok(),
            None => self.run.is_ok(),
        }
    }

    /// Whether or not some phase of the execution failed.
    pub fn is_err(&self) -> (b: bool)
        ensures
            b == !response_ok(*self),
    {
        match &self.compile {
            Some(c) => c.is_err() || self.run.is_err(),
            None => self.run.is_err(),
        }
    }

    /// Builds the degenerate response for a reply whose HTTP status
    /// was not OK: every outcome field is empty and the status and
    /// body text are kept in `message`.
    pub fn from_status(status: &str, body: &str) -> (r: Self)
        ensures
            r@.language.len() == 0,
            r@.version.len() == 0,
            r@.run == (ExecResultView {
                stdout: Seq::<char>::empty(),
                stderr: Seq::<char>::empty(),
                output: Seq::<char>::empty(),
                code: 0,
                signal: None,
            }),
            r@.compile is None,
            r@.message == Some(status@ + ": "@ + body@),
    {
        let run = ExecResult {
            stdout: String::new(),
            stderr: String::new(),
            output: String::new(),
            code: 0,
            signal: None,
        };
        let message = String::from_str(status).concat(": ").concat(body);
        ExecResponse {
            language: String::new(),
            version: String::new(),
            run,
            compile: None,
            message: Some(message),
        }
    }
}

/// How the success of a response composes from its parts: a present
/// compile outcome that failed makes the response a failure even when
/// the run outcome succeeded, and a response without a compile outcome
/// succeeds exactly when its run outcome does.
pub proof fn lemma_response_success_composition(r: ExecResponse)
    ensures
        (r.compile matches Some(c) && !result_ok(c)) ==> !response_ok(r),
        r.compile is None ==> (response_ok(r) == result_ok(r.run)),
{
}

/// An object containing information about the code being executed.
///
/// A convenient builder flow is provided by the methods associated
/// with the `Executor`. These consume self and return self for chained
/// calls, except the two destructive setters [`Executor::set_files`]
/// and [`Executor::set_args`], which mutate in place.
#[derive(Clone, Debug)]
pub struct Executor {
    /// **Required** - The language to use for execution. Defaults to a
    /// new `String`.
    pub language: String,
    /// The version of the language to use for execution. Defaults to
    /// `"*"` (most recent version).
    pub version: String,
    /// **Required** - The files to send to the service. The first file
    /// is considered the main file. Defaults to a new `Vec`.
    pub files: Vec<File>,
    /// The text to pass as stdin to the program. Defaults to a new
    /// `String`.
    pub stdin: String,
    /// The arguments to pass to the program. Defaults to a new `Vec`.
    pub args: Vec<String>,
    /// The maximum allowed time for compilation in milliseconds.
    /// Defaults to `10,000`.
    pub compile_timeout: isize,
    /// The maximum allowed time for execution in milliseconds.
    /// Defaults to `3,000`.
    pub run_timeout: isize,
    /// The maximum allowed memory usage for compilation in bytes.
    /// Defaults to `-1` (no limit).
    pub compile_memory_limit: isize,
    /// The maximum allowed memory usage for execution in bytes.
    /// Defaults to `-1` (no limit).
    pub run_memory_limit: isize,
}

/// The mathematical value of an [`Executor`].
#[verifier::ext_equal]
pub struct ExecutorView {
    pub language: Seq<char>,
    pub version: Seq<char>,
    pub files: Seq<FileView>,
    pub stdin: Seq<char>,
    pub args: Seq<Seq<char>>,
    pub compile_timeout: int,
    pub run_timeout: int,
    pub compile_memory_limit: int,
    pub run_memory_limit: int,
}

impl View for Executor {
    type V = ExecutorView;

    open spec fn view(&self) -> ExecutorView {
        ExecutorView {
            language: self.language@,
            version: self.version@,
            files: self.files@.map_values(|f: File| f@),
            stdin: self.stdin@,
            args: self.args@.map_values(|a: String| a@),
            compile_timeout: self.compile_timeout as int,
            run_timeout: self.run_timeout as int,
            compile_memory_limit: self.compile_memory_limit as int,
            run_memory_limit: self.run_memory_limit as int,
        }
    }
}

/// The documented defaults of a freshly built [`Executor`]: empty
/// language, version `"*"`, no files, empty stdin, no args, a compile
/// timeout of 10000 ms, a run timeout of 3000 ms, and no memory
/// limits.
pub open spec fn default_executor() -> ExecutorView {
    ExecutorView {
        language: Seq::<char>::empty(),
        version: seq!['*'],
        files: Seq::<FileView>::empty(),
        stdin: Seq::<char>::empty(),
        args: Seq::<Seq<char>>::empty(),
        compile_timeout: 10000,
        run_timeout: 3000,
        compile_memory_limit: -1,
        run_memory_limit: -1,
    }
}

impl Default for Executor {
    /// Creates a new executor. Alias for [`Executor::new`].
    fn default() -> (e: Self)
        ensures
            e@ == default_executor(),
    {
        Executor::new()
    }
}

impl Executor {
    /// Creates a new executor holding the documented defaults; see
    /// [`default_executor`].
    pub fn new() -> (e: Self)
        ensures
            e@ == default_executor(),
    {
        let e = Executor {
            language: String::new(),
            version: String::from_str("*"),
            files: Vec::new(),
            stdin: String::new(),
            args: Vec::new(),
            compile_timeout: 10000,
            run_timeout: 3000,
            compile_memory_limit: -1,
            run_memory_limit: -1,
        };
        proof {
            reveal_strlit("*");
            assert(e@.version =~= seq!['*']);
            assert(e@.files =~= Seq::<FileView>::empty());
            assert(e@.args =~= Seq::<Seq<char>>::empty());
        }
        e
    }

    /// Resets the executor back to the documented defaults, ready to
    /// be configured again. This method mutates the executor in place.
    pub fn reset(&mut self)
        ensures
            final(self)@ == default_executor(),
    {
        self.language = String::new();
        self.version = String::from_str("*");
        self.files = Vec::new();
        self.stdin = String::new();
        self.args = Vec::new();
        self.compile_timeout = 10000;
        self.run_timeout = 3000;
        self.compile_memory_limit = -1;
        self.run_memory_limit = -1;
        proof {
            reveal_strlit("*");
            assert(self@.version =~= seq!['*']);
            assert(self@.files =~= Seq::<FileView>::empty());
            assert(self@.args =~= Seq::<Seq<char>>::empty());
        }
    }

    /// Sets the language to use for execution, lower-cased because the
    /// remote service is case-sensitive on language identifiers. Every
    /// other field is kept.
    pub fn set_language(self, language: &str) -> (e: Self)
        ensures
            e@ == (ExecutorView { language: lower_of(language@), ..self@ }),
    {
        let e = Executor { language: lowercase(language), ..self };
        e
    }

    /// Sets the version of the language to use for execution, keeping
    /// every other field.
    pub fn set_version(self, version: &str) -> (e: Self)
        ensures
            e@ == (ExecutorView { version: version@, ..self@ }),
    {
        Executor { version: String::from_str(version), ..self }
    }

    /// Appends one [`File`] containing code to be executed. Does not
    /// overwrite any existing files.
    pub fn add_file(self, file: File) -> (e: Self)
        ensures
            e@ == (ExecutorView { files: self@.files.push(file@), ..self@ }),
    {
        let ghost pre = self;
        let mut e = self;
        e.files.push(file);
        proof {
            assert(e@.files =~= pre@.files.push(file@));
        }
        e
    }

    /// Appends multiple [`File`]s containing code to be executed.
    /// Does not overwrite any existing files.
    pub fn add_files(self, files: Vec<File>) -> (e: Self)
        ensures
            e@ == (ExecutorView {
                files: self@.files + files@.map_values(|f: File| f@),
                ..self@
            }),
    {
        let ghost pre = self;
        let ghost given = files;
        let mut e = self;
        let mut more = files;
        e.files.append(&mut more);
        proof {
            assert(e@.files =~= pre@.files + given@.map_values(|f: File| f@));
            assert(e@ =~= (ExecutorView {
                files: pre@.files + given@.map_values(|f: File| f@),
                ..pre@
            }));
        }
        e
    }

    /// Replaces the whole file sequence with the given one,
    /// discarding any files added before. This method mutates the
    /// executor in place.
    pub fn set_files(&mut self, files: Vec<File>)
        ensures
            final(self)@ == (ExecutorView {
                files: files@.map_values(|f: File| f@),
                ..old(self)@
            }),
    {
        self.files = files;
    }

    /// Sets the text to pass as stdin to the program, keeping every
    /// other field.
    pub fn set_stdin(self, stdin: &str) -> (e: Self)
        ensures
            e@ == (ExecutorView { stdin: stdin@, ..self@ }),
    {
        Executor { stdin: String::from_str(stdin), ..self }
    }

    /// Appends one command line argument. Does not overwrite any
    /// existing args.
    pub fn add_arg(self, arg: &str) -> (e: Self)
        ensures
            e@ == (ExecutorView { args: self@.args.push(arg@), ..self@ }),
    {
        let ghost pre = self;
        let mut e = self;
        e.args.push(String::from_str(arg));
        proof {
            assert(e@.args =~= pre@.args.push(arg@));
        }
        e
    }

    /// Appends multiple command line arguments. Does not overwrite
    /// any existing args.
    pub fn add_args(self, args: Vec<&str>) -> (e: Self)
        ensures
            e@ == (ExecutorView {
                args: self@.args + args@.map_values(|a: &str| a@),
                ..self@
            }),
    {
        let ghost pre = self;
        let ghost given = args;
        let mut e = self;
        let mut more = Executor::strings_of(args);
        e.args.append(&mut more);
        proof {
            assert(e@.args =~= pre@.args + given@.map_values(|a: &str| a@));
            assert(e@ =~= (ExecutorView {
                args: pre@.args + given@.map_values(|a: &str| a@),
                ..pre@
            }));
        }
        e
    }

    /// Replaces the whole argument sequence with the given one,
    /// discarding any args added before. This method mutates the
    /// executor in place.
    pub fn set_args(&mut self, args: Vec<&str>)
        ensures
            final(self)@ == (ExecutorView {
                args: args@.map_values(|a: &str| a@),
                ..old(self)@
            }),
    {
        let ghost given = args;
        self.args = Executor::strings_of(args);
        proof {
            assert(self@ =~= (ExecutorView {
                args: given@.map_values(|a: &str| a@),
                ..old(self)@
            }));
        }
    }

    /// Owned copies of a sequence of borrowed strings.
    fn strings_of(args: Vec<&str>) -> (v: Vec<String>)
        ensures
            v@.map_values(|s: String| s@) == args@.map_values(|a: &str| a@),
    {
        let mut v: Vec<String> = Vec::new();
        let mut i: usize = 0;
        let n = args.len();
        while i < n
            invariant
                n == args@.len(),
                i <= n,
                v@.len() == i as int,
                forall|j: int| 0 <= j < i as int ==> v@[j]@ == args@[j]@,
            decreases n - i,
        {
            let a = args[i];
            v.push(String::from_str(a));
            i = i + 1;
        }
        proof {
            assert(v@.map_values(|s: String| s@) =~= args@.map_values(|a: &str| a@));
        }
        v
    }

    /// Sets the maximum allowed time for compilation in milliseconds,
    /// keeping every other field.
    pub fn set_compile_timeout(self, timeout: isize) -> (e: Self)
        ensures
            e@ == (ExecutorView { compile_timeout: timeout as int, ..self@ }),
    {
        Executor { compile_timeout: timeout, ..self }
    }

    /// Sets the maximum allowed time for execution in milliseconds,
    /// keeping every other field.
    pub fn set_run_timeout(self, timeout: isize) -> (e: Self)
        ensures
            e@ == (ExecutorView { run_timeout: timeout as int, ..self@ }),
    {
        Executor { run_timeout: timeout, ..self }
    }

    /// Sets the maximum allowed memory usage for compilation in
    /// bytes, keeping every other field.
    pub fn set_compile_memory_limit(self, limit: isize) -> (e: Self)
        ensures
            e@ == (ExecutorView { compile_memory_limit: limit as int, ..self@ }),
    {
        Executor { compile_memory_limit: limit, ..self }
    }

    /// Sets the maximum allowed memory usage for execution in bytes,
    /// keeping every other field.
    pub fn set_run_memory_limit(self, limit: isize) -> (e: Self)
        ensures
            e@ == (ExecutorView { run_memory_limit: limit as int, ..self@ }),
    {
        Executor { run_memory_limit: limit, ..self }
    }
}

} // verus!
