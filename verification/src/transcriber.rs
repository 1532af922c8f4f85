//! Speech-to-text through the whisper.cpp command-line program: where the
//! program may be, how many threads it gets, the arguments it is run with,
//! and how its output becomes the transcript.

use vstd::prelude::*;
use crate::text;
use crate::config;

verus! {

/// The initial prompt that steers the model towards dictated English.
pub const PROMPT: &'static str = "Hello, how are you? This is a voice dictation of natural English speech.";

/// Why a transcriber could not be made or a transcription failed.
#[derive(Debug)]
pub enum TranscriberError {
    /// The model file does not exist.
    ModelNotFound { model_path: String },
    /// No whisper command-line program was found.
    CliNotFound,
    /// The program exited unsuccessfully.
    Failed { status: String, stderr: String },
}

/// Wraps a path to the whisper CLI binary and model, invoking it per utterance.
pub struct Transcriber {
    cli_path: String,
    model_path: String,
    language: String,
    threads: u32,
}

/// The number of threads used for `threads`: the configured number, or when
/// it is 0 the machine's available parallelism (truncated to `u32`), else 4.
pub open spec fn effective_threads(threads: u32, parallelism: Option<usize>) -> u32 {
    if threads == 0 {
        match parallelism {
            Some(p) => p as u32,
            None => 4,
        }
    } else {
        threads
    }
}

impl Transcriber {
    pub closed spec fn cli(&self) -> Seq<char> {
        self.cli_path@
    }

    pub closed spec fn model(&self) -> Seq<char> {
        self.model_path@
    }

    pub closed spec fn lang(&self) -> Seq<char> {
        self.language@
    }

    pub closed spec fn thread_count(&self) -> u32 {
        self.threads
    }

    /// The first check of the constructor, made before the program is
    /// looked for: the model file must exist (`model_exists`).
    pub fn model_check(model_path: &str, model_exists: bool) -> (r: Result<(), TranscriberError>)
        ensures
            model_exists ==> r is Ok,
            !model_exists ==> (r matches Err(TranscriberError::ModelNotFound { model_path: p }) && p@
                == model_path@),
    {
        if model_exists {
            Ok(())
        } else {
            Err(TranscriberError::ModelNotFound { model_path: String::from_str(model_path) })
        }
    }

    /// Validates the model and the located program. `model_exists` tells
    /// whether the model file exists, `cli_path` is the program that was
    /// found, and `parallelism` the machine's available parallelism.
    pub fn new(
        model_path: &str,
        model_exists: bool,
        language: &str,
        _use_gpu: bool,
        threads: u32,
        cli_path: Option<String>,
        parallelism: Option<usize>,
    ) -> (r: Result<Transcriber, TranscriberError>)
        ensures
            !model_exists ==> (r matches Err(TranscriberError::ModelNotFound { model_path: p }) && p@
                == model_path@),
            model_exists && cli_path is None ==> r matches Err(TranscriberError::CliNotFound),
            model_exists && cli_path is Some ==> (r matches Ok(t) && t.cli() == cli_path->0@
                && t.model() == model_path@ && t.lang() == language@ && t.thread_count()
                == effective_threads(threads, parallelism)),
    {
        match Self::model_check(model_path, model_exists) {
            Ok(()) => {},
            Err(e) => {
                return Err(e);
            },
        }
        let cli = match cli_path {
            Some(c) => c,
            None => {
                return Err(TranscriberError::CliNotFound);
            },
        };
        let effective = if threads == 0 {
            match parallelism {
                Some(p) => p as u32,
                None => 4,
            }
        } else {
            threads
        };
        Ok(
            Transcriber {
                cli_path: cli,
                model_path: String::from_str(model_path),
                language: String::from_str(language),
                threads: effective,
            },
        )
    }

    /// The program to run.
    pub fn cli_path(&self) -> (r: &str)
        ensures
            r@ == self.cli(),
    {
        self.cli_path.as_str()
    }

    /// The arguments to transcribe the 16 kHz mono WAV file `wav_path`:
    /// model, file, no timestamps, no progress output, the thread count (at
    /// least 1), the prompt, and the language unless it is empty.
    pub fn command_args(&self, wav_path: &str) -> (r: Vec<String>)
        ensures
            r@.map_values(|a: String| a@) == seq![
                "-m"@,
                self.model(),
                "-f"@,
                wav_path@,
                "--no-timestamps"@,
                "--no-prints"@,
                "-t"@,
                text::dec((if self.thread_count() == 0 {
                    1
                } else {
                    self.thread_count()
                }) as nat),
                "--prompt"@,
                PROMPT@,
            ] + (if self.lang().len() == 0 {
                Seq::empty()
            } else {
                seq!["-l"@, self.lang()]
            }),
    {
        let mut args: Vec<String> = Vec::new();
        args.push(String::from_str("-m"));
        args.push(String::from_str(self.model_path.as_str()));
        args.push(String::from_str("-f"));
        args.push(String::from_str(wav_path));
        args.push(String::from_str("--no-timestamps"));
        args.push(String::from_str("--no-prints"));
        args.push(String::from_str("-t"));
        let t = if self.threads == 0 {
            1
        } else {
            self.threads
        };
        let digits = text::dec_chars(t as u64);
        args.push(text::string_from_chars(&digits));
        args.push(String::from_str("--prompt"));
        args.push(String::from_str(PROMPT));
        let ghost base = args@.map_values(|a: String| a@);
        if !self.language.as_str().is_empty() {
            args.push(String::from_str("-l"));
            args.push(String::from_str(self.language.as_str()));
        }
        assert(args@.map_values(|a: String| a@) =~= seq![
            "-m"@,
            self.model(),
            "-f"@,
            wav_path@,
            "--no-timestamps"@,
            "--no-prints"@,
            "-t"@,
            text::dec((if self.thread_count() == 0 {
                1
            } else {
                self.thread_count()
            }) as nat),
            "--prompt"@,
            PROMPT@,
        ] + (if self.lang().len() == 0 {
            Seq::empty()
        } else {
            seq!["-l"@, self.lang()]
        }));
        args
    }
}

/// The transcript from the program's run: its standard output without
/// surrounding whitespace when it succeeded, else the failure with its exit
/// status and trimmed standard error.
pub fn transcription_text(success: bool, status: &str, stdout: &str, stderr: &str) -> (r: Result<String, TranscriberError>)
    ensures
        success ==> (r matches Ok(t) && t@ == text::trim(stdout@)),
        !success ==> (r matches Err(TranscriberError::Failed { status: s, stderr: e }) && s@ == status@
            && e@ == text::trim(stderr@)),
{
    if success {
        let out = text::chars_of(stdout);
        let t = text::trim_chars(&out);
        Ok(text::string_from_chars(&t))
    } else {
        let err = text::chars_of(stderr);
        let t = text::trim_chars(&err);
        Err(TranscriberError::Failed { status: String::from_str(status), stderr: text::string_from_chars(&t) })
    }
}

/// The places where the whisper program is looked for, in order, next to
/// the executable in `exe_dir` or in its `bin/` subdirectory.
pub fn cli_candidates(exe_dir: &str) -> (r: Vec<String>)
    ensures
        r@.len() == 6,
        !config::verbatim(exe_dir@) ==> {
            &&& config::joined(exe_dir@, "whisper-cli.exe"@, r@[0]@)
            &&& exists|b: Seq<char>| config::joined(exe_dir@, "bin"@, b) && config::joined(b, "whisper-cli.exe"@, r@[1]@)
            &&& config::joined(exe_dir@, "whisper.exe"@, r@[2]@)
            &&& exists|b: Seq<char>| config::joined(exe_dir@, "bin"@, b) && config::joined(b, "whisper.exe"@, r@[3]@)
            &&& config::joined(exe_dir@, "main.exe"@, r@[4]@)
            &&& exists|b: Seq<char>| config::joined(exe_dir@, "bin"@, b) && config::joined(b, "main.exe"@, r@[5]@)
        },
{
    proof {
        reveal_strlit("whisper-cli.exe");
        reveal_strlit("whisper.exe");
        reveal_strlit("main.exe");
        reveal_strlit("bin");
    }
    assert(config::component("whisper-cli.exe"@)) by {
        assert('a' <= "whisper-cli.exe"@[0] <= 'z');
    }
    assert(config::component("whisper.exe"@)) by {
        assert('a' <= "whisper.exe"@[0] <= 'z');
    }
    assert(config::component("main.exe"@)) by {
        assert('a' <= "main.exe"@[0] <= 'z');
    }
    assert(config::component("bin"@)) by {
        assert('a' <= "bin"@[0] <= 'z');
    }
    let bin = config::join_path(exe_dir, "bin");
    proof {
        if !config::verbatim(exe_dir@) {
            config::lemma_joined_not_verbatim(exe_dir@, "bin"@, bin@);
        }
    }
    let mut r: Vec<String> = Vec::new();
    r.push(config::join_path(exe_dir, "whisper-cli.exe"));
    r.push(config::join_path(bin.as_str(), "whisper-cli.exe"));
    r.push(config::join_path(exe_dir, "whisper.exe"));
    r.push(config::join_path(bin.as_str(), "whisper.exe"));
    r.push(config::join_path(exe_dir, "main.exe"));
    r.push(config::join_path(bin.as_str(), "main.exe"));
    r
}

/// The first candidate that exists (`exists[i]` tells whether
/// `candidates[i]` does), looking at the places both lists cover.
pub fn first_existing(candidates: &Vec<String>, exists: &Vec<bool>) -> (r: Option<String>)
    ensures
        r matches Some(p) ==> exists|i: int|
            0 <= i < candidates@.len() && i < exists@.len() && exists@[i] && p@ == candidates@[i]@
                && forall|j: int| 0 <= j < i ==> !exists@[j],
        r is None ==> forall|j: int| 0 <= j < candidates@.len() && j < exists@.len() ==> !exists@[j],
{
    let mut i: usize = 0;
    while i < candidates.len() && i < exists.len()
        invariant
            i <= candidates.len(),
            i <= exists.len(),
            forall|j: int| 0 <= j < i ==> !exists@[j],
        decreases candidates.len() - i,
    {
        if exists[i] {
            return Some(String::from_str(candidates[i].as_str()));
        }
        i = i + 1;
    }
    None
}

/// The first line of `s`: what comes before the first `'\n'`.
pub open spec fn first_line_of(s: Seq<char>) -> Seq<char> {
    match text::find_from(s, seq!['\n'], 0) {
        Some(p) => s.take(p),
        None => s,
    }
}

/// What a run of `where whisper-cli.exe` proposes: when it succeeded and
/// printed something, its first line without surrounding whitespace.
pub fn where_answer(success: bool, stdout: &str) -> (r: Option<String>)
    ensures
        !success || stdout@.len() == 0 ==> r is None,
        success && stdout@.len() > 0 ==> (r matches Some(p) && p@ == text::trim(first_line_of(stdout@))),
{
    if !success {
        return None;
    }
    let chars = text::chars_of(stdout);
    if chars.len() == 0 {
        return None;
    }
    let mut nl: Vec<char> = Vec::new();
    nl.push('\n');
    assert(nl@ =~= seq!['\n']);
    let line = match text::find_chars(&chars, &nl, 0) {
        Some(p) => {
            proof { text::lemma_find_from(chars@, nl@, 0); }
            text::slice_chars(&chars, 0, p)
        },
        None => chars,
    };
    proof {
        if text::find_from(stdout@, seq!['\n'], 0) is Some {
            assert(line@ =~= first_line_of(stdout@));
        }
    }
    let t = text::trim_chars(&line);
    Some(text::string_from_chars(&t))
}

} // verus!
