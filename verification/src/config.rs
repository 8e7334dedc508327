//! The compiler's configuration (from its command-line arguments) and the
//! status it exits with.
use vstd::prelude::*;

use crate::frontend::errors::{CompileError, SpecCompileError};
use crate::frontend::semantic::scope::errors_wf;
use crate::frontend::semantic::types::errors_view;
use crate::frontend::{frontend, frontend_accepts, frontend_errors};
use crate::text::{extend_chars, seq_join, str_to_chars, string_from_chars};

verus! {

/// What the compiler was asked to do: the file to compile and the exit
/// code for a program that does not compile.
pub struct Config {
    pub filename: String,
    pub error_code: u8,
}

impl Config {
    /// The exit code of a configuration error.
    pub const CONFIG_ERROR: u8 = 1;
}

impl Default for Config {
    /// No file, and the exit code of a failure.
    fn default() -> (r: Self)
        ensures
            r.filename@ == Seq::<char>::empty(),
            r.error_code == 1,
    {
        Config { filename: String::new(), error_code: 1 }
    }
}

/// A problem with the configuration.
pub enum ConfigError {
    NoFileProvided,
    IoError,
    UnknownFlag(String),
    InvalidArgument(String),
}

/// The mathematical form of a [`ConfigError`].
pub enum SpecConfigError {
    NoFileProvided,
    IoError,
    UnknownFlag(Seq<char>),
    InvalidArgument(Seq<char>),
}

impl View for ConfigError {
    type V = SpecConfigError;

    open spec fn view(&self) -> SpecConfigError {
        match self {
            ConfigError::NoFileProvided => SpecConfigError::NoFileProvided,
            ConfigError::IoError => SpecConfigError::IoError,
            ConfigError::UnknownFlag(f) => SpecConfigError::UnknownFlag(f@),
            ConfigError::InvalidArgument(f) => SpecConfigError::InvalidArgument(f@),
        }
    }
}

/// The text that describes a configuration error.
pub open spec fn config_error_text(e: SpecConfigError) -> Seq<char> {
    match e {
        SpecConfigError::NoFileProvided => "No input file provided"@,
        SpecConfigError::IoError => "IO Error while reading file"@,
        SpecConfigError::UnknownFlag(f) => "Unknown flag "@ + f,
        SpecConfigError::InvalidArgument(f) => "Invalid argument provided for "@ + f,
    }
}

impl ConfigError {
    /// The text that describes the error.
    pub fn message(&self) -> (r: String)
        ensures
            r@ == config_error_text(self@),
    {
        let mut v: Vec<char> = Vec::new();
        match self {
            ConfigError::NoFileProvided => extend_chars(&mut v, "No input file provided"),
            ConfigError::IoError => extend_chars(&mut v, "IO Error while reading file"),
            ConfigError::UnknownFlag(flag) => {
                extend_chars(&mut v, "Unknown flag ");
                extend_chars(&mut v, flag.as_str());
            },
            ConfigError::InvalidArgument(flag) => {
                extend_chars(&mut v, "Invalid argument provided for ");
                extend_chars(&mut v, flag.as_str());
            },
        }
        string_from_chars(v.as_slice())
    }
}

/// How a run ended.
pub enum Status {
    Success,
    Config(ConfigError),
    Compile(Vec<String>),
}

pub open spec fn strings_view(v: Seq<String>) -> Seq<Seq<char>> {
    Seq::new(v.len(), |i: int| v[i]@)
}

/// What is printed for a status: nothing for success, the configuration
/// error, or the compile errors one after the other.
pub open spec fn status_text(s: Status) -> Seq<char> {
    match s {
        Status::Success => seq![],
        Status::Config(e) => "[Config Error] "@ + config_error_text(e@),
        Status::Compile(es) => seq_join(strings_view(es@), seq!['\n']),
    }
}

impl Status {
    /// What is printed for the status.
    pub fn message(&self) -> (r: String)
        ensures
            r@ == status_text(*self),
    {
        match self {
            Status::Success => String::new(),
            Status::Config(e) => {
                let mut v: Vec<char> = Vec::new();
                extend_chars(&mut v, "[Config Error] ");
                let m = e.message();
                extend_chars(&mut v, m.as_str());
                string_from_chars(v.as_slice())
            },
            Status::Compile(es) => {
                let ghost sv = strings_view(es@);
                let mut v: Vec<char> = Vec::new();
                let mut i: usize = 0;
                while i < es.len()
                    invariant
                        i <= es@.len(),
                        sv == strings_view(es@),
                        v@ == seq_join(sv.take(i as int), seq!['\n']),
                    decreases es.len() - i,
                {
                    if i > 0 {
                        v.push('\n');
                    }
                    extend_chars(&mut v, es[i].as_str());
                    assert(sv.take(i + 1).drop_last() =~= sv.take(i as int));
                    i = i + 1;
                }
                assert(sv.take(i as int) =~= sv);
                string_from_chars(v.as_slice())
            },
        }
    }
}

/// The exit code and the status of a run.
pub struct ExitStatus(pub u8, pub Status);

impl ExitStatus {
    /// A successful run.
    pub fn success() -> (r: Self)
        ensures
            r.0 == 0,
            r.1 is Success,
    {
        ExitStatus(0, Status::Success)
    }

    /// The exit status for a run that ended with `value`: success exits
    /// with 0, a configuration error with [`Config::CONFIG_ERROR`], a compile error
    /// with `compile_code`.
    pub fn from_raw_status(value: Status, compile_code: u8) -> (r: Self)
        ensures
            value is Success ==> r.0 == 0 && r.1 is Success,
            value is Config ==> r.0 == Config::CONFIG_ERROR && r.1 == value,
            value is Compile ==> r.0 == compile_code && r.1 == value,
    {
        match value {
            Status::Success => Self::success(),
            Status::Config(a) => ExitStatus::from(a),
            a => ExitStatus(compile_code, a),
        }
    }
}

impl From<ConfigError> for ExitStatus {
    fn from(value: ConfigError) -> (r: Self) {
        ExitStatus(Config::CONFIG_ERROR, Status::Config(value))
    }
}

impl vstd::std_specs::convert::FromSpecImpl<ConfigError> for ExitStatus {
    open spec fn obeys_from_spec() -> bool {
        true
    }

    open spec fn from_spec(v: ConfigError) -> Self {
        ExitStatus(Config::CONFIG_ERROR, Status::Config(v))
    }
}

pub open spec fn is_digit(c: char) -> bool {
    '0' <= c <= '9'
}

/// The value of a string of decimal digits.
pub open spec fn digits_value(s: Seq<char>) -> nat
    decreases s.len(),
{
    if s.len() == 0 {
        0
    } else {
        digits_value(s.drop_last()) * 10 + ((s.last() as nat) - 48) as nat
    }
}

/// A `u8` written in decimal: an optional `+`, then at least one digit,
/// of value at most 255.
pub open spec fn spec_parse_u8(s: Seq<char>) -> Option<u8> {
    parse_digits(
        if s.len() > 0 && s[0] == '+' {
            s.drop_first()
        } else {
            s
        },
    )
}

/// A `u8` written as at least one decimal digit.
pub open spec fn parse_digits(d: Seq<char>) -> Option<u8> {
    if d.len() > 0 && (forall|i: int| 0 <= i < d.len() ==> is_digit(#[trigger] d[i]))
        && digits_value(d) <= 255 {
        Some(digits_value(d) as u8)
    } else {
        None
    }
}

proof fn lemma_digits_value_prefix(d: Seq<char>, k: int)
    requires
        0 <= k <= d.len(),
        forall|i: int| 0 <= i < d.len() ==> is_digit(#[trigger] d[i]),
    ensures
        digits_value(d.take(k)) <= digits_value(d),
    decreases d.len() - k,
{
    if k < d.len() {
        lemma_digits_value_prefix(d, k + 1);
        assert(d.take(k + 1).drop_last() =~= d.take(k));
        assert(is_digit(d[k]));
    } else {
        assert(d.take(k) =~= d);
    }
}

/// Parses a `u8` written in decimal.
fn parse_u8(s: &String) -> (r: Option<u8>)
    ensures
        r == spec_parse_u8(s@),
{
    let chars = str_to_chars(s.as_str());
    let start: usize = if chars.len() > 0 && chars[0] == '+' {
        1
    } else {
        0
    };
    let ghost d = if s@.len() > 0 && s@[0] == '+' {
        s@.drop_first()
    } else {
        s@
    };
    assert(d =~= chars@.skip(start as int));
    assert(spec_parse_u8(s@) == parse_digits(d));
    if start >= chars.len() {
        return None;
    }
    let mut value: u32 = 0;
    let mut i: usize = start;
    while i < chars.len()
        invariant
            start <= i <= chars@.len(),
            d == chars@.skip(start as int),
            spec_parse_u8(s@) == parse_digits(d),
            forall|j: int| 0 <= j < i - start ==> is_digit(#[trigger] d[j]),
            value == digits_value(d.take(i - start)),
            value <= 255,
        decreases chars.len() - i,
    {
        let c = chars[i];
        assert(d[i - start] == c);
        if c < '0' || c > '9' {
            assert(!is_digit(d[i - start]));
            return None;
        }
        let dv = (c as u32) - 48;
        assert(d.take(i - start + 1).drop_last() =~= d.take(i - start));
        value = value * 10 + dv;
        i = i + 1;
        if value > 255 {
            proof {
                if forall|j: int| 0 <= j < d.len() ==> is_digit(#[trigger] d[j]) {
                    lemma_digits_value_prefix(d, i - start);
                }
            }
            return None;
        }
    }
    assert(d.take(i - start) =~= d);
    Some(value as u8)
}

/// The configuration that the arguments (after the program's name) ask
/// for, read from the `i`-th on: `--fail` takes the exit code of a
/// failed compilation; one other argument names the file, which is
/// required.
pub open spec fn spec_config(args: Seq<Seq<char>>, i: nat, file: Option<Seq<char>>, code: u8) -> Result<
    (Seq<char>, u8),
    SpecConfigError,
>
    decreases args.len() - i,
{
    if i >= args.len() {
        match file {
            Some(f) => Ok((f, code)),
            None => Err(SpecConfigError::NoFileProvided),
        }
    } else if args[i as int] == "--fail"@ {
        if i + 1 >= args.len() {
            Err(SpecConfigError::InvalidArgument("--fail"@))
        } else {
            match spec_parse_u8(args[i as int + 1]) {
                Some(n) => spec_config(args, i + 2, file, n),
                None => Err(SpecConfigError::InvalidArgument("--fail"@)),
            }
        }
    } else if file is Some {
        Err(SpecConfigError::UnknownFlag(args[i as int]))
    } else {
        spec_config(args, i + 1, Some(args[i as int]), code)
    }
}

/// The flag that sets the exit code of a failed compilation.
fn fail_flag() -> (r: String)
    ensures
        r@ == "--fail"@,
{
    let v = str_to_chars("--fail");
    string_from_chars(v.as_slice())
}

/// Whether `s` is `--fail`.
fn is_fail_flag(s: &String) -> (r: bool)
    ensures
        r == (s@ == "--fail"@),
{
    let a = str_to_chars(s.as_str());
    let b = str_to_chars("--fail");
    if a.len() != b.len() {
        return false;
    }
    let mut i: usize = 0;
    while i < a.len()
        invariant
            i <= a@.len(),
            a@ == s@,
            b@ == "--fail"@,
            a@.len() == b@.len(),
            forall|j: int| 0 <= j < i ==> a@[j] == b@[j],
        decreases a.len() - i,
    {
        if a[i] != b[i] {
            assert(a@[i as int] != b@[i as int]);
            return false;
        }
        i = i + 1;
    }
    assert(a@ =~= b@);
    true
}

/// `es` hold one report for each of the errors that the front end finds in
/// `source`. What a report reads is drawn by ariadne, with or without colour
/// as the terminal allows, so only their number is stated.
pub open spec fn reports_of(es: Seq<String>, source: Seq<char>) -> bool {
    exists|errs: Seq<SpecCompileError>| frontend_errors(source, errs) && es.len() == errs.len()
}

/// The report of each error, for the file `filename` with contents
/// `source`, in the order of the errors.
fn format_errors(es: &Vec<CompileError>, filename: &str, source: &str) -> (r: Vec<String>)
    requires
        errors_wf(es@),
    ensures
        r@.len() == es@.len(),
{
    let mut out: Vec<String> = Vec::new();
    let mut i: usize = 0;
    while i < es.len()
        invariant
            i <= es@.len(),
            errors_wf(es@),
            out@.len() == i,
        decreases es.len() - i,
    {
        let f = es[i].format(filename, source);
        out.push(f);
        i = i + 1;
    }
    out
}

impl Config {
    /// The configuration that the arguments (after the program's name)
    /// ask for.
    pub fn from_args(args: Vec<String>) -> (r: Result<Self, ConfigError>)
        ensures
            match spec_config(strings_view(args@), 0, None, 1) {
                Ok((f, c)) => r matches Ok(cfg) && cfg.filename@ == f && cfg.error_code == c,
                Err(e) => r matches Err(x) && x@ == e,
            },
    {
        let ghost av = strings_view(args@);
        let mut config = Config::default();
        let mut set_filename: bool = false;
        let mut i: usize = 0;
        while i < args.len()
            invariant
                i <= args@.len(),
                av == strings_view(args@),
                set_filename ==> spec_config(av, 0, None, 1) == spec_config(
                    av,
                    i as nat,
                    Some(config.filename@),
                    config.error_code,
                ),
                !set_filename ==> spec_config(av, 0, None, 1) == spec_config(
                    av,
                    i as nat,
                    None,
                    config.error_code,
                ),
                !set_filename ==> config.filename@ == Seq::<char>::empty(),
            decreases args.len() - i,
        {
            let flag = &args[i];
            assert(av[i as int] == flag@);
            if is_fail_flag(flag) {
                if i + 1 >= args.len() {
                    return Err(ConfigError::InvalidArgument(fail_flag()));
                }
                let operand = &args[i + 1];
                assert(av[i + 1] == operand@);
                match parse_u8(operand) {
                    Some(n) => {
                        config.error_code = n;
                    },
                    None => {
                        return Err(ConfigError::InvalidArgument(fail_flag()));
                    },
                }
                i = i + 2;
            } else {
                if set_filename {
                    return Err(ConfigError::UnknownFlag(flag.clone()));
                } else {
                    config.filename = flag.clone();
                    set_filename = true;
                }
                i = i + 1;
            }
        }
        if !set_filename {
            return Err(ConfigError::NoFileProvided);
        }
        Ok(config)
    }

    /// Compiles the text read from the configured file (or fails with the
    /// error reading it gave): `Ok` when the front end accepts it, else the
    /// reports of its errors.
    fn compile_helper(&self, source: Result<String, ConfigError>) -> (r: Result<(), Status>)
        ensures
            match source {
                Err(e) => r matches Err(Status::Config(x)) && x == e,
                Ok(s) => if frontend_accepts(s@) {
                    r is Ok
                } else {
                    r matches Err(Status::Compile(es)) && reports_of(es@, s@)
                },
            },
    {
        let text = match source {
            Ok(t) => t,
            Err(x) => {
                return Err(Status::Config(x));
            },
        };
        match frontend(text.as_str()) {
            Ok(_) => Ok(()),
            Err(es) => {
                let out = format_errors(&es, self.filename.as_str(), text.as_str());
                proof {
                    let errs = errors_view(es@);
                    assert(frontend_errors(text@, errs));
                    assert(out@.len() == errs.len());
                    assert(reports_of(out@, text@));
                }
                Err(Status::Compile(out))
            },
        }
    }

    /// The exit status of compiling the text read from the configured file
    /// (or of the error reading it gave).
    pub fn compile(&self, source: Result<String, ConfigError>) -> (r: ExitStatus)
        ensures
            match source {
                Err(e) => r.0 == Config::CONFIG_ERROR && (r.1 matches Status::Config(x) && x == e),
                Ok(s) => if frontend_accepts(s@) {
                    r.0 == 0 && r.1 is Success
                } else {
                    r.0 == self.error_code && (r.1 matches Status::Compile(es) && reports_of(es@, s@))
                },
            },
    {
        match self.compile_helper(source) {
            Ok(()) => ExitStatus::success(),
            Err(x) => ExitStatus::from_raw_status(x, self.error_code),
        }
    }
}

} // verus!
