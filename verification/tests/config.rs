use lang::config::{Config, ConfigError, ExitStatus, Status};

fn args(v: &[&str]) -> Vec<String> {
    v.iter().map(|s| s.to_string()).collect()
}

#[test]
fn file_only() {
    let c = Config::from_args(args(&["prog.az"])).ok().unwrap();
    assert_eq!(c.filename, "prog.az");
    assert_eq!(c.error_code, 1);
}

#[test]
fn fail_code_is_set() {
    let c = Config::from_args(args(&["--fail", "100", "prog.az"])).ok().unwrap();
    assert_eq!(c.filename, "prog.az");
    assert_eq!(c.error_code, 100);
    let c = Config::from_args(args(&["x", "--fail", "+7"])).ok().unwrap();
    assert_eq!(c.error_code, 7);
}

#[test]
fn no_file_is_an_error() {
    assert!(matches!(Config::from_args(args(&[])), Err(ConfigError::NoFileProvided)));
    assert!(matches!(Config::from_args(args(&["--fail", "100"])), Err(ConfigError::NoFileProvided)));
}

#[test]
fn fail_needs_a_byte() {
    assert!(matches!(Config::from_args(args(&["--fail"])), Err(ConfigError::InvalidArgument(f)) if f == "--fail"));
    assert!(matches!(Config::from_args(args(&["--fail", "256"])), Err(ConfigError::InvalidArgument(_))));
    assert!(matches!(Config::from_args(args(&["--fail", "-1"])), Err(ConfigError::InvalidArgument(_))));
    assert!(matches!(Config::from_args(args(&["--fail", "+"])), Err(ConfigError::InvalidArgument(_))));
    assert!(matches!(Config::from_args(args(&["--fail", "12a"])), Err(ConfigError::InvalidArgument(_))));
    assert!(Config::from_args(args(&["--fail", "255", "f.az"])).is_ok());
}

#[test]
fn second_file_is_unknown_flag() {
    assert!(matches!(Config::from_args(args(&["a", "b"])), Err(ConfigError::UnknownFlag(f)) if f == "b"));
}

#[test]
fn config_error_messages() {
    assert_eq!(ConfigError::NoFileProvided.message(), "No input file provided");
    assert_eq!(ConfigError::IoError.message(), "IO Error while reading file");
    assert_eq!(ConfigError::UnknownFlag("-x".into()).message(), "Unknown flag -x");
    assert_eq!(ConfigError::InvalidArgument("--fail".into()).message(), "Invalid argument provided for --fail");
}

#[test]
fn status_messages() {
    assert_eq!(Status::Success.message(), "");
    assert_eq!(Status::Config(ConfigError::IoError).message(), "[Config Error] IO Error while reading file");
    assert_eq!(Status::Compile(vec!["a".into(), "b".into()]).message(), "a\nb");
}

#[test]
fn exit_status_codes() {
    let s = ExitStatus::from_raw_status(Status::Success, 9);
    assert_eq!(s.0, 0);
    let s = ExitStatus::from_raw_status(Status::Config(ConfigError::IoError), 9);
    assert_eq!(s.0, Config::CONFIG_ERROR);
    let s = ExitStatus::from_raw_status(Status::Compile(vec![]), 9);
    assert_eq!(s.0, 9);
    let s = ExitStatus::from(ConfigError::NoFileProvided);
    assert_eq!(s.0, 1);
}

#[test]
fn compile_outcomes() {
    let c = Config { filename: "t.az".to_string(), error_code: 100 };
    let s = c.compile(Err(ConfigError::IoError));
    assert_eq!(s.0, 1);
    assert!(matches!(s.1, Status::Config(ConfigError::IoError)));
    let s = c.compile(Ok("fun main() -> int { 1 }".to_string()));
    assert_eq!(s.0, 0);
    assert!(matches!(s.1, Status::Success));
    let s = c.compile(Ok("fun main() -> int { true }".to_string()));
    assert_eq!(s.0, 100);
    match s.1 {
        Status::Compile(es) => assert_eq!(es.len(), 1),
        _ => panic!("expected compile errors"),
    }
}
