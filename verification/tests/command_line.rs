//! The command line.
use rnidbg::cli::{
    libc_path, missing_libc, parse_command, parse_exec, parse_flag_path, parse_jni,
    parse_optional_flag, CliError, Command, USAGE,
};

fn args(list: &[&str]) -> Vec<String> {
    list.iter().map(|s| s.to_string()).collect()
}

#[test]
fn help_is_shown_without_a_command() {
    assert!(matches!(parse_command(&args(&[])), Ok(Command::Help)));
    assert!(matches!(parse_command(&args(&["-h"])), Ok(Command::Help)));
    assert!(matches!(parse_command(&args(&["--help", "exec"])), Ok(Command::Help)));
    assert!(USAGE.starts_with("rnidbg \u{2014} ARM64 Android 36 userland runtime\n\nUsage:\n"));
}

#[test]
fn commands_get_the_rest() {
    match parse_command(&args(&["exec", "--bin", "a"])) {
        Ok(Command::Exec(rest)) => assert_eq!(rest, args(&["--bin", "a"])),
        _ => panic!("not exec"),
    }
    match parse_command(&args(&["jni"])) {
        Ok(Command::Jni(rest)) => assert!(rest.is_empty()),
        _ => panic!("not jni"),
    }
    match parse_command(&args(&["run"])) {
        Err(e) => assert_eq!(e.message(), "unknown command 'run'"),
        Ok(_) => panic!("accepted"),
    }
}

#[test]
fn a_flag_takes_the_argument_after_it() {
    let (path, rest) = parse_flag_path(&args(&["x", "--bin", "p", "--y", "z"]), "--bin").unwrap();
    assert_eq!(path, "p");
    assert_eq!(rest, args(&["x", "--y", "z"]));
    let (path, rest) = parse_flag_path(&args(&["--bin", "a", "--bin", "b"]), "--bin").unwrap();
    assert_eq!(path, "b");
    assert!(rest.is_empty());
    let (path, _) = parse_flag_path(&args(&["--bin", "--"]), "--bin").unwrap();
    assert_eq!(path, "--");
}

#[test]
fn what_stands_after_dashes_stays_as_it_is() {
    let (path, rest) =
        parse_flag_path(&args(&["--bin", "p", "--", "--bin", "q", "--"]), "--bin").unwrap();
    assert_eq!(path, "p");
    assert_eq!(rest, args(&["--bin", "q", "--"]));
}

#[test]
fn plain_arguments_keep_their_order() {
    let e = parse_flag_path(&args(&["a", "--b", "c"]), "--bin").unwrap_err();
    assert!(matches!(&e, CliError::Missing(f) if f == "--bin"));
    assert_eq!(e.message(), "missing --bin");
    let (_, rest) = parse_flag_path(&args(&["a", "--b", "c", "--bin", "p"]), "--bin").unwrap();
    assert_eq!(rest, args(&["a", "--b", "c"]));
}

#[test]
fn a_flag_without_a_path_is_refused() {
    let e = parse_flag_path(&args(&["a", "--so"]), "--so").unwrap_err();
    assert!(matches!(&e, CliError::NeedsPath(f) if f == "--so"));
    assert_eq!(e.message(), "--so requires a path");
}

#[test]
fn optional_flags_may_be_missing() {
    assert_eq!(parse_optional_flag(&args(&["a", "b"]), "--call").unwrap(), None);
    assert_eq!(
        parse_optional_flag(&args(&["--call", "Java_x"]), "--call").unwrap(),
        Some("Java_x".to_string())
    );
    let e = parse_optional_flag(&args(&["--call"]), "--call").unwrap_err();
    assert!(matches!(&e, CliError::NeedsSymbol(f) if f == "--call"));
    assert_eq!(e.message(), "--call requires a symbol name");
    assert!(parse_optional_flag(&args(&["--call", "--onload"]), "--call").is_err());
}

#[test]
fn exec_options_hold_program_and_arguments() {
    let o = parse_exec(&args(&["--bin", "hello", "--", "-v", "x"])).unwrap();
    assert_eq!(o.bin, "hello");
    assert_eq!(o.args, args(&["-v", "x"]));
    assert!(matches!(parse_exec(&args(&["hello"])), Err(CliError::Missing(_))));
    assert!(matches!(parse_exec(&args(&["--bin"])), Err(CliError::NeedsPath(_))));
}

#[test]
fn jni_options_hold_library_and_calls() {
    let o = parse_jni(&args(&["--so", "l.so", "--onload", "--call", "Java_f"])).unwrap();
    assert_eq!(o.so, "l.so");
    assert!(o.onload);
    assert_eq!(o.call, Some("Java_f".to_string()));
    let o = parse_jni(&args(&["--so", "l.so"])).unwrap();
    assert!(!o.onload);
    assert_eq!(o.call, None);
    assert!(matches!(parse_jni(&args(&["--so", "l.so", "--call"])), Err(CliError::NeedsSymbol(_))));
    assert!(matches!(parse_jni(&args(&[])), Err(CliError::Missing(_))));
    assert!(matches!(parse_jni(&args(&["--so"])), Err(CliError::NeedsPath(_))));
}

#[test]
fn the_c_library_is_looked_for_under_the_root() {
    assert_eq!(libc_path("./android/sdk36"), "./android/sdk36/system/lib64/libc.so");
    assert_eq!(libc_path("/img/"), "/img/system/lib64/libc.so");
    assert_eq!(
        missing_libc("x"),
        "Android 36 libc not found at x\nPull a device/emulator image first:\nandroid/sdk36/pull.ps1\n\
         or set BASE_PATH to a tree that contains system/lib64/libc.so"
    );
}
