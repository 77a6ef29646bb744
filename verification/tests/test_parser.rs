use rigging::parser::context::{Context, GetError};
use crossterm::style::Stylize;
use rigging::parser::commands::{find_similar_command, format_flag_name, format_option_flags, Commands, Dispatch};
use rigging::parser::spec::parse_single_flag;
use rigging::parser::validate::ParseError;

fn args(v: &[&str]) -> Vec<String> {
    v.iter().map(|s| s.to_string()).collect()
}

fn app() -> Commands {
    Commands::new()
        .name("app")
        .version("1.0")
        .cmd("run {file} --verbose=false", "Run a file", 7)
        .cmd("build --target", "Build", 8)
}

#[test]
fn dispatch_version() {
    match app().dispatch(&args(&["--version"])) {
        Dispatch::Version(v) => assert_eq!(v, "app 1.0"),
        _ => panic!("expected version"),
    }
    match app().dispatch(&args(&["-V"])) {
        Dispatch::Version(v) => assert_eq!(v, "app 1.0"),
        _ => panic!("expected version"),
    }
}

#[test]
fn dispatch_help_without_args() {
    match app().dispatch(&args(&[])) {
        Dispatch::Help(h) => assert!(!h.is_empty()),
        _ => panic!("expected help"),
    }
}

#[test]
fn dispatch_runs_handler_with_context() {
    match app().dispatch(&args(&["run", "a.txt", "--verbose"])) {
        Dispatch::Run(h, ctx) => {
            assert_eq!(h, 7);
            assert_eq!(ctx.get_str("file"), Some("a.txt"));
            assert!(ctx.get_bool("verbose"));
        },
        _ => panic!("expected run"),
    }
    match app().dispatch(&args(&["run", "b.txt"])) {
        Dispatch::Run(_, ctx) => assert!(!ctx.get_bool("verbose")),
        _ => panic!("expected run"),
    }
}

#[test]
fn dispatch_errors() {
    match app().dispatch(&args(&["run", "a.txt", "--nope"])) {
        Dispatch::Fail(ParseError::UnknownFlag(f)) => assert_eq!(f, "--nope"),
        _ => panic!("expected unknown flag"),
    }
    match app().dispatch(&args(&["run"])) {
        Dispatch::Fail(ParseError::MissingPositional(p)) => assert_eq!(p, "file"),
        _ => panic!("expected missing positional"),
    }
    match app().dispatch(&args(&["build", "--target"])) {
        Dispatch::Fail(ParseError::MissingRequiredFlag(f)) => assert_eq!(f, "target"),
        _ => panic!("expected missing flag"),
    }
    match app().dispatch(&args(&["run", "a", "b"])) {
        Dispatch::Fail(ParseError::UnexpectedArgument(a)) => assert_eq!(a, "b"),
        _ => panic!("expected unexpected argument"),
    }
    match app().dispatch(&args(&["rnu"])) {
        Dispatch::Fail(ParseError::ErrorWithHelp(inner, _)) => match *inner {
            ParseError::UnknownCommand(c) => assert_eq!(c, "rnu"),
            _ => panic!("expected unknown command"),
        },
        _ => panic!("expected error with help"),
    }
}

#[test]
fn similar_command_threshold() {
    let c = app();
    assert_eq!(find_similar_command(c.root(), "rn"), Some("run".to_string()));
    assert_eq!(find_similar_command(c.root(), "xyz"), None);
    assert_eq!(find_similar_command(c.root(), "biuld"), Some("build".to_string()));
}

#[test]
fn flag_formatting() {
    assert_eq!(format_option_flags("v", "verbose"), format!("-{}, --{}", "v".bold(), "verbose".bold()));
    let f = parse_single_flag("v|verbose=false").unwrap();
    assert_eq!(format_flag_name(&f), format!("-{}, --{}", "v".bold(), "verbose".bold()));
    let g = parse_single_flag("--load|pull").unwrap();
    assert_eq!(format_flag_name(&g), format!("    --{}, --{}", "load".bold(), "pull".bold()));
    assert!(parse_single_flag("-").is_none());
}

#[test]
fn error_messages() {
    assert_eq!(ParseError::UnknownFlag("--x".to_string()).message(), "Unknown flag '--x'.");
    assert_eq!(ParseError::MissingRequiredFlag("target".to_string()).message(), "The required flag '--target' is missing.");
    assert_eq!(ParseError::MissingPositional("file".to_string()).message(), "The required argument '<file>' is missing.");
    let e = ParseError::ErrorWithHelp(Box::new(ParseError::UnknownCommand("rnu".to_string())), "hint".to_string());
    assert_eq!(e.message(), "Unrecognized command 'rnu'.\n\nhint");
}

#[test]
fn hidden_and_nested_commands_are_reached() {
    let c = Commands::new()
        .name("app")
        .hide_cmd("secret", "Hidden", 3)
        .cmd("db migrate", "Migrate", 4)
        .cmd("db seed", "Seed", 5);
    match c.dispatch(&args(&["secret"])) {
        Dispatch::Run(h, _) => assert_eq!(h, 3),
        _ => panic!("expected the hidden command to run"),
    }
    match c.dispatch(&args(&["db", "seed"])) {
        Dispatch::Run(h, _) => assert_eq!(h, 5),
        _ => panic!("expected db seed to run"),
    }
    match c.dispatch(&args(&[])) {
        Dispatch::Help(h) => {
            let plain = strip_ansi_escapes::strip_str(&h);
            assert!(!plain.contains("secret"));
            assert!(plain.contains("db"));
        },
        _ => panic!("expected help"),
    }
}

#[test]
fn help_lists_commands_in_name_order() {
    let c = Commands::new().name("app").cmd("zeta", "Z", 1).cmd("alpha", "A", 2).cmd("mid", "M", 3);
    match c.dispatch(&args(&[])) {
        Dispatch::Help(h) => {
            let plain = strip_ansi_escapes::strip_str(&h);
            let a = plain.find("alpha").unwrap();
            let m = plain.find("mid").unwrap();
            let z = plain.find("zeta").unwrap();
            assert!(a < m && m < z);
        },
        _ => panic!("expected help"),
    }
}

#[test]
fn context_raw_values() {
    let mut ctx = Context::new();
    ctx.insert("a".to_string(), "1".to_string());
    ctx.insert("e".to_string(), String::new());
    assert_eq!(ctx.get_raw("a"), Ok("1"));
    assert_eq!(ctx.get_raw("e"), Err(GetError::Empty("e".to_string())));
    assert_eq!(ctx.get_raw("x"), Err(GetError::Missing("x".to_string())));
    assert_eq!(GetError::Missing("x".to_string()).message(), "Argument 'x' not found");
    assert_eq!(GetError::Empty("e".to_string()).message(), "Argument 'e' is empty");
    assert_eq!(ctx.get_raw_opt("e"), None);
    assert_eq!(ctx.get_raw_opt("a"), Some("1"));
}
