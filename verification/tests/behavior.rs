use qargparser as arg;
use qargparser::{Builder, ErrKind, Nargs, Parser, Spec, SpecData};

#[derive(Default)]
struct Ctx {
    do_help: bool,
    flags: Vec<char>,
    fname: String,
    positionals: Vec<String>,
    rest: Vec<String>,
}

fn ctx_proc(spec: &SpecData, mut ctx: Ctx, args: Vec<String>) -> Ctx {
    if spec.sopt == Some('h') {
        ctx.do_help = true;
    } else if spec.sopt == Some('f') {
        ctx.fname = args[0].clone();
    } else if let Some(c) = spec.sopt {
        ctx.flags.push(c);
    } else if matches!(spec.nargs, Nargs::Remainder) {
        for a in args {
            ctx.rest.push(a.clone());
        }
    } else {
        for a in args {
            ctx.positionals.push(a.clone());
        }
    }
    ctx
}

type Handler = fn(&SpecData, Ctx, Vec<String>) -> Ctx;

fn flag(c: char) -> Spec<Handler> {
    Builder::new().sopt(c).build(ctx_proc)
}

fn strvec(words: &[&str]) -> Vec<String> {
    let mut v: Vec<String> = Vec::new();
    for w in words {
        v.push(w.to_string());
    }
    v
}

/// A cluster of zero-arity flags splits into one token per flag.
#[test]
fn cluster_of_flags_splits() {
    let specs: Vec<Spec<Handler>> = vec![flag('a'), flag('b'), flag('c')];
    let mut args = strvec(&["-abc"]);
    arg::split_sopts_arg(&mut args, 0, &specs).unwrap();
    assert_eq!(args, vec!["-a", "-b", "-c"]);
}

/// A cluster whose flag takes an argument keeps the tail as the value.
#[test]
fn cluster_with_value_splits() {
    let f = Builder::new()
        .sopt('f')
        .nargs(Nargs::Count(1), &strvec(&["FILE"]))
        .build(ctx_proc as Handler);
    let specs: Vec<Spec<Handler>> = vec![flag('v'), f];
    let mut args = strvec(&["-vfbar"]);
    arg::split_sopts_arg(&mut args, 0, &specs).unwrap();
    assert_eq!(args, vec!["-v", "-f", "bar"]);
}

/// An unregistered character inside a cluster is an unknown option and
/// leaves the token list unchanged.
#[test]
fn cluster_unknown_char_fails() {
    let specs: Vec<Spec<Handler>> = vec![flag('a')];
    let mut args = strvec(&["-ax"]);
    let r = arg::split_sopts_arg(&mut args, 0, &specs);
    match r {
        Err(ErrKind::UnknownOpt(name)) => assert_eq!(name, "x"),
        _ => panic!("expected an unknown-option error"),
    }
    assert_eq!(args, vec!["-ax"]);
}

/// Parsing an unregistered long option reports its name.
#[test]
fn unknown_long_option() {
    let mut prsr = Parser::from_args("cmd", strvec(&["--nope"]), Ctx::default());
    prsr.add(flag('a')).unwrap();
    match prsr.parse() {
        Err(ErrKind::UnknownOpt(name)) => assert_eq!(name, "nope"),
        _ => panic!("expected an unknown-option error"),
    }
    assert!(prsr.did_fail());
}

/// An option that requires a value fails when the input ends first.
#[test]
fn missing_argument() {
    let f = Builder::new()
        .sopt('f')
        .lopt("file")
        .nargs(Nargs::Count(1), &strvec(&["FILE"]))
        .build(ctx_proc as Handler);
    let mut prsr = Parser::from_args("cmd", strvec(&["--file"]), Ctx::default());
    prsr.add(f).unwrap();
    match prsr.parse() {
        Err(ErrKind::MissArg(se)) => assert_eq!(se.spec, 0),
        _ => panic!("expected a missing-argument error"),
    }
}

/// A positional token with no positional specification left is an error.
#[test]
fn missing_spec() {
    let mut prsr = Parser::from_args("cmd", strvec(&["stray"]), Ctx::default());
    prsr.add(flag('a')).unwrap();
    match prsr.parse() {
        Err(ErrKind::MissSpec(_)) => {}
        _ => panic!("expected a missing-spec error"),
    }
}

/// Two specifications with the same short character collide.
#[test]
fn collision_short() {
    let mut prsr = Parser::from_args("cmd", strvec(&[]), Ctx::default());
    prsr.add(flag('a')).unwrap();
    match prsr.add(Builder::new().sopt('a').lopt("alpha").build(ctx_proc as Handler)) {
        Err(ErrKind::Collision(name)) => assert_eq!(name, "a"),
        _ => panic!("expected a collision"),
    }
    assert_eq!(prsr.num_specs(), 1);
}

/// Two specifications with the same long name collide.
#[test]
fn collision_long() {
    let mut prsr = Parser::from_args("cmd", strvec(&[]), Ctx::default());
    prsr.add(Builder::new().lopt("file").build(ctx_proc as Handler))
        .unwrap();
    match prsr.add(Builder::new().sopt('f').lopt("file").build(ctx_proc as Handler)) {
        Err(ErrKind::Collision(name)) => assert_eq!(name, "file"),
        _ => panic!("expected a collision"),
    }
}

/// Two positional specifications with the same name collide.
#[test]
fn collision_positional_name() {
    let mut prsr = Parser::from_args("cmd", strvec(&[]), Ctx::default());
    prsr.add(
        Builder::new()
            .name("cmd")
            .nargs(Nargs::Count(1), &strvec(&["CMD"]))
            .build(ctx_proc as Handler),
    )
    .unwrap();
    match prsr.add(
        Builder::new()
            .name("cmd")
            .nargs(Nargs::Count(1), &strvec(&["CMD"]))
            .build(ctx_proc as Handler),
    ) {
        Err(ErrKind::Collision(name)) => assert_eq!(name, "cmd"),
        _ => panic!("expected a collision"),
    }
}

/// A second remainder-capturing positional collides: only one remainder
/// sink is permitted.
#[test]
fn collision_second_remainder() {
    let mut prsr = Parser::from_args("cmd", strvec(&[]), Ctx::default());
    prsr.add(
        Builder::new()
            .name("rest")
            .nargs(Nargs::Remainder, &strvec(&["REST"]))
            .build(ctx_proc as Handler),
    )
    .unwrap();
    match prsr.add(
        Builder::new()
            .name("more")
            .nargs(Nargs::Remainder, &strvec(&["MORE"]))
            .build(ctx_proc as Handler),
    ) {
        Err(ErrKind::Collision(name)) => assert_eq!(name, "more"),
        _ => panic!("expected a collision"),
    }
}

/// An ordinary positional after a remainder-capturing one is a
/// structural error: the remainder sink must stay last.
#[test]
fn positional_after_remainder() {
    let mut prsr = Parser::from_args("cmd", strvec(&[]), Ctx::default());
    prsr.add(
        Builder::new()
            .name("rest")
            .nargs(Nargs::Remainder, &strvec(&["REST"]))
            .build(ctx_proc as Handler),
    )
    .unwrap();
    match prsr.add(
        Builder::new()
            .name("cmd")
            .nargs(Nargs::Count(1), &strvec(&["CMD"]))
            .build(ctx_proc as Handler),
    ) {
        Err(ErrKind::BadContext(_)) => {}
        _ => panic!("expected a structural error"),
    }
    assert_eq!(prsr.num_specs(), 1);
    assert!(prsr.have_capture_rest());
}

/// With only a required positional registered and empty input, the token
/// loop succeeds but the final check fails naming that specification.
#[test]
fn required_positional_missing() {
    let cmd = Builder::new()
        .name("command")
        .required(true)
        .nargs(Nargs::Count(1), &strvec(&["COMMAND"]))
        .build(ctx_proc as Handler);
    let mut prsr = Parser::from_args("cmd", strvec(&[]), Ctx::default());
    prsr.add(cmd).unwrap();
    match prsr.parse() {
        Err(ErrKind::MissArg(se)) => assert_eq!(se.spec, 0),
        _ => panic!("expected a missing-argument error from validation"),
    }
    assert!(prsr.did_fail());
}

/// An exit option stops the run loop at once: the trailing token is
/// never consumed or dispatched.
#[test]
fn exit_option_stops() {
    let help = Builder::new()
        .sopt('h')
        .lopt("help")
        .exit(true)
        .build(ctx_proc as Handler);
    let mut prsr = Parser::from_args("cmd", strvec(&["--help", "ignored"]), Ctx::default());
    prsr.add(help).unwrap();
    let r = prsr.parse().unwrap();
    assert_eq!(r, Some(0));
    assert!(prsr.get_ctx().do_help);
    assert_eq!(prsr.num_remaining_args(), 1);
    assert_eq!(prsr.get_remaining_args(), vec!["ignored"]);
}

/// The `--name=value` form is equivalent to `--name value`.
#[test]
fn long_option_equals_form() {
    let f = Builder::new()
        .sopt('f')
        .lopt("file")
        .nargs(Nargs::Count(1), &strvec(&["FILE"]))
        .build(ctx_proc as Handler);
    let mut prsr = Parser::from_args("cmd", strvec(&["--file=test.txt"]), Ctx::default());
    prsr.add(f).unwrap();
    prsr.parse().unwrap();
    assert_eq!(prsr.get_ctx().fname, "test.txt");
}

/// Once the separator is seen, later tokens keep their shape and go to
/// positional specifications; a second separator token is itself
/// positional.
#[test]
fn separator_is_permanent() {
    let rest = Builder::new()
        .name("rest")
        .nargs(Nargs::Remainder, &strvec(&["REST"]))
        .build(ctx_proc as Handler);
    let mut prsr = Parser::from_args(
        "cmd",
        strvec(&["--", "--", "-x"]),
        Ctx::default(),
    );
    prsr.add(rest).unwrap();
    prsr.parse().unwrap();
    assert_eq!(prsr.get_ctx().rest, vec!["--", "-x"]);
}

/// Usage strings: brackets follow the required flag, and a remainder
/// capture renders its repetition form.
#[test]
fn usage_strings() {
    let cmd = Builder::new()
        .name("command")
        .required(true)
        .nargs(Nargs::Count(1), &strvec(&["COMMAND"]))
        .build(ctx_proc as Handler);
    assert_eq!(cmd.get_usage_str(), "<COMMAND>");
    assert_eq!(cmd.get_help_title_str(), "COMMAND");

    let rest = Builder::new()
        .name("rest")
        .nargs(Nargs::Remainder, &strvec(&["REST"]))
        .build(ctx_proc as Handler);
    assert_eq!(rest.get_usage_str(), "[REST [REST ...]]");

    let f = Builder::new()
        .sopt('f')
        .lopt("file")
        .nargs(Nargs::Count(1), &strvec(&["FILE"]))
        .build(ctx_proc as Handler);
    assert_eq!(f.get_opts_usage_str(), "-f FILE, --file FILE");
    assert_eq!(f.get_usage_str(), "[--file FILE]");

    let h = Builder::new().sopt('h').build(ctx_proc as Handler);
    assert_eq!(h.get_usage_str(), "[-h]");
}

/// The default arity consumes no trailing tokens.
#[test]
fn default_arity_is_zero() {
    let n: Nargs = Default::default();
    assert!(matches!(n, Nargs::Zero));
}

/// Registry accessors: hidden flags, option and positional identities,
/// and the program name.
#[test]
fn registry_accessors() {
    let mut prsr = Parser::from_args("prog", strvec(&[]), Ctx::default());
    prsr.add(
        Builder::new()
            .sopt('q')
            .hidden(true)
            .build(ctx_proc as Handler),
    )
    .unwrap();
    prsr.add(
        Builder::new()
            .name("cmd")
            .nargs(Nargs::Count(1), &strvec(&["CMD"]))
            .build(ctx_proc as Handler),
    )
    .unwrap();
    assert_eq!(prsr.get_arg0(), "prog");
    assert_eq!(prsr.num_specs(), 2);
    assert_eq!(prsr.get_opts(), vec![0]);
    assert_eq!(prsr.get_posargs(), vec![1]);
    assert!(prsr.get_spec_data(0).is_hidden());
    assert!(prsr.get_spec_data(0).is_opt());
    assert!(prsr.get_spec_data(1).is_pos());
    assert!(!prsr.have_capture_rest());
}

/// Help text plumbing: the free-text paragraphs round-trip through the
/// setters and appenders.
#[test]
fn help_text_accessors() {
    let mut prsr: Parser<Ctx, Handler> =
        Parser::from_args("cmd", strvec(&[]), Ctx::default());
    prsr.set_tophelp(strvec(&["About this program."]));
    prsr.append_tophelp(strvec(&["More about it."]));
    prsr.set_bottomhelp(strvec(&["See also."]));
    prsr.append_bottomhelp(strvec(&["The end."]));
    assert_eq!(
        prsr.get_tophelp(),
        &vec!["About this program.".to_string(), "More about it.".to_string()]
    );
    assert_eq!(
        prsr.get_bottomhelp(),
        &vec!["See also.".to_string(), "The end.".to_string()]
    );
    let spec = Builder::new()
        .sopt('f')
        .help(&strvec(&["Use a file."]))
        .help(&strvec(&["Really."]))
        .build(ctx_proc as Handler);
    assert_eq!(
        spec.get_help_text(),
        &vec!["Use a file.".to_string(), "Really.".to_string()]
    );
}

/// A short option with its value glued on is taken apart during the
/// parse itself.
#[test]
fn inline_short_value_parses() {
    let f = Builder::new()
        .sopt('f')
        .nargs(Nargs::Count(1), &strvec(&["FILE"]))
        .build(ctx_proc as Handler);
    let mut prsr = Parser::from_args("cmd", strvec(&["-fnotes.txt"]), Ctx::default());
    prsr.add(f).unwrap();
    prsr.parse().unwrap();
    assert_eq!(prsr.get_ctx().fname, "notes.txt");
    assert_eq!(prsr.num_remaining_args(), 0);
}
