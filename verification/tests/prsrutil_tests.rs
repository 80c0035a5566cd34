use qargparser::{
    maybe_lopt, maybe_sopt, split_lopt, split_sopts_arg, Builder, Nargs, Spec, SpecData,
};

#[derive(Default)]
pub struct TestCtx {
    pub do_help: bool,
    pub verbosity: u8,
    pub fname: String,
}

fn ctx_proc(spec: &SpecData, mut ctx: TestCtx, args: Vec<String>) -> TestCtx {
    if spec.sopt == Some('h') {
        ctx.do_help = true;
    } else if spec.sopt == Some('v') {
        ctx.verbosity += 1;
    } else if spec.sopt == Some('f') {
        ctx.fname = args[0].clone();
    }
    ctx
}

type TestSpec = Spec<fn(&SpecData, TestCtx, Vec<String>) -> TestCtx>;

fn mkspecs(with_file: bool, with_verbose: bool, metaname: &str) -> Vec<TestSpec> {
    let mut specs: Vec<TestSpec> = Vec::new();
    if with_file {
        specs.push(
            Builder::new()
                .sopt('f')
                .lopt("file")
                .nargs(Nargs::Count(1), &vec![metaname.to_string()])
                .build(ctx_proc),
        );
    }
    if with_verbose {
        specs.push(Builder::new().sopt('v').lopt("verbose").build(ctx_proc));
    }
    specs
}

#[test]
fn test_maybe_lopt() {
    assert_eq!(maybe_lopt("foo"), false);
    assert_eq!(maybe_lopt("-f"), false);
    assert_eq!(maybe_lopt("--"), false);
    assert_eq!(maybe_lopt("--foo"), true);
    assert_eq!(maybe_lopt("--f"), true);
    assert_eq!(maybe_lopt(" --foo"), false);
}

#[test]
fn test_maybe_sopt() {
    assert_eq!(maybe_sopt("foo"), false);
    assert_eq!(maybe_sopt("-"), false);
    assert_eq!(maybe_sopt("-a"), true);
}

#[test]
fn test_split_sopt1() {
    let specs: Vec<TestSpec> =
        vec![Builder::new().sopt('h').lopt("help").build(ctx_proc)];

    let mut args = vec!["-h".to_string()];
    split_sopts_arg(&mut args, 0, &specs).unwrap();
    assert_eq!(args.len(), 1);
    assert_eq!(args[0], "-h");
}

#[test]
fn test_split_sopt2() {
    let specs = mkspecs(true, true, "FILE");

    let mut args = vec!["-v".to_string(), "-f".to_string(), "bar".to_string()];
    split_sopts_arg(&mut args, 0, &specs).unwrap();
    assert_eq!(args.len(), 3);
    assert_eq!(args[0], "-v");
    assert_eq!(args[1], "-f");
    assert_eq!(args[2], "bar");

    split_sopts_arg(&mut args, 1, &specs).unwrap();
    assert_eq!(args.len(), 3);
    assert_eq!(args[0], "-v");
    assert_eq!(args[1], "-f");
    assert_eq!(args[2], "bar");
}

#[test]
fn test_split_sopt3() {
    let specs = mkspecs(true, false, "ARG");

    let mut args = vec!["-fbar".to_string()];

    split_sopts_arg(&mut args, 0, &specs).unwrap();
    assert_eq!(args.len(), 2);
    assert_eq!(args[0], "-f");
    assert_eq!(args[1], "bar");
}

#[test]
fn test_split_sopt4() {
    let specs = mkspecs(true, true, "ARG");

    let mut args = vec!["-vfbar".to_string()];
    split_sopts_arg(&mut args, 0, &specs).unwrap();
    assert_eq!(args.len(), 3);
    assert_eq!(args[0], "-v");
    assert_eq!(args[1], "-f");
    assert_eq!(args[2], "bar");
}

#[test]
fn test_split_lopt_eq() {
    let mut argv = vec!["--foo=bar".to_string()];

    split_lopt(&mut argv, 0);
    assert_eq!(argv.len(), 2);
    assert_eq!(argv[0], "--foo");
    assert_eq!(argv[1], "bar");
}

#[test]
fn test_split_lopt_neq() {
    let mut argv = vec!["--foo".to_string(), "bar".to_string()];

    split_lopt(&mut argv, 0);
    assert_eq!(argv.len(), 2);
    assert_eq!(argv[0], "--foo");
    assert_eq!(argv[1], "bar");
}

#[test]
fn test_split_lopt_eq_left() {
    let mut argv = vec!["--foo=bar".to_string(), "--baz".to_string()];

    split_lopt(&mut argv, 0);
    assert_eq!(argv.len(), 3);
    assert_eq!(argv[0], "--foo");
    assert_eq!(argv[1], "bar");
    assert_eq!(argv[2], "--baz");
}

#[test]
fn test_split_lopt_eq_middle() {
    let mut argv = vec![
        "--moo".to_string(),
        "--foo=bar".to_string(),
        "--baz".to_string(),
    ];

    split_lopt(&mut argv, 1);
    assert_eq!(argv.len(), 4);
    assert_eq!(argv[0], "--moo");
    assert_eq!(argv[1], "--foo");
    assert_eq!(argv[2], "bar");
    assert_eq!(argv[3], "--baz");
}

#[test]
fn test_split_lopt_eq_right() {
    let mut argv = vec!["--moo".to_string(), "--foo=bar".to_string()];

    split_lopt(&mut argv, 1);
    assert_eq!(argv.len(), 3);
    assert_eq!(argv[0], "--moo");
    assert_eq!(argv[1], "--foo");
    assert_eq!(argv[2], "bar");
}
