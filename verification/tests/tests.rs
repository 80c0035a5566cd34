use qargparser as arg;
use qargparser::SpecData;

#[derive(Default)]
struct MyContext {
    do_help: bool,
    verbosity: u8,
    fname: String,
}

fn ctx_proc(spec: &SpecData, mut ctx: MyContext, args: Vec<String>) -> MyContext {
    if spec.sopt == Some('h') {
        ctx.do_help = true;
    } else if spec.sopt == Some('v') {
        ctx.verbosity += 1;
    } else if spec.sopt == Some('f') {
        ctx.fname = args[0].clone();
    }
    ctx
}

type Handler = fn(&SpecData, MyContext, Vec<String>) -> MyContext;

fn mkhelp() -> arg::Spec<Handler> {
    arg::Builder::new()
        .sopt('h')
        .lopt("help")
        .exit(true)
        .build(ctx_proc)
}

fn mkverbose() -> arg::Spec<Handler> {
    arg::Builder::new().sopt('v').lopt("verbose").build(ctx_proc)
}

fn mkfile() -> arg::Spec<Handler> {
    arg::Builder::new()
        .sopt('f')
        .lopt("file")
        .nargs(arg::Nargs::Count(1), &vec!["FILE".to_string()])
        .build(ctx_proc)
}

#[test]
fn app_test_1() {
    let ctx = MyContext {
        ..Default::default()
    };
    let spec = mkhelp();
    assert_eq!(ctx.do_help, false);

    let argv = vec!["--help".to_string()];

    let mut prsr = arg::Parser::from_args("cmd", argv, ctx);

    prsr.add(spec).unwrap();

    prsr.parse().unwrap();

    assert_eq!(prsr.get_ctx().do_help, true);
}

#[test]
fn app_test_2() {
    let ctx = MyContext {
        ..Default::default()
    };
    let help_spec = mkhelp();
    let verbose_spec = mkverbose();
    let fname_spec = mkfile();

    assert_eq!(ctx.do_help, false);

    let argv = vec!["--help".to_string()];

    let mut prsr = arg::Parser::from_args("cmd", argv, ctx);

    prsr.add(help_spec).unwrap();
    prsr.add(verbose_spec).unwrap();
    prsr.add(fname_spec).unwrap();

    prsr.parse().unwrap();

    assert_eq!(prsr.get_ctx().do_help, true);
}

#[test]
fn app_test_3() {
    let ctx = MyContext {
        ..Default::default()
    };
    let help_spec = mkhelp();
    let verbose_spec = mkverbose();
    let fname_spec = mkfile();

    assert_eq!(ctx.verbosity, 0);
    assert_eq!(ctx.do_help, false);

    let mut prsr = arg::Parser::from_args(
        "cmd",
        vec!["--verbose".to_string(), "-v".to_string()],
        ctx,
    );

    prsr.add(help_spec).unwrap();
    prsr.add(verbose_spec).unwrap();
    prsr.add(fname_spec).unwrap();

    prsr.parse().unwrap();

    assert_eq!(prsr.get_ctx().verbosity, 2);
}
