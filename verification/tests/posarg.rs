use qargparser as arg;
use qargparser::SpecData;

#[derive(Default, Debug)]
struct MyContext {
    cmd: String,
    subcmd: String,
}

fn pos_proc(spec: &SpecData, mut ctx: MyContext, args: Vec<String>) -> MyContext {
    if spec.name == Some("command".to_string()) {
        ctx.cmd = args[0].clone();
        assert_eq!(ctx.cmd, "foo");
    } else if spec.name == Some("subcmd".to_string()) {
        ctx.subcmd = args[0].clone();
        assert_eq!(ctx.subcmd, "bar");
    }
    ctx
}

#[test]
fn posarg() {
    let cmd_spec = arg::Builder::new()
        .name("command")
        .required(true)
        .nargs(arg::Nargs::Count(1), &vec!["COMMAND".to_string()])
        .help(&vec!["The command to run.".to_string()])
        .build(pos_proc);
    let subcmd_spec = arg::Builder::new()
        .name("subcmd")
        .nargs(arg::Nargs::Count(1), &vec!["SUBCMD".to_string()])
        .help(&vec!["Command-specific sub-command.".to_string()])
        .build(pos_proc);

    let ctx = MyContext {
        ..Default::default()
    };

    let mut prsr = arg::Parser::from_args(
        "posarg",
        vec!["foo".to_string(), "bar".to_string()],
        ctx,
    );

    prsr.add(cmd_spec).unwrap();
    prsr.add(subcmd_spec).unwrap();

    prsr.parse().unwrap();
    prsr.validate().unwrap();

    let ctx = prsr.into_ctx();
    assert_eq!(ctx.cmd, "foo");
    assert_eq!(ctx.subcmd, "bar");
}
