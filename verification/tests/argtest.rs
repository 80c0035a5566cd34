use qargparser as arg;
use qargparser::SpecData;

#[derive(Default)]
pub struct MyContext {
    pub exec: String,
    pub eargs: Vec<String>,
}

fn pos_proc(spec: &SpecData, mut ctx: MyContext, args: Vec<String>) -> MyContext {
    if matches!(spec.nargs, arg::Nargs::Remainder) {
        for a in args {
            ctx.eargs.push(a.clone());
        }
    } else {
        ctx.exec = args[0].clone();
    }
    ctx
}

#[test]
fn postest() {
    let ctx = MyContext {
        ..Default::default()
    };

    let exec_spec = arg::Builder::new()
        .nargs(arg::Nargs::Count(1), &vec!["PRG".to_string()])
        .build(pos_proc);

    let eargs_spec = arg::Builder::new()
        .nargs(arg::Nargs::Remainder, &vec!["PRGARG".to_string()])
        .build(pos_proc);

    let args = vec![
        "Powershell.exe".to_string(),
        "--".to_string(),
        "-ExecutionPolicy".to_string(),
    ];
    let mut prsr = arg::Parser::from_args("cmd", args, ctx);

    prsr.add(exec_spec).unwrap();
    prsr.add(eargs_spec).unwrap();

    prsr.parse().unwrap();

    let ctx = prsr.into_ctx();

    assert_eq!(ctx.exec, "Powershell.exe");
    assert_eq!(ctx.eargs, vec!["-ExecutionPolicy"]);
}
