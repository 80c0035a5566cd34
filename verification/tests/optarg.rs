use qargparser as arg;
use qargparser::SpecData;

#[derive(Default)]
struct MyContext {
    fname: String,
    pidfile: String,
}

fn file_proc(spec: &SpecData, mut ctx: MyContext, args: Vec<String>) -> MyContext {
    if spec.sopt == Some('f') {
        ctx.fname = args[0].clone();
        assert_eq!(ctx.fname, "test.txt");
    } else if spec.sopt == Some('p') {
        ctx.pidfile = args[0].clone();
        assert_eq!(ctx.pidfile, "foobar.pid");
    }
    ctx
}

#[test]
fn optarg() {
    let file_spec = arg::Builder::new()
        .sopt('f')
        .lopt("file")
        .help(&vec!["Use file FILE.".to_string()])
        .nargs(arg::Nargs::Count(1), &vec!["FILE".to_string()])
        .build(file_proc);
    let pidfile_spec = arg::Builder::new()
        .sopt('p')
        .lopt("pidfile")
        .help(&vec!["Store process pid in FILE.".to_string()])
        .nargs(arg::Nargs::Count(1), &vec!["FILE".to_string()])
        .build(file_proc);

    let ctx = MyContext {
        ..Default::default()
    };

    let mut prsr = arg::Parser::from_args(
        "optarg",
        vec![
            "--pidfile".to_string(),
            "foobar.pid".to_string(),
            "--file".to_string(),
            "test.txt".to_string(),
        ],
        ctx,
    );

    prsr.add(file_spec).unwrap();
    prsr.add(pidfile_spec).unwrap();

    prsr.parse().unwrap();
}
