use std::collections::HashMap;

use qargparser::{Builder, Nargs, SpecData};

#[derive(Default)]
pub struct TestCtx {
    pub do_help: bool,
    pub verbosity: u8,
    pub fname: String,
    pub params: HashMap<String, String>,
}

fn ctx_proc(spec: &SpecData, mut ctx: TestCtx, args: Vec<String>) -> TestCtx {
    if spec.sopt == Some('h') {
        ctx.do_help = true;
    } else if spec.sopt == Some('v') {
        ctx.verbosity += 1;
    } else if spec.sopt == Some('f') {
        ctx.fname = args[0].clone();
    } else if spec.sopt == Some('p') {
        ctx.params.insert(args[0].clone(), args[1].clone());
    }
    ctx
}

fn expect_opt_str(optstr: &Option<String>, expect: &str) {
    if let Some(optstr) = optstr {
        assert_eq!(optstr, expect);
    } else {
        panic!("This shouldn't be possbile.");
    }
}

#[test]
fn test_metanames() {
    let spec = Builder::new()
        .sopt('h')
        .lopt("help")
        .exit(true)
        .build(ctx_proc);

    // No meta names for plain switches
    assert_eq!(spec.get_joined_meta_str(), None);

    let spec = Builder::new()
        .sopt('f')
        .lopt("file")
        .name("file")
        .nargs(Nargs::Count(1), &vec!["FILE".to_string()])
        .build(ctx_proc);

    expect_opt_str(&spec.get_joined_meta_str(), "FILE");
    expect_opt_str(&spec.get_joined_meta_str(), "FILE");
    expect_opt_str(&spec.get_soptarg_str(), "-f FILE");
    expect_opt_str(&spec.get_loptarg_str(), "--file FILE");

    let nm: Vec<String> = Vec::new();
    let spec = Builder::new()
        .sopt('f')
        .lopt("file")
        .name("file")
        .nargs(Nargs::Count(1), &nm)
        .build(ctx_proc);

    expect_opt_str(&spec.get_joined_meta_str(), "ARG");
    expect_opt_str(&spec.get_joined_meta_str(), "ARG");
    expect_opt_str(&spec.get_soptarg_str(), "-f ARG");
    expect_opt_str(&spec.get_loptarg_str(), "--file ARG");

    let spec = Builder::new()
        .sopt('p')
        .lopt("param")
        .name("param")
        .nargs(
            Nargs::Count(2),
            &vec!["KEY".to_string(), "VALUE".to_string()],
        )
        .build(ctx_proc);

    expect_opt_str(&spec.get_joined_meta_str(), "KEY VALUE");

    let spec = Builder::new()
        .sopt('p')
        .lopt("param")
        .name("param")
        .nargs(Nargs::Count(2), &vec!["KEY".to_string()])
        .build(ctx_proc);

    expect_opt_str(&spec.get_joined_meta_str(), "KEY ARG");

    let nm: Vec<String> = Vec::new();
    let spec = Builder::new()
        .sopt('p')
        .lopt("param")
        .name("param")
        .nargs(Nargs::Count(2), &nm)
        .build(ctx_proc);

    expect_opt_str(&spec.get_joined_meta_str(), "ARG ARG");
}

#[test]
fn test_help_switch() {
    let spec = Builder::new()
        .sopt('h')
        .lopt("help")
        .exit(true)
        .build(ctx_proc);

    assert_eq!(spec.is_exit(), true);

    expect_opt_str(&spec.get_sopt_str(), "-h");
    expect_opt_str(&spec.get_lopt_str(), "--help");

    expect_opt_str(&spec.get_soptarg_str(), "-h");
    expect_opt_str(&spec.get_loptarg_str(), "--help");

    expect_opt_str(&spec.get_sopt_usage_str(), "[-h]");
    expect_opt_str(&spec.get_lopt_usage_str(), "[--help]");

    // No meta names for plain switches
    assert_eq!(spec.get_joined_meta_str(), None);
}

#[test]
fn test_switch_noshort() {
    let spec = Builder::new().lopt("help").exit(true).build(ctx_proc);

    assert_eq!(spec.is_exit(), true);

    let soptstr = spec.get_sopt_str();
    assert_eq!(soptstr.is_none(), true);
}

#[test]
fn test_switch_nolong() {
    let spec = Builder::new().sopt('h').exit(true).build(ctx_proc);

    assert_eq!(spec.is_exit(), true);

    let loptstr = spec.get_lopt_str();
    assert_eq!(loptstr.is_none(), true);
}

#[test]
fn test_file_optarg() {
    let spec = Builder::new()
        .sopt('f')
        .lopt("file")
        .name("file")
        .nargs(Nargs::Count(1), &vec!["FILE".to_string()])
        .build(ctx_proc);

    expect_opt_str(&spec.get_joined_meta_str(), "FILE");
    expect_opt_str(&spec.get_soptarg_str(), "-f FILE");
    expect_opt_str(&spec.get_loptarg_str(), "--file FILE");

    let nm: Vec<String> = Vec::new();
    let spec = Builder::new()
        .sopt('f')
        .lopt("file")
        .name("file")
        .nargs(Nargs::Count(1), &nm)
        .build(ctx_proc);

    expect_opt_str(&spec.get_joined_meta_str(), "ARG");
    expect_opt_str(&spec.get_soptarg_str(), "-f ARG");
    expect_opt_str(&spec.get_loptarg_str(), "--file ARG");
}

#[test]
fn test_param_optarg() {
    let spec = Builder::new()
        .sopt('p')
        .lopt("param")
        .name("param")
        .nargs(
            Nargs::Count(2),
            &vec!["KEY".to_string(), "VALUE".to_string()],
        )
        .build(ctx_proc);

    expect_opt_str(&spec.get_joined_meta_str(), "KEY VALUE");

    let spec = Builder::new()
        .sopt('p')
        .lopt("param")
        .name("param")
        .nargs(Nargs::Count(2), &vec!["KEY".to_string()])
        .build(ctx_proc);

    expect_opt_str(&spec.get_joined_meta_str(), "KEY ARG");

    let nm: Vec<String> = Vec::new();
    let spec = Builder::new()
        .sopt('p')
        .lopt("param")
        .name("param")
        .nargs(Nargs::Count(2), &nm)
        .build(ctx_proc);

    expect_opt_str(&spec.get_joined_meta_str(), "ARG ARG");
}
