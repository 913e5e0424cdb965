use ofa::engine::discovery::{format_cmd_type, list_group_subcommands, pad};
use ofa::engine::executor::{bind_params, dry_run_output, interpolate, prepare_command, ExecError};
use ofa::engine::resolver::{
    assemble, render_text, resolve_var, resolve_variable, undefined_message, Scopes, Segment,
};
use ofa::engine::tokenizer::TemplateError;
use ofa::models::command::{kind, Command, ExecutionMode};
use ofa::models::request::ExecutionRequest;
use ofa::models::variable::{Provider, Variable};
use ofa::strmap::StringMap;

fn strings(xs: &[&str]) -> Vec<String> {
    xs.iter().map(|s| s.to_string()).collect()
}

fn scopes(vars: StringMap<Variable>) -> Scopes {
    Scopes { session: StringMap::new(), persistent: StringMap::new(), vars }
}

fn text(seg: &Segment) -> &str {
    match seg {
        Segment::Text(t) => t,
        _ => panic!("expected text"),
    }
}

fn env(pairs: &[(&str, &str)]) -> StringMap<String> {
    let mut m = StringMap::new();
    for (k, v) in pairs {
        m.insert(k.to_string(), v.to_string());
    }
    m
}

#[test]
fn interpolate_known_and_unknown() {
    let e = env(&[("HOME", "/home/u"), ("A_1", "x")]);
    assert_eq!(interpolate("cd $HOME && echo $A_1$MISSING $ end$", &e), "cd /home/u && echo x$MISSING $ end$");
}

#[test]
fn interpolate_with_empty_env_is_identity() {
    let e = env(&[]);
    let s = "echo $X ${Y} $$ plain";
    assert_eq!(interpolate(s, &e), s);
}

#[test]
fn dry_run_output_adds_newline() {
    let e = env(&[("X", "1")]);
    assert_eq!(dry_run_output("echo $X", false, &e), "echo $X\n");
    assert_eq!(dry_run_output("echo $X", true, &e), "echo 1\n");
}

fn deploy() -> Command {
    let mut c = Command::new(ExecutionMode::TemplateShell, "docker compose up -d {{ service }} @tag".to_string());
    c.params = strings(&["service", "tag"]);
    c.defaults.insert("tag".to_string(), "latest".to_string());
    c
}

#[test]
fn bind_params_uses_defaults_and_truncates() {
    let (kept, bound) = bind_params(&deploy(), strings(&["api"])).ok().unwrap();
    assert_eq!(kept, strings(&["api"]));
    assert_eq!(bound.get("service").unwrap(), "api");
    assert_eq!(bound.get("tag").unwrap(), "latest");

    let (kept, bound) = bind_params(&deploy(), strings(&["api", "v2", "extra"])).ok().unwrap();
    assert_eq!(kept, strings(&["api", "v2"]));
    assert_eq!(bound.get("tag").unwrap(), "v2");
}

#[test]
fn bind_params_keeps_trailing_when_allowed() {
    let mut c = deploy();
    c.allow_trailing_args = true;
    let (kept, _) = bind_params(&c, strings(&["api", "v2", "extra"])).ok().unwrap();
    assert_eq!(kept, strings(&["api", "v2", "extra"]));
}

#[test]
fn bind_params_reports_missing() {
    let mut c = deploy();
    c.params = strings(&["a", "tag", "b"]);
    match bind_params(&c, vec![]) {
        Err(e @ ExecError::MissingParameters(_)) => {
            if let ExecError::MissingParameters(names) = &e {
                assert_eq!(names, &strings(&["a", "b"]));
            }
            assert_eq!(e.message(), "Missing required parameter :: [ a, b ]");
        }
        _ => panic!("expected missing parameters"),
    }
}

#[test]
fn resolve_order_local_then_vars() {
    let local = env(&[("x", "local")]);
    let mut vars = StringMap::new();
    vars.insert("x".to_string(), Variable::Literal("config".to_string()));
    vars.insert("y".to_string(), Variable::Literal("config_y".to_string()));
    let mut sc = scopes(vars);
    assert_eq!(text(&resolve_var("x", &local, &sc)), "local");
    assert_eq!(text(&resolve_var("y", &local, &sc)), "config_y");
    sc.persistent.insert("y".to_string(), "stored_y".to_string());
    assert_eq!(text(&resolve_var("y", &local, &sc)), "stored_y");
    sc.session.insert("y".to_string(), "session_y".to_string());
    sc.persistent.insert("z2".to_string(), "stored_z2".to_string());
    assert_eq!(text(&resolve_var("y", &local, &sc)), "session_y");
    assert_eq!(text(&resolve_var("z2", &local, &sc)), "stored_z2");
    sc.session.insert("x".to_string(), "session_x".to_string());
    assert_eq!(text(&resolve_var("x", &local, &sc)), "local");
    match resolve_var("z", &local, &sc) {
        Segment::Undefined(n) => assert_eq!(n, "z"),
        _ => panic!("expected undefined"),
    }
}

#[test]
fn resolve_variable_provided_gives_command() {
    let p = Variable::Provided(Provider { run: Command::new(ExecutionMode::Shell, "date".to_string()) });
    match resolve_variable(&p) {
        Segment::Run(c) => {
            assert_eq!(c.cmd, "date");
            assert!(c.kind == ExecutionMode::Shell);
        }
        _ => panic!("expected command"),
    }
}

#[test]
fn render_stops_at_first_undefined() {
    let local = env(&[("a", "1")]);
    let mut vars = StringMap::new();
    vars.insert("p".to_string(), Variable::Provided(Provider { run: Command::new(ExecutionMode::Shell, "echo 2".to_string()) }));
    let segs = render_text("x @a {{p}} @missing @a tail", &local, &scopes(vars)).ok().unwrap();
    assert_eq!(segs.len(), 6);
    assert_eq!(text(&segs[0]), "x ");
    assert_eq!(text(&segs[1]), "1");
    assert_eq!(text(&segs[2]), " ");
    assert!(matches!(&segs[3], Segment::Run(c) if c.cmd == "echo 2"));
    assert_eq!(text(&segs[4]), " ");
    assert!(matches!(&segs[5], Segment::Undefined(n) if n == "missing"));
    assert_eq!(undefined_message("missing"), "Undefined variable 'missing'");
}

#[test]
fn render_reports_template_errors() {
    let local = env(&[]);
    assert!(matches!(render_text("{{ oops", &local, &scopes(StringMap::new())), Err(TemplateError::UnclosedExpression)));
}

#[test]
fn prepare_template_command() {
    let req = ExecutionRequest::new("deploy".to_string(), deploy(), strings(&["api"]));
    let prepared = prepare_command(req, &scopes(StringMap::new())).ok().unwrap();
    let rendered: Vec<&str> = prepared.segments.iter().map(text).collect();
    assert_eq!(rendered.concat(), "docker compose up -d api latest");
    assert_eq!(prepared.args, strings(&["api"]));
}

#[test]
fn prepare_shell_command_is_verbatim() {
    let c = Command::new(ExecutionMode::Shell, "echo {{ not_rendered }} $1".to_string());
    let req = ExecutionRequest::new("s".to_string(), c, strings(&["x", "y"]));
    let prepared = prepare_command(req, &scopes(StringMap::new())).ok().unwrap();
    assert_eq!(prepared.segments.len(), 1);
    assert_eq!(text(&prepared.segments[0]), "echo {{ not_rendered }} $1");
    assert!(prepared.args.is_empty());
}

#[test]
fn prepare_reports_missing_and_template_errors() {
    let req = ExecutionRequest::new("d".to_string(), deploy(), vec![]);
    assert!(matches!(prepare_command(req, &scopes(StringMap::new())), Err(ExecError::MissingParameters(_))));
    let bad = Command::new(ExecutionMode::TemplateShell, "{{ }}".to_string());
    let req = ExecutionRequest::new("b".to_string(), bad, vec![]);
    let err = prepare_command(req, &scopes(StringMap::new())).err().unwrap();
    assert!(matches!(err, ExecError::Template(TemplateError::EmptyExpression)));
    assert_eq!(err.message(), "Empty template expression");
}

#[test]
fn default_kind_is_template_shell() {
    assert!(kind() == ExecutionMode::TemplateShell);
    let c = Command::new(ExecutionMode::Shell, "ls".to_string());
    assert!(c.params.is_empty() && c.defaults.is_empty() && !c.allow_trailing_args);
}

#[test]
fn cmd_type_labels() {
    assert_eq!(format_cmd_type(&Command::new(ExecutionMode::Shell, String::new())), "[shell]");
    assert_eq!(format_cmd_type(&Command::new(ExecutionMode::TemplateShell, String::new())), "[template_shell]");
    assert_eq!(ofa::app::format_cmd_type(&Command::new(ExecutionMode::Shell, String::new())), "[shell]");
}

#[test]
fn padding() {
    assert_eq!(pad("ab", 5), "ab   ");
    assert_eq!(pad("abcdef", 3), "abcdef");
    assert_eq!(pad("é", 3), format!("{:3}", "é"));
}

#[test]
fn group_listing_is_sorted() {
    let mut children = StringMap::new();
    children.insert("test".to_string(), Command::new(ExecutionMode::Shell, "cargo test".to_string()));
    children.insert("build".to_string(), Command::new(ExecutionMode::TemplateShell, "cargo build".to_string()));
    let out = list_group_subcommands("rust", &children);
    let expected = "'rust' is a command group.\n\nCommands:\n  build      [template_shell]\n  test       [shell]\n\nUsage: ofa rust <command> [args...]\n\nRun 'ofa rust <command> --help' for command-specific help.\n";
    assert_eq!(out, expected);
}

#[test]
fn group_listing_empty() {
    let out = list_group_subcommands("g", &StringMap::new());
    assert!(out.contains("Commands:\n  (no commands configured)\n"));
}

#[test]
fn assemble_fills_in_outputs() {
    let segs = vec![
        Segment::Text("a ".to_string()),
        Segment::Run(Command::new(ExecutionMode::Shell, "x".to_string())),
        Segment::Text(" b ".to_string()),
        Segment::Run(Command::new(ExecutionMode::Shell, "y".to_string())),
    ];
    let outs = vec!["1".to_string(), "2".to_string()];
    assert_eq!(assemble(&segs, &outs), Ok("a 1 b 2".to_string()));
    let segs = vec![Segment::Text("a".to_string()), Segment::Undefined("v".to_string())];
    assert_eq!(assemble(&segs, &vec![]), Err("v".to_string()));
    assert_eq!(assemble(&vec![], &vec![]), Ok(String::new()));
}

#[test]
fn exec_error_template_message() {
    assert_eq!(ExecError::Template(TemplateError::UnclosedExpression).message(), "Unclosed template expression");
}

#[test]
fn plain_text_renders_to_itself() {
    let s = "echo { a } @ b \\ c";
    let segs = render_text(s, &env(&[]), &scopes(StringMap::new())).ok().unwrap();
    assert_eq!(assemble(&segs, &vec![]), Ok(s.to_string()));
}
