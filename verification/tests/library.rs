use ofa::app::{app_request, help_text, AppError};
use ofa::config::{env_value, profile_file};
use ofa::context::registry::{FunctionRegistry, RegistryError};
use ofa::context::persistent::namespace_values;
use ofa::models::command::Command;
use ofa::context::context::{ContextError, ContextFunction, ExecutionContext};
use ofa::context::persistent::TomlStore;
use ofa::init::{detect_project_type, indicators, initial_local_config};
use ofa::lifecycle::handle_lifecycle;
use ofa::models::command::ExecutionMode;
use ofa::models::function::Function;
use ofa::order::{sort_strings, str_lt};
use ofa::project::{merge, GlobalConfig, LocalConfig, Runnable, TypeConfig, TypeDefault};
use ofa::store::Store;
use ofa::strmap::StringMap;
use vstd::seq::Seq;

fn strings(xs: &[&str]) -> Vec<String> {
    xs.iter().map(|s| s.to_string()).collect()
}

#[test]
fn string_map_insert_get_remove() {
    let mut m: StringMap<u32> = StringMap::new();
    assert!(m.is_empty());
    m.insert("a".to_string(), 1);
    m.insert("b".to_string(), 2);
    m.insert("a".to_string(), 3);
    assert_eq!(m.len(), 2);
    assert_eq!(m.get("a"), Some(&3));
    assert!(m.contains_key("b"));
    assert_eq!(m.remove("b"), Some(2));
    assert_eq!(m.remove("b"), None);
    assert!(!m.contains_key("b"));
    assert_eq!(m.get("zz"), None);
}

#[test]
fn string_map_extend_prefers_other() {
    let mut m: StringMap<u32> = StringMap::new();
    m.insert("a".to_string(), 1);
    m.insert("b".to_string(), 2);
    let mut o: StringMap<u32> = StringMap::new();
    o.insert("b".to_string(), 20);
    o.insert("c".to_string(), 30);
    m.extend(o);
    assert_eq!(m.len(), 3);
    assert_eq!(m.get("a"), Some(&1));
    assert_eq!(m.get("b"), Some(&20));
    assert_eq!(m.get("c"), Some(&30));
    assert_eq!(m.sorted_keys(), strings(&["a", "b", "c"]));
}

#[test]
fn ordering_and_sorting() {
    assert!(str_lt("a", "b"));
    assert!(str_lt("ab", "abc"));
    assert!(!str_lt("abc", "ab"));
    assert!(!str_lt("x", "x"));
    assert!(str_lt("Z", "a"));
    assert!(str_lt("z", "é"));
    let sorted = sort_strings(strings(&["pear", "apple", "Zoo", "app", "éclair"]));
    assert_eq!(sorted, strings(&["Zoo", "app", "apple", "pear", "éclair"]));
    let mut std_sorted = strings(&["pear", "apple", "Zoo", "app", "éclair"]);
    std_sorted.sort();
    assert_eq!(sorted, std_sorted);
}

struct Echo;

impl ContextFunction for Echo {
    fn outcome(
        &self,
        _ctx: ExecutionContext<Self>,
        _args: Seq<String>,
        r: Result<String, ContextError>,
    ) -> bool {
        r.is_ok()
    }

    fn call(&self, ctx: &ExecutionContext<Self>, args: Vec<String>) -> Result<String, ContextError> {
        let prefix = ctx.get_var("prefix")?;
        Ok(format!("{}{}", prefix, args.join(",")))
    }
}

#[test]
fn execution_context_vars_and_functions() {
    let mut ctx: ExecutionContext<Echo> = ExecutionContext::new();
    assert_eq!(ctx.get_var("prefix"), Err(ContextError::VariableNotFound("prefix".to_string())));
    ctx.set_var("prefix".to_string(), "> ".to_string());
    assert_eq!(ctx.get_var("prefix"), Ok("> ".to_string()));
    assert_eq!(
        ctx.execute_func("echo", strings(&["a"])),
        Err(ContextError::FunctionNotRegistered("echo".to_string()))
    );
    ctx.register_func("echo".to_string(), Echo);
    assert_eq!(ctx.execute_func("echo", strings(&["a", "b"])), Ok("> a,b".to_string()));
}

#[test]
fn store_paths() {
    let s = Store::new("/tmp/data");
    assert_eq!(s.key_path("greeting"), "/tmp/data/greeting");
    assert_eq!(Store::project().data_dir(), ".ofa/data");
    assert_eq!(Store::in_home("/home/u").data_dir(), "/home/u/.ofa/data");
    let _ = TomlStore::new();
}

#[test]
fn project_type_detection() {
    let table = indicators();
    assert_eq!(table.len(), 12);
    assert_eq!(table[3], ("Cargo.toml".to_string(), "rust".to_string()));
    let mut present = vec![false; 12];
    assert_eq!(detect_project_type(&present), None);
    present[4] = true;
    present[9] = true;
    assert_eq!(detect_project_type(&present), Some("node".to_string()));
    present[1] = true;
    assert_eq!(detect_project_type(&present), Some("java".to_string()));
}

#[test]
fn initial_config_names_type() {
    let c: LocalConfig<u32> = initial_local_config(Some("rust".to_string()));
    assert_eq!(c.project_type, Some("rust".to_string()));
    let c: LocalConfig<u32> = initial_local_config(None);
    assert_eq!(c.project_type, Some("unknown".to_string()));
    assert!(c.subtype.is_none() && c.vars.is_empty() && c.commands.is_empty());
}

#[test]
fn lifecycle_always_succeeds() {
    assert_eq!(handle_lifecycle("pre", strings(&["x"])), Ok(()));
}

#[test]
fn app_eval_request() {
    let req = app_request(&strings(&["eval", "echo", "{{ x }}"])).ok().unwrap();
    assert_eq!(req.cmd.cmd, "echo {{ x }}");
    assert!(req.cmd.kind == ExecutionMode::TemplateShell);
    assert!(req.args.is_empty() && !req.dry_run);
    assert_eq!(app_request(&vec![]).err(), Some(AppError::MissingCommand));
    assert_eq!(app_request(&strings(&["other"])).err(), Some(AppError::InvalidCommand));
    assert_eq!(AppError::MissingCommand.message(), "missing command");
    assert_eq!(AppError::InvalidCommand.message(), "Invalid command");
}

fn shell(s: &str) -> Runnable {
    Runnable::Shell(s.to_string())
}

fn runnables(pairs: &[(&str, &str)]) -> StringMap<Runnable> {
    let mut m = StringMap::new();
    for (k, v) in pairs {
        m.insert(k.to_string(), shell(v));
    }
    m
}

fn vars(pairs: &[(&str, u32)]) -> StringMap<u32> {
    let mut m = StringMap::new();
    for (k, v) in pairs {
        m.insert(k.to_string(), *v);
    }
    m
}

fn shell_text(r: Option<&Runnable>) -> &str {
    match r {
        Some(Runnable::Shell(s)) => s,
        _ => panic!("expected shell runnable"),
    }
}

#[test]
fn project_merge_layers() {
    let mut subs = StringMap::new();
    subs.insert(
        "maven".to_string(),
        TypeDefault { vars: vars(&[("v", 4)]), runnables: runnables(&[]), commands: runnables(&[("build", "mvn package")]) },
    );
    let mut types = StringMap::new();
    types.insert(
        "java".to_string(),
        TypeConfig {
            vars: vars(&[("v", 2), ("t", 2)]),
            runnables: runnables(&[("r", "type")]),
            default: Some(TypeDefault {
                vars: vars(&[("v", 3)]),
                runnables: runnables(&[]),
                commands: runnables(&[("build", "javac"), ("test", "junit")]),
            }),
            subtypes: Some(subs),
        },
    );
    let global = GlobalConfig { vars: vars(&[("v", 1), ("g", 1)]), runnables: runnables(&[("r", "global")]), types };
    let local = LocalConfig {
        project_type: Some("java".to_string()),
        subtype: Some("maven".to_string()),
        vars: vars(&[("l", 5)]),
        runnables: runnables(&[]),
        commands: runnables(&[("test", "mvn test")]),
        lifecycle: runnables(&[("pre", "echo pre")]),
    };
    let r = merge(local, global);
    assert_eq!(r.vars.get("v"), Some(&4));
    assert_eq!(r.vars.get("g"), Some(&1));
    assert_eq!(r.vars.get("t"), Some(&2));
    assert_eq!(r.vars.get("l"), Some(&5));
    assert_eq!(shell_text(r.runnables.get("r")), "type");
    assert_eq!(shell_text(r.commands.get("build")), "mvn package");
    assert_eq!(shell_text(r.commands.get("test")), "mvn test");
    assert_eq!(shell_text(r.lifecycle.get("pre")), "echo pre");
}

#[test]
fn project_merge_unknown_type() {
    let global = GlobalConfig { vars: vars(&[("v", 1)]), runnables: runnables(&[]), types: StringMap::new() };
    let local = LocalConfig {
        project_type: Some("go".to_string()),
        subtype: None,
        vars: vars(&[("v", 9)]),
        runnables: runnables(&[]),
        commands: runnables(&[("run", "go run .")]),
        lifecycle: runnables(&[]),
    };
    let r = merge(local, global);
    assert_eq!(r.vars.get("v"), Some(&9));
    assert_eq!(r.commands.len(), 1);
}

#[test]
fn function_model_holds_fields() {
    let f = Function { run: "echo".to_string(), params: strings(&["x"]), defaults: StringMap::new(), allow_trailing_args: false };
    assert_eq!(f.params.len(), 1);
}

#[test]
fn context_error_messages() {
    assert_eq!(ContextError::VariableNotFound("x".to_string()).message(), "Variable 'x' not found");
    assert_eq!(ContextError::FunctionNotRegistered("f".to_string()).message(), "Function 'f' not registered");
    assert_eq!(ContextError::Failed("boom".to_string()).message(), "boom");
}

#[test]
fn help_text_lists_context_and_sorted_commands() {
    let mut cmds = StringMap::new();
    cmds.insert("test".to_string(), Command::new(ExecutionMode::Shell, "cargo test".to_string()));
    cmds.insert("build".to_string(), Command::new(ExecutionMode::TemplateShell, "cargo build".to_string()));
    let out = help_text(&Some("java".to_string()), "\"/c/ofa\"", &Some("/p/.ofa.toml".to_string()), &cmds);
    let h0 = "\x1b[1m\x1b[4m";
    let c0 = "\x1b[1m";
    let r = "\x1b[0m";
    let expected = format!(
        "{h0}Context:{r}\n  {c0}Profile:  {r} java\n  {c0}Config dir:{r} \"/c/ofa\"\n  {c0}Config:   {r} /p/.ofa.toml\n\n{h0}Commands:{r}\n  {c0}build{r} [template_shell]\n  {c0}test{r} [shell]\n{c0}app{r}       [builtin] -- application level commands\n"
    );
    assert_eq!(out, expected);
    let empty = help_text(&None, "d", &None, &StringMap::new());
    assert!(empty.contains(&format!("  {c0}Profile:  {r} <none>\n")));
    assert!(empty.contains(&format!("  {c0}(no commands configured){r}\n")));
    assert!(!empty.contains("Config:"));
}

#[test]
fn env_value_prefers_config() {
    let mut env = StringMap::new();
    env.insert("A".to_string(), "cfg".to_string());
    assert_eq!(env_value("A", &env, Some("proc".to_string())), "cfg");
    assert_eq!(env_value("B", &env, Some("proc".to_string())), "proc");
    assert_eq!(env_value("B", &env, None), "");
}

#[test]
fn namespace_values_fall_back_to_global() {
    let mut ns = StringMap::new();
    ns.insert("k".to_string(), "ns".to_string());
    let mut global = StringMap::new();
    global.insert("k".to_string(), "g".to_string());
    global.insert("only_global".to_string(), "g2".to_string());
    let r = namespace_values(ns, global);
    assert_eq!(r.get("k").unwrap(), "ns");
    assert_eq!(r.get("only_global").unwrap(), "g2");
    assert_eq!(r.len(), 2);
}

struct Sum;

impl ofa::context::registry::RegistryFunction<i64> for Sum {
    fn outcome(&self, _args: Seq<i64>, _r: Result<i64, String>) -> bool {
        true
    }

    fn call(&self, args: &[i64]) -> Result<i64, String> {
        if args.is_empty() {
            Err("no arguments".to_string())
        } else {
            Ok(args.iter().sum())
        }
    }
}

#[test]
fn function_registry_calls_by_name() {
    let mut reg: FunctionRegistry<Sum> = FunctionRegistry::new();
    assert_eq!(
        reg.execute_func("sum", &[1i64, 2]),
        Err(RegistryError::UnknownFunction("sum".to_string()))
    );
    reg.register_func("sum".to_string(), Sum);
    assert_eq!(reg.execute_func("sum", &[1i64, 2, 3]), Ok(6));
    assert_eq!(reg.execute_func::<i64>("sum", &[]), Err(RegistryError::Failed("no arguments".to_string())));
    assert_eq!(RegistryError::UnknownFunction("f".to_string()).message(), "Unknown function 'f'");
}

#[test]
fn profile_file_takes_first_existing() {
    assert_eq!(profile_file("w", "/c", true, true), Some("/c/profiles/w.toml".to_string()));
    assert_eq!(profile_file("w", "/c", false, true), Some("/c/store/profiles/w.toml".to_string()));
    assert_eq!(profile_file("w", "/c", false, false), None);
}
