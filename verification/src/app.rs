//! Built-in application commands, run as `ofa app <command> ...`.
use vstd::prelude::*;
use clap::builder::styling::{Effects, Style};
use crate::config::opt_view;
use crate::engine::discovery::{self, pad, pad_right, type_label};
use crate::models::command::{Command, ExecutionMode};
use crate::models::request::ExecutionRequest;
use crate::order::strictly_sorted;
use crate::strmap::StringMap;
use crate::text::{concat, join, seq_join};

verus! {

broadcast use vstd::string::group_string_axioms;

/// Why an application command was refused.
#[derive(Debug, Clone, Copy, PartialEq, Eq, Structural)]
pub enum AppError {
    /// No command was given.
    MissingCommand,
    /// The command is not one the application knows.
    InvalidCommand,
}

impl AppError {
    /// The human-readable description of the error.
    pub fn message(&self) -> (m: String)
        ensures
            *self == AppError::MissingCommand ==> m@ == "missing command"@,
            *self == AppError::InvalidCommand ==> m@ == "Invalid command"@,
    {
        match self {
            AppError::MissingCommand => "missing command".to_string(),
            AppError::InvalidCommand => "Invalid command".to_string(),
        }
    }
}

/// The label that shows how `cmd` runs: `[shell]` or `[template_shell]`.
pub fn format_cmd_type(cmd: &Command) -> (s: String)
    ensures
        s@ == type_label(cmd.kind),
{
    discovery::format_cmd_type(cmd)
}

/// The request that `ofa app <args>` runs. `eval` runs the rest of the
/// arguments, joined with spaces, as a template command; anything else is
/// refused.
pub fn app_request(args: &Vec<String>) -> (r: Result<ExecutionRequest, AppError>)
    ensures
        args@.len() == 0 ==> r == Err::<ExecutionRequest, AppError>(AppError::MissingCommand),
        args@.len() > 0 && args@[0]@ != "eval"@ ==> r == Err::<ExecutionRequest, AppError>(
            AppError::InvalidCommand,
        ),
        args@.len() > 0 && args@[0]@ == "eval"@ ==> (r matches Ok(req) && {
            &&& req.cmd.kind == ExecutionMode::TemplateShell
            &&& req.cmd.cmd@ == seq_join(args@.skip(1).map_values(|s: String| s@), " "@)
            &&& req.cmd.params@.len() == 0
            &&& req.cmd.defaults@.dom().len() == 0
            &&& !req.cmd.allow_trailing_args
            &&& req.args@.len() == 0
            &&& req.name@ == "eval"@
            &&& !req.dry_run && !req.verbose && !req.interpolate
        }),
{
    if args.len() == 0 {
        return Err(AppError::MissingCommand);
    }
    let eval = "eval".to_string();
    if args[0] != eval {
        return Err(AppError::InvalidCommand);
    }
    let mut rest: Vec<String> = Vec::new();
    let mut i: usize = 1;
    while i < args.len()
        invariant
            1 <= i <= args@.len(),
            rest@ == args@.subrange(1, i as int),
        decreases args@.len() - i,
    {
        rest.push(args[i].clone());
        proof {
            assert(args@.subrange(1, i + 1) =~= args@.subrange(1, i as int).push(args@[i as int]));
        }
        i += 1;
    }
    proof {
        assert(args@.subrange(1, i as int) =~= args@.skip(1));
    }
    let script = join(&rest, " ");
    let cmd = Command::new(ExecutionMode::TemplateShell, script);
    proof {
        assert(cmd.defaults@.dom() =~= Set::<Seq<char>>::empty());
    }
    Ok(ExecutionRequest::new(eval, cmd, Vec::new()))
}

/// The terminal escape that turns on bold (if `bold`) and underline (if
/// `underline`), as a `Style` with those effects displays it.
pub open spec fn style_start(bold: bool, underline: bool) -> Seq<char> {
    (if bold {
        "\x1B[1m"@
    } else {
        seq![]
    }) + (if underline {
        "\x1B[4m"@
    } else {
        seq![]
    })
}

/// The terminal escape that ends such a style, as a `Style` displays it
/// with the alternate flag: the reset code, or nothing for a plain style.
pub open spec fn style_end(bold: bool, underline: bool) -> Seq<char> {
    if bold || underline {
        "\x1B[0m"@
    } else {
        seq![]
    }
}

/// The start and end escapes of a text style.
///
/// Trusted: builds clap's (anstyle's) `Style` with the `BOLD` and
/// `UNDERLINE` effects set as asked and formats it with `{}` and `{:#}`.
/// In anstyle's source `{}` writes the escape of each effect in bit order
/// (`ESC[1m` for bold, `ESC[4m` for underline) and `{:#}` writes `ESC[0m`
/// unless the style is plain; the contract says exactly that.
#[verifier::external_body]
fn render_style(bold: bool, underline: bool) -> (r: (String, String))
    ensures
        r.0@ == style_start(bold, underline),
        r.1@ == style_end(bold, underline),
{
    let style = Style::new().effects(
        Effects::new().set(Effects::BOLD, bold).set(Effects::UNDERLINE, underline),
    );
    (format!("{style}"), format!("{style:#}"))
}

/// A labelled line of the help text's context section.
pub open spec fn context_line(label: Seq<char>, value: Seq<char>) -> Seq<char> {
    "  "@ + style_start(true, false) + pad_right(label, 10) + style_end(true, false) + " "@ + value
        + "\n"@
}

/// The help lines of the commands named `keys`, in that order.
pub open spec fn help_entries(keys: Seq<Seq<char>>, cmds: Map<Seq<char>, Command>) -> Seq<char>
    decreases keys.len(),
{
    if keys.len() == 0 {
        seq![]
    } else {
        help_entries(keys.drop_last(), cmds) + "  "@ + style_start(true, false) + keys.last()
            + style_end(true, false) + " "@ + type_label(cmds[keys.last()].kind) + "\n"@
    }
}

/// The help text: the context (profile, configuration directory, local
/// configuration file) and the configured commands in the order `keys`.
pub open spec fn help_listing(
    profile: Option<Seq<char>>,
    config_dir: Seq<char>,
    local_config: Option<Seq<char>>,
    keys: Seq<Seq<char>>,
    cmds: Map<Seq<char>, Command>,
) -> Seq<char> {
    let h0 = style_start(true, true);
    let h1 = style_end(true, true);
    let c0 = style_start(true, false);
    let c1 = style_end(true, false);
    h0 + "Context:"@ + h1 + "\n"@ + context_line(
        "Profile:"@,
        match profile {
            Some(p) => p,
            None => "<none>"@,
        },
    ) + context_line("Config dir:"@, config_dir) + (match local_config {
        Some(l) => context_line("Config:"@, l),
        None => seq![],
    }) + "\n"@ + h0 + "Commands:"@ + h1 + "\n"@ + (if keys.len() == 0 {
        "  "@ + c0 + "(no commands configured)"@ + c1 + "\n"@
    } else {
        help_entries(keys, cmds)
    }) + c0 + "app"@ + c1 + "       [builtin] -- application level commands\n"@
}

fn format_context_line(label: &str, value: &str, c0: &String, c1: &String) -> (r: String)
    requires
        c0@ == style_start(true, false),
        c1@ == style_end(true, false),
    ensures
        r@ == context_line(label@, value@),
{
    let mut out = concat("  ", c0.as_str());
    out.append(pad(label, 10).as_str());
    out.append(c1.as_str());
    out.append(" ");
    out.append(value);
    out.append("\n");
    out
}

fn format_help_entries(keys: &Vec<String>, cmds: &StringMap<Command>, c0: &String, c1: &String) -> (r:
    String)
    requires
        c0@ == style_start(true, false),
        c1@ == style_end(true, false),
        forall|i: int| 0 <= i < keys@.len() ==> cmds@.contains_key(#[trigger] keys@[i]@),
    ensures
        r@ == help_entries(keys@.map_values(|s: String| s@), cmds@),
{
    let ghost ks = keys@.map_values(|s: String| s@);
    let mut r = String::new();
    let mut i: usize = 0;
    while i < keys.len()
        invariant
            i <= keys@.len(),
            ks == keys@.map_values(|s: String| s@),
            c0@ == style_start(true, false),
            c1@ == style_end(true, false),
            forall|j: int| 0 <= j < keys@.len() ==> cmds@.contains_key(#[trigger] keys@[j]@),
            r@ == help_entries(ks.take(i as int), cmds@),
        decreases keys@.len() - i,
    {
        let k = &keys[i];
        proof {
            assert(cmds@.contains_key(keys@[i as int]@));
        }
        match cmds.get(k.as_str()) {
            Some(cmd) => {
                r.append("  ");
                r.append(c0.as_str());
                r.append(k.as_str());
                r.append(c1.as_str());
                r.append(" ");
                r.append(format_cmd_type(cmd).as_str());
                r.append("\n");
            },
            None => {},
        }
        proof {
            assert(ks.take(i + 1).drop_last() =~= ks.take(i as int));
            assert(ks.take(i + 1).last() == k@);
        }
        i += 1;
    }
    proof {
        assert(ks.take(i as int) =~= ks);
    }
    r
}

/// The help text shown after the command-line options: the active profile
/// (or `<none>`), the configuration directory (`config_dir_debug`, as the
/// directory path's debug form), the local configuration file if there is
/// one, and every configured command in sorted order with how it runs,
/// then the built-in `app` command.
pub fn help_text(
    profile: &Option<String>,
    config_dir_debug: &str,
    local_config: &Option<String>,
    commands: &StringMap<Command>,
) -> (r: String)
    ensures
        exists|keys: Seq<Seq<char>>|
            strictly_sorted(keys) && keys.to_set() == commands@.dom() && r@ == help_listing(
                opt_view(*profile),
                config_dir_debug@,
                opt_view(*local_config),
                keys,
                commands@,
            ),
{
    let (h0, h1) = render_style(true, true);
    let (c0, c1) = render_style(true, false);
    let mut out = concat(h0.as_str(), "Context:");
    out.append(h1.as_str());
    out.append("\n");
    match profile {
        Some(p) => {
            out.append(format_context_line("Profile:", p.as_str(), &c0, &c1).as_str());
        },
        None => {
            out.append(format_context_line("Profile:", "<none>", &c0, &c1).as_str());
        },
    }
    out.append(format_context_line("Config dir:", config_dir_debug, &c0, &c1).as_str());
    match local_config {
        Some(l) => {
            out.append(format_context_line("Config:", l.as_str(), &c0, &c1).as_str());
        },
        None => {},
    }
    out.append("\n");
    out.append(h0.as_str());
    out.append("Commands:");
    out.append(h1.as_str());
    out.append("\n");
    let keys = commands.sorted_keys();
    let ghost ks = keys@.map_values(|s: String| s@);
    proof {
        assert forall|i: int| 0 <= i < keys@.len() implies commands@.contains_key(
            #[trigger] keys@[i]@,
        ) by {
            assert(ks[i] == keys@[i]@);
            assert(ks.to_set().contains(ks[i]));
        }
    }
    if keys.len() == 0 {
        out.append("  ");
        out.append(c0.as_str());
        out.append("(no commands configured)");
        out.append(c1.as_str());
        out.append("\n");
    } else {
        out.append(format_help_entries(&keys, commands, &c0, &c1).as_str());
    }
    out.append(c0.as_str());
    out.append("app");
    out.append(c1.as_str());
    out.append("       [builtin] -- application level commands\n");
    proof {
        assert(ks.len() == keys@.len());
        assert(out@ =~= help_listing(
            opt_view(*profile),
            config_dir_debug@,
            opt_view(*local_config),
            ks,
            commands@,
        ));
    }
    out
}

} // verus!
