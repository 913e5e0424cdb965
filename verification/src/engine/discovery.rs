//! Listings of configured commands.
use vstd::prelude::*;
use crate::models::command::{Command, ExecutionMode};
use crate::order::strictly_sorted;
use crate::strmap::StringMap;
use crate::text::{chars_of, concat, push_char};

verus! {

broadcast use vstd::string::group_string_axioms;

/// The label that shows how a command runs.
pub open spec fn type_label(kind: ExecutionMode) -> Seq<char> {
    match kind {
        ExecutionMode::Shell => "[shell]"@,
        ExecutionMode::TemplateShell => "[template_shell]"@,
    }
}

/// `s` padded with spaces on the right to at least `width` characters.
pub open spec fn pad_right(s: Seq<char>, width: nat) -> Seq<char> {
    if s.len() >= width {
        s
    } else {
        s + Seq::new((width - s.len()) as nat, |i: int| ' ')
    }
}

/// The listing line of the command `cmd` named `key`.
pub open spec fn entry_line(key: Seq<char>, cmd: Command) -> Seq<char> {
    "  "@ + pad_right(key, 10) + " "@ + type_label(cmd.kind) + "\n"@
}

/// The listing lines of the commands named `keys`, in that order.
pub open spec fn entry_lines(keys: Seq<Seq<char>>, cmds: Map<Seq<char>, Command>) -> Seq<char>
    decreases keys.len(),
{
    if keys.len() == 0 {
        seq![]
    } else {
        entry_lines(keys.drop_last(), cmds) + entry_line(keys.last(), cmds[keys.last()])
    }
}

/// The full listing of the command group `group` whose commands, in the
/// order listed, are named `keys`.
pub open spec fn group_listing(
    group: Seq<char>,
    keys: Seq<Seq<char>>,
    cmds: Map<Seq<char>, Command>,
) -> Seq<char> {
    "'"@ + group + "' is a command group.\n\n"@ + "Commands:\n"@ + (if keys.len() == 0 {
        "  (no commands configured)\n"@
    } else {
        entry_lines(keys, cmds)
    }) + "\nUsage: ofa "@ + group + " <command> [args...]\n"@ + "\nRun 'ofa "@ + group
        + " <command> --help' for command-specific help.\n"@
}

/// The label that shows how `cmd` runs: `[shell]` or `[template_shell]`.
pub fn format_cmd_type(cmd: &Command) -> (s: String)
    ensures
        s@ == type_label(cmd.kind),
{
    match cmd.kind {
        ExecutionMode::Shell => "[shell]".to_string(),
        ExecutionMode::TemplateShell => "[template_shell]".to_string(),
    }
}

/// `s` padded with spaces on the right to at least `width` characters.
pub fn pad(s: &str, width: usize) -> (r: String)
    ensures
        r@ == pad_right(s@, width as nat),
{
    let n = chars_of(s).len();
    let mut r = s.to_string();
    let mut k = n;
    while k < width
        invariant
            n == s@.len(),
            n <= k || width <= n,
            k >= n,
            k <= width || width <= n,
            width <= n ==> k == n,
            r@ == s@ + Seq::new((k - n) as nat, |i: int| ' '),
        decreases width - k,
    {
        push_char(&mut r, ' ');
        proof {
            assert(r@ =~= s@ + Seq::new((k + 1 - n) as nat, |i: int| ' '));
        }
        k += 1;
    }
    proof {
        if n >= width {
            assert(Seq::new((k - n) as nat, |i: int| ' ') =~= Seq::<char>::empty());
            assert(r@ =~= s@);
        }
    }
    r
}

/// The listing line of the command `cmd` named `key`.
pub fn format_entry(key: &str, cmd: &Command) -> (r: String)
    ensures
        r@ == entry_line(key@, *cmd),
{
    let a = concat("  ", pad(key, 10).as_str());
    let b = concat(a.as_str(), " ");
    let c = concat(b.as_str(), format_cmd_type(cmd).as_str());
    concat(c.as_str(), "\n")
}

/// The listing lines of the commands named `keys`, in that order.
pub fn format_entries(keys: &Vec<String>, cmds: &StringMap<Command>) -> (r: String)
    requires
        forall|i: int| 0 <= i < keys@.len() ==> cmds@.contains_key(#[trigger] keys@[i]@),
    ensures
        r@ == entry_lines(keys@.map_values(|s: String| s@), cmds@),
{
    let ghost ks = keys@.map_values(|s: String| s@);
    let mut r = String::new();
    let mut i: usize = 0;
    while i < keys.len()
        invariant
            i <= keys@.len(),
            ks == keys@.map_values(|s: String| s@),
            forall|j: int| 0 <= j < keys@.len() ==> cmds@.contains_key(#[trigger] keys@[j]@),
            r@ == entry_lines(ks.take(i as int), cmds@),
        decreases keys@.len() - i,
    {
        let k = &keys[i];
        proof {
            assert(cmds@.contains_key(keys@[i as int]@));
        }
        match cmds.get(k.as_str()) {
            Some(cmd) => {
                r.append(format_entry(k.as_str(), cmd).as_str());
            },
            None => {},
        }
        proof {
            assert(ks.take(i + 1).drop_last() =~= ks.take(i as int));
            assert(ks.take(i + 1).last() == k@);
        }
        i += 1;
    }
    proof {
        assert(ks.take(i as int) =~= ks);
    }
    r
}

/// The listing shown when `group_path` names a group of commands rather
/// than a command: its commands in sorted order with how each runs, then
/// how to use the group.
pub fn list_group_subcommands(group_path: &str, children: &StringMap<Command>) -> (r: String)
    ensures
        exists|keys: Seq<Seq<char>>|
            strictly_sorted(keys) && keys.to_set() == children@.dom() && r@ == group_listing(
                group_path@,
                keys,
                children@,
            ),
{
    let keys = children.sorted_keys();
    let ghost ks = keys@.map_values(|s: String| s@);
    proof {
        assert forall|i: int| 0 <= i < keys@.len() implies children@.contains_key(
            #[trigger] keys@[i]@,
        ) by {
            assert(ks[i] == keys@[i]@);
            assert(ks.to_set().contains(ks[i]));
        }
    }
    let mut out = concat("'", group_path);
    out.append("' is a command group.\n\n");
    out.append("Commands:\n");
    if keys.len() == 0 {
        out.append("  (no commands configured)\n");
    } else {
        out.append(format_entries(&keys, children).as_str());
    }
    out.append("\nUsage: ofa ");
    out.append(group_path);
    out.append(" <command> [args...]\n");
    out.append("\nRun 'ofa ");
    out.append(group_path);
    out.append(" <command> --help' for command-specific help.\n");
    proof {
        assert(ks.len() == keys@.len());
        assert(out@ =~= group_listing(group_path@, ks, children@));
    }
    out
}

} // verus!
