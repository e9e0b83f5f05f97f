//! The command registry: the fixed table of chat commands and lookup by
//! name or alias.
//!
//! The registry is built fresh by [`get_or_init_commands`]; a lookup walks
//! the table in registration order and yields the first command whose name
//! or alias matches.

use vstd::prelude::*;

verus! {

/// What the dispatcher knows of one command.
pub struct CommandMetadata {
    pub name: String,
    pub aliases: Vec<String>,
}

/// The registered commands, in registration order.
pub struct CommandRegistry {
    commands: Vec<CommandMetadata>,
}

/// The command answers to this name directly or through an alias.
pub open spec fn cmd_matches(meta: CommandMetadata, name: Seq<char>) -> bool {
    meta.name@ == name || exists|k: int|
        0 <= k < meta.aliases@.len() && (#[trigger] meta.aliases@[k])@ == name
}

/// The first index at or after `i` whose command answers to `name`; the
/// table length when none does.
pub open spec fn find_from(cmds: Seq<CommandMetadata>, name: Seq<char>, i: int) -> int
    decreases cmds.len() - i,
{
    if i >= cmds.len() {
        cmds.len() as int
    } else if cmd_matches(cmds[i], name) {
        i
    } else {
        find_from(cmds, name, i + 1)
    }
}

impl CommandRegistry {
    /// The table, in registration order.
    pub closed spec fn entries(self) -> Seq<CommandMetadata> {
        self.commands@
    }

    /// A registry over the given commands, in the given order.
    pub fn from_commands(commands: Vec<CommandMetadata>) -> (r: CommandRegistry)
        ensures
            r.entries() == commands@,
    {
        CommandRegistry { commands }
    }
}

/// The names of the built-in commands, in registration order.
pub open spec fn default_command_names() -> Seq<Seq<char>> {
    seq![
        "enlarge"@,
        "help"@,
        "ping"@,
        "remind"@,
        "stats"@,
        "tag"@,
        "url"@,
        "burntext"@,
        "download"@,
        "r34"@,
        "ahshit"@,
        "aprilfools"@,
        "bloom"@,
        "blur"@,
        "caption"@,
        "resize"@,
    ]
}

fn reg(name: &str) -> (m: CommandMetadata)
    ensures
        m.name@ == name@,
        m.aliases@.len() == 0,
{
    CommandMetadata { name: name.to_owned(), aliases: Vec::new() }
}

/// Builds the registry of built-in commands.
pub fn get_or_init_commands() -> (r: CommandRegistry)
    ensures
        r.entries().map_values(|m: CommandMetadata| m.name@) == default_command_names(),
        forall|j: int| 0 <= j < r.entries().len() ==> (#[trigger] r.entries()[j]).aliases@.len()
            == 0,
{
    let mut commands: Vec<CommandMetadata> = Vec::new();
    commands.push(reg("enlarge"));
    commands.push(reg("help"));
    commands.push(reg("ping"));
    commands.push(reg("remind"));
    commands.push(reg("stats"));
    commands.push(reg("tag"));
    commands.push(reg("url"));
    commands.push(reg("burntext"));
    commands.push(reg("download"));
    commands.push(reg("r34"));
    commands.push(reg("ahshit"));
    commands.push(reg("aprilfools"));
    commands.push(reg("bloom"));
    commands.push(reg("blur"));
    commands.push(reg("caption"));
    commands.push(reg("resize"));
    let r = CommandRegistry { commands };
    proof {
        assert(r.entries().map_values(|m: CommandMetadata| m.name@) =~= default_command_names());
    }
    r
}

/// Whether one command answers to `name`.
fn matches_meta(meta: &CommandMetadata, name: &String) -> (r: bool)
    ensures
        r == cmd_matches(*meta, name@),
{
    if meta.name == *name {
        return true;
    }
    let n = meta.aliases.len();
    let mut k: usize = 0;
    while k < n
        invariant
            n == meta.aliases@.len(),
            k <= n,
            forall|q: int| 0 <= q < k ==> (#[trigger] meta.aliases@[q])@ != name@,
        decreases n - k,
    {
        if meta.aliases[k] == *name {
            return true;
        }
        k += 1;
    }
    false
}

/// Finds a command by its name or one of its aliases: the first match in
/// registration order, if any.
#[verifier::loop_isolation(false)]
pub fn find_command_by_name<'a>(registry: &'a CommandRegistry, name: &String) -> (r: Option<
    &'a CommandMetadata,
>)
    ensures
        r is Some <==> find_from(registry.entries(), name@, 0) < registry.entries().len(),
        r is Some ==> *r->0 == registry.entries()[find_from(registry.entries(), name@, 0)],
{
    let ghost cmds = registry.commands@;
    let n = registry.commands.len();
    let mut j: usize = 0;
    while j < n
        invariant
            0 <= j <= n,
            find_from(cmds, name@, 0) == find_from(cmds, name@, j as int),
        decreases n - j,
    {
        if matches_meta(&registry.commands[j], name) {
            proof {
                assert(find_from(cmds, name@, j as int) == j as int);
            }
            return Some(&registry.commands[j]);
        }
        j += 1;
    }
    None
}

} // verus!
