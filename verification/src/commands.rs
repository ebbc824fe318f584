//! The demo console's command table: each command with its aliases and
//! positional arguments, as plain data. The host turns this into whatever
//! its argument parser wants and feeds the names to completion.

use vstd::prelude::*;

verus! {

/// One positional argument of a command.
pub struct ArgInfo {
    pub name: String,
    pub required: bool,
}

/// Ghost image of an argument.
#[verifier::ext_equal]
pub ghost struct ArgModel {
    pub name: Seq<char>,
    pub required: bool,
}

impl View for ArgInfo {
    type V = ArgModel;

    open spec fn view(&self) -> ArgModel {
        ArgModel { name: self.name@, required: self.required }
    }
}

/// One command: its name, its visible aliases, its arguments in order.
pub struct CommandInfo {
    pub name: String,
    pub aliases: Vec<String>,
    pub args: Vec<ArgInfo>,
}

/// Ghost image of a command.
#[verifier::ext_equal]
pub ghost struct CommandModel {
    pub name: Seq<char>,
    pub aliases: Seq<Seq<char>>,
    pub args: Seq<ArgModel>,
}

impl View for CommandInfo {
    type V = CommandModel;

    open spec fn view(&self) -> CommandModel {
        CommandModel {
            name: self.name@,
            aliases: self.aliases@.map_values(|s: String| s@),
            args: self.args@.map_values(|a: ArgInfo| a@),
        }
    }
}

/// The ghost images of a command table.
pub open spec fn cmd_views(v: Seq<CommandInfo>) -> Seq<CommandModel> {
    v.map_values(|c: CommandInfo| c@)
}

pub open spec fn arg_model(name: Seq<char>, required: bool) -> ArgModel {
    ArgModel { name, required }
}

pub open spec fn cmd_model(
    name: Seq<char>,
    aliases: Seq<Seq<char>>,
    args: Seq<ArgModel>,
) -> CommandModel {
    CommandModel { name, aliases, args }
}

/// The full table `syntax` returns, in order.
pub open spec fn syntax_spec() -> Seq<CommandModel> {
    seq![
        cmd_model("quit"@, seq!["exit"@, "q"@], Seq::empty()),
        cmd_model("dir"@, Seq::empty(), seq![arg_model("filter"@, false)]),
        cmd_model("dark"@, Seq::empty(), Seq::empty()),
        cmd_model("light"@, Seq::empty(), Seq::empty()),
        cmd_model("clear_screen"@, seq!["cls"@], Seq::empty()),
        cmd_model("history"@, Seq::empty(), Seq::empty()),
        cmd_model("clear_history"@, seq!["clh"@], Seq::empty()),
        cmd_model("cd"@, Seq::empty(), seq![arg_model("directory"@, true)]),
    ]
}

/// A command with no aliases and no arguments yet.
fn cmd(name: &str) -> (r: CommandInfo)
    ensures
        r@.name == name@,
        r@.aliases =~= Seq::<Seq<char>>::empty(),
        r@.args =~= Seq::<ArgModel>::empty(),
{
    let r = CommandInfo { name: name.to_owned(), aliases: Vec::new(), args: Vec::new() };
    proof {
        assert(r@.aliases =~= Seq::<Seq<char>>::empty());
        assert(r@.args =~= Seq::<ArgModel>::empty());
    }
    r
}

fn push_alias(c: &mut CommandInfo, alias: &str)
    ensures
        final(c)@.name == old(c)@.name,
        final(c)@.aliases =~= old(c)@.aliases.push(alias@),
        final(c)@.args =~= old(c)@.args,
{
    c.aliases.push(alias.to_owned());
    proof {
        assert(c@.aliases =~= old(c)@.aliases.push(alias@));
        assert(c@.args =~= old(c)@.args);
    }
}

fn push_arg(c: &mut CommandInfo, name: &str, required: bool)
    ensures
        final(c)@.name == old(c)@.name,
        final(c)@.aliases =~= old(c)@.aliases,
        final(c)@.args =~= old(c)@.args.push(arg_model(name@, required)),
{
    c.args.push(ArgInfo { name: name.to_owned(), required });
    proof {
        assert(c@.args =~= old(c)@.args.push(arg_model(name@, required)));
        assert(c@.aliases =~= old(c)@.aliases);
    }
}

/// The command syntax definitions: exactly the table of `syntax_spec`, in
/// its order.
pub fn syntax() -> (r: Vec<CommandInfo>)
    ensures
        cmd_views(r@) =~~= syntax_spec(),
{
    let mut r: Vec<CommandInfo> = Vec::new();
    let mut quit = cmd("quit");
    push_alias(&mut quit, "exit");
    push_alias(&mut quit, "q");
    r.push(quit);
    let mut dir = cmd("dir");
    push_arg(&mut dir, "filter", false);
    r.push(dir);
    r.push(cmd("dark"));
    r.push(cmd("light"));
    let mut cls = cmd("clear_screen");
    push_alias(&mut cls, "cls");
    r.push(cls);
    r.push(cmd("history"));
    let mut clh = cmd("clear_history");
    push_alias(&mut clh, "clh");
    r.push(clh);
    let mut cd = cmd("cd");
    push_arg(&mut cd, "directory", true);
    r.push(cd);
    proof {
        assert(cmd_views(r@) =~~= syntax_spec());
    }
    r
}

} // verus!
