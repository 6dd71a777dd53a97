//! The table of system commands that the launcher offers.

use vstd::prelude::*;
use vstd::string::*;

verus! {

/// A system command that the launcher can run.
#[derive(Debug, Clone)]
pub struct SystemCommand {
    pub id: String,
    pub name: String,
    pub aliases: Vec<String>,
    pub description: String,
    pub requires_confirmation: bool,
}

/// The abstract value of a [`SystemCommand`].
pub struct CommandView {
    pub id: Seq<char>,
    pub name: Seq<char>,
    pub aliases: Seq<Seq<char>>,
    pub description: Seq<char>,
    pub requires_confirmation: bool,
}

/// The views of a sequence of strings.
pub open spec fn string_views(s: Seq<String>) -> Seq<Seq<char>> {
    s.map_values(|x: String| x@)
}

impl View for SystemCommand {
    type V = CommandView;

    open spec fn view(&self) -> CommandView {
        CommandView {
            id: self.id@,
            name: self.name@,
            aliases: string_views(self.aliases@),
            description: self.description@,
            requires_confirmation: self.requires_confirmation,
        }
    }
}

/// The views of a sequence of commands.
pub open spec fn command_views(s: Seq<SystemCommand>) -> Seq<CommandView> {
    s.map_values(|c: SystemCommand| c@)
}

pub open spec fn command_view(id: &str, name: &str, aliases: Seq<&str>, description: &str, confirm: bool) -> CommandView {
    CommandView {
        id: id@,
        name: name@,
        aliases: aliases.map_values(|a: &str| a@),
        description: description@,
        requires_confirmation: confirm,
    }
}

/// The commands on offer, in the order the launcher lists them.
pub open spec fn command_table() -> Seq<CommandView> {
    seq![
        command_view("cmd:lock", "Lock", seq!["lock", "lockscreen"], "Lock the screen", false),
        command_view("cmd:sleep", "Sleep", seq!["sleep"], "Put computer to sleep", false),
        command_view("cmd:restart", "Restart", seq!["restart", "reboot"], "Restart the computer", true),
        command_view("cmd:shutdown", "Shutdown", seq!["shutdown", "poweroff"], "Shut down the computer", true),
        command_view("cmd:logout", "Log Out", seq!["logout", "signout"], "Log out current user", true),
        command_view("cmd:emptytrash", "Empty Trash", seq!["emptytrash", "trash"], "Empty the trash/recycle bin", true),
        command_view("cmd:mute", "Mute", seq!["mute"], "Mute system audio", false),
        command_view("cmd:unmute", "Unmute", seq!["unmute"], "Unmute system audio", false),
    ]
}

/// Owned copies of string slices, in order.
pub fn to_strings(items: &[&str]) -> (r: Vec<String>)
    ensures
        string_views(r@) == items@.map_values(|a: &str| a@),
{
    let mut out: Vec<String> = Vec::new();
    let mut i: usize = 0;
    while i < items.len()
        invariant
            i <= items@.len(),
            string_views(out@) == items@.take(i as int).map_values(|a: &str| a@),
        decreases items@.len() - i,
    {
        let ghost before = string_views(out@);
        out.push(String::from_str(items[i]));
        proof {
            assert(string_views(out@) =~= before.push(items@[i as int]@));
            assert(items@.take(i as int + 1).map_values(|a: &str| a@)
                =~= items@.take(i as int).map_values(|a: &str| a@).push(items@[i as int]@));
        }
        i = i + 1;
    }
    proof {
        assert(items@.take(i as int) =~= items@);
    }
    out
}

fn command(id: &str, name: &str, aliases: &[&str], description: &str, confirm: bool) -> (r: SystemCommand)
    ensures
        r@ == command_view(id, name, aliases@, description, confirm),
{
    SystemCommand {
        id: String::from_str(id),
        name: String::from_str(name),
        aliases: to_strings(aliases),
        description: String::from_str(description),
        requires_confirmation: confirm,
    }
}

/// The system commands on offer.
pub fn get_system_commands() -> (r: Vec<SystemCommand>)
    ensures
        command_views(r@) == command_table(),
{
    let mut v: Vec<SystemCommand> = Vec::new();
    let c0 = command("cmd:lock", "Lock", &["lock", "lockscreen"], "Lock the screen", false);
    let c1 = command("cmd:sleep", "Sleep", &["sleep"], "Put computer to sleep", false);
    let c2 = command("cmd:restart", "Restart", &["restart", "reboot"], "Restart the computer", true);
    let c3 = command("cmd:shutdown", "Shutdown", &["shutdown", "poweroff"], "Shut down the computer", true);
    let c4 = command("cmd:logout", "Log Out", &["logout", "signout"], "Log out current user", true);
    let c5 = command("cmd:emptytrash", "Empty Trash", &["emptytrash", "trash"], "Empty the trash/recycle bin", true);
    let c6 = command("cmd:mute", "Mute", &["mute"], "Mute system audio", false);
    let c7 = command("cmd:unmute", "Unmute", &["unmute"], "Unmute system audio", false);
    v.push(c0);
    v.push(c1);
    v.push(c2);
    v.push(c3);
    v.push(c4);
    v.push(c5);
    v.push(c6);
    v.push(c7);
    proof {
        assert(c0@.aliases =~= command_table()[0].aliases);
        assert(v@[0]@ == command_table()[0]);
        assert(c1@.aliases =~= command_table()[1].aliases);
        assert(v@[1]@ == command_table()[1]);
        assert(c2@.aliases =~= command_table()[2].aliases);
        assert(v@[2]@ == command_table()[2]);
        assert(c3@.aliases =~= command_table()[3].aliases);
        assert(v@[3]@ == command_table()[3]);
        assert(c4@.aliases =~= command_table()[4].aliases);
        assert(v@[4]@ == command_table()[4]);
        assert(c5@.aliases =~= command_table()[5].aliases);
        assert(v@[5]@ == command_table()[5]);
        assert(c6@.aliases =~= command_table()[6].aliases);
        assert(v@[6]@ == command_table()[6]);
        assert(c7@.aliases =~= command_table()[7].aliases);
        assert(v@[7]@ == command_table()[7]);
        assert(command_views(v@) =~= command_table());
    }
    v
}

/// Runs a system command where the platform has none: always an error that
/// names the command.
pub fn execute_command(command_id: &str) -> (r: Result<(), String>)
    ensures
        r.is_err(),
        r.is_err() ==> r->Err_0@ == "System commands not supported on this platform: "@ + command_id@,
{
    let mut msg = String::from_str("System commands not supported on this platform: ");
    msg.append(command_id);
    Err(msg)
}

} // verus!
