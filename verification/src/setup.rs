//! The first setup of a node: what each step says, and whether it changes
//! anything.

use crate::text;
use vstd::prelude::*;
use vstd::string::*;

verus! {

/// The label of the daemon.
pub open spec fn daemon_label() -> Seq<char> {
    "com.asmi.daemon"@
}

/// A step of the setup: the line that tells it, and whether it is carried out.
pub struct SetupStep {
    pub line: String,
    pub act: bool,
}

/// A step of the setup, with its text.
pub struct SetupView {
    pub line: Seq<char>,
    pub act: bool,
}

impl DeepView for SetupStep {
    type V = SetupView;

    open spec fn deep_view(&self) -> SetupView {
        SetupView { line: self.line@, act: self.act }
    }
}

/// The line that tells a step.
pub open spec fn step_line(name: Seq<char>, message: Seq<char>) -> Seq<char> {
    "["@ + text::right_aligned(name, 8) + "] "@ + message
}

/// The line that tells a step.
pub fn step(name: &str, message: &str) -> (r: String)
    ensures
        r@ == step_line(name@, message@),
{
    let mut s: String = text::glue("[", &text::align_right(name, 8));
    s.append("] ");
    s.append(message);
    s
}

/// A step that needs a change, unless it is only tried out.
pub open spec fn change(name: Seq<char>, message: Seq<char>, dry_run: bool) -> SetupView {
    SetupView { line: step_line(name, message), act: !dry_run }
}

/// A step that needs no change.
pub open spec fn rest(name: Seq<char>, message: Seq<char>) -> SetupView {
    SetupView { line: step_line(name, message), act: false }
}

/// A step that needs a change, unless it is only tried out.
fn make_change(name: &str, message: &str, dry_run: bool) -> (r: SetupStep)
    ensures
        r.deep_view() == change(name@, message@, dry_run),
{
    SetupStep { line: step(name, message), act: !dry_run }
}

/// A step that needs no change.
fn make_rest(name: &str, message: &str) -> (r: SetupStep)
    ensures
        r.deep_view() == rest(name@, message@),
{
    SetupStep { line: step(name, message), act: false }
}

// ---------------------------------------------------------------------------
// The bridge
// ---------------------------------------------------------------------------

/// The step for the bridge with those members.
pub open spec fn bridge_view(members: Seq<Seq<char>>, skip: bool, dry_run: bool) -> SetupView {
    if members.len() == 0 {
        rest("bridge0"@, "No Thunderbolt Bridge detected — skipping"@)
    } else if skip {
        rest(
            "bridge0"@,
            "Thunderbolt Bridge found (members: "@ + text::joined(members, ", "@)
                + "), but --skip-bridge0 set"@,
        )
    } else {
        change(
            "bridge0"@,
            "Destroying Thunderbolt Bridge (freeing "@ + text::joined(members, ", "@) + ")"@,
            dry_run,
        )
    }
}

/// The step for the bridge with those members.
pub fn bridge_step(members: &Vec<String>, skip: bool, dry_run: bool) -> (r: SetupStep)
    ensures
        r.deep_view() == bridge_view(members.deep_view(), skip, dry_run),
{
    assert(members.deep_view().len() == members@.len());
    if members.len() == 0 {
        return make_rest("bridge0", "No Thunderbolt Bridge detected — skipping");
    }
    let names: String = text::join(members, ", ");
    if skip {
        let mut m: String = text::glue("Thunderbolt Bridge found (members: ", &names);
        m.append("), but --skip-bridge0 set");
        make_rest("bridge0", &m)
    } else {
        let mut m: String = text::glue("Destroying Thunderbolt Bridge (freeing ", &names);
        m.append(")");
        make_change("bridge0", &m, dry_run)
    }
}

/// What is said when the bridge could not be taken from the settings: nothing
/// where it was not there.
pub fn removal_warning(succeeded: bool, stderr: &str) -> (r: Option<String>)
    ensures
        r.deep_view() == (if !succeeded && !text::has(stderr@, "Does Not Exist"@) {
            Some("  ⚠ PlistBuddy warning: "@ + text::trimmed(stderr@))
        } else {
            None
        }),
{
    if !succeeded && !text::contains(stderr, "Does Not Exist") {
        Some(text::glue("  ⚠ PlistBuddy warning: ", &text::trim(stderr)))
    } else {
        None
    }
}

/// What is said of a service that was made.
pub fn service_line(iface: &str) -> (r: String)
    ensures
        r@ == "  Created service: r1o TB "@ + iface@,
{
    text::glue("  Created service: r1o TB ", iface)
}

/// What is said of an address that an interface got.
pub fn address_line(iface: &str, ip: &str) -> (r: String)
    ensures
        r@ == "  "@ + iface@ + ": "@ + ip@,
{
    let mut s: String = text::glue("  ", iface);
    s.append(": ");
    s.append(ip);
    s
}

/// What is said of the bridge at the end.
pub fn bridge_outcome(present: bool) -> (r: String)
    ensures
        r@ == (if present {
            "  ⚠ bridge0 still present after removal attempt"@
        } else {
            "  ✓ bridge0 destroyed"@
        }),
{
    if present {
        text::own("  ⚠ bridge0 still present after removal attempt")
    } else {
        text::own("  ✓ bridge0 destroyed")
    }
}

// ---------------------------------------------------------------------------
// Nodes and keys
// ---------------------------------------------------------------------------

/// The step for the list of nodes.
pub open spec fn config_view(exists: bool, path: Seq<char>, dry_run: bool) -> SetupView {
    if exists {
        rest("config"@, "NodeMap already exists at "@ + path)
    } else {
        change("config"@, "Seeding NodeMap from ~/.r1o/cluster.json"@, dry_run)
    }
}

/// The step for the list of nodes.
pub fn config_step(exists: bool, path: &str, dry_run: bool) -> (r: SetupStep)
    ensures
        r.deep_view() == config_view(exists, path@, dry_run),
{
    if exists {
        make_rest("config", &text::glue("NodeMap already exists at ", path))
    } else {
        make_change("config", "Seeding NodeMap from ~/.r1o/cluster.json", dry_run)
    }
}

/// What is said of the nodes that were found.
pub fn seeded_line(nodes: &Vec<String>) -> (r: String)
    ensures
        r@ == (if nodes@.len() == 0 {
            "  ⚠ No nodes found — create ~/.r1o/cluster.json first"@
        } else {
            "  Registered "@ + text::dec(nodes@.len()) + " nodes: "@ + text::joined(
                nodes.deep_view(),
                ", "@,
            )
        }),
{
    if nodes.len() == 0 {
        return text::own("  ⚠ No nodes found — create ~/.r1o/cluster.json first");
    }
    let mut s: String = text::glue("  Registered ", &text::decimal(nodes.len() as u64));
    s.append(" nodes: ");
    s.append(&text::join(nodes, ", "));
    s
}

/// The step for the key of the node.
pub open spec fn key_view(exists: bool, dry_run: bool) -> SetupView {
    if exists {
        rest("ssh"@, "SSH key already exists"@)
    } else {
        change("ssh"@, "Generating ed25519 SSH key (no passphrase)"@, dry_run)
    }
}

/// The step for the key of the node.
pub fn key_step(exists: bool, dry_run: bool) -> (r: SetupStep)
    ensures
        r.deep_view() == key_view(exists, dry_run),
{
    if exists {
        make_rest("ssh", "SSH key already exists")
    } else {
        make_change("ssh", "Generating ed25519 SSH key (no passphrase)", dry_run)
    }
}

/// The step that gives the key to the other nodes, if one is told.
pub open spec fn distribute_view(remote: nat, has_key: bool, dry_run: bool) -> Option<SetupView> {
    if remote == 0 {
        None
    } else if !has_key {
        Some(rest("ssh"@, "No public key to distribute — skipping key push"@))
    } else {
        Some(change("ssh"@, "Distributing key to "@ + text::dec(remote) + " nodes"@, dry_run))
    }
}

/// The step that gives the key to the other nodes, if one is told.
pub fn distribute_step(remote: &Vec<String>, has_key: bool, dry_run: bool) -> (r: Option<SetupStep>)
    ensures
        r.deep_view() == distribute_view(remote@.len(), has_key, dry_run),
{
    if remote.len() == 0 {
        None
    } else if !has_key {
        Some(make_rest("ssh", "No public key to distribute — skipping key push"))
    } else {
        let mut m: String = text::glue(
            "Distributing key to ",
            &text::decimal(remote.len() as u64),
        );
        m.append(" nodes");
        Some(make_change("ssh", &m, dry_run))
    }
}

/// The command that tells whether a node has the key.
pub fn key_check_command(public_key: &str) -> (r: String)
    ensures
        r@ == "grep -qF '"@ + text::trimmed(public_key@)
            + "' ~/.ssh/authorized_keys 2>/dev/null && echo exists || echo missing"@,
{
    let mut s: String = text::glue("grep -qF '", &text::trim(public_key));
    s.append("' ~/.ssh/authorized_keys 2>/dev/null && echo exists || echo missing");
    s
}

/// Whether a node is to be given the key, by the output of that command, if
/// it could be run.
pub fn needs_key(output: &Option<String>) -> (r: bool)
    ensures
        r == (match output.deep_view() {
            Some(o) => text::trimmed(o) == "missing"@,
            None => true,
        }),
{
    match output {
        Some(o) => text::same(&text::trim(o), "missing"),
        None => true,
    }
}

/// What came of giving the key to a node.
pub enum KeyPush {
    Present,
    Installed,
    Failed,
}

/// What is said of a node and the key.
pub fn key_line(node: &str, push: &KeyPush) -> (r: String)
    ensures
        r@ == "  "@ + node@ + (match push {
            KeyPush::Present => " — key already present"@,
            KeyPush::Installed => " — key installed"@,
            KeyPush::Failed => " — ssh-copy-id failed (may need manual setup)"@,
        }),
{
    let mut s: String = text::glue("  ", node);
    match push {
        KeyPush::Present => s.append(" — key already present"),
        KeyPush::Installed => s.append(" — key installed"),
        KeyPush::Failed => s.append(" — ssh-copy-id failed (may need manual setup)"),
    }
    s
}

// ---------------------------------------------------------------------------
// Rights
// ---------------------------------------------------------------------------

/// The step for the rights of the user.
pub open spec fn sudo_view(exists: bool, user: Seq<char>, dry_run: bool) -> SetupView {
    if exists {
        rest("sudo"@, "Scoped sudoers already configured"@)
    } else {
        change("sudo"@, "Installing scoped NOPASSWD rules for "@ + user, dry_run)
    }
}

/// The step for the rights of the user.
pub fn sudo_step(exists: bool, user: &str, dry_run: bool) -> (r: SetupStep)
    ensures
        r.deep_view() == sudo_view(exists, user@, dry_run),
{
    if exists {
        make_rest("sudo", "Scoped sudoers already configured")
    } else {
        make_change("sudo", &text::glue("Installing scoped NOPASSWD rules for ", user), dry_run)
    }
}

/// The rule that lets a user run a command without a password.
pub open spec fn sudo_rule(user: Seq<char>, command: Seq<char>) -> Seq<char> {
    user + " ALL=(ALL) NOPASSWD: "@ + command + "\n"@
}

/// The commands that a user may run without a password.
pub open spec fn free_commands() -> Seq<Seq<char>> {
    seq![
        "/usr/libexec/PlistBuddy"@,
        "/usr/sbin/networksetup"@,
        "/usr/bin/killall configd"@,
        "/usr/sbin/ipconfig"@,
        "/usr/bin/powermetrics"@,
        "/usr/sbin/systemsetup"@,
    ]
}

/// The rules for a list of commands.
pub open spec fn rules_for(user: Seq<char>, commands: Seq<Seq<char>>) -> Seq<char>
    decreases commands.len(),
{
    if commands.len() == 0 {
        "# r1o/asmi — scoped passwordless sudo for cluster operations\n"@
    } else {
        rules_for(user, commands.drop_last()) + sudo_rule(user, commands.last())
    }
}

/// The rules for a user.
pub fn sudoers_rules(user: &str) -> (r: String)
    ensures
        r@ == rules_for(user@, free_commands()),
{
    let mut commands: Vec<String> = Vec::new();
    text::push_str(&mut commands, "/usr/libexec/PlistBuddy");
    text::push_str(&mut commands, "/usr/sbin/networksetup");
    text::push_str(&mut commands, "/usr/bin/killall configd");
    text::push_str(&mut commands, "/usr/sbin/ipconfig");
    text::push_str(&mut commands, "/usr/bin/powermetrics");
    text::push_str(&mut commands, "/usr/sbin/systemsetup");
    let ghost cs = commands.deep_view();
    assert(cs =~= free_commands());
    let mut s: String = text::own(
        "# r1o/asmi — scoped passwordless sudo for cluster operations\n",
    );
    let mut i: usize = 0;
    assert(cs.take(0) =~= Seq::<Seq<char>>::empty());
    while i < commands.len()
        invariant
            i <= commands@.len(),
            cs == commands.deep_view(),
            s@ == rules_for(user@, cs.take(i as int)),
        decreases commands@.len() - i,
    {
        let ghost before = s@;
        proof {
            assert(cs.take(i + 1).drop_last() =~= cs.take(i as int));
            assert(cs.take(i + 1).last() == commands@[i as int]@);
        }
        s.append(user);
        s.append(" ALL=(ALL) NOPASSWD: ");
        s.append(&commands[i]);
        s.append("\n");
        assert(s@ =~= before + sudo_rule(user@, commands@[i as int]@));
        i = i + 1;
    }
    assert(cs.take(i as int) =~= cs);
    s
}

/// What is said of the rules, given whether they were found valid and put in
/// place.
pub fn sudo_line(path: &str, valid: bool, installed: bool) -> (r: String)
    ensures
        r@ == (if !valid {
            "  ⚠ Sudoers syntax validation failed — skipping"@
        } else if installed {
            "  Installed "@ + path@ + " (6 scoped rules)"@
        } else {
            "  ⚠ Failed to install sudoers file"@
        }),
{
    if !valid {
        text::own("  ⚠ Sudoers syntax validation failed — skipping")
    } else if installed {
        let mut s: String = text::glue("  Installed ", path);
        s.append(" (6 scoped rules)");
        s
    } else {
        text::own("  ⚠ Failed to install sudoers file")
    }
}

// ---------------------------------------------------------------------------
// Connections
// ---------------------------------------------------------------------------

/// The lines that let connections be shared.
pub open spec fn mux_block() -> Seq<char> {
    "\n# r1o cluster — persistent SSH multiplexing\nHost *\nControlMaster auto\nControlPath /tmp/asmi-%r@%h:%p\nControlPersist 10m\nAddKeysToAgent yes\nUseKeychain yes\nIdentityFile ~/.ssh/id_ed25519\nServerAliveInterval 30\nServerAliveCountMax 3\n"@
}

/// The step for shared connections, given the settings of SSH.
pub open spec fn mux_view(settings: Seq<char>, dry_run: bool) -> SetupView {
    if text::has(settings, "ControlMaster"@) {
        rest("ssh-mux"@, "SSH ControlMaster already configured"@)
    } else {
        change("ssh-mux"@, "Adding ControlMaster to ~/.ssh/config"@, dry_run)
    }
}

/// The step for shared connections, given the settings of SSH.
pub fn mux_step(settings: &str, dry_run: bool) -> (r: SetupStep)
    ensures
        r.deep_view() == mux_view(settings@, dry_run),
{
    if text::contains(settings, "ControlMaster") {
        make_rest("ssh-mux", "SSH ControlMaster already configured")
    } else {
        make_change("ssh-mux", "Adding ControlMaster to ~/.ssh/config", dry_run)
    }
}

/// The settings of SSH with shared connections.
pub fn mux_settings(settings: &str) -> (r: String)
    ensures
        r@ == settings@ + mux_block(),
{
    text::glue(
        settings,
        "\n# r1o cluster — persistent SSH multiplexing\nHost *\nControlMaster auto\nControlPath /tmp/asmi-%r@%h:%p\nControlPersist 10m\nAddKeysToAgent yes\nUseKeychain yes\nIdentityFile ~/.ssh/id_ed25519\nServerAliveInterval 30\nServerAliveCountMax 3\n",
    )
}

/// Once the lines are there, the setup adds them no more.
pub proof fn settings_are_added_once(settings: Seq<char>, dry_run: bool)
    ensures
        !mux_view(settings + mux_block(), dry_run).act,
{
    let p = "ControlMaster"@;
    let all = settings + mux_block();
    reveal_strlit("ControlMaster");
    reveal_strlit(
        "\n# r1o cluster — persistent SSH multiplexing\nHost *\nControlMaster auto\nControlPath /tmp/asmi-%r@%h:%p\nControlPersist 10m\nAddKeysToAgent yes\nUseKeychain yes\nIdentityFile ~/.ssh/id_ed25519\nServerAliveInterval 30\nServerAliveCountMax 3\n",
    );
    let at = settings.len() as int + 52;
    assert(all.subrange(at, at + p.len()) =~= p);
    assert(text::occurs_at(all, p, at));
}

/// The step for lasting connections.
pub open spec fn autossh_view(remote: nat, installed: bool, dry_run: bool) -> SetupView {
    if remote == 0 {
        rest("autossh"@, "No remote nodes — skipping persistent connections"@)
    } else if !installed {
        change("autossh"@, "Installing autossh via Homebrew"@, dry_run)
    } else {
        rest("autossh"@, "autossh already installed"@)
    }
}

/// The step for lasting connections.
pub fn autossh_step(remote: &Vec<String>, installed: bool, dry_run: bool) -> (r: SetupStep)
    ensures
        r.deep_view() == autossh_view(remote@.len(), installed, dry_run),
{
    if remote.len() == 0 {
        make_rest("autossh", "No remote nodes — skipping persistent connections")
    } else if !installed {
        make_change("autossh", "Installing autossh via Homebrew", dry_run)
    } else {
        make_rest("autossh", "autossh already installed")
    }
}

/// Where the program is, by the output of `which`, if it could be run.
pub fn autossh_path(which: &Option<String>) -> (r: String)
    ensures
        r@ == (match which.deep_view() {
            Some(o) => text::trimmed(o),
            None => "/opt/homebrew/bin/autossh"@,
        }),
{
    match which {
        Some(o) => text::trim(o),
        None => text::own("/opt/homebrew/bin/autossh"),
    }
}

/// The name of the file that describes the lasting connection to a node.
pub fn connection_file(node: &str) -> (r: String)
    ensures
        r@ == "com.r1o.autossh."@ + node@ + ".plist"@,
{
    let mut s: String = text::glue("com.r1o.autossh.", node);
    s.append(".plist");
    s
}

/// The step for the connection to a node: where it is described already,
/// only that is said.
pub open spec fn connection_view(node: Seq<char>, described: bool, dry_run: bool) -> SetupView {
    if described {
        SetupView { line: "  [autossh] "@ + node + " — plist exists"@, act: false }
    } else {
        change("autossh"@, "Creating persistent connection to "@ + node, dry_run)
    }
}

/// The step for the connection to a node.
pub fn connection_step(node: &str, described: bool, dry_run: bool) -> (r: SetupStep)
    ensures
        r.deep_view() == connection_view(node@, described, dry_run),
{
    if described {
        let mut s: String = text::glue("  [autossh] ", node);
        s.append(" — plist exists");
        SetupStep { line: s, act: false }
    } else {
        make_change("autossh", &text::glue("Creating persistent connection to ", node), dry_run)
    }
}

/// The head of a description.
pub open spec fn plist_head(label: Seq<char>) -> Seq<char> {
    "<?xml version=\"1.0\" encoding=\"UTF-8\"?>\n<!DOCTYPE plist PUBLIC \"-//Apple//DTD PLIST 1.0//EN\" \"http://www.apple.com/DTDs/PropertyList-1.0.dtd\">\n<plist version=\"1.0\">\n<dict>\n    <key>Label</key>\n    <string>"@
        + label + "</string>\n    <key>ProgramArguments</key>\n    <array>\n"@
}

/// An argument of the program that is described.
pub open spec fn plist_arg(arg: Seq<char>) -> Seq<char> {
    "        <string>"@ + arg + "</string>"@
}

/// The arguments of the program that is described, a line each.
pub open spec fn plist_args(args: Seq<Seq<char>>) -> Seq<char> {
    text::joined(args.map_values(|a: Seq<char>| plist_arg(a)), "\n"@)
}

/// When the program is started again, and where its output goes.
pub open spec fn plist_tail(pause: Seq<char>, log: Seq<char>) -> Seq<char> {
    "\n    </array>\n    <key>RunAtLoad</key><true/>\n    <key>KeepAlive</key><true/>\n    <key>ThrottleInterval</key><integer>"@
        + pause + "</integer>\n    <key>StandardOutPath</key>\n    <string>"@ + log
        + "</string>\n    <key>StandardErrorPath</key>\n    <string>"@ + log + "</string>\n"@
}

/// The head of a description.
fn write_head(label: &str) -> (r: String)
    ensures
        r@ == plist_head(label@),
{
    let mut s: String = text::glue(
        "<?xml version=\"1.0\" encoding=\"UTF-8\"?>\n<!DOCTYPE plist PUBLIC \"-//Apple//DTD PLIST 1.0//EN\" \"http://www.apple.com/DTDs/PropertyList-1.0.dtd\">\n<plist version=\"1.0\">\n<dict>\n    <key>Label</key>\n    <string>",
        label,
    );
    s.append("</string>\n    <key>ProgramArguments</key>\n    <array>\n");
    s
}

/// The arguments of the program that is described, a line each.
fn write_args(args: &Vec<String>) -> (r: String)
    ensures
        r@ == plist_args(args.deep_view()),
{
    let ghost want = args.deep_view().map_values(|a: Seq<char>| plist_arg(a));
    let mut lines: Vec<String> = Vec::new();
    let mut i: usize = 0;
    assert(lines.deep_view() =~= want.take(0));
    while i < args.len()
        invariant
            i <= args@.len(),
            want == args.deep_view().map_values(|a: Seq<char>| plist_arg(a)),
            lines.deep_view() == want.take(i as int),
        decreases args@.len() - i,
    {
        let mut s: String = text::glue("        <string>", &args[i]);
        s.append("</string>");
        assert(s@ == want[i as int]);
        text::push_text(&mut lines, s);
        i = i + 1;
        assert(lines.deep_view() =~= want.take(i as int));
    }
    assert(want.take(i as int) =~= want);
    text::join(&lines, "\n")
}

/// When the program is started again, and where its output goes.
fn write_tail(pause: &str, log: &str) -> (r: String)
    ensures
        r@ == plist_tail(pause@, log@),
{
    let mut s: String = text::glue(
        "\n    </array>\n    <key>RunAtLoad</key><true/>\n    <key>KeepAlive</key><true/>\n    <key>ThrottleInterval</key><integer>",
        pause,
    );
    s.append("</integer>\n    <key>StandardOutPath</key>\n    <string>");
    s.append(log);
    s.append("</string>\n    <key>StandardErrorPath</key>\n    <string>");
    s.append(log);
    s.append("</string>\n");
    s
}

/// The arguments of the program that holds a connection.
pub open spec fn connection_args(program: Seq<char>, user: Seq<char>, node: Seq<char>) -> Seq<
    Seq<char>,
> {
    seq![
        program,
        "-M"@,
        "0"@,
        "-N"@,
        "-o"@,
        "ServerAliveInterval=30"@,
        "-o"@,
        "ServerAliveCountMax=3"@,
        "-o"@,
        "ExitOnForwardFailure=yes"@,
        "-o"@,
        "ControlMaster=auto"@,
        "-o"@,
        "ControlPath=/tmp/asmi-"@ + user + "@"@ + node + ":22"@,
        "-o"@,
        "ControlPersist=yes"@,
        user + "@"@ + node,
    ]
}

/// The description of the lasting connection to a node.
pub open spec fn connection_plist_text(program: Seq<char>, user: Seq<char>, node: Seq<char>) -> Seq<
    char,
> {
    plist_head("com.r1o.autossh."@ + node) + plist_args(connection_args(program, user, node))
        + plist_tail("30"@, "/tmp/autossh-"@ + node + ".log"@)
        + "    <key>EnvironmentVariables</key>\n    <dict>\n        <key>AUTOSSH_GATETIME</key>\n        <string>0</string>\n    </dict>\n</dict>\n</plist>"@
}

/// The description of the lasting connection to a node.
pub fn connection_plist(program: &str, user: &str, node: &str) -> (r: String)
    ensures
        r@ == connection_plist_text(program@, user@, node@),
{
    let mut control: String = text::glue("ControlPath=/tmp/asmi-", user);
    control.append("@");
    control.append(node);
    control.append(":22");
    let mut login: String = text::glue(user, "@");
    login.append(node);
    let mut args: Vec<String> = Vec::new();
    text::push_str(&mut args, program);
    text::push_str(&mut args, "-M");
    text::push_str(&mut args, "0");
    text::push_str(&mut args, "-N");
    text::push_str(&mut args, "-o");
    text::push_str(&mut args, "ServerAliveInterval=30");
    text::push_str(&mut args, "-o");
    text::push_str(&mut args, "ServerAliveCountMax=3");
    text::push_str(&mut args, "-o");
    text::push_str(&mut args, "ExitOnForwardFailure=yes");
    text::push_str(&mut args, "-o");
    text::push_str(&mut args, "ControlMaster=auto");
    text::push_str(&mut args, "-o");
    text::push_str(&mut args, &control);
    text::push_str(&mut args, "-o");
    text::push_str(&mut args, "ControlPersist=yes");
    text::push_str(&mut args, &login);
    assert(args.deep_view() =~= connection_args(program@, user@, node@));
    let mut log: String = text::glue("/tmp/autossh-", node);
    log.append(".log");
    let mut s: String = write_head(&text::glue("com.r1o.autossh.", node));
    s.append(&write_args(&args));
    s.append(&write_tail("30", &log));
    s.append(
        "    <key>EnvironmentVariables</key>\n    <dict>\n        <key>AUTOSSH_GATETIME</key>\n        <string>0</string>\n    </dict>\n</dict>\n</plist>",
    );
    s
}

/// What is said of a connection that was made.
pub fn connection_line(user: &str, node: &str) -> (r: String)
    ensures
        r@ == "  "@ + node@ + " — autossh agent started (mux: /tmp/asmi-"@ + user@ + "@"@ + node@
            + ":22)"@,
{
    let mut s: String = text::glue("  ", node);
    s.append(" — autossh agent started (mux: /tmp/asmi-");
    s.append(user);
    s.append("@");
    s.append(node);
    s.append(":22)");
    s
}

// ---------------------------------------------------------------------------
// The daemon
// ---------------------------------------------------------------------------

/// The step for the program itself.
pub open spec fn binary_view(in_place: bool, path: Seq<char>, dry_run: bool) -> SetupView {
    if in_place {
        rest("binary"@, "Already running from ~/.cargo/bin/asmi"@)
    } else {
        change("binary"@, "Installing to "@ + path, dry_run)
    }
}

/// The step for the program itself.
pub fn binary_step(in_place: bool, path: &str, dry_run: bool) -> (r: SetupStep)
    ensures
        r.deep_view() == binary_view(in_place, path@, dry_run),
{
    if in_place {
        make_rest("binary", "Already running from ~/.cargo/bin/asmi")
    } else {
        make_change("binary", &text::glue("Installing to ", path), dry_run)
    }
}

/// The arguments of the daemon.
pub open spec fn daemon_args(program: Seq<char>, port: nat, cluster: bool) -> Seq<Seq<char>> {
    let base = seq![program, "--serve"@, "--port"@, text::dec(port)];
    if cluster {
        base.push("--cluster"@)
    } else {
        base
    }
}

/// The description of the daemon.
pub open spec fn daemon_plist_text(
    program: Seq<char>,
    port: nat,
    cluster: bool,
    log: Seq<char>,
) -> Seq<char> {
    plist_head(daemon_label()) + plist_args(daemon_args(program, port, cluster)) + plist_tail(
        "5"@,
        log,
    ) + "</dict>\n</plist>"@
}

/// The description of the daemon.
pub fn daemon_plist(program: &str, port: u16, cluster: bool, log: &str) -> (r: String)
    ensures
        r@ == daemon_plist_text(program@, port as nat, cluster, log@),
{
    let mut args: Vec<String> = Vec::new();
    text::push_str(&mut args, program);
    text::push_str(&mut args, "--serve");
    text::push_str(&mut args, "--port");
    text::push_text(&mut args, text::decimal(port as u64));
    if cluster {
        text::push_str(&mut args, "--cluster");
    }
    assert(args.deep_view() =~= daemon_args(program@, port as nat, cluster));
    let mut s: String = write_head("com.asmi.daemon");
    s.append(&write_args(&args));
    s.append(&write_tail("5", log));
    s.append("</dict>\n</plist>");
    s
}

/// The step that writes the description of the daemon.
pub fn plist_step(path: &str, dry_run: bool) -> (r: SetupStep)
    ensures
        r.deep_view() == change("plist"@, "Writing "@ + path@, dry_run),
{
    make_change("plist", &text::glue("Writing ", path), dry_run)
}

/// The step that starts the daemon.
pub fn start_step(dry_run: bool) -> (r: SetupStep)
    ensures
        r.deep_view() == change("daemon"@, "Starting asmi daemon via launchctl"@, dry_run),
{
    make_change("daemon", "Starting asmi daemon via launchctl", dry_run)
}

/// What came of starting the daemon.
pub enum DaemonStart {
    Started,
    /// It runs already and is to be started anew.
    Restart,
    /// What failed.
    Failed(String),
}

/// What came of starting the daemon, by the outcome of `launchctl bootstrap`.
pub fn judge_start(succeeded: bool, stderr: &str) -> (r: DaemonStart)
    ensures
        succeeded ==> r is Started,
        !succeeded && text::has(stderr@, "already loaded"@) ==> r is Restart,
        !succeeded && text::has(stderr@, "service already loaded"@) ==> r is Restart,
        !succeeded && !text::has(stderr@, "already loaded"@) && !text::has(
            stderr@,
            "service already loaded"@,
        ) ==> (r matches DaemonStart::Failed(e) && e@ == text::trimmed(stderr@)),
{
    if succeeded {
        DaemonStart::Started
    } else if text::contains(stderr, "already loaded") || text::contains(
        stderr,
        "service already loaded",
    ) {
        DaemonStart::Restart
    } else {
        DaemonStart::Failed(text::trim(stderr))
    }
}

impl DaemonStart {
    /// What is said of it.
    pub fn line(&self, port: u16) -> (r: String)
        ensures
            r@ == (match self {
                DaemonStart::Started => "  Daemon started on port "@ + text::dec(port as nat),
                DaemonStart::Restart => "  Daemon restarted on port "@ + text::dec(port as nat),
                DaemonStart::Failed(e) => "  ⚠ launchctl bootstrap failed: "@ + e@,
            }),
    {
        match self {
            DaemonStart::Started => text::glue(
                "  Daemon started on port ",
                &text::decimal(port as u64),
            ),
            DaemonStart::Restart => text::glue(
                "  Daemon restarted on port ",
                &text::decimal(port as u64),
            ),
            DaemonStart::Failed(e) => text::glue("  ⚠ launchctl bootstrap failed: ", e),
        }
    }
}

/// What is said of the health of the daemon, by the answer it gave, if any.
pub fn health_lines(answer: &Option<String>, port: u16, log: &str) -> (r: Vec<String>)
    ensures
        r.deep_view() == (match answer.deep_view() {
            Some(body) => seq!["  ✓ "@ + text::trimmed(body)],
            None => seq![
                "  ⚠ Daemon not responding on port "@ + text::dec(port as nat) + " — check logs:"@,
                "    tail -20 "@ + log@,
            ],
        }),
{
    let mut out: Vec<String> = Vec::new();
    match answer {
        Some(body) => {
            text::push_text(&mut out, text::glue("  ✓ ", &text::trim(body)));
            assert(out.deep_view() =~= seq!["  ✓ "@ + text::trimmed(body@)]);
        },
        None => {
            let mut s: String = text::glue(
                "  ⚠ Daemon not responding on port ",
                &text::decimal(port as u64),
            );
            s.append(" — check logs:");
            text::push_text(&mut out, s);
            text::push_text(&mut out, text::glue("    tail -20 ", log));
            assert(out.deep_view() =~= seq![
                "  ⚠ Daemon not responding on port "@ + text::dec(port as nat)
                    + " — check logs:"@,
                "    tail -20 "@ + log@,
            ]);
        },
    }
    out
}

/// What is said at the end.
pub open spec fn closing(dry_run: bool, port: nat, freed: bool) -> Seq<Seq<char>> {
    if dry_run {
        seq!["Dry run complete. Re-run without --dry-run to apply."@]
    } else {
        seq!["Setup complete. asmi is running on port "@ + text::dec(port) + "."@] + (if freed {
            seq!["  Thunderbolt Bridge removed — RDMA interfaces freed."@]
        } else {
            Seq::empty()
        }) + seq![
            ""@,
            "Remaining manual step (one-time, requires physical access):"@,
            "  Hold Power → Options → Terminal → rdma_ctl enable → reboot"@,
            ""@,
            "After RDMA is enabled, distributed inference works immediately:"@,
            "  mlx.launch --hostfile /path/to/hostfile.json your_script.py"@,
        ]
    }
}

/// What is said at the end.
pub fn closing_lines(dry_run: bool, port: u16, members: &Vec<String>, skip: bool) -> (r: Vec<
    String,
>)
    ensures
        r.deep_view() == closing(dry_run, port as nat, members@.len() > 0 && !skip),
{
    let freed: bool = members.len() > 0 && !skip;
    let mut out: Vec<String> = Vec::new();
    if dry_run {
        text::push_str(&mut out, "Dry run complete. Re-run without --dry-run to apply.");
    } else {
        let mut s: String = text::glue(
            "Setup complete. asmi is running on port ",
            &text::decimal(port as u64),
        );
        s.append(".");
        text::push_text(&mut out, s);
        if freed {
            text::push_str(&mut out, "  Thunderbolt Bridge removed — RDMA interfaces freed.");
        }
        text::push_str(&mut out, "");
        text::push_str(&mut out, "Remaining manual step (one-time, requires physical access):");
        text::push_str(&mut out, "  Hold Power → Options → Terminal → rdma_ctl enable → reboot");
        text::push_str(&mut out, "");
        text::push_str(
            &mut out,
            "After RDMA is enabled, distributed inference works immediately:",
        );
        text::push_str(&mut out, "  mlx.launch --hostfile /path/to/hostfile.json your_script.py");
    }
    assert(out.deep_view() =~= closing(dry_run, port as nat, freed));
    out
}

/// The line with which the setup begins.
pub fn opening_line(hostname: &str) -> (r: String)
    ensures
        r@ == "asmi setup — configuring "@ + hostname@ + " for r1o"@,
{
    let mut s: String = text::glue("asmi setup — configuring ", hostname);
    s.append(" for r1o");
    s
}

/// A setup that is only tried out carries out no step.
pub proof fn dry_run_changes_nothing(
    members: Seq<Seq<char>>,
    skip: bool,
    exists: bool,
    remote: nat,
    a: Seq<char>,
)
    ensures
        !bridge_view(members, skip, true).act,
        !config_view(exists, a, true).act,
        !key_view(exists, true).act,
        distribute_view(remote, exists, true) matches Some(s) ==> !s.act,
        !sudo_view(exists, a, true).act,
        !mux_view(a, true).act,
        !autossh_view(remote, exists, true).act,
        !connection_view(a, exists, true).act,
        !binary_view(exists, a, true).act,
        !change("plist"@, a, true).act,
        !change("daemon"@, a, true).act,
{
}

// ---------------------------------------------------------------------------
// Laws of the setup
// ---------------------------------------------------------------------------

/// What is missing is set up, and what is there is left alone.
pub proof fn missing_is_set_up(
    members: Seq<Seq<char>>,
    skip: bool,
    exists: bool,
    remote: nat,
    a: Seq<char>,
)
    ensures
        bridge_view(members, skip, false).act <==> members.len() > 0 && !skip,
        config_view(exists, a, false).act <==> !exists,
        key_view(exists, false).act <==> !exists,
        distribute_view(remote, exists, false) is None <==> remote == 0,
        distribute_view(remote, exists, false) matches Some(s) ==> s.act == exists,
        sudo_view(exists, a, false).act <==> !exists,
        mux_view(a, false).act <==> !text::has(a, "ControlMaster"@),
        autossh_view(remote, exists, false).act <==> remote > 0 && !exists,
        connection_view(a, exists, false).act <==> !exists,
        binary_view(exists, a, false).act <==> !exists,
        change("plist"@, a, false).act,
        !rest("plist"@, a).act,
{
}

/// A step tells its name and its message.
pub proof fn step_tells_name_and_message(name: Seq<char>, message: Seq<char>)
    ensures
        text::ends(step_line(name, message), message),
        text::has(step_line(name, message), text::right_aligned(name, 8)),
        change(name, message, true).line == step_line(name, message),
        rest(name, message).line == step_line(name, message),
{
    let s = step_line(name, message);
    let shown = text::right_aligned(name, 8);
    assert(s.skip(s.len() - message.len()) =~= message);
    let i = "["@.len() as int;
    assert(s.subrange(i, i + shown.len()) =~= shown);
    assert(text::occurs_at(s, shown, i));
}

/// The user may run each of the commands without a password.
pub proof fn every_command_is_free(user: Seq<char>, commands: Seq<Seq<char>>, i: int)
    requires
        0 <= i < commands.len(),
    ensures
        text::has(
            rules_for(user, commands),
            user + " ALL=(ALL) NOPASSWD: "@ + commands[i] + "\n"@,
        ),
    decreases commands.len(),
{
    let rule = sudo_rule(user, commands[i]);
    let front = rules_for(user, commands.drop_last());
    let all = rules_for(user, commands);
    if i < commands.len() - 1 {
        assert(commands.drop_last()[i] == commands[i]);
        every_command_is_free(user, commands.drop_last(), i);
        let at = choose|at: int| text::occurs_at(front, rule, at);
        assert(all.subrange(at, at + rule.len()) =~= front.subrange(at, at + rule.len()));
        assert(text::occurs_at(all, rule, at));
    } else {
        let at = front.len() as int;
        assert(all.subrange(at, at + rule.len()) =~= rule);
        assert(text::occurs_at(all, rule, at));
    }
}

/// A text that stands in a part stands in the whole.
proof fn part_of_part(front: Seq<char>, s: Seq<char>, back: Seq<char>, p: Seq<char>)
    requires
        text::has(s, p),
    ensures
        text::has(front + s + back, p),
{
    let i = choose|i: int| text::occurs_at(s, p, i);
    let all = front + s + back;
    let j = front.len() + i;
    assert(all.subrange(j, j + p.len()) =~= s.subrange(i, i + p.len()));
    assert(text::occurs_at(all, p, j));
}

/// A text stands in itself.
proof fn in_itself(s: Seq<char>)
    ensures
        text::has(s, s),
{
    assert(s.subrange(0, s.len() as int) =~= s);
    assert(text::occurs_at(s, s, 0));
}

/// Each argument of a program is an entry of its description.
#[verifier::rlimit(60)]
pub proof fn every_argument_is_described(args: Seq<Seq<char>>, i: int)
    requires
        0 <= i < args.len(),
    ensures
        text::has(plist_args(args), "<string>"@ + args[i] + "</string>"@),
    decreases args.len(),
{
    let f = |a: Seq<char>| plist_arg(a);
    let parts = args.map_values(f);
    entry_stands_in_list(parts, i, "\n"@);
    reveal_strlit("        <string>");
    reveal_strlit("<string>");
    let entry = "<string>"@ + args[i] + "</string>"@;
    assert(parts[i] == plist_arg(args[i]));
    let lead = "        <string>"@.take(8);
    assert(plist_arg(args[i]) =~= lead + entry + Seq::<char>::empty());
    in_itself(entry);
    part_of_part(lead, entry, Seq::empty(), entry);
    let at = choose|at: int| text::occurs_at(text::joined(parts, "\n"@), parts[i], at);
    let all = text::joined(parts, "\n"@);
    assert(all.subrange(at, at + parts[i].len()) == parts[i]);
    assert(all.subrange(at + 8, at + 8 + entry.len()) =~= parts[i].subrange(8, 8int + entry.len()));
    assert(parts[i].subrange(8, 8int + entry.len()) =~= entry);
    assert(text::occurs_at(all, entry, at + 8));
}

/// An entry stands in the list that it is joined into.
proof fn entry_stands_in_list(parts: Seq<Seq<char>>, i: int, sep: Seq<char>)
    requires
        0 <= i < parts.len(),
    ensures
        text::has(text::joined(parts, sep), parts[i]),
    decreases parts.len(),
{
    in_itself(parts[i]);
    if parts.len() > 1 {
        let front = text::joined(parts.drop_last(), sep);
        let all = text::joined(parts, sep);
        if i < parts.len() - 1 {
            assert(parts.drop_last()[i] == parts[i]);
            entry_stands_in_list(parts.drop_last(), i, sep);
            part_of_part(Seq::empty(), front, sep + parts.last(), parts[i]);
            assert(Seq::<char>::empty() + front + (sep + parts.last()) =~= all);
        } else {
            part_of_part(front + sep, parts[i], Seq::empty(), parts[i]);
            assert(front + sep + parts[i] + Seq::<char>::empty() =~= all);
        }
    }
}

/// The description of a connection names the connection's node, the program
/// that keeps it, and its own log.
#[verifier::rlimit(60)]
pub proof fn connection_leads_to_its_node(program: Seq<char>, user: Seq<char>, node: Seq<char>)
    ensures
        connection_args(program, user, node)[0] == program,
        connection_args(program, user, node).last() == user + "@"@ + node,
        text::has(
            connection_plist_text(program, user, node),
            "<string>"@ + (user + "@"@ + node) + "</string>"@,
        ),
        text::has(
            connection_plist_text(program, user, node),
            "<string>"@ + program + "</string>"@,
        ),
        text::has(connection_plist_text(program, user, node), "com.r1o.autossh."@ + node),
        text::has(connection_plist_text(program, user, node), "/tmp/autossh-"@ + node + ".log"@),
{
    let args = connection_args(program, user, node);
    let head = plist_head("com.r1o.autossh."@ + node);
    let mid = plist_args(args);
    let log = "/tmp/autossh-"@ + node + ".log"@;
    let tail = plist_tail("30"@, log);
    let end =
        "    <key>EnvironmentVariables</key>\n    <dict>\n        <key>AUTOSSH_GATETIME</key>\n        <string>0</string>\n    </dict>\n</dict>\n</plist>"@;
    let all = connection_plist_text(program, user, node);
    every_argument_is_described(args, 0);
    every_argument_is_described(args, 16);
    let a = "<string>"@ + program + "</string>"@;
    let b = "<string>"@ + (user + "@"@ + node) + "</string>"@;
    part_of_part(head, mid, tail + end, a);
    part_of_part(head, mid, tail + end, b);
    assert(head + mid + (tail + end) =~= all);
    head_names_label("com.r1o.autossh."@ + node);
    part_of_part(Seq::empty(), head, mid + tail + end, "com.r1o.autossh."@ + node);
    assert(Seq::<char>::empty() + head + (mid + tail + end) =~= all);
    tail_names_log("30"@, log);
    part_of_part(head + mid, tail, end, log);
    assert(head + mid + tail + end =~= all);
}

/// The head of a description names its label.
proof fn head_names_label(label: Seq<char>)
    ensures
        text::has(plist_head(label), label),
{
    in_itself(label);
    part_of_part(
        "<?xml version=\"1.0\" encoding=\"UTF-8\"?>\n<!DOCTYPE plist PUBLIC \"-//Apple//DTD PLIST 1.0//EN\" \"http://www.apple.com/DTDs/PropertyList-1.0.dtd\">\n<plist version=\"1.0\">\n<dict>\n    <key>Label</key>\n    <string>"@,
        label,
        "</string>\n    <key>ProgramArguments</key>\n    <array>\n"@,
        label,
    );
}

/// The tail of a description names the log, and how long to wait.
proof fn tail_names_log(pause: Seq<char>, log: Seq<char>)
    ensures
        text::has(plist_tail(pause, log), log),
        text::has(plist_tail(pause, log), pause),
{
    let a =
        "\n    </array>\n    <key>RunAtLoad</key><true/>\n    <key>KeepAlive</key><true/>\n    <key>ThrottleInterval</key><integer>"@;
    let b = "</integer>\n    <key>StandardOutPath</key>\n    <string>"@;
    let c = "</string>\n    <key>StandardErrorPath</key>\n    <string>"@;
    let d = "</string>\n"@;
    in_itself(pause);
    in_itself(log);
    part_of_part(a, pause, b + log + c + log + d, pause);
    assert(a + pause + (b + log + c + log + d) =~= plist_tail(pause, log));
    part_of_part(a + pause + b, log, c + log + d, log);
    assert(a + pause + b + log + (c + log + d) =~= plist_tail(pause, log));
}

/// The description of the daemon names its program, its port and its log, and
/// says of the cluster where one was asked for.
#[verifier::rlimit(60)]
pub proof fn daemon_is_described(program: Seq<char>, port: nat, cluster: bool, log: Seq<char>)
    ensures
        text::has(
            daemon_plist_text(program, port, cluster, log),
            "<string>"@ + program + "</string>"@,
        ),
        text::has(
            daemon_plist_text(program, port, cluster, log),
            "<string>"@ + text::dec(port) + "</string>"@,
        ),
        text::has(daemon_plist_text(program, port, cluster, log), log),
        daemon_args(program, port, cluster)[2] == "--port"@,
        daemon_args(program, port, cluster)[3] == text::dec(port),
        daemon_args(program, port, cluster).contains("--cluster"@) ==> cluster || program
            == "--cluster"@ || text::dec(port) == "--cluster"@,
        cluster ==> daemon_args(program, port, cluster).last() == "--cluster"@,
{
    let args = daemon_args(program, port, cluster);
    let head = plist_head(daemon_label());
    let mid = plist_args(args);
    let tail = plist_tail("5"@, log);
    let end = "</dict>\n</plist>"@;
    let all = daemon_plist_text(program, port, cluster, log);
    every_argument_is_described(args, 0);
    every_argument_is_described(args, 3);
    part_of_part(head, mid, tail + end, "<string>"@ + program + "</string>"@);
    part_of_part(head, mid, tail + end, "<string>"@ + text::dec(port) + "</string>"@);
    assert(head + mid + (tail + end) =~= all);
    tail_names_log("5"@, log);
    part_of_part(head + mid, tail, end, log);
    assert(head + mid + tail + end =~= all);
    reveal_strlit("--cluster");
    reveal_strlit("--serve");
    reveal_strlit("--port");
    assert("--cluster"@.len() == 9 && "--serve"@.len() == 7 && "--port"@.len() == 6);
}

/// After a dry run nothing is claimed to run, and freed interfaces are told of
/// only where they were freed.
pub proof fn closing_tells_what_was_done(port: nat, freed: bool)
    ensures
        closing(true, port, freed).len() == 1,
        text::has(closing(false, port, freed)[0], text::dec(port)),
        closing(false, port, true).len() == closing(false, port, false).len() + 1,
        closing(false, port, true)[1]
            == "  Thunderbolt Bridge removed — RDMA interfaces freed."@,
{
    in_itself(text::dec(port));
    part_of_part("Setup complete. asmi is running on port "@, text::dec(port), "."@, text::dec(port));
}

} // verus!
