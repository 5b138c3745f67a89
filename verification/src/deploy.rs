//! The command lines that reach a host, and the deployment of the remote agent.

use vstd::prelude::*;
use crate::config::{HostConfig, HostView};
use crate::digest::{hex_sha256, hex_text, sha256};
use crate::ids::{fresh_id, random_id};
use crate::json::Json;
use crate::json_value::{compact_text, reread, text_walk};
use crate::text::{decimal, decimal_text, push_text, views};

verus! {

/// The version of the remote agent, which names its directory.
pub const AGENT_VERSION: &'static str = "0.1.0";

/// The kind of system that the control center runs on.
#[derive(Clone, Copy, Debug, PartialEq, Eq, Structural)]
pub enum Platform {
    Unix,
    Windows,
}

/// The SSH client.
pub open spec fn ssh_name(platform: Platform) -> Seq<char> {
    match platform {
        Platform::Unix => "ssh"@,
        Platform::Windows => "ssh.exe"@,
    }
}

/// The copy program that goes with the SSH client.
pub open spec fn scp_name(platform: Platform) -> Seq<char> {
    match platform {
        Platform::Unix => "scp"@,
        Platform::Windows => "scp.exe"@,
    }
}

/// The SSH client.
pub fn ssh_program(platform: Platform) -> (r: String)
    ensures
        r@ == ssh_name(platform),
{
    match platform {
        Platform::Unix => "ssh".to_owned(),
        Platform::Windows => "ssh.exe".to_owned(),
    }
}

/// The copy program that goes with the SSH client.
pub fn scp_program(platform: Platform) -> (r: String)
    ensures
        r@ == scp_name(platform),
{
    match platform {
        Platform::Unix => "scp".to_owned(),
        Platform::Windows => "scp.exe".to_owned(),
    }
}

/// The options of every SSH command line: no terminal and no question asked, a
/// known host key, a connection that is noticed when it dies, and no key but
/// the configured one.
pub open spec fn common_args(host: HostView) -> Seq<Seq<char>> {
    seq![
        "-T"@,
        "-o"@,
        "BatchMode=yes"@,
        "-o"@,
        "StrictHostKeyChecking=yes"@,
        "-o"@,
        "ServerAliveInterval=30"@,
        "-o"@,
        "ServerAliveCountMax=3"@,
        "-p"@,
        decimal(host.port as nat),
        "-i"@,
        host.identity_file,
        "-o"@,
        "IdentitiesOnly=yes"@,
    ]
}

/// The options of every copy command line.
pub open spec fn scp_args(host: HostView) -> Seq<Seq<char>> {
    seq![
        "-q"@,
        "-o"@,
        "BatchMode=yes"@,
        "-o"@,
        "StrictHostKeyChecking=yes"@,
        "-P"@,
        decimal(host.port as nat),
        "-i"@,
        host.identity_file,
        "-o"@,
        "IdentitiesOnly=yes"@,
    ]
}

/// Adds the options of every SSH command line.
pub fn append_common_args(command: &mut Vec<String>, host: &HostConfig)
    ensures
        views(final(command)@) == views(old(command)@) + common_args(host@),
{
    let ghost before = views(command@);
    push_text(command, "-T");
    push_text(command, "-o");
    push_text(command, "BatchMode=yes");
    push_text(command, "-o");
    push_text(command, "StrictHostKeyChecking=yes");
    push_text(command, "-o");
    push_text(command, "ServerAliveInterval=30");
    push_text(command, "-o");
    push_text(command, "ServerAliveCountMax=3");
    push_text(command, "-p");
    push_text(command, decimal_text(host.port as u64).as_str());
    push_text(command, "-i");
    push_text(command, host.identity_file.as_str());
    push_text(command, "-o");
    push_text(command, "IdentitiesOnly=yes");
    assert(views(command@) =~= before + common_args(host@));
}

/// Adds the options of every copy command line.
pub fn append_scp_args(command: &mut Vec<String>, host: &HostConfig)
    ensures
        views(final(command)@) == views(old(command)@) + scp_args(host@),
{
    let ghost before = views(command@);
    push_text(command, "-q");
    push_text(command, "-o");
    push_text(command, "BatchMode=yes");
    push_text(command, "-o");
    push_text(command, "StrictHostKeyChecking=yes");
    push_text(command, "-P");
    push_text(command, decimal_text(host.port as u64).as_str());
    push_text(command, "-i");
    push_text(command, host.identity_file.as_str());
    push_text(command, "-o");
    push_text(command, "IdentitiesOnly=yes");
    assert(views(command@) =~= before + scp_args(host@));
}

/// Whether `args` sets an option with `-o`.
pub open spec fn sets_option(args: Seq<Seq<char>>, option: Seq<char>) -> bool {
    exists|i: int| 0 <= i < args.len() - 1 && args[i] == "-o"@ && #[trigger] args[i + 1] == option
}

/// Every SSH and every copy command line asks no question, accepts no unknown
/// host key and offers no key but the configured one.
pub proof fn law_every_command_line_is_guarded(host: HostView)
    ensures
        sets_option(common_args(host), "BatchMode=yes"@),
        sets_option(common_args(host), "StrictHostKeyChecking=yes"@),
        sets_option(common_args(host), "IdentitiesOnly=yes"@),
        sets_option(scp_args(host), "BatchMode=yes"@),
        sets_option(scp_args(host), "StrictHostKeyChecking=yes"@),
        sets_option(scp_args(host), "IdentitiesOnly=yes"@),
{
    let c = common_args(host);
    assert(c[1] == "-o"@ && c[1int + 1] == "BatchMode=yes"@);
    assert(c[3] == "-o"@ && c[3int + 1] == "StrictHostKeyChecking=yes"@);
    assert(c[13] == "-o"@ && c[13int + 1] == "IdentitiesOnly=yes"@);
    let s = scp_args(host);
    assert(s[1] == "-o"@ && s[1int + 1] == "BatchMode=yes"@);
    assert(s[3] == "-o"@ && s[3int + 1] == "StrictHostKeyChecking=yes"@);
    assert(s[9] == "-o"@ && s[9int + 1] == "IdentitiesOnly=yes"@);
}

/// The account on a host.
pub open spec fn remote_account(host: HostView) -> Seq<char> {
    host.username + "@"@ + host.address
}

fn account(host: &HostConfig) -> (r: String)
    ensures
        r@ == remote_account(host@),
{
    let mut out = host.username.clone();
    out.append("@");
    out.append(host.address.as_str());
    out
}

/// The directory of the agent, below the home directory.
pub open spec fn agent_directory() -> Seq<char> {
    ".sshctx/agent/"@ + AGENT_VERSION@
}

fn agent_directory_text() -> (r: String)
    ensures
        r@ == agent_directory(),
{
    let mut out = ".sshctx/agent/".to_owned();
    out.append(AGENT_VERSION);
    out
}

/// A program with its arguments.
#[derive(Debug, PartialEq)]
pub struct CommandLine {
    pub program: String,
    pub args: Vec<String>,
}

/// What a command line says.
#[verifier::ext_equal]
pub struct CommandView {
    pub program: Seq<char>,
    pub args: Seq<Seq<char>>,
}

impl View for CommandLine {
    type V = CommandView;

    open spec fn view(&self) -> CommandView {
        CommandView { program: self.program@, args: views(self.args@) }
    }
}

/// The SSH command line that runs a shell command on a host.
pub open spec fn remote_command(platform: Platform, host: HostView, shell: Seq<char>) -> CommandView {
    CommandView {
        program: ssh_name(platform),
        args: common_args(host) + seq![remote_account(host), shell],
    }
}

fn run_remotely(platform: Platform, host: &HostConfig, shell: &str) -> (r: CommandLine)
    ensures
        r@ == remote_command(platform, host@, shell@),
{
    let mut args: Vec<String> = Vec::new();
    append_common_args(&mut args, host);
    push_text(&mut args, account(host).as_str());
    push_text(&mut args, shell);
    assert(views(args@) =~= common_args(host@) + seq![remote_account(host@), shell@]);
    CommandLine { program: ssh_program(platform), args }
}

/// The shell command that starts the agent with the roots that it may touch.
pub open spec fn serve_shell(host: HostView) -> Seq<char> {
    host.python + " ~/.sshctx/agent/"@ + AGENT_VERSION@ + "/agent.py serve --allowed-roots-json '"@ + compact_text(
        text_walk(host.allowed_roots),
    ) + "'"@
}

/// The command line of the connection that stays open to a host.
pub fn connect_command(platform: Platform, host: &HostConfig) -> (r: CommandLine)
    ensures
        r@ == remote_command(platform, host@, serve_shell(host@)),
{
    let list = Json::strings(&host.allowed_roots);
    let ghost walk = text_walk(host@.allowed_roots);
    assert forall|i: int| 0 <= i < walk.len() implies !(#[trigger] walk[i] is Float) by {}
    assert(reread(walk) =~= walk);
    let roots = list.to_compact().unwrap();
    let mut shell = host.python.clone();
    shell.append(" ~/.sshctx/agent/");
    shell.append(AGENT_VERSION);
    shell.append("/agent.py serve --allowed-roots-json '");
    shell.append(roots.as_str());
    shell.append("'");
    run_remotely(platform, host, shell.as_str())
}

/// The shell command that succeeds where the agent with this digest is in place.
pub open spec fn probe_shell(hash: Seq<char>) -> Seq<char> {
    "test -f ~/"@ + agent_directory() + "/agent.py && printf '%s  %s\\n' '"@ + hash + "' ~/"@ + agent_directory()
        + "/agent.py | sha256sum -c - >/dev/null"@
}

/// The shell command that makes the directories of the agent.
pub open spec fn make_directory_shell() -> Seq<char> {
    "mkdir -p ~/.sshctx/agent ~/"@ + agent_directory()
}

/// The shell command that puts an uploaded agent in place, if its digest is
/// this one.
pub open spec fn install_shell(remote_file: Seq<char>, hash: Seq<char>) -> Seq<char> {
    "test \"$(sha256sum "@ + remote_file + " | cut -d' ' -f1)\" = '"@ + hash + "' && chmod 700 "@ + remote_file
        + " && mv "@ + remote_file + " ~/"@ + agent_directory() + "/agent.py"@
}

/// The steps of a deployment, in their order.
#[derive(Clone, Copy, Debug, PartialEq, Eq, Structural)]
pub enum DeployStep {
    Probe,
    MakeDirectory,
    Upload,
    Install,
}

/// Why a deployment failed.
#[derive(Clone, Copy, Debug, PartialEq, Eq, Structural)]
pub enum DeployError {
    MakeDirectory,
    Upload,
    Install,
}

/// What follows a step of a deployment.
#[derive(Clone, Copy, Debug, PartialEq, Eq, Structural)]
pub enum DeployNext {
    Run(DeployStep),
    InPlace,
    Failed(DeployError),
}

impl DeployError {
    /// The message for a reader.
    pub fn message(&self) -> (r: String)
        ensures
            r@ == match *self {
                DeployError::MakeDirectory => "failed to create remote agent directory"@,
                DeployError::Upload => "failed to upload remote agent"@,
                DeployError::Install => "remote agent checksum or install failed"@,
            },
    {
        match self {
            DeployError::MakeDirectory => "failed to create remote agent directory".to_owned(),
            DeployError::Upload => "failed to upload remote agent".to_owned(),
            DeployError::Install => "remote agent checksum or install failed".to_owned(),
        }
    }
}

/// What follows a step of a deployment that succeeded or failed.
pub open spec fn deploy_after(step: DeployStep, success: bool) -> DeployNext {
    match (step, success) {
        (DeployStep::Probe, true) => DeployNext::InPlace,
        (DeployStep::Probe, false) => DeployNext::Run(DeployStep::MakeDirectory),
        (DeployStep::MakeDirectory, true) => DeployNext::Run(DeployStep::Upload),
        (DeployStep::MakeDirectory, false) => DeployNext::Failed(DeployError::MakeDirectory),
        (DeployStep::Upload, true) => DeployNext::Run(DeployStep::Install),
        (DeployStep::Upload, false) => DeployNext::Failed(DeployError::Upload),
        (DeployStep::Install, true) => DeployNext::InPlace,
        (DeployStep::Install, false) => DeployNext::Failed(DeployError::Install),
    }
}

/// What follows a step of a deployment that succeeded or failed.
pub fn deploy_next(step: DeployStep, success: bool) -> (r: DeployNext)
    ensures
        r == deploy_after(step, success),
{
    match step {
        DeployStep::Probe => if success {
            DeployNext::InPlace
        } else {
            DeployNext::Run(DeployStep::MakeDirectory)
        },
        DeployStep::MakeDirectory => if success {
            DeployNext::Run(DeployStep::Upload)
        } else {
            DeployNext::Failed(DeployError::MakeDirectory)
        },
        DeployStep::Upload => if success {
            DeployNext::Run(DeployStep::Install)
        } else {
            DeployNext::Failed(DeployError::Upload)
        },
        DeployStep::Install => if success {
            DeployNext::InPlace
        } else {
            DeployNext::Failed(DeployError::Install)
        },
    }
}

/// The place of a step in the order of steps.
pub open spec fn step_rank(step: DeployStep) -> nat {
    match step {
        DeployStep::Probe => 3,
        DeployStep::MakeDirectory => 2,
        DeployStep::Upload => 1,
        DeployStep::Install => 0,
    }
}

/// How a deployment ends that is at this step, where `succeeds` tells of each
/// step whether it succeeds.
pub open spec fn deploy_end(step: DeployStep, succeeds: spec_fn(DeployStep) -> bool) -> Option<DeployError>
    decreases step_rank(step),
{
    match deploy_after(step, succeeds(step)) {
        DeployNext::Run(next) => if step_rank(next) < step_rank(step) {
            deploy_end(next, succeeds)
        } else {
            None
        },
        DeployNext::InPlace => None,
        DeployNext::Failed(e) => Some(e),
    }
}

/// A deployment ends well exactly if the agent was in place already, or if the
/// directory was made, the upload succeeded and the digest of the uploaded file
/// was confirmed. Otherwise the first step that failed is reported.
pub proof fn law_deployment_ends_well_only_with_a_checked_agent(succeeds: spec_fn(DeployStep) -> bool)
    ensures
        deploy_end(DeployStep::Probe, succeeds) is None <==> succeeds(DeployStep::Probe) || (succeeds(
            DeployStep::MakeDirectory,
        ) && succeeds(DeployStep::Upload) && succeeds(DeployStep::Install)),
        deploy_end(DeployStep::Probe, succeeds) == Some(DeployError::MakeDirectory) <==> !succeeds(DeployStep::Probe)
            && !succeeds(DeployStep::MakeDirectory),
        deploy_end(DeployStep::Probe, succeeds) == Some(DeployError::Upload) <==> !succeeds(DeployStep::Probe)
            && succeeds(DeployStep::MakeDirectory) && !succeeds(DeployStep::Upload),
{
    reveal_with_fuel(deploy_end, 5);
}

/// The steps that a deployment takes from this one on, where `succeeds` tells of
/// each step whether it succeeds.
pub open spec fn deploy_steps(step: DeployStep, succeeds: spec_fn(DeployStep) -> bool) -> Seq<DeployStep>
    decreases step_rank(step),
{
    match deploy_after(step, succeeds(step)) {
        DeployNext::Run(next) => if step_rank(next) < step_rank(step) {
            seq![step] + deploy_steps(next, succeeds)
        } else {
            seq![step]
        },
        _ => seq![step],
    }
}

/// Nothing is copied to a host on which the agent is in place with the right
/// digest: the deployment then ends with that finding.
pub proof fn law_an_agent_in_place_is_not_copied_again(succeeds: spec_fn(DeployStep) -> bool)
    ensures
        succeeds(DeployStep::Probe) ==> deploy_steps(DeployStep::Probe, succeeds) == seq![DeployStep::Probe],
        deploy_steps(DeployStep::Probe, succeeds).contains(DeployStep::Upload) <==> !succeeds(DeployStep::Probe)
            && succeeds(DeployStep::MakeDirectory),
{
    reveal_with_fuel(deploy_steps, 5);
    let steps = deploy_steps(DeployStep::Probe, succeeds);
    if !succeeds(DeployStep::Probe) && succeeds(DeployStep::MakeDirectory) {
        assert(steps[2] == DeployStep::Upload);
    }
}

/// A deployment of one agent to one host.
#[derive(Debug, PartialEq)]
pub struct Deployment {
    pub platform: Platform,
    pub host: HostConfig,
    /// The digest of the agent.
    pub hash: String,
    /// Where the agent is uploaded to before it is put in place.
    pub remote_file: String,
    /// Where the agent lies to be uploaded from.
    pub local_file: String,
}

/// The name of the file that an agent is uploaded to.
pub open spec fn upload_name(id: Seq<char>) -> Seq<char> {
    "~/.sshctx/agent/.agent-"@ + id + ".tmp"@
}

/// The name of the file that an agent is uploaded from.
pub open spec fn staging_name(id: Seq<char>) -> Seq<char> {
    "sshctx-agent-"@ + id + ".py"@
}

/// The name of the file that an agent is uploaded from, with this identifier in it.
pub fn staging_file(id: &str) -> (r: String)
    ensures
        r@ == staging_name(id@),
{
    let mut out = "sshctx-agent-".to_owned();
    out.append(id);
    out.append(".py");
    out
}

/// A fresh name for the file that an agent is uploaded from.
pub fn new_staging_file() -> (r: String)
    ensures
        exists|id: Seq<char>| random_id(id) && r@ == staging_name(id),
{
    let id = fresh_id();
    staging_file(id.as_str())
}

/// What follows a step of the way to an open connection.
#[derive(Debug, PartialEq)]
pub enum ConnectStep {
    /// The next step of the deployment.
    Run(DeployStep, CommandLine),
    /// The agent is in place: open the connection.
    Serve(CommandLine),
    /// The deployment failed.
    Failed(DeployError),
}

/// What such a step says.
pub enum ConnectView {
    Run(DeployStep, CommandView),
    Serve(CommandView),
    Failed(DeployError),
}

impl View for ConnectStep {
    type V = ConnectView;

    open spec fn view(&self) -> ConnectView {
        match self {
            ConnectStep::Run(step, command) => ConnectView::Run(*step, command@),
            ConnectStep::Serve(command) => ConnectView::Serve(command@),
            ConnectStep::Failed(e) => ConnectView::Failed(*e),
        }
    }
}

/// The command lines of a list of steps.
pub open spec fn step_commands(deployment: Deployment, steps: Seq<DeployStep>) -> Seq<CommandView> {
    steps.map_values(|s: DeployStep| deployment.command_view(s))
}

/// The connection is opened only after a deployment that ended well, and as the
/// last thing: the command lines are those of the steps, in their order, and then
/// that of the connection. After a deployment that failed nothing more is run.
pub proof fn law_the_connection_follows_a_deployment_that_ended_well(
    deployment: Deployment,
    step: DeployStep,
    succeeds: spec_fn(DeployStep) -> bool,
)
    ensures
        deployment.commands_from(step, succeeds) == step_commands(deployment, deploy_steps(step, succeeds)) + (
        if deploy_end(step, succeeds) is None {
            seq![remote_command(deployment.platform, deployment.host@, serve_shell(deployment.host@))]
        } else {
            Seq::empty()
        }),
    decreases step_rank(step),
{
    match deploy_after(step, succeeds(step)) {
        DeployNext::Run(next) => {
            law_the_connection_follows_a_deployment_that_ended_well(deployment, next, succeeds);
            assert(step_commands(deployment, deploy_steps(step, succeeds)) =~= seq![deployment.command_view(step)]
                + step_commands(deployment, deploy_steps(next, succeeds)));
            assert(deployment.commands_from(step, succeeds) =~= seq![deployment.command_view(step)]
                + deployment.commands_from(next, succeeds));
        },
        _ => {
            assert(step_commands(deployment, deploy_steps(step, succeeds)) =~= seq![deployment.command_view(step)]);
        },
    }
}

impl Deployment {
    /// A deployment in which the uploaded file has this identifier in its name.
    pub fn with_id(platform: Platform, host: HostConfig, agent: &Vec<u8>, local_file: String, id: &str) -> (r: Self)
        ensures
            r.platform == platform,
            r.host == host,
            r.local_file == local_file,
            r.hash@ == hex_text(sha256(agent@)),
            r.remote_file@ == upload_name(id@),
    {
        let mut remote_file = "~/.sshctx/agent/.agent-".to_owned();
        remote_file.append(id);
        remote_file.append(".tmp");
        Deployment { platform, host, hash: hex_sha256(agent), remote_file, local_file }
    }

    /// A deployment of `agent` under a fresh name.
    pub fn new(platform: Platform, host: HostConfig, agent: &Vec<u8>, local_file: String) -> (r: Self)
        ensures
            r.platform == platform,
            r.host == host,
            r.local_file == local_file,
            r.hash@ == hex_text(sha256(agent@)),
            exists|id: Seq<char>| random_id(id) && r.remote_file@ == upload_name(id),
    {
        let id = fresh_id();
        Deployment::with_id(platform, host, agent, local_file, id.as_str())
    }

    /// The command line of a step.
    pub open spec fn command_view(self, step: DeployStep) -> CommandView {
        match step {
            DeployStep::Probe => remote_command(self.platform, self.host@, probe_shell(self.hash@)),
            DeployStep::MakeDirectory => remote_command(self.platform, self.host@, make_directory_shell()),
            DeployStep::Upload => CommandView {
                program: scp_name(self.platform),
                args: scp_args(self.host@) + seq![
                    self.local_file@,
                    remote_account(self.host@) + ":"@ + self.remote_file@,
                ],
            },
            DeployStep::Install => remote_command(
                self.platform,
                self.host@,
                install_shell(self.remote_file@, self.hash@),
            ),
        }
    }

    /// What follows a step of this deployment that succeeded or failed.
    pub open spec fn following(self, step: DeployStep, success: bool) -> ConnectView {
        match deploy_after(step, success) {
            DeployNext::Run(next) => ConnectView::Run(next, self.command_view(next)),
            DeployNext::InPlace => ConnectView::Serve(
                remote_command(self.platform, self.host@, serve_shell(self.host@)),
            ),
            DeployNext::Failed(e) => ConnectView::Failed(e),
        }
    }

    /// What follows a step that succeeded or failed: the next step with its
    /// command line, or the command line of the connection that stays open, once
    /// the agent is in place, or why there is none.
    pub fn after(&self, step: DeployStep, success: bool) -> (r: ConnectStep)
        ensures
            r@ == self.following(step, success),
    {
        match deploy_next(step, success) {
            DeployNext::Run(next) => ConnectStep::Run(next, self.command(next)),
            DeployNext::InPlace => ConnectStep::Serve(connect_command(self.platform, &self.host)),
            DeployNext::Failed(e) => ConnectStep::Failed(e),
        }
    }

    /// The command lines that are run from this step on, where `succeeds` tells
    /// of each step whether it succeeds.
    pub open spec fn commands_from(self, step: DeployStep, succeeds: spec_fn(DeployStep) -> bool) -> Seq<CommandView>
        decreases step_rank(step),
    {
        seq![self.command_view(step)] + match self.following(step, succeeds(step)) {
            ConnectView::Run(next, _) => if step_rank(next) < step_rank(step) {
                self.commands_from(next, succeeds)
            } else {
                Seq::empty()
            },
            ConnectView::Serve(command) => seq![command],
            ConnectView::Failed(_) => Seq::empty(),
        }
    }

    /// The command line of a step.
    pub fn command(&self, step: DeployStep) -> (r: CommandLine)
        ensures
            r@ == self.command_view(step),
    {
        let directory = agent_directory_text();
        match step {
            DeployStep::Probe => {
                let mut shell = "test -f ~/".to_owned();
                shell.append(directory.as_str());
                shell.append("/agent.py && printf '%s  %s\\n' '");
                shell.append(self.hash.as_str());
                shell.append("' ~/");
                shell.append(directory.as_str());
                shell.append("/agent.py | sha256sum -c - >/dev/null");
                run_remotely(self.platform, &self.host, shell.as_str())
            },
            DeployStep::MakeDirectory => {
                let mut shell = "mkdir -p ~/.sshctx/agent ~/".to_owned();
                shell.append(directory.as_str());
                run_remotely(self.platform, &self.host, shell.as_str())
            },
            DeployStep::Upload => {
                let mut args: Vec<String> = Vec::new();
                append_scp_args(&mut args, &self.host);
                push_text(&mut args, self.local_file.as_str());
                let mut target = account(&self.host);
                target.append(":");
                target.append(self.remote_file.as_str());
                push_text(&mut args, target.as_str());
                assert(views(args@) =~= self.command_view(step).args);
                CommandLine { program: scp_program(self.platform), args }
            },
            DeployStep::Install => {
                let mut shell = "test \"$(sha256sum ".to_owned();
                shell.append(self.remote_file.as_str());
                shell.append(" | cut -d' ' -f1)\" = '");
                shell.append(self.hash.as_str());
                shell.append("' && chmod 700 ");
                shell.append(self.remote_file.as_str());
                shell.append(" && mv ");
                shell.append(self.remote_file.as_str());
                shell.append(" ~/");
                shell.append(directory.as_str());
                shell.append("/agent.py");
                run_remotely(self.platform, &self.host, shell.as_str())
            },
        }
    }
}

/// Whether an argument list has this argument with that one right behind it.
pub open spec fn passes(args: Seq<Seq<char>>, name: Seq<char>, value: Seq<char>) -> bool {
    exists|i: int| 0 <= i < args.len() - 1 && args[i] == name && #[trigger] args[i + 1] == value
}

/// Every command line that is run on a host is run by the SSH client without a terminal,
/// with the configured port and key, as the configured user at the configured address,
/// and ends in the shell command. A connection that has died is noticed within a minute
/// and a half.
pub proof fn law_where_a_command_is_run(platform: Platform, host: HostView, shell: Seq<char>)
    ensures
        ({
            let command = remote_command(platform, host, shell);
            let args = command.args;
            &&& command.program == match platform {
                Platform::Unix => "ssh"@,
                Platform::Windows => "ssh.exe"@,
            }
            &&& args.contains("-T"@)
            &&& passes(args, "-o"@, "BatchMode=yes"@)
            &&& passes(args, "-o"@, "StrictHostKeyChecking=yes"@)
            &&& passes(args, "-o"@, "IdentitiesOnly=yes"@)
            &&& passes(args, "-o"@, "ServerAliveInterval=30"@)
            &&& passes(args, "-o"@, "ServerAliveCountMax=3"@)
            &&& passes(args, "-p"@, decimal(host.port as nat))
            &&& passes(args, "-i"@, host.identity_file)
            &&& args.len() >= 2
            &&& args[args.len() - 2] == host.username + seq!['@'] + host.address
            &&& args.last() == shell
        }),
{
    reveal_strlit("@");
    assert("@"@ =~= seq!['@']);
    let args = remote_command(platform, host, shell).args;
    assert(args[0] == "-T"@);
    assert(args[1] == "-o"@ && args[1int + 1] == "BatchMode=yes"@);
    assert(args[3] == "-o"@ && args[3int + 1] == "StrictHostKeyChecking=yes"@);
    assert(args[5] == "-o"@ && args[5int + 1] == "ServerAliveInterval=30"@);
    assert(args[7] == "-o"@ && args[7int + 1] == "ServerAliveCountMax=3"@);
    assert(args[9] == "-p"@ && args[9int + 1] == decimal(host.port as nat));
    assert(args[11] == "-i"@ && args[11int + 1] == host.identity_file);
    assert(args[13] == "-o"@ && args[13int + 1] == "IdentitiesOnly=yes"@);
    assert(remote_account(host) =~= host.username + seq!['@'] + host.address);
}

/// The agent is copied from where it lies to a new file on the host, by the copy program
/// with the configured port and key, as the configured user at the configured address.
pub proof fn law_where_the_agent_is_copied_to(deployment: Deployment)
    ensures
        ({
            let command = deployment.command_view(DeployStep::Upload);
            let args = command.args;
            let host = deployment.host;
            &&& command.program == match deployment.platform {
                Platform::Unix => "scp"@,
                Platform::Windows => "scp.exe"@,
            }
            &&& passes(args, "-o"@, "BatchMode=yes"@)
            &&& passes(args, "-o"@, "StrictHostKeyChecking=yes"@)
            &&& passes(args, "-o"@, "IdentitiesOnly=yes"@)
            &&& passes(args, "-P"@, decimal(host.port as nat))
            &&& passes(args, "-i"@, host.identity_file@)
            &&& args.len() >= 2
            &&& args[args.len() - 2] == deployment.local_file@
            &&& args.last() == host.username@ + seq!['@'] + host.address@ + seq![':'] + deployment.remote_file@
        }),
{
    reveal_strlit("@");
    reveal_strlit(":");
    assert("@"@ =~= seq!['@']);
    assert(":"@ =~= seq![':']);
    let host = deployment.host@;
    let args = deployment.command_view(DeployStep::Upload).args;
    assert(args[1] == "-o"@ && args[1int + 1] == "BatchMode=yes"@);
    assert(args[3] == "-o"@ && args[3int + 1] == "StrictHostKeyChecking=yes"@);
    assert(args[5] == "-P"@ && args[5int + 1] == decimal(host.port as nat));
    assert(args[7] == "-i"@ && args[7int + 1] == host.identity_file);
    assert(args[9] == "-o"@ && args[9int + 1] == "IdentitiesOnly=yes"@);
    assert(args.last() =~= host.username + seq!['@'] + host.address + seq![':'] + deployment.remote_file@);
}

/// The shell commands of a deployment. The agent is in place if its file is there with
/// this digest. The uploaded file is made executable for its owner and moved into place
/// only if it has this digest. The agent is started by the configured interpreter with
/// the allowed roots.
pub proof fn law_what_the_shell_is_told(host: HostView, hash: Seq<char>, remote_file: Seq<char>)
    ensures
        probe_shell(hash) == "test -f ~/.sshctx/agent/0.1.0/agent.py && printf '%s  %s\\n' '"@ + hash
            + "' ~/.sshctx/agent/0.1.0/agent.py | sha256sum -c - >/dev/null"@,
        make_directory_shell() == "mkdir -p ~/.sshctx/agent ~/.sshctx/agent/0.1.0"@,
        install_shell(remote_file, hash) == "test \"$(sha256sum "@ + remote_file + " | cut -d' ' -f1)\" = '"@ + hash
            + "' && chmod 700 "@ + remote_file + " && mv "@ + remote_file + " ~/.sshctx/agent/0.1.0/agent.py"@,
        serve_shell(host) == host.python + " ~/.sshctx/agent/0.1.0/agent.py serve --allowed-roots-json '"@
            + compact_text(text_walk(host.allowed_roots)) + "'"@,
{
    reveal_strlit("0.1.0");
    reveal_strlit(".sshctx/agent/");
    reveal_strlit("test -f ~/");
    reveal_strlit("/agent.py && printf '%s  %s\\n' '");
    reveal_strlit("' ~/");
    reveal_strlit("/agent.py | sha256sum -c - >/dev/null");
    reveal_strlit("test -f ~/.sshctx/agent/0.1.0/agent.py && printf '%s  %s\\n' '");
    reveal_strlit("' ~/.sshctx/agent/0.1.0/agent.py | sha256sum -c - >/dev/null");
    reveal_strlit("mkdir -p ~/.sshctx/agent ~/");
    reveal_strlit("mkdir -p ~/.sshctx/agent ~/.sshctx/agent/0.1.0");
    reveal_strlit(" ~/");
    reveal_strlit("/agent.py");
    reveal_strlit(" ~/.sshctx/agent/0.1.0/agent.py");
    reveal_strlit(" ~/.sshctx/agent/");
    reveal_strlit("/agent.py serve --allowed-roots-json '");
    reveal_strlit(" ~/.sshctx/agent/0.1.0/agent.py serve --allowed-roots-json '");
    let directory = agent_directory();
    assert("test -f ~/"@ + directory + "/agent.py && printf '%s  %s\\n' '"@
        =~= "test -f ~/.sshctx/agent/0.1.0/agent.py && printf '%s  %s\\n' '"@);
    assert("' ~/"@ + directory + "/agent.py | sha256sum -c - >/dev/null"@
        =~= "' ~/.sshctx/agent/0.1.0/agent.py | sha256sum -c - >/dev/null"@);
    assert(probe_shell(hash) =~= ("test -f ~/"@ + directory + "/agent.py && printf '%s  %s\\n' '"@) + hash + ("' ~/"@
        + directory + "/agent.py | sha256sum -c - >/dev/null"@));
    assert(make_directory_shell() =~= "mkdir -p ~/.sshctx/agent ~/.sshctx/agent/0.1.0"@);
    assert(" ~/"@ + directory + "/agent.py"@ =~= " ~/.sshctx/agent/0.1.0/agent.py"@);
    let front = "test \"$(sha256sum "@ + remote_file + " | cut -d' ' -f1)\" = '"@ + hash + "' && chmod 700 "@
        + remote_file + " && mv "@ + remote_file;
    assert(install_shell(remote_file, hash) =~= front + (" ~/"@ + directory + "/agent.py"@));
    assert(" ~/.sshctx/agent/"@ + AGENT_VERSION@ + "/agent.py serve --allowed-roots-json '"@
        =~= " ~/.sshctx/agent/0.1.0/agent.py serve --allowed-roots-json '"@);
    let list = compact_text(text_walk(host.allowed_roots)) + "'"@;
    assert(serve_shell(host) =~= host.python + (" ~/.sshctx/agent/"@ + AGENT_VERSION@
        + "/agent.py serve --allowed-roots-json '"@) + list);
}

/// Each step of a deployment runs its own shell command on the host: it looks for the
/// agent, makes its directory, and puts the uploaded file in place.
pub proof fn law_what_each_step_runs(deployment: Deployment)
    ensures
        deployment.command_view(DeployStep::Probe) == remote_command(
            deployment.platform,
            deployment.host@,
            probe_shell(deployment.hash@),
        ),
        deployment.command_view(DeployStep::MakeDirectory) == remote_command(
            deployment.platform,
            deployment.host@,
            make_directory_shell(),
        ),
        deployment.command_view(DeployStep::Install) == remote_command(
            deployment.platform,
            deployment.host@,
            install_shell(deployment.remote_file@, deployment.hash@),
        ),
{
}

/// A deployment looks for the agent first. If it is not there, the directory is made, the
/// agent is uploaded and then put in place, in this order, each only if what came before
/// succeeded.
pub proof fn law_the_order_of_a_deployment(succeeds: spec_fn(DeployStep) -> bool)
    ensures
        ({
            let steps = deploy_steps(DeployStep::Probe, succeeds);
            let all = seq![DeployStep::Probe, DeployStep::MakeDirectory, DeployStep::Upload, DeployStep::Install];
            if succeeds(DeployStep::Probe) {
                steps == all.take(1)
            } else if !succeeds(DeployStep::MakeDirectory) {
                steps == all.take(2)
            } else if !succeeds(DeployStep::Upload) {
                steps == all.take(3)
            } else {
                steps == all
            }
        }),
        deploy_end(DeployStep::Probe, succeeds) == Some(DeployError::Install) <==> !succeeds(DeployStep::Probe)
            && succeeds(DeployStep::MakeDirectory) && succeeds(DeployStep::Upload) && !succeeds(DeployStep::Install),
{
    reveal_with_fuel(deploy_steps, 5);
    reveal_with_fuel(deploy_end, 5);
    let steps = deploy_steps(DeployStep::Probe, succeeds);
    let all = seq![DeployStep::Probe, DeployStep::MakeDirectory, DeployStep::Upload, DeployStep::Install];
    if succeeds(DeployStep::Probe) {
        assert(steps =~= all.take(1));
    } else if !succeeds(DeployStep::MakeDirectory) {
        assert(steps =~= all.take(2));
    } else if !succeeds(DeployStep::Upload) {
        assert(steps =~= all.take(3));
    } else {
        assert(steps =~= all);
    }
}

/// The files of a deployment have its identifier in their names: the one on the host lies
/// beside the versions of the agent, and neither name serves two deployments.
pub proof fn law_deployments_do_not_share_files(id: Seq<char>, other: Seq<char>)
    ensures
        upload_name(id) == "~/.sshctx/agent/.agent-"@ + id + ".tmp"@,
        staging_name(id) == "sshctx-agent-"@ + id + ".py"@,
        id.len() == other.len() && upload_name(id) == upload_name(other) ==> id == other,
        id.len() == other.len() && staging_name(id) == staging_name(other) ==> id == other,
{
    let a = "~/.sshctx/agent/.agent-"@.len() as int;
    let b = "sshctx-agent-"@.len() as int;
    assert(upload_name(id).subrange(a, a + id.len()) =~= id);
    assert(upload_name(other).subrange(a, a + other.len()) =~= other);
    assert(staging_name(id).subrange(b, b + id.len()) =~= id);
    assert(staging_name(other).subrange(b, b + other.len()) =~= other);
}

/// What a command line says is its program and its arguments, in their order.
pub proof fn law_a_command_line_says_what_it_holds(command: CommandLine)
    ensures
        command@.program == command.program@,
        command@.args.len() == command.args@.len(),
        forall|i: int| 0 <= i < command.args@.len() ==> #[trigger] command@.args[i] == command.args@[i]@,
{
}

} // verus!
