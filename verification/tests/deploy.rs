use sshctx::config::HostConfig;
use sshctx::deploy::{
    connect_command, deploy_next, new_staging_file, scp_program, ssh_program, staging_file, CommandLine, ConnectStep, DeployError,
    DeployNext, DeployStep, Deployment, Platform, AGENT_VERSION,
};

fn host() -> HostConfig {
    HostConfig {
        address: "10.0.0.7".to_string(),
        port: 2222,
        username: "me".to_string(),
        identity_file: "/home/me/.ssh/id".to_string(),
        python: "python3".to_string(),
        allowed_roots: vec!["/data".to_string(), "/tmp/a \"b\"".to_string()],
        max_operations: 4,
    }
}

const COMMON: [&str; 15] = [
    "-T", "-o", "BatchMode=yes", "-o", "StrictHostKeyChecking=yes", "-o", "ServerAliveInterval=30", "-o",
    "ServerAliveCountMax=3", "-p", "2222", "-i", "/home/me/.ssh/id", "-o", "IdentitiesOnly=yes",
];

fn ssh(shell: &str) -> CommandLine {
    let mut args: Vec<String> = COMMON.iter().map(|s| s.to_string()).collect();
    args.push("me@10.0.0.7".to_string());
    args.push(shell.to_string());
    CommandLine { program: "ssh".to_string(), args }
}

#[test]
fn the_connection_names_the_roots() {
    assert_eq!(
        connect_command(Platform::Unix, &host()),
        ssh("python3 ~/.sshctx/agent/0.1.0/agent.py serve --allowed-roots-json '[\"/data\",\"/tmp/a \\\"b\\\"\"]'")
    );
    assert_eq!(connect_command(Platform::Windows, &host()).program, "ssh.exe");
    assert_eq!(AGENT_VERSION, "0.1.0");
}

#[test]
fn programs_of_the_platforms() {
    assert_eq!(ssh_program(Platform::Unix), "ssh");
    assert_eq!(ssh_program(Platform::Windows), "ssh.exe");
    assert_eq!(scp_program(Platform::Unix), "scp");
    assert_eq!(scp_program(Platform::Windows), "scp.exe");
}

#[test]
fn the_steps_of_a_deployment() {
    let hash = "ba7816bf8f01cfea414140de5dae2223b00361a396177a9cb410ff61f20015ad";
    let d = Deployment::with_id(Platform::Unix, host(), &b"abc".to_vec(), "/tmp/local.py".to_string(), "ID");
    assert_eq!(d.hash, hash);
    assert_eq!(
        d.command(DeployStep::Probe),
        ssh(&format!("test -f ~/.sshctx/agent/0.1.0/agent.py && printf '%s  %s\\n' '{hash}' ~/.sshctx/agent/0.1.0/agent.py | sha256sum -c - >/dev/null"))
    );
    assert_eq!(d.command(DeployStep::MakeDirectory), ssh("mkdir -p ~/.sshctx/agent ~/.sshctx/agent/0.1.0"));
    let upload = d.command(DeployStep::Upload);
    assert_eq!(upload.program, "scp");
    assert_eq!(
        upload.args,
        vec![
            "-q", "-o", "BatchMode=yes", "-o", "StrictHostKeyChecking=yes", "-P", "2222", "-i", "/home/me/.ssh/id",
            "-o", "IdentitiesOnly=yes", "/tmp/local.py", "me@10.0.0.7:~/.sshctx/agent/.agent-ID.tmp",
        ]
    );
    assert_eq!(
        d.command(DeployStep::Install),
        ssh(&format!("test \"$(sha256sum ~/.sshctx/agent/.agent-ID.tmp | cut -d' ' -f1)\" = '{hash}' && chmod 700 ~/.sshctx/agent/.agent-ID.tmp && mv ~/.sshctx/agent/.agent-ID.tmp ~/.sshctx/agent/0.1.0/agent.py"))
    );
}

#[test]
fn the_connection_follows_the_deployment() {
    let d = Deployment::with_id(Platform::Unix, host(), &b"abc".to_vec(), "/tmp/local.py".to_string(), "ID");
    let serve = || ConnectStep::Serve(connect_command(Platform::Unix, &host()));
    assert_eq!(d.after(DeployStep::Probe, true), serve());
    assert_eq!(
        d.after(DeployStep::Probe, false),
        ConnectStep::Run(DeployStep::MakeDirectory, d.command(DeployStep::MakeDirectory))
    );
    assert_eq!(
        d.after(DeployStep::MakeDirectory, true),
        ConnectStep::Run(DeployStep::Upload, d.command(DeployStep::Upload))
    );
    assert_eq!(
        d.after(DeployStep::Upload, true),
        ConnectStep::Run(DeployStep::Install, d.command(DeployStep::Install))
    );
    assert_eq!(d.after(DeployStep::Install, true), serve());
    assert_eq!(d.after(DeployStep::Install, false), ConnectStep::Failed(DeployError::Install));
}

#[test]
fn fresh_names_differ() {
    let a = Deployment::new(Platform::Unix, host(), &Vec::new(), "x".to_string());
    let b = Deployment::new(Platform::Unix, host(), &Vec::new(), "x".to_string());
    assert_ne!(a.remote_file, b.remote_file);
    assert_eq!(a.remote_file.len(), "~/.sshctx/agent/.agent-".len() + 36 + ".tmp".len());
    assert_ne!(new_staging_file(), new_staging_file());
    assert_eq!(staging_file("7"), "sshctx-agent-7.py");
}

#[test]
fn a_deployment_ends_with_a_checked_agent() {
    assert_eq!(deploy_next(DeployStep::Probe, true), DeployNext::InPlace);
    assert_eq!(deploy_next(DeployStep::Probe, false), DeployNext::Run(DeployStep::MakeDirectory));
    assert_eq!(deploy_next(DeployStep::MakeDirectory, true), DeployNext::Run(DeployStep::Upload));
    assert_eq!(deploy_next(DeployStep::MakeDirectory, false), DeployNext::Failed(DeployError::MakeDirectory));
    assert_eq!(deploy_next(DeployStep::Upload, true), DeployNext::Run(DeployStep::Install));
    assert_eq!(deploy_next(DeployStep::Upload, false), DeployNext::Failed(DeployError::Upload));
    assert_eq!(deploy_next(DeployStep::Install, true), DeployNext::InPlace);
    assert_eq!(deploy_next(DeployStep::Install, false), DeployNext::Failed(DeployError::Install));
    assert_eq!(DeployError::MakeDirectory.message(), "failed to create remote agent directory");
    assert_eq!(DeployError::Upload.message(), "failed to upload remote agent");
    assert_eq!(DeployError::Install.message(), "remote agent checksum or install failed");
}
