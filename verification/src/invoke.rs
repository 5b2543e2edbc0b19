//! Construction of the external command lines the exporter runs.
//!
//! The library never runs a process itself: it builds the full program
//! name, argument list and environment overrides for each invocation — the
//! process lister, the per-process sampler, the container-runtime probes
//! and listings — and an external runner executes them and hands the raw
//! output back.

use vstd::prelude::*;
use crate::identity::host_scope_text;
use crate::text::views;

verus! {

/// One environment override.
pub struct EnvVar {
    pub name: String,
    pub value: String,
}

/// The views of environment overrides.
pub open spec fn env_views(es: Seq<EnvVar>) -> Seq<(Seq<char>, Seq<char>)> {
    es.map_values(|e: EnvVar| (e.name@, e.value@))
}

/// One fully built external command: program, arguments and environment.
pub struct CommandSpec {
    pub program: String,
    pub args: Vec<String>,
    pub env: Vec<EnvVar>,
}

/// A container-exec mechanism.
#[derive(Clone, Copy, PartialEq, Eq, Structural, Debug)]
pub enum Runtime {
    Docker,
    Crictl,
}

/// Pick the container runtime to exec through: the Docker-compatible one
/// when its probe succeeded, else the CRI one, else none.
pub fn select_runtime(docker_available: bool, crictl_available: bool) -> (r: Option<Runtime>)
    ensures
        r == if docker_available {
            Some(Runtime::Docker)
        } else if crictl_available {
            Some(Runtime::Crictl)
        } else {
            None::<Runtime>
        },
{
    if docker_available {
        Some(Runtime::Docker)
    } else if crictl_available {
        Some(Runtime::Crictl)
    } else {
        None
    }
}

/// The environment a set `JAVA_HOME` implies: the variable itself, and a
/// `PATH` that puts its `bin` directory first.
pub open spec fn java_home_env_views(jh: Seq<char>, path: Seq<char>) -> Seq<
    (Seq<char>, Seq<char>),
> {
    seq![("JAVA_HOME"@, jh), ("PATH"@, jh + "/bin:"@ + path)]
}

/// Build the environment overrides for an optional `JAVA_HOME`, given the
/// current `PATH` text.
pub fn java_home_env(java_home: Option<&String>, path: &String) -> (r: Vec<EnvVar>)
    ensures
        java_home is None ==> r@.len() == 0,
        java_home matches Some(jh) ==> env_views(r@) == java_home_env_views(jh@, path@),
{
    let mut r: Vec<EnvVar> = Vec::new();
    match java_home {
        None => r,
        Some(jh) => {
            r.push(EnvVar { name: String::from_str("JAVA_HOME"), value: jh.clone() });
            let mut p = jh.clone();
            p.append("/bin:");
            p.append(path.as_str());
            r.push(EnvVar { name: String::from_str("PATH"), value: p });
            proof {
                assert(env_views(r@) =~~= java_home_env_views(jh@, path@));
            }
            r
        },
    }
}

/// The sampler arguments on the host: the command, the pid, a sampling
/// interval of one second, one sample.
pub open spec fn host_jstat_args(cmd: Seq<char>, pid: Seq<char>) -> Seq<Seq<char>> {
    seq![cmd, pid, "1000"@, "1"@]
}

/// The sampler arguments through a container runtime.
pub open spec fn exec_jstat_args(container: Seq<char>, cmd: Seq<char>, pid: Seq<char>) -> Seq<
    Seq<char>,
> {
    seq!["exec"@, container, "jstat"@, cmd, pid, "1000"@, "1"@]
}

/// The environment clause shared by every invocation builder.
pub open spec fn env_ok(es: Seq<EnvVar>, java_home: Option<&String>, path: Seq<char>) -> bool {
    match java_home {
        None => es.len() == 0,
        Some(jh) => env_views(es) == java_home_env_views(jh@, path),
    }
}

/// Build the per-process sampler invocation: `jstat` directly on the host,
/// or wrapped through the available container runtime; none when the
/// process is in a container and no runtime is available.
pub fn jstat_invocation(
    container: &String,
    pid: &String,
    command: &String,
    docker_available: bool,
    crictl_available: bool,
    java_home: Option<&String>,
    path: &String,
) -> (r: Option<CommandSpec>)
    ensures
        container@ == host_scope_text() ==> (r matches Some(c) && c.program@ == "jstat"@ && views(
            c.args@,
        ) == host_jstat_args(command@, pid@) && env_ok(c.env@, java_home, path@)),
        container@ != host_scope_text() && docker_available ==> (r matches Some(c) && c.program@
            == "docker"@ && views(c.args@) == exec_jstat_args(container@, command@, pid@) && env_ok(
            c.env@,
            java_home,
            path@,
        )),
        container@ != host_scope_text() && !docker_available && crictl_available ==> (r matches Some(
            c,
        ) && c.program@ == "crictl"@ && views(c.args@) == exec_jstat_args(
            container@,
            command@,
            pid@,
        ) && env_ok(c.env@, java_home, path@)),
        container@ != host_scope_text() && !docker_available && !crictl_available ==> r is None,
{
    let env = java_home_env(java_home, path);
    if crate::text::str_eq(container.as_str(), "host") {
        let mut args: Vec<String> = Vec::new();
        args.push(command.clone());
        args.push(pid.clone());
        args.push(String::from_str("1000"));
        args.push(String::from_str("1"));
        proof {
            assert(views(args@) =~~= host_jstat_args(command@, pid@));
        }
        Some(CommandSpec { program: String::from_str("jstat"), args, env })
    } else if docker_available || crictl_available {
        let program = if docker_available {
            String::from_str("docker")
        } else {
            String::from_str("crictl")
        };
        let mut args: Vec<String> = Vec::new();
        args.push(String::from_str("exec"));
        args.push(container.clone());
        args.push(String::from_str("jstat"));
        args.push(command.clone());
        args.push(pid.clone());
        args.push(String::from_str("1000"));
        args.push(String::from_str("1"));
        proof {
            assert(views(args@) =~~= exec_jstat_args(container@, command@, pid@));
        }
        Some(CommandSpec { program, args, env })
    } else {
        None
    }
}

/// The lister arguments: list JVMs with their qualified names.
pub open spec fn host_jps_args() -> Seq<Seq<char>> {
    seq!["-l"@]
}

/// The lister arguments through a container runtime.
pub open spec fn exec_jps_args(container: Seq<char>) -> Seq<Seq<char>> {
    seq!["exec"@, container, "jps"@, "-l"@]
}

/// Build the process-lister invocation: `jps -l` directly on the host, or
/// wrapped through the available container runtime; none when the listing
/// is for a container and no runtime is available.
pub fn jps_invocation(
    container: &String,
    docker_available: bool,
    crictl_available: bool,
    java_home: Option<&String>,
    path: &String,
) -> (r: Option<CommandSpec>)
    ensures
        container@ == host_scope_text() ==> (r matches Some(c) && c.program@ == "jps"@ && views(
            c.args@,
        ) == host_jps_args() && env_ok(c.env@, java_home, path@)),
        container@ != host_scope_text() && docker_available ==> (r matches Some(c) && c.program@
            == "docker"@ && views(c.args@) == exec_jps_args(container@) && env_ok(
            c.env@,
            java_home,
            path@,
        )),
        container@ != host_scope_text() && !docker_available && crictl_available ==> (r matches Some(
            c,
        ) && c.program@ == "crictl"@ && views(c.args@) == exec_jps_args(container@) && env_ok(
            c.env@,
            java_home,
            path@,
        )),
        container@ != host_scope_text() && !docker_available && !crictl_available ==> r is None,
{
    let env = java_home_env(java_home, path);
    if crate::text::str_eq(container.as_str(), "host") {
        let mut args: Vec<String> = Vec::new();
        args.push(String::from_str("-l"));
        proof {
            assert(views(args@) =~~= host_jps_args());
        }
        Some(CommandSpec { program: String::from_str("jps"), args, env })
    } else if docker_available || crictl_available {
        let program = if docker_available {
            String::from_str("docker")
        } else {
            String::from_str("crictl")
        };
        let mut args: Vec<String> = Vec::new();
        args.push(String::from_str("exec"));
        args.push(container.clone());
        args.push(String::from_str("jps"));
        args.push(String::from_str("-l"));
        proof {
            assert(views(args@) =~~= exec_jps_args(container@));
        }
        Some(CommandSpec { program, args, env })
    } else {
        None
    }
}

/// The availability probe of a container runtime: its `ps` listing.
pub fn runtime_probe(runtime: Runtime) -> (r: CommandSpec)
    ensures
        runtime == Runtime::Docker ==> r.program@ == "docker"@,
        runtime == Runtime::Crictl ==> r.program@ == "crictl"@,
        views(r.args@) == seq!["ps"@],
        r.env@.len() == 0,
{
    let program = match runtime {
        Runtime::Docker => String::from_str("docker"),
        Runtime::Crictl => String::from_str("crictl"),
    };
    let mut args: Vec<String> = Vec::new();
    args.push(String::from_str("ps"));
    proof {
        assert(views(args@) =~~= seq!["ps"@]);
    }
    CommandSpec { program, args, env: Vec::new() }
}

/// The running-container listing of a runtime: ids only, one per line.
pub fn container_list_invocation(runtime: Runtime) -> (r: CommandSpec)
    ensures
        runtime == Runtime::Docker ==> r.program@ == "docker"@ && views(r.args@) == seq![
            "ps"@,
            "--format"@,
            "{{.ID}}"@,
        ],
        runtime == Runtime::Crictl ==> r.program@ == "crictl"@ && views(r.args@) == seq![
            "ps"@,
            "-q"@,
        ],
        r.env@.len() == 0,
{
    match runtime {
        Runtime::Docker => {
            let mut args: Vec<String> = Vec::new();
            args.push(String::from_str("ps"));
            args.push(String::from_str("--format"));
            args.push(String::from_str("{{.ID}}"));
            proof {
                assert(views(args@) =~~= seq!["ps"@, "--format"@, "{{.ID}}"@]);
            }
            CommandSpec { program: String::from_str("docker"), args, env: Vec::new() }
        },
        Runtime::Crictl => {
            let mut args: Vec<String> = Vec::new();
            args.push(String::from_str("ps"));
            args.push(String::from_str("-q"));
            proof {
                assert(views(args@) =~~= seq!["ps"@, "-q"@]);
            }
            CommandSpec { program: String::from_str("crictl"), args, env: Vec::new() }
        },
    }
}

} // verus!
