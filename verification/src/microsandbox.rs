//! The microsandbox runtime: every container run boots a fresh microVM
//! through the `msb` command line. This module decides what `msb` is asked
//! to do and what its answers mean; starting the process is the caller's.
//!
//! `working_dir` is the path inside the VM (the mounts carry the host
//! mapping), an empty command runs the image's own entrypoint and command,
//! and stdout, stderr and the exit code are returned as they came.

use vstd::prelude::*;
use crate::text::{chars_eq, chars_of, contains_seq, owned, push_all, push_str, str_contains, string_of, strings_view, lemma_strings_view_push, trim_chars, trim_spec};

verus! {

broadcast use vstd::string::group_string_axioms;

/// A runtime that runs containers as microVMs.
pub struct MicrosandboxRuntime;

impl MicrosandboxRuntime {
    pub fn new() -> (r: Self)
        ensures
            r == MicrosandboxRuntime,
    {
        MicrosandboxRuntime
    }
}

impl Default for MicrosandboxRuntime {
    fn default() -> (r: Self)
        ensures
            r == MicrosandboxRuntime,
    {
        Self::new()
    }
}

/// Why a container operation failed.
pub enum ContainerError {
    ContainerStart(String),
    ImagePull(String),
    ImageBuild(String),
}

/// What a finished container run printed and how it exited.
pub struct ContainerOutput {
    pub stdout: String,
    pub stderr: String,
    pub exit_code: i32,
}

/// A host path mounted into the VM: the host side (already canonical),
/// whether it is a file (msb mounts files and directories differently),
/// and the path inside the VM.
pub struct Mount {
    pub host: String,
    pub is_file: bool,
    pub container: String,
}

/// What to run: the arguments for `msb`, and the warning to log first,
/// if any.
pub struct MsbInvocation {
    pub args: Vec<String>,
    pub warning: Option<String>,
}

/// The standard binary directories appended to a guest `PATH`.
pub open spec fn standard_bins() -> Seq<char> {
    ":/usr/local/sbin:/usr/local/bin:/usr/sbin:/usr/bin:/sbin:/bin"@
}

/// The `-e` value for one variable: `KEY=value`, except that `PATH` gets
/// the standard binary directories appended so shells in the VM resolve.
pub open spec fn env_assignment(key: Seq<char>, value: Seq<char>) -> Seq<char> {
    if key == "PATH"@ {
        "PATH="@ + value + standard_bins()
    } else {
        key + "="@ + value
    }
}

/// The `-e` arguments for the variables, in order.
pub open spec fn env_args(env: Seq<(String, String)>) -> Seq<Seq<char>>
    decreases env.len(),
{
    if env.len() == 0 {
        Seq::empty()
    } else {
        env_args(env.drop_last()) + seq!["-e"@, env_assignment(env.last().0@, env.last().1@)]
    }
}

/// The mount arguments: `--mount-file` or `--mount-dir`, then
/// `host:container`, for each mount in order.
pub open spec fn mount_args(mounts: Seq<Mount>) -> Seq<Seq<char>>
    decreases mounts.len(),
{
    if mounts.len() == 0 {
        Seq::empty()
    } else {
        let m = mounts.last();
        let flag = if m.is_file { "--mount-file"@ } else { "--mount-dir"@ };
        mount_args(mounts.drop_last()) + seq![flag, m.host@ + ":"@ + m.container@]
    }
}

/// The command run in the VM: a non-empty entrypoint override first (msb
/// keeps the image's entrypoint, so the override can only run as the
/// command), then the command's words.
pub open spec fn command_words(cmd: Seq<String>, entrypoint: Option<Seq<char>>) -> Seq<Seq<char>> {
    match entrypoint {
        Some(ep) if ep.len() > 0 => seq![ep] + strings_view(cmd),
        _ => strings_view(cmd),
    }
}

/// The full `msb` argument list for a run.
pub open spec fn run_args_spec(
    image: Seq<char>,
    cmd: Seq<String>,
    env: Seq<(String, String)>,
    working_dir: Seq<char>,
    mounts: Seq<Mount>,
    entrypoint: Option<Seq<char>>,
) -> Seq<Seq<char>> {
    let command = command_words(cmd, entrypoint);
    let tail = if command.len() > 0 { seq!["--"@] + command } else { Seq::empty() };
    seq!["run"@, image] + env_args(env) + mount_args(mounts) + seq!["-w"@, working_dir] + tail
}

proof fn lemma_env_args_at(env: Seq<(String, String)>, i: int)
    requires
        0 <= i < env.len(),
    ensures
        env_args(env).len() == 2 * env.len(),
        env_args(env)[2 * i] == "-e"@,
        env_args(env)[2 * i + 1] == (if env[i].0@ == "PATH"@ {
            "PATH="@ + env[i].1@ + ":/usr/local/sbin:/usr/local/bin:/usr/sbin:/usr/bin:/sbin:/bin"@
        } else {
            env[i].0@ + "="@ + env[i].1@
        }),
    decreases env.len(),
{
    lemma_env_args_len(env.drop_last());
    if i < env.len() - 1 {
        lemma_env_args_at(env.drop_last(), i);
        assert(env.drop_last()[i] == env[i]);
    }
}

proof fn lemma_env_args_len(env: Seq<(String, String)>)
    ensures
        env_args(env).len() == 2 * env.len(),
    decreases env.len(),
{
    if env.len() > 0 {
        lemma_env_args_len(env.drop_last());
    }
}

/// Each variable reaches `msb` as `-e` and `KEY=value` verbatim, in order;
/// only the key `PATH` itself gets the standard binary directories
/// appended (so that shells in the VM resolve).
pub proof fn law_env_vars_pass_through(
    image: Seq<char>,
    cmd: Seq<String>,
    env: Seq<(String, String)>,
    working_dir: Seq<char>,
    mounts: Seq<Mount>,
    entrypoint: Option<Seq<char>>,
    i: int,
)
    requires
        0 <= i < env.len(),
    ensures
        run_args_spec(image, cmd, env, working_dir, mounts, entrypoint)[2 + 2 * i] == "-e"@,
        env[i].0@ != "PATH"@ ==> run_args_spec(image, cmd, env, working_dir, mounts, entrypoint)[3 + 2 * i]
            == env[i].0@ + "="@ + env[i].1@,
        env[i].0@ == "PATH"@ ==> run_args_spec(image, cmd, env, working_dir, mounts, entrypoint)[3 + 2 * i]
            == "PATH="@ + env[i].1@ + ":/usr/local/sbin:/usr/local/bin:/usr/sbin:/usr/bin:/sbin:/bin"@,
{
    lemma_env_args_at(env, i);
}

/// The warning logged when an entrypoint override has to run as the
/// command.
pub open spec fn entrypoint_warning(entrypoint: Option<Seq<char>>) -> Option<Seq<char>> {
    match entrypoint {
        Some(ep) if ep.len() > 0 => Some(
            "microsandbox cannot replace the image entrypoint — running '"@ + ep + "' as the command"@,
        ),
        _ => None,
    }
}

/// The view of an optional string.
pub open spec fn opt_view(s: Option<&str>) -> Option<Seq<char>> {
    match s {
        Some(x) => Some(x@),
        None => None,
    }
}

fn push_owned(args: &mut Vec<String>, s: &str)
    ensures
        strings_view(final(args)@) == strings_view(old(args)@).push(s@),
{
    let x = owned(s);
    proof {
        lemma_strings_view_push(args@, x);
    }
    args.push(x);
}

fn push_chars(args: &mut Vec<String>, v: &Vec<char>)
    ensures
        strings_view(final(args)@) == strings_view(old(args)@).push(v@),
{
    let x = string_of(v.as_slice());
    proof {
        lemma_strings_view_push(args@, x);
    }
    args.push(x);
}

/// The stock image for a language: `<repository>:<version>` when a
/// version is asked for, else the default tag; `None` for a language
/// without a stock image.
pub open spec fn language_image(language: Seq<char>, version: Option<Seq<char>>) -> Option<Seq<char>> {
    let pick = |repo: Seq<char>, default: Seq<char>| match version {
        Some(v) => repo + ":"@ + v,
        None => default,
    };
    if language == "python"@ {
        Some(pick("python"@, "python:3.11-slim"@))
    } else if language == "node"@ {
        Some(pick("node"@, "node:20-slim"@))
    } else if language == "java"@ {
        Some(pick("eclipse-temurin"@, "eclipse-temurin:17-jdk"@))
    } else if language == "go"@ {
        Some(pick("golang"@, "golang:1.21-slim"@))
    } else if language == "dotnet"@ {
        Some(pick("mcr.microsoft.com/dotnet/sdk"@, "mcr.microsoft.com/dotnet/sdk:7.0"@))
    } else if language == "rust"@ {
        Some(pick("rust"@, "rust:latest"@))
    } else {
        None
    }
}

fn versioned(repo: &str, default: &str, version: Option<&str>) -> (r: String)
    ensures
        r@ == (match version {
            Some(v) => repo@ + ":"@ + v@,
            None => default@,
        }),
{
    match version {
        Some(v) => {
            let mut t: Vec<char> = Vec::new();
            push_str(&mut t, repo);
            push_str(&mut t, ":");
            push_str(&mut t, v);
            string_of(t.as_slice())
        },
        None => owned(default),
    }
}

fn is_word(s: &Vec<char>, w: &str) -> (r: bool)
    ensures
        r == (s@ == w@),
{
    let x = chars_of(w);
    chars_eq(s.as_slice(), x.as_slice())
}

/// Which `msb` invocation a failure belongs to.
#[derive(Clone, Copy, Debug, PartialEq, Eq, Structural)]
pub enum MsbCommand {
    /// `msb run`, for a container run.
    Run,
    /// `msb pull`.
    Pull,
    /// `msb image ls`, for the cache lookup.
    ImageList,
}

/// The failure message when `msb` itself could not be started.
pub fn spawn_failure(reason: &str) -> (m: String)
    ensures
        m@ == "Failed to execute msb: "@ + reason@,
{
    let mut t: Vec<char> = Vec::new();
    push_str(&mut t, "Failed to execute msb: ");
    push_str(&mut t, reason);
    string_of(t.as_slice())
}

/// The error when `msb` could not be started for `command`: a
/// `ContainerStart` for a run, an `ImagePull` for a pull or an image
/// listing, each with the failure message.
pub fn spawn_error(command: MsbCommand, reason: &str) -> (e: ContainerError)
    ensures
        match command {
            MsbCommand::Run => e matches ContainerError::ContainerStart(m) && m@ == "Failed to execute msb: "@ + reason@,
            _ => e matches ContainerError::ImagePull(m) && m@ == "Failed to execute msb: "@ + reason@,
        },
{
    let m = spawn_failure(reason);
    match command {
        MsbCommand::Run => ContainerError::ContainerStart(m),
        _ => ContainerError::ImagePull(m),
    }
}

impl MicrosandboxRuntime {
    /// What to ask `msb` for a container run: the image, `-e` per variable,
    /// a mount flag and `host:container` per mount, `-w` and the working
    /// directory, then `--` and the command when there is one.
    pub fn run_container(
        &self,
        image: &str,
        cmd: &Vec<String>,
        env_vars: &Vec<(String, String)>,
        working_dir: &str,
        volumes: &Vec<Mount>,
        entrypoint: Option<&str>,
    ) -> (inv: MsbInvocation)
        ensures
            strings_view(inv.args@) == run_args_spec(image@, cmd@, env_vars@, working_dir@, volumes@, opt_view(entrypoint)),
            match (inv.warning, entrypoint_warning(opt_view(entrypoint))) {
                (Some(w), Some(x)) => w@ == x,
                (None, None) => true,
                _ => false,
            },
    {
        let mut args: Vec<String> = Vec::new();
        push_owned(&mut args, "run");
        push_owned(&mut args, image);
        let ghost start = strings_view(args@);
        assert(start =~= seq!["run"@, image@]);
        let path = chars_of("PATH");
        let mut i: usize = 0;
        while i < env_vars.len()
            invariant
                i <= env_vars.len(),
                path@ == "PATH"@,
                strings_view(args@) == start + env_args(env_vars@.take(i as int)),
            decreases env_vars.len() - i,
        {
            let ghost before = strings_view(args@);
            assert(env_vars@.take(i + 1).drop_last() =~= env_vars@.take(i as int));
            let (k, v) = (&env_vars[i].0, &env_vars[i].1);
            push_owned(&mut args, "-e");
            let kc = chars_of(k.as_str());
            let mut t: Vec<char> = Vec::new();
            if chars_eq(kc.as_slice(), path.as_slice()) {
                push_str(&mut t, "PATH=");
                push_str(&mut t, v.as_str());
                push_str(&mut t, ":/usr/local/sbin:/usr/local/bin:/usr/sbin:/usr/bin:/sbin:/bin");
            } else {
                push_all(&mut t, kc.as_slice());
                push_str(&mut t, "=");
                push_str(&mut t, v.as_str());
            }
            push_chars(&mut args, &t);
            assert(strings_view(args@) =~= before + seq!["-e"@, env_assignment(k@, v@)]);
            i += 1;
        }
        assert(env_vars@.take(env_vars.len() as int) =~= env_vars@);
        let ghost after_env = strings_view(args@);
        let mut j: usize = 0;
        while j < volumes.len()
            invariant
                j <= volumes.len(),
                strings_view(args@) == after_env + mount_args(volumes@.take(j as int)),
            decreases volumes.len() - j,
        {
            let ghost before = strings_view(args@);
            assert(volumes@.take(j + 1).drop_last() =~= volumes@.take(j as int));
            let m = &volumes[j];
            if m.is_file {
                push_owned(&mut args, "--mount-file");
            } else {
                push_owned(&mut args, "--mount-dir");
            }
            let mut t: Vec<char> = Vec::new();
            push_str(&mut t, m.host.as_str());
            push_str(&mut t, ":");
            push_str(&mut t, m.container.as_str());
            push_chars(&mut args, &t);
            proof {
                let flag = if m.is_file { "--mount-file"@ } else { "--mount-dir"@ };
                assert(strings_view(args@) =~= before + seq![flag, m.host@ + ":"@ + m.container@]);
            }
            j += 1;
        }
        assert(volumes@.take(volumes.len() as int) =~= volumes@);
        push_owned(&mut args, "-w");
        push_owned(&mut args, working_dir);
        let ghost before_cmd = strings_view(args@);
        let mut command: Vec<String> = Vec::new();
        let mut warning: Option<String> = None;
        match entrypoint {
            Some(ep) => {
                let e = chars_of(ep);
                if e.len() > 0 {
                    let mut t: Vec<char> = Vec::new();
                    push_str(&mut t, "microsandbox cannot replace the image entrypoint — running '");
                    push_all(&mut t, e.as_slice());
                    push_str(&mut t, "' as the command");
                    warning = Some(string_of(t.as_slice()));
                    push_owned(&mut command, ep);
                }
            },
            None => {},
        }
        let ghost pre = strings_view(command@);
        let mut c: usize = 0;
        while c < cmd.len()
            invariant
                c <= cmd.len(),
                strings_view(command@) == pre + strings_view(cmd@).take(c as int),
            decreases cmd.len() - c,
        {
            push_owned(&mut command, cmd[c].as_str());
            assert(strings_view(cmd@).take(c + 1) =~= strings_view(cmd@).take(c as int).push(cmd@[c as int]@));
            c += 1;
        }
        assert(strings_view(cmd@).take(cmd.len() as int) =~= strings_view(cmd@));
        assert(strings_view(command@) =~= command_words(cmd@, opt_view(entrypoint)));
        if command.len() > 0 {
            push_owned(&mut args, "--");
            let ghost with_sep = strings_view(args@);
            let mut d: usize = 0;
            while d < command.len()
                invariant
                    d <= command.len(),
                    strings_view(args@) == with_sep + strings_view(command@).take(d as int),
                decreases command.len() - d,
            {
                push_owned(&mut args, command[d].as_str());
                assert(strings_view(command@).take(d + 1) =~= strings_view(command@).take(d as int).push(command@[d as int]@));
                d += 1;
            }
            assert(strings_view(command@).take(command.len() as int) =~= strings_view(command@));
        }
        assert(strings_view(args@) =~= run_args_spec(image@, cmd@, env_vars@, working_dir@, volumes@, opt_view(entrypoint)));
        MsbInvocation { args, warning }
    }

    /// The result of a run whose `msb` process exited: its output verbatim
    /// and its exit code, or -1 when it was ended by a signal.
    pub fn container_output(&self, stdout: String, stderr: String, code: Option<i32>) -> (out: ContainerOutput)
        ensures
            out.stdout == stdout,
            out.stderr == stderr,
            out.exit_code == (match code {
                Some(c) => c as int,
                None => -1int,
            }),
    {
        let exit_code = match code {
            Some(c) => c,
            None => -1,
        };
        ContainerOutput { stdout, stderr, exit_code }
    }

    /// What an `msb pull <image>` that exited means: success, or an
    /// `ImagePull` error quoting the image and the trimmed stderr.
    pub fn pull_image(&self, image: &str, success: bool, stderr: &str) -> (r: Result<(), ContainerError>)
        ensures
            success ==> r is Ok,
            !success ==> (r matches Err(ContainerError::ImagePull(m))
                && m@ == "msb pull "@ + image@ + " failed: "@ + trim_spec(stderr@)),
    {
        if success {
            return Ok(());
        }
        let mut t: Vec<char> = Vec::new();
        push_str(&mut t, "msb pull ");
        push_str(&mut t, image);
        push_str(&mut t, " failed: ");
        let e = chars_of(stderr);
        let trimmed = trim_chars(e.as_slice());
        push_all(&mut t, trimmed.as_slice());
        Err(ContainerError::ImagePull(string_of(t.as_slice())))
    }

    /// The image for a language toolchain: a stock image per language (no
    /// custom builds, so extra packages are not installed), or a
    /// `ContainerStart` error for a language without one.
    pub fn prepare_language_environment(
        &self,
        language: &str,
        version: Option<&str>,
        additional_packages: Option<Vec<String>>,
    ) -> (r: Result<String, ContainerError>)
        ensures
            match language_image(language@, opt_view(version)) {
                Some(img) => r matches Ok(s) && s@ == img,
                None => r matches Err(ContainerError::ContainerStart(m)) && m@ == "Unsupported language: "@ + language@,
            },
    {
        let l = chars_of(language);
        if is_word(&l, "python") {
            Ok(versioned("python", "python:3.11-slim", version))
        } else if is_word(&l, "node") {
            Ok(versioned("node", "node:20-slim", version))
        } else if is_word(&l, "java") {
            Ok(versioned("eclipse-temurin", "eclipse-temurin:17-jdk", version))
        } else if is_word(&l, "go") {
            Ok(versioned("golang", "golang:1.21-slim", version))
        } else if is_word(&l, "dotnet") {
            Ok(versioned("mcr.microsoft.com/dotnet/sdk", "mcr.microsoft.com/dotnet/sdk:7.0", version))
        } else if is_word(&l, "rust") {
            Ok(versioned("rust", "rust:latest", version))
        } else {
            let mut t: Vec<char> = Vec::new();
            push_str(&mut t, "Unsupported language: ");
            push_all(&mut t, l.as_slice());
            Err(ContainerError::ContainerStart(string_of(t.as_slice())))
        }
    }

    /// Dockerfile builds are refused: msb consumes OCI images only.
    pub fn build_image(&self, tag: &str) -> (r: Result<(), ContainerError>)
        ensures
            r matches Err(ContainerError::ImageBuild(m)) && m@ == "the microsandbox runtime cannot build Dockerfiles (wanted '"@
                + tag@ + "') — it consumes OCI images from registries. Use --runtime docker for workflows with Dockerfile-based actions."@,
    {
        let mut t: Vec<char> = Vec::new();
        push_str(&mut t, "the microsandbox runtime cannot build Dockerfiles (wanted '");
        push_str(&mut t, tag);
        push_str(&mut t, "') — it consumes OCI images from registries. Use --runtime docker for workflows with Dockerfile-based actions.");
        Err(ContainerError::ImageBuild(string_of(t.as_slice())))
    }

    /// Whether `tag` is cached: the `msb image ls` run succeeded and its
    /// listing mentions the tag.
    pub fn image_exists(&self, success: bool, listing: &str, tag: &str) -> (r: bool)
        ensures
            r == (success && contains_seq(listing@, tag@)),
    {
        success && str_contains(listing, tag)
    }
}

} // verus!
