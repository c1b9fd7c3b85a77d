use wrkflw_ui::microsandbox::{spawn_failure, ContainerError, MicrosandboxRuntime, Mount};

fn strings(v: &[&str]) -> Vec<String> {
    v.iter().map(|s| s.to_string()).collect()
}

#[test]
fn run_args_carry_env_mounts_and_command() {
    let rt = MicrosandboxRuntime::new();
    let inv = rt.run_container(
        "ubuntu:22.04",
        &strings(&["bash", "-c", "echo hi"]),
        &vec![("CI".to_string(), "true".to_string()), ("PATH".to_string(), "/opt/tool/bin".to_string())],
        "/github/workspace",
        &vec![
            Mount { host: "/home/u/proj".to_string(), is_file: false, container: "/github/workspace".to_string() },
            Mount { host: "/home/u/env".to_string(), is_file: true, container: "/github/env".to_string() },
        ],
        None,
    );
    assert_eq!(
        inv.args,
        strings(&[
            "run",
            "ubuntu:22.04",
            "-e",
            "CI=true",
            "-e",
            "PATH=/opt/tool/bin:/usr/local/sbin:/usr/local/bin:/usr/sbin:/usr/bin:/sbin:/bin",
            "--mount-dir",
            "/home/u/proj:/github/workspace",
            "--mount-file",
            "/home/u/env:/github/env",
            "-w",
            "/github/workspace",
            "--",
            "bash",
            "-c",
            "echo hi",
        ])
    );
    assert!(inv.warning.is_none());
}

#[test]
fn empty_command_runs_the_image_default() {
    let rt = MicrosandboxRuntime::default();
    let inv = rt.run_container("alpine", &vec![], &vec![], "/w", &vec![], Some(""));
    assert_eq!(inv.args, strings(&["run", "alpine", "-w", "/w"]));
    assert!(inv.warning.is_none());
}

#[test]
fn entrypoint_override_runs_as_the_command() {
    let rt = MicrosandboxRuntime::new();
    let inv = rt.run_container("img", &strings(&["--flag"]), &vec![], "/w", &vec![], Some("/entry.sh"));
    assert_eq!(inv.args, strings(&["run", "img", "-w", "/w", "--", "/entry.sh", "--flag"]));
    assert_eq!(
        inv.warning.as_deref(),
        Some("microsandbox cannot replace the image entrypoint — running '/entry.sh' as the command")
    );
}

#[test]
fn exit_codes_and_outputs_pass_through() {
    let rt = MicrosandboxRuntime::new();
    let out = rt.container_output("o".to_string(), "e".to_string(), Some(3));
    assert_eq!((out.stdout.as_str(), out.stderr.as_str(), out.exit_code), ("o", "e", 3));
    assert_eq!(rt.container_output(String::new(), String::new(), None).exit_code, -1);
}

#[test]
fn pull_failures_quote_trimmed_stderr() {
    let rt = MicrosandboxRuntime::new();
    assert!(rt.pull_image("alpine", true, "ignored").is_ok());
    match rt.pull_image("alpine", false, "  not found\n") {
        Err(ContainerError::ImagePull(m)) => assert_eq!(m, "msb pull alpine failed: not found"),
        _ => panic!("expected an ImagePull error"),
    }
}

#[test]
fn dockerfile_builds_are_refused() {
    let rt = MicrosandboxRuntime::new();
    match rt.build_image("app:dev") {
        Err(ContainerError::ImageBuild(m)) => assert_eq!(
            m,
            "the microsandbox runtime cannot build Dockerfiles (wanted 'app:dev') — it consumes OCI images from registries. Use --runtime docker for workflows with Dockerfile-based actions."
        ),
        _ => panic!("expected an ImageBuild error"),
    }
}

#[test]
fn language_images_use_stock_tags() {
    let rt = MicrosandboxRuntime::new();
    let ok = |l: &str, v: Option<&str>| match rt.prepare_language_environment(l, v, None) {
        Ok(s) => s,
        Err(_) => panic!("expected an image for {l}"),
    };
    assert_eq!(ok("python", None), "python:3.11-slim");
    assert_eq!(ok("python", Some("3.12")), "python:3.12");
    assert_eq!(ok("node", None), "node:20-slim");
    assert_eq!(ok("java", Some("21")), "eclipse-temurin:21");
    assert_eq!(ok("java", None), "eclipse-temurin:17-jdk");
    assert_eq!(ok("go", None), "golang:1.21-slim");
    assert_eq!(ok("dotnet", None), "mcr.microsoft.com/dotnet/sdk:7.0");
    assert_eq!(ok("dotnet", Some("8.0")), "mcr.microsoft.com/dotnet/sdk:8.0");
    assert_eq!(ok("rust", None), "rust:latest");
    match rt.prepare_language_environment("cobol", None, Some(vec!["x".to_string()])) {
        Err(ContainerError::ContainerStart(m)) => assert_eq!(m, "Unsupported language: cobol"),
        _ => panic!("expected a ContainerStart error"),
    }
}

#[test]
fn image_listing_is_searched_for_the_tag() {
    let rt = MicrosandboxRuntime::new();
    assert!(rt.image_exists(true, "REPO TAG\nalpine latest\nubuntu:22.04\n", "ubuntu:22.04"));
    assert!(!rt.image_exists(true, "alpine latest", "ubuntu"));
    assert!(!rt.image_exists(false, "ubuntu", "ubuntu"));
}

#[test]
fn spawn_failures_name_msb() {
    assert_eq!(spawn_failure("No such file or directory"), "Failed to execute msb: No such file or directory");
}

#[test]
fn spawn_errors_pick_the_variant_by_command() {
    match wrkflw_ui::microsandbox::spawn_error(wrkflw_ui::microsandbox::MsbCommand::Run, "gone") {
        ContainerError::ContainerStart(m) => assert_eq!(m, "Failed to execute msb: gone"),
        _ => panic!("expected ContainerStart"),
    }
    for c in [wrkflw_ui::microsandbox::MsbCommand::Pull, wrkflw_ui::microsandbox::MsbCommand::ImageList] {
        match wrkflw_ui::microsandbox::spawn_error(c, "gone") {
            ContainerError::ImagePull(m) => assert_eq!(m, "Failed to execute msb: gone"),
            _ => panic!("expected ImagePull"),
        }
    }
}

#[test]
fn pull_failures_trim_unicode_white_space() {
    let rt = MicrosandboxRuntime::new();
    match rt.pull_image("alpine", false, "\u{3000}\t denied\u{a0}\u{2029}\r\n") {
        Err(ContainerError::ImagePull(m)) => assert_eq!(m, "msb pull alpine failed: denied"),
        _ => panic!("expected an ImagePull error"),
    }
}
