use aion::git::{
    is_staged, parse_stash_list, stage, status_to_label, unstage, FrontendStashAction,
    StashAction, StatusFlags,
};
use aion::settings::{
    apply_no_profile_args, resolve_shell_with_config, shell_info_from_path, shell_probe_targets,
    HostOs, ShellConfig, ShellInfo, ShellProbe,
};
use aion::spawn::plan_spawn;

fn probe(existing: &[&str], on_path: &[&str]) -> ShellProbe {
    ShellProbe {
        existing: existing.iter().map(|s| s.to_string()).collect(),
        on_path: on_path.iter().map(|s| s.to_string()).collect(),
    }
}

#[test]
fn default_unix_shell_is_a_login_zsh() {
    let config = ShellConfig::default();
    let info = resolve_shell_with_config(&config, None, HostOs::Unix, &probe(&["/bin/zsh"], &[]))
        .unwrap();
    assert_eq!(info.path, "/bin/zsh");
    assert_eq!(info.name, "zsh");
    assert_eq!(info.args, vec!["-l".to_string()]);
}

#[test]
fn unix_falls_back_in_order() {
    let mut config = ShellConfig::default();
    config.default_shell.darwin = "fish".to_string();
    config.profile_load = false;
    let info = resolve_shell_with_config(
        &config,
        None,
        HostOs::Unix,
        &probe(&["/usr/local/bin/fish", "/bin/zsh"], &[]),
    )
    .unwrap();
    assert_eq!(info.path, "/usr/local/bin/fish");
    assert_eq!(info.args, vec!["-l".to_string(), "--no-config".to_string()]);
    let none = resolve_shell_with_config(&config, None, HostOs::Unix, &probe(&[], &[]));
    assert_eq!(none.err().unwrap(), "failed to resolve unix shell");
}

#[test]
fn custom_shell_needs_a_path() {
    let mut config = ShellConfig::default();
    config.default_shell.darwin = "custom".to_string();
    let missing = resolve_shell_with_config(&config, None, HostOs::Unix, &probe(&[], &[]));
    assert_eq!(missing.err().unwrap(), "custom darwin shell path is missing");
    config.custom_paths.darwin = Some("/usr/bin/bash".to_string());
    let info = resolve_shell_with_config(
        &config,
        None,
        HostOs::Unix,
        &probe(&["/usr/bin/bash"], &[]),
    )
    .unwrap();
    assert_eq!(info.name, "custom");
    assert_eq!(info.args, vec!["-l".to_string()]);
}

#[test]
fn override_must_exist() {
    let config = ShellConfig::default();
    let r = resolve_shell_with_config(
        &config,
        Some("/opt/none/sh".to_string()),
        HostOs::Unix,
        &probe(&[], &[]),
    );
    assert_eq!(r.err().unwrap(), "shell path does not exist: /opt/none/sh");
    let ok = shell_info_from_path("C:\\Tools\\nu.exe", HostOs::Windows, &probe(&[], &["C:\\Tools\\nu.exe"]))
        .unwrap();
    assert_eq!(ok.name, "nu");
}

#[test]
fn windows_takes_first_on_path() {
    let mut config = ShellConfig::default();
    config.login_shell = true;
    config.profile_load = false;
    let info = resolve_shell_with_config(
        &config,
        None,
        HostOs::Windows,
        &probe(&[], &["powershell.exe", "cmd.exe"]),
    )
    .unwrap();
    assert_eq!(info.path, "powershell.exe");
    assert_eq!(info.name, "powershell");
    assert!(info.args.is_empty());
    let targets = shell_probe_targets(&config, &None, HostOs::Windows);
    assert_eq!(targets, vec!["pwsh.exe", "powershell.exe", "cmd.exe"]);
}

#[test]
fn no_profile_arguments_by_name() {
    let mut info = ShellInfo { path: "/bin/bash".into(), args: vec![], name: "Bash".into() };
    apply_no_profile_args(&mut info);
    assert_eq!(info.args, vec!["--noprofile".to_string(), "--norc".to_string()]);
    let mut other = ShellInfo { path: "/bin/sh".into(), args: vec![], name: "sh".into() };
    apply_no_profile_args(&mut other);
    assert!(other.args.is_empty());
}

#[test]
fn spawn_environment_merges_over_defaults() {
    let shell = ShellInfo { path: "/bin/zsh".into(), args: vec!["-l".into()], name: "zsh".into() };
    let defaults = vec![("A".to_string(), "1".to_string()), ("B".to_string(), "2".to_string())];
    let extra = Some(vec![("B".to_string(), "3".to_string()), ("TERM".to_string(), "dumb".to_string())]);
    let plan = plan_spawn(shell, &defaults, &extra, None, 80, 24);
    assert_eq!(plan.program, "/bin/zsh");
    assert_eq!(plan.cwd, ".");
    assert_eq!((plan.cols, plan.rows), (80, 24));
    let mut env = plan.env.clone();
    env.sort();
    assert_eq!(
        env,
        vec![
            ("A".to_string(), "1".to_string()),
            ("B".to_string(), "3".to_string()),
            ("TERM".to_string(), "xterm-256color".to_string()),
        ]
    );
}

#[test]
fn stash_listing_is_numbered() {
    let list = parse_stash_list("stash@{0}: WIP on main\r\nstash@{1}: fix\n");
    assert_eq!(list.len(), 2);
    assert_eq!(list[1].index, 1);
    assert_eq!(list[0].message, "stash@{0}: WIP on main");
    assert_eq!(list[1].oid, "stash-1");
    assert!(parse_stash_list("").is_empty());
    assert_eq!(parse_stash_list("only").len(), 1);
}

#[test]
fn status_labels() {
    let none = StatusFlags {
        index_new: false,
        index_modified: false,
        index_deleted: false,
        index_renamed: false,
        index_typechange: false,
        wt_new: false,
        wt_modified: false,
        wt_deleted: false,
        wt_renamed: false,
    };
    assert_eq!(status_to_label(&StatusFlags { wt_new: true, ..none }), "?");
    assert_eq!(status_to_label(&StatusFlags { index_new: true, ..none }), "A");
    assert_eq!(status_to_label(&StatusFlags { index_deleted: true, wt_modified: true, ..none }), "D");
    assert_eq!(status_to_label(&StatusFlags { index_renamed: true, ..none }), "R");
    assert_eq!(status_to_label(&none), "M");
    assert!(is_staged(&StatusFlags { index_typechange: true, ..none }));
    assert!(!is_staged(&StatusFlags { wt_modified: true, ..none }));
}

#[test]
fn stash_actions_convert() {
    assert_eq!(StashAction::from(FrontendStashAction::Drop), StashAction::Drop);
    assert_eq!(StashAction::from(FrontendStashAction::List), StashAction::List);
}

#[test]
fn staging_outside_a_repository_fails() {
    let r = stage("/nonexistent/aion/repo", vec!["a.txt".to_string()]);
    assert!(r.err().unwrap().starts_with("failed to discover repository: "));
    let u = unstage("/nonexistent/aion/repo", vec![]);
    assert!(u.err().unwrap().starts_with("failed to discover repository: "));
}
