use codex_profiles::project_home::check_project_root_markers;
use codex_profiles::project_home::marker_line;
use codex_profiles::project_home::project_home_for_base;
use codex_profiles::project_home::project_home_launch;
use codex_profiles::project_home::root_marker_files;
use codex_profiles::project_home::validate_project_id;

#[test]
fn prepare_project_home_creates_home_and_copies_auth() {
    let launch = project_home_launch("/tmp/t/codex-home", "demo", "/tmp/t/workspace")
        .expect("valid project id");

    assert_eq!(launch.codex_home, "/tmp/t/codex-home/projects/demo");
    assert_eq!(launch.base_codex_home, "/tmp/t/codex-home");
    assert_eq!(launch.project_id, "demo");
    assert_eq!(launch.project_root, "/tmp/t/workspace");
    assert_eq!(marker_line("/tmp/t/workspace"), "/tmp/t/workspace\n");
}

#[test]
fn prepare_project_home_uses_managed_profiles_project_dir() {
    let launch = project_home_launch(
        "/tmp/t/codex-switch/homes/account-a",
        "demo",
        "/tmp/t/workspace",
    )
    .expect("valid project id");

    assert_eq!(launch.codex_home, "/tmp/t/codex-switch/projects/demo");
    assert_eq!(
        project_home_for_base("/tmp/t/other/account-a", "demo"),
        "/tmp/t/other/account-a/projects/demo"
    );
}

#[test]
fn prepare_project_home_rejects_project_id_reuse_for_different_root() {
    let markers = vec![Some("/tmp/t/workspace-a\n".to_string()), None];
    let err = check_project_root_markers(&markers, "/tmp/t/workspace-b", "/tmp/t/home/projects/demo")
        .expect_err("project id should stay bound to its first root");

    assert!(err.contains("project id is already bound"));
    assert_eq!(
        err,
        "project id is already bound to /tmp/t/workspace-a; choose another id or remove /tmp/t/home/projects/demo"
    );
    assert_eq!(
        check_project_root_markers(&markers, "/tmp/t/workspace-a", "/h"),
        Ok(())
    );
    assert_eq!(
        check_project_root_markers(&vec![None, Some("/x".to_string())], "/y", "/h"),
        Err("project id is already bound to /x; choose another id or remove /h".to_string())
    );
    assert_eq!(
        root_marker_files(),
        vec![".codex-project-root", ".codex-profile-project-root"]
    );
}

#[test]
fn prepare_project_home_rejects_invalid_project_id() {
    let err = project_home_launch("/tmp/t", "../bad", "/tmp/w")
        .expect_err("path-like project ids should be rejected");

    assert_eq!(
        err,
        "invalid project id `../bad`: must start with an ASCII letter or digit"
    );
}

#[test]
fn project_id_checks_run_in_order() {
    assert_eq!(
        validate_project_id(""),
        Err("project id cannot be empty".to_string())
    );
    assert_eq!(validate_project_id("demo-1.2_x"), Ok(()));
    assert_eq!(
        validate_project_id("a/b"),
        Err("invalid project id `a/b`: use only ASCII letters, digits, '.', '_' or '-'".to_string())
    );
    let long = "a".repeat(65);
    assert_eq!(
        validate_project_id(&long),
        Err(format!("invalid project id `{long}`: must be 64 bytes or fewer"))
    );
    // 33 characters but 65 bytes: the length check comes first.
    let wide = format!("a{}", "é".repeat(32));
    assert_eq!(
        validate_project_id(&wide),
        Err(format!("invalid project id `{wide}`: must be 64 bytes or fewer"))
    );
    assert!(validate_project_id(&"a".repeat(64)).is_ok());
}

#[test]
fn marker_written_for_a_root_binds_the_id_to_it() {
    let markers = vec![Some(marker_line("/src/a")), None];
    assert_eq!(check_project_root_markers(&markers, "/src/a", "/h"), Ok(()));
    assert_eq!(
        check_project_root_markers(&markers, "/src/b", "/h"),
        Err("project id is already bound to /src/a; choose another id or remove /h".to_string())
    );
}
