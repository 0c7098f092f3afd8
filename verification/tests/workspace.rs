use rescue_codex::workspace::{last_path_component, normalize_workspace, project_key, project_label_from_cwd};

#[test]
fn extracts_project_names_from_windows_and_unix_paths() {
    assert_eq!(
        project_label_from_cwd(r"D:\Codes\rescue_codex"),
        "rescue_codex"
    );
    assert_eq!(
        project_label_from_cwd("/Users/tian/Codes/rescue_codex/"),
        "rescue_codex"
    );
    assert_eq!(
        last_path_component("~/Codes/rescue_codex"),
        Some("rescue_codex")
    );
}

#[test]
fn normalizes_workspace_paths_independent_of_host_os() {
    assert_eq!(
        normalize_workspace(r"D:\Codes\rescue_codex"),
        "d:/codes/rescue_codex"
    );
    assert_eq!(project_key("d:/codes/rescue_codex"), "rescue_codex");
    assert_eq!(project_key(r"d:\codes\rescue_codex"), "rescue_codex");
}

use rescue_codex::workspace::{matches_project_filter, normalize_project_filter, project_label_from_option};

#[test]
fn separators_do_not_change_project_names() {
    let windows = r"C:\Users\me\Work\Alpha";
    let unix = "C:/Users/me/Work/Alpha";
    assert_eq!(project_key(windows), project_key(unix));
    assert_eq!(project_label_from_cwd(windows), project_label_from_cwd(unix));
    assert_eq!(normalize_workspace(windows), normalize_workspace(unix));
    assert_eq!(project_key(windows), "alpha");
}

#[test]
fn paths_without_a_component_keep_their_text() {
    assert_eq!(last_path_component("///"), None);
    assert_eq!(last_path_component("  "), None);
    assert_eq!(project_key(r"\"), r"\");
    assert_eq!(project_key("/"), "/");
    assert_eq!(last_path_component("/a/ /"), Some("a"));
}

#[test]
fn labels_fall_back_to_unknown() {
    assert_eq!(project_label_from_option(None), "Unknown");
    assert_eq!(project_label_from_option(Some("   ")), "Unknown");
    assert_eq!(project_label_from_option(Some("/srv/app")), "app");
}

#[test]
fn project_filters_select_projects() {
    assert_eq!(normalize_project_filter(Some("  All ")), None);
    assert_eq!(normalize_project_filter(Some("   ")), None);
    assert_eq!(normalize_project_filter(None), None);
    assert_eq!(normalize_project_filter(Some(" Rescue_Codex ")).as_deref(), Some("rescue_codex"));
    assert!(matches_project_filter(Some(r"D:\Codes\Rescue_Codex"), Some("rescue_codex")));
    assert!(!matches_project_filter(Some("/x/other"), Some("rescue_codex")));
    assert!(!matches_project_filter(None, Some("rescue_codex")));
    assert!(matches_project_filter(None, None));
}
