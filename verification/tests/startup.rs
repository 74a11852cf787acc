use markdown_fs::startup::{open_folder, startup_target, StartupTarget};
use markdown_fs::Notification;

fn args(list: &[&str]) -> Vec<String> {
    let mut out = Vec::new();
    for item in list {
        out.push(item.to_string());
    }
    out
}

#[test]
fn no_argument_opens_nothing() {
    assert_eq!(startup_target(&args(&[])), StartupTarget::Nothing);
    assert_eq!(startup_target(&args(&["app"])), StartupTarget::Nothing);
}

#[test]
fn a_dot_opens_the_current_directory() {
    assert_eq!(startup_target(&args(&["app", "."])), StartupTarget::CurrentDirectory);
}

#[test]
fn any_other_argument_is_a_path() {
    assert_eq!(
        startup_target(&args(&["app", "docs"])),
        StartupTarget::Path("docs".to_string())
    );
    assert_eq!(startup_target(&args(&["app", ".."])), StartupTarget::Path("..".to_string()));
    assert_eq!(startup_target(&args(&["app", "./"])), StartupTarget::Path("./".to_string()));
    assert_eq!(startup_target(&args(&["app", ""])), StartupTarget::Path(String::new()));
}

#[test]
fn only_the_first_argument_counts() {
    assert_eq!(
        startup_target(&args(&["app", "/a", ".", "/b"])),
        StartupTarget::Path("/a".to_string())
    );
    assert_eq!(startup_target(&args(&["app", ".", "/b"])), StartupTarget::CurrentDirectory);
}

#[test]
fn a_resolved_path_is_announced() {
    assert_eq!(
        open_folder(Some("/home/me/docs".to_string())),
        Some(Notification { event: "open-folder".to_string(), payload: "/home/me/docs".to_string() })
    );
}

#[test]
fn a_path_that_did_not_resolve_is_passed_over() {
    assert_eq!(open_folder(None), None);
}
