use shell_prompt::path::shorten;
use shell_prompt::Prompt;

#[test]
fn shorten_keeps_requested_components() {
    assert_eq!(shorten("/home/alice/project", 0), "/h/a/p");
    assert_eq!(shorten("/home/alice/project", 1), "/h/a/project");
    assert_eq!(shorten("/home/alice/project", 2), "/h/alice/project");
    assert_eq!(shorten("/home/alice/project", 3), "/home/alice/project");
}

#[test]
fn shorten_keeps_all_when_level_exceeds_components() {
    assert_eq!(shorten("/home/alice/project", 4), "/home/alice/project");
    assert_eq!(shorten("/home/alice/project", 100), "/home/alice/project");
    assert_eq!(shorten("project", 1), "project");
}

#[test]
fn shorten_edge_paths() {
    assert_eq!(shorten("", 0), "");
    assert_eq!(shorten("/", 0), "/");
    assert_eq!(shorten("~/src//lib/", 0), "~/s//l/");
    assert_eq!(shorten("relative/path", 0), "r/p");
    assert_eq!(shorten("/héllo/wörld", 1), "/h/wörld");
}

#[test]
fn shorten_twice_is_shorten_once() {
    for keep in 0..4 {
        let once = shorten("/usr/local/share/applications", keep);
        assert_eq!(shorten(&once, keep), once);
    }
}

#[test]
fn shorten_single_character_components_is_identity() {
    assert_eq!(shorten("/u/l/share", 1), "/u/l/share");
    assert_eq!(shorten("/u/l/s", 0), "/u/l/s");
}

#[test]
fn shorten_path_method() {
    let p = Prompt::default();
    assert_eq!(p.shorten_path("/var/log/nginx", 1), "/v/l/nginx");
}
