use annotation_store::location::checkpoint_directory;
use annotation_store::{checkpoint_path, default_checkpoint_file, temp_path};
use std::path::Path;

#[test]
fn default_checkpoint_file_follows_the_socket_name() {
    let nvnmosd = default_checkpoint_file(Path::new("/tmp/nvnmosd.sock"));
    let other = default_checkpoint_file(Path::new("/tmp/other.sock"));
    assert_eq!(nvnmosd, Path::new("/tmp/nvnmosd.sock-annotations.json"));
    assert_eq!(other, Path::new("/tmp/other.sock-annotations.json"));
    assert_ne!(nvnmosd, other);
}

#[test]
fn default_checkpoint_file_of_odd_paths() {
    for (uds, expected) in [
        ("x.sock", "x.sock-annotations.json"),
        ("./x.sock", "./x.sock-annotations.json"),
        ("/x.sock", "/x.sock-annotations.json"),
        ("a//x.sock", "a/x.sock-annotations.json"),
        ("a/./x.sock", "a/x.sock-annotations.json"),
        ("a/x.sock/", "a/x.sock-annotations.json"),
        ("a/x.sock/.", "a/x.sock-annotations.json"),
        ("a/../x.sock", "a/../x.sock-annotations.json"),
        ("", "-annotations.json"),
        ("/", "/-annotations.json"),
        (".", "./-annotations.json"),
        ("..", "../-annotations.json"),
        ("a/..", "a/../-annotations.json"),
        ("/.", "/-annotations.json"),
    ] {
        assert_eq!(
            default_checkpoint_file(Path::new(uds)),
            Path::new(expected),
            "{uds}"
        );
    }
}

#[test]
fn setting_takes_the_place_of_the_default() {
    let uds = Path::new("/tmp/nvnmosd.sock");
    let default = Path::new("/tmp/nvnmosd.sock-annotations.json");
    assert_eq!(checkpoint_path(None, uds), default);
    assert_eq!(checkpoint_path(Some(""), uds), default);
    assert_eq!(checkpoint_path(Some(" \t\n\u{3000}"), uds), default);
    assert_eq!(checkpoint_path(Some("/var/x.json"), uds), Path::new("/var/x.json"));
    assert_eq!(
        checkpoint_path(Some("\u{a0} /var/a b.json \r\n"), uds),
        Path::new("/var/a b.json")
    );
}

#[test]
fn temporary_file_is_beside_the_checkpoint() {
    assert_eq!(temp_path(Path::new("/tmp/a.json")), Path::new("/tmp/a.json.tmp"));
    assert_eq!(temp_path(Path::new("a")).as_os_str(), "a.tmp");
    assert_eq!(temp_path(Path::new("a/")).as_os_str(), "a/.tmp");
}

#[test]
fn default_checkpoint_ends_in_its_name() {
    for (uds, name) in [
        ("/tmp/nvnmosd.sock", "nvnmosd.sock-annotations.json"),
        ("a//x.sock/", "x.sock-annotations.json"),
        ("a/x.sock/.", "x.sock-annotations.json"),
        ("x.sock", "x.sock-annotations.json"),
        ("", "-annotations.json"),
        ("/", "-annotations.json"),
        ("a/../", "-annotations.json"),
    ] {
        let path = default_checkpoint_file(Path::new(uds));
        assert!(path.to_str().unwrap().ends_with(name), "{uds}");
        let path = checkpoint_path(Some(" "), Path::new(uds));
        assert!(path.to_str().unwrap().ends_with(name), "{uds}");
    }
}

#[test]
fn temporary_file_of_the_default_checkpoint_is_beside_the_socket() {
    for (uds, expected) in [
        ("/tmp/nvnmosd.sock", "/tmp/nvnmosd.sock-annotations.json.tmp"),
        ("a//x.sock/", "a/x.sock-annotations.json.tmp"),
        ("x.sock/.", "x.sock-annotations.json.tmp"),
        ("a/..", "a/../-annotations.json.tmp"),
        ("/", "/-annotations.json.tmp"),
    ] {
        let checkpoint = default_checkpoint_file(Path::new(uds));
        let temporary = temp_path(&checkpoint);
        assert_eq!(temporary, Path::new(expected), "{uds}");
        assert_eq!(temporary.parent(), checkpoint.parent(), "{uds}");
    }
}

#[test]
fn directory_of_the_checkpoint() {
    for (path, expected) in [
        ("/tmp/a.json", Some("/tmp")),
        ("/a.json", Some("/")),
        ("dir/a.json", Some("dir")),
        ("./a.json", Some(".")),
        ("a.json", None),
        (".", None),
        ("", None),
        ("/", None),
        ("a/..", Some("a")),
    ] {
        assert_eq!(
            checkpoint_directory(Path::new(path)),
            expected.map(Path::new),
            "{path}"
        );
    }
}
