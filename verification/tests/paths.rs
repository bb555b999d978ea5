//! Path classification and translation of arguments.

use wslgit::policy::ShellMode;
use wslgit::translate;

fn v(s: &str) -> Vec<u8> {
    s.as_bytes().to_vec()
}

fn unix(s: &str) -> Vec<u8> {
    // No relative-path candidate of these arguments exists on disk, and
    // no terminator has been seen.
    translate::translate_path_to_unix(v(s), false, false)
}

fn unix_existing(s: &str) -> Vec<u8> {
    // The caller's existence check confirmed the relative candidate.
    translate::translate_path_to_unix(v(s), true, false)
}

#[test]
fn win_to_unix_path_trans() {
    assert_eq!(unix("D:\\test\\file.txt"), v("$(wslpath 'D:\\test\\file.txt')"));
    assert_eq!(unix("D:/test/file.txt"), v("$(wslpath 'D:/test/file.txt')"));
    assert_eq!(unix(" D:\\test\\file.txt"), v(" $(wslpath 'D:\\test\\file.txt')"));
    assert_eq!(unix(" D:/test/file.txt"), v(" $(wslpath 'D:/test/file.txt')"));
    assert_eq!(unix(":main:D:\\test\\file.txt"), v(":main:$(wslpath 'D:\\test\\file.txt')"));
    assert_eq!(unix(":main:D:/test/file.txt"), v(":main:$(wslpath 'D:/test/file.txt')"));
    assert_eq!(unix("1,1:D:\\test\\file.txt"), v("1,1:$(wslpath 'D:\\test\\file.txt')"));
    assert_eq!(unix("1,1:D:/test/file.txt"), v("1,1:$(wslpath 'D:/test/file.txt')"));
    assert_eq!(
        unix("C:\\Users\\test user\\my file.txt"),
        v("$(wslpath 'C:\\Users\\test user\\my file.txt')")
    );
    assert_eq!(
        unix("C:/Users/test user/my file.txt"),
        v("$(wslpath 'C:/Users/test user/my file.txt')")
    );
    assert_eq!(unix("\\\\path\\to\\file.txt"), v("$(wslpath '\\\\path\\to\\file.txt')"));
    // $ git commit --file="//wsl$/Ubuntu-20.04/home/"
    assert_eq!(
        unix("\\\\wsl$\\Ubuntu-20.04\\home"),
        v("$(wslpath '\\\\wsl$\\Ubuntu-20.04\\home')")
    );
    assert_eq!(unix("//wsl$/Ubuntu-20.04/home"), v("$(wslpath '//wsl$/Ubuntu-20.04/home')"));
}

#[test]
fn relative_path_translation() {
    assert_eq!(unix_existing("src\\main.rs"), v("src/main.rs"));
    assert_eq!(unix_existing("src/main.rs"), v("src/main.rs"));
    assert_eq!(unix_existing(".\\src\\main.rs"), v("./src/main.rs"));
    assert_eq!(unix_existing("./src/main.rs"), v("./src/main.rs"));
    assert_eq!(unix_existing("..\\wslgit\\src\\main.rs"), v("../wslgit/src/main.rs"));
    assert_eq!(unix_existing("../wslgit/src/main.rs"), v("../wslgit/src/main.rs"));

    assert_eq!(
        unix_existing("prefix:..\\wslgit\\src\\main.rs:postfix"),
        v("prefix:../wslgit/src/main.rs:postfix")
    );

    // A regular expression whose backslash body names no existing path
    // passes through untouched.
    assert_eq!(unix("^remote\\..*"), v("^remote\\..*"));

    assert_eq!(
        unix_existing("\"prefix:..\\wslgit\\src\\main.rs\""),
        v("\"prefix:../wslgit/src/main.rs\"")
    );
}

#[test]
fn relative_path_round_trip() {
    // A confirmed relative path comes back unchanged when the remote
    // dialect's forward slashes are mapped back on the caller's side.
    // The same holds with a delimited leading span — after a space or a
    // colon — since the span itself carries no separators.
    for path in ["src\\main.rs", "a b\\c d.txt", "-L 1,1:src\\main.rs", "x=..\\w\\y"] {
        let translated = unix_existing(path);
        let expected: Vec<u8> = v(path)
            .iter()
            .map(|&c| if c == b'\\' { b'/' } else { c })
            .collect();
        assert_eq!(translated, expected);
        let recovered: Vec<u8> =
            translated.iter().map(|&c| if c == b'/' { b'\\' } else { c }).collect();
        assert_eq!(recovered, v(path));
    }
}

#[test]
fn relative_path_after_double_dash() {
    let mode = ShellMode::NonInteractive;

    let mut state = translate::initial_state();
    assert_eq!(translate::format_argument(v("--"), false, mode, &mut state), v("--"));
    assert_eq!(state.double_dash_found, true);

    let mut state = translate::initial_state();
    assert_eq!(translate::format_argument(v("-"), false, mode, &mut state), v("-"));
    assert_eq!(state.double_dash_found, false);

    let mut state = translate::initial_state();
    assert_eq!(
        translate::format_argument(v("path\\to\\nonexisting\\file.txt"), false, mode, &mut state),
        v("path\\to\\nonexisting\\file.txt")
    );

    let mut state = translate::TranslationState { double_dash_found: true };
    assert_eq!(
        translate::format_argument(v("path\\to\\nonexisting\\file.txt"), false, mode, &mut state),
        v("path/to/nonexisting/file.txt")
    );
}

#[test]
fn relative_path_keeps_text_after_span() {
    // The unmatched span after the rewritten path passes through
    // verbatim, even across a newline that ends the matched span.
    assert_eq!(
        translate::translate_path_to_unix(v("a\\b\nc\\d"), false, true),
        v("a/b\nc\\d")
    );
    assert_eq!(
        translate::translate_path_to_unix(v("src\\main.rs\nmore text"), true, false),
        v("src/main.rs\nmore text")
    );
}

#[test]
fn git_url_translation() {
    // URLs with ssh, git, http[s] or ftp[s] prefix should not be translated
    assert_eq!(
        unix("ssh://user@host.xz:22/path/to/repo.git/"),
        v("ssh://user@host.xz:22/path/to/repo.git/")
    );
    assert_eq!(
        unix("ssh://user@host.xz/path/to/repo.git/"),
        v("ssh://user@host.xz/path/to/repo.git/")
    );
    assert_eq!(unix("ssh://host.xz/path/to/repo.git/"), v("ssh://host.xz/path/to/repo.git/"));
    assert_eq!(unix("user@host.xz/path/to/repo.git/"), v("user@host.xz/path/to/repo.git/"));
    assert_eq!(unix("host.xz/path/to/repo.git/"), v("host.xz/path/to/repo.git/"));

    assert_eq!(unix("git://host.xz/path/to/repo.git/"), v("git://host.xz/path/to/repo.git/"));
    assert_eq!(unix("http://host.xz/path/to/repo.git/"), v("http://host.xz/path/to/repo.git/"));
    assert_eq!(
        unix("https://host.xz/path/to/repo.git/"),
        v("https://host.xz/path/to/repo.git/")
    );
    assert_eq!(unix("ftp://host.xz/path/to/repo.git/"), v("ftp://host.xz/path/to/repo.git/"));
    assert_eq!(unix("ftps://host.xz/path/to/repo.git/"), v("ftps://host.xz/path/to/repo.git/"));

    assert_eq!(unix("file:///path/to/repo.git/"), v("file:///path/to/repo.git/"));
    assert_eq!(
        unix("file://C:/path/to/repo.git/"),
        v("file://$(wslpath 'C:/path/to/repo.git/')")
    );
    assert_eq!(
        unix("file://C:\\path\\to\\repo.git\\"),
        v("file://$(wslpath 'C:\\path\\to\\repo.git\\')")
    );

    assert_eq!(unix("file://path/to/repo.git/"), v("file://path/to/repo.git/"));
    assert_eq!(unix("file://path\\to\\repo.git\\"), v("file://path/to/repo.git/"));
}

#[test]
fn arguments_path_translation() {
    assert_eq!(unix("--file=C:\\some\\path.txt"), v("--file=$(wslpath 'C:\\some\\path.txt')"));
    assert_eq!(unix("--file=C:/some/path.txt"), v("--file=$(wslpath 'C:/some/path.txt')"));

    assert_eq!(
        unix("-c core.editor=C:\\some\\editor.exe"),
        v("-c core.editor=$(wslpath 'C:\\some\\editor.exe')")
    );
    assert_eq!(
        unix("-c core.editor=C:/some/editor.exe"),
        v("-c core.editor=$(wslpath 'C:/some/editor.exe')")
    );

    assert_eq!(
        unix("-c \"credential.helper=C:/Program Files/SmartGit/lib/credentials.cmd\""),
        v("-c \"credential.helper=$(wslpath 'C:/Program Files/SmartGit/lib/credentials.cmd')\"")
    );
}

#[test]
fn relative_path_candidate_extraction() {
    // The candidate handed to the caller's existence check is the
    // matched span after the absolute-path stage.
    assert_eq!(
        translate::relative_path_candidate(&v("src\\main.rs")),
        Some(v("src\\main.rs"))
    );
    assert_eq!(
        translate::relative_path_candidate(&v("prefix:..\\a\\b:postfix")),
        Some(v("..\\a\\b"))
    );
    assert_eq!(translate::relative_path_candidate(&v("no-path-here")), None);
    assert_eq!(translate::relative_path_candidate(&v("^remote\\..*")), Some(v("^remote\\..*")));
}
