//! Rewriting of captured output back into the caller's dialect.

use wslgit::output;
use wslgit::output::OutputAction;

fn v(s: &str) -> Vec<u8> {
    s.as_bytes().to_vec()
}

fn vv(args: &[&str]) -> Vec<Vec<u8>> {
    args.iter().map(|a| v(a)).collect()
}

fn converted(line: &str) -> Vec<u8> {
    match output::translate_path_to_win(v(line)) {
        OutputAction::Convert(cmd) => cmd,
        OutputAction::Unchanged(_) => panic!("expected a conversion command"),
    }
}

#[test]
fn unix_to_win_path_trans() {
    // A line that reveals no absolute path passes through unchanged.
    match output::translate_path_to_win(v("nothing to see")) {
        OutputAction::Unchanged(b) => assert_eq!(b, v("nothing to see")),
        OutputAction::Convert(_) => panic!("expected a pass-through"),
    }

    // A revealed path defers the whole line remainder to one remote
    // conversion call.
    assert_eq!(
        converted("/tmp/wslgit test file"),
        v("echo -n \"$(wslpath -w '/tmp/wslgit test file')\"")
    );

    // A remote-listing annotation is moved back out of the call.
    assert_eq!(
        converted("origin  /tmp/wslgit test file (fetch)"),
        v("echo -n \"origin  $(wslpath -w '/tmp/wslgit test file') (fetch)\"")
    );

    assert_eq!(
        converted("mirror  /tmp/a (fetch)\nmirror  /tmp/a (push)\n"),
        v("echo -n \"mirror  $(wslpath -w '/tmp/a') (fetch)\nmirror  $(wslpath -w '/tmp/a') (push)\n\"")
    );
}

#[test]
fn output_translation_allow_list() {
    // Rewriting applies only to the fixed path-revealing subcommands;
    // for every other subcommand the captured bytes stay untouched.
    assert_eq!(output::should_translate_output(&vv(&["rev-parse", "--show-toplevel"])), true);
    assert_eq!(output::should_translate_output(&vv(&["remote", "-v"])), true);
    assert_eq!(output::should_translate_output(&vv(&["init"])), true);
    assert_eq!(output::should_translate_output(&vv(&["log", "-n1"])), false);
    assert_eq!(output::should_translate_output(&vv(&[])), false);

    let pathy = "/home/user/repo\n";
    match output::rewrite_output(&vv(&["log"]), v(pathy)) {
        OutputAction::Unchanged(b) => assert_eq!(b, v(pathy)),
        OutputAction::Convert(_) => panic!("output of a non-listed subcommand was rewritten"),
    }
    match output::rewrite_output(&vv(&["rev-parse"]), v(pathy)) {
        OutputAction::Convert(cmd) => {
            assert_eq!(cmd, v("echo -n \"$(wslpath -w '/home/user/repo')\n\""))
        },
        OutputAction::Unchanged(_) => panic!("output of a listed subcommand passed through"),
    }
}

#[test]
fn output_path_after_whitespace() {
    // A path in the middle of a line is found after whitespace, and the
    // byte before it stays in place.
    assert_eq!(
        converted("worktree /home/u/w"),
        v("echo -n \"worktree $(wslpath -w '/home/u/w')\"")
    );
}
