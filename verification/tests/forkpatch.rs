//! Patching of editor arguments for the interactive-rebase helper.

use wslgit::fork;

fn v(s: &str) -> Vec<u8> {
    s.as_bytes().to_vec()
}

#[test]
fn patch_argument_for_fork() {
    let script = v("C:\\tools\\Fork.RI");

    let (patched, shared) = fork::patch_argument(&v("core.editor=C:\\one\\Fork.RI.exe"), &script);
    assert_eq!(patched, v("core.editor=C:\\tools\\Fork.RI"));
    assert_eq!(shared, Some(v("C:\\one\\Fork.RI.exe")));

    let (patched, shared) =
        fork::patch_argument(&v("sequence.editor=C:\\two\\Fork.RI.exe"), &script);
    assert_eq!(patched, v("sequence.editor=C:\\tools\\Fork.RI"));
    assert_eq!(shared, Some(v("C:\\two\\Fork.RI.exe")));
}

#[test]
fn patch_argument_leaves_other_editors() {
    let script = v("C:\\tools\\Fork.RI");

    // No helper executable named: nothing to patch, nothing to share.
    let (patched, shared) = fork::patch_argument(&v("core.editor=C:\\bin\\vim.exe"), &script);
    assert_eq!(patched, v("core.editor=C:\\bin\\vim.exe"));
    assert_eq!(shared, None);

    // No editor option at all.
    let (patched, shared) = fork::patch_argument(&v("user.name=Fork.RI.exe"), &script);
    assert_eq!(patched, v("user.name=Fork.RI.exe"));
    assert_eq!(shared, None);

    // The greedy capture runs to the last occurrence of the helper's
    // name on the line.
    let (patched, shared) =
        fork::patch_argument(&v("core.editor=C:\\Fork.RI.exe dir\\Fork.RI.exe"), &script);
    assert_eq!(patched, v("core.editor=C:\\tools\\Fork.RI"));
    assert_eq!(shared, Some(v("C:\\Fork.RI.exe dir\\Fork.RI.exe")));
}
