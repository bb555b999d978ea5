//! Shell-mode policy, working directory, distribution resolution,
//! environment sharing and command assembly.

use wslgit::command;
use wslgit::distro;
use wslgit::policy;
use wslgit::workdir;
use wslgit::wslenv;

fn v(s: &str) -> Vec<u8> {
    s.as_bytes().to_vec()
}

fn vv(args: &[&str]) -> Vec<Vec<u8>> {
    args.iter().map(|a| v(a)).collect()
}

fn shell(flag: Option<&str>, bash_env: Option<&str>, wslenv_val: Option<&str>) -> bool {
    // The arguments of a plain invocation that needs no remote access.
    let args = vv(&["--version"]);
    policy::use_interactive_shell(
        &flag.map(v),
        &bash_env.map(v),
        &wslenv_val.map(v),
        &args,
    )
}

#[test]
fn use_interactive_shell_test() {
    // Without remote-accessing arguments the default is non-interactive.
    let default_value = false;

    assert_eq!(shell(None, None, None), default_value);

    // disable using the override set to 'false' or '0'
    assert_eq!(shell(Some("false"), None, None), false);
    assert_eq!(shell(Some("0"), None, None), false);

    // enable using the override set to anything but 'false' and '0'
    assert_eq!(shell(Some("true"), None, None), true);
    assert_eq!(shell(Some("1"), None, None), true);

    // just having BASH_ENV is not enough
    assert_eq!(shell(None, Some("something"), None), default_value);

    // BASH_ENV must also be in WSLENV
    assert_eq!(shell(None, Some("something"), Some("BASH_ENV")), false);
    assert_eq!(shell(None, Some("something"), Some("BASH_ENV/up")), false);
    assert_eq!(shell(None, Some("something"), Some("BASH_ENV:TMP")), false);
    assert_eq!(shell(None, Some("something"), Some("BASH_ENV/up:TMP")), false);
    assert_eq!(shell(None, Some("something"), Some("TMP:BASH_ENV")), false);
    assert_eq!(shell(None, Some("something"), Some("TMP:BASH_ENV/up")), false);
    assert_eq!(shell(None, Some("something"), Some("TMP:BASH_ENV:TMP")), false);
    assert_eq!(shell(None, Some("something"), Some("TMP:BASH_ENV/up:TMP")), false);

    // the override wins over BASH_ENV
    assert_eq!(shell(Some("true"), Some("something"), Some("BASH_ENV")), true);

    assert_eq!(shell(None, Some("something"), Some("NOT_BASH_ENV/up")), default_value);
}

#[test]
fn smart_interactive_shell_follows_command() {
    // The adaptive override follows the remote-access allow-list.
    let remote = vv(&["clone", "http://host.xz/repo.git"]);
    let local = vv(&["log", "-n1"]);
    assert_eq!(policy::use_interactive_shell(&Some(v("smart")), &None, &None, &remote), true);
    assert_eq!(policy::use_interactive_shell(&Some(v("smart")), &None, &None, &local), false);
    assert_eq!(policy::git_command_needs_interactive_shell(&remote), true);
    assert_eq!(policy::git_command_needs_interactive_shell(&local), false);
    for cmd in ["clone", "fetch", "pull", "push", "ls-remote"] {
        assert_eq!(policy::git_command_needs_interactive_shell(&vv(&[cmd])), true);
    }
}

#[test]
fn get_working_directory_test() {
    let args = vv(&[]);
    assert_eq!(workdir::get_working_directory(v("C:\\repo\\"), &args, None), v("C:\\repo\\"));
    assert_eq!(
        workdir::get_working_directory(v("\\\\wsl$\\dist-name\\repo\\"), &args, None),
        v("\\\\wsl$\\dist-name\\repo\\")
    );

    let args = vv(&["cmd"]);
    assert_eq!(workdir::get_working_directory(v("C:\\repo\\"), &args, None), v("C:\\repo\\"));

    let args = vv(&["-c", "arg", "cmd"]);
    assert_eq!(workdir::get_working_directory(v("C:\\repo\\"), &args, None), v("C:\\repo\\"));

    let args = vv(&["-c", "arg", "-C", "relative", "cmd"]);
    assert_eq!(
        workdir::get_working_directory(v("C:\\repo\\"), &args, None),
        v("C:\\repo\\relative")
    );

    let args = vv(&["-c", "arg", "-C", "C:\\absolute", "cmd"]);
    assert_eq!(
        workdir::get_working_directory(v("C:\\repo\\"), &args, None),
        v("C:\\absolute")
    );

    let args = vv(&["-c", "arg", "-C", "a", "-C", "b", "cmd"]);
    assert_eq!(
        workdir::get_working_directory(v("C:\\repo\\"), &args, None),
        v("C:\\repo\\a\\b")
    );

    let args = vv(&["-c", "arg", "-C", "a", "cmd"]);
    assert_eq!(
        workdir::get_working_directory(v("C:\\repo\\"), &args, Some(v("b"))),
        v("C:\\repo\\a\\b")
    );

    let args = vv(&["-c", "arg", "-C", "a", "--work-tree=c", "cmd"]);
    assert_eq!(
        workdir::get_working_directory(v("C:\\repo\\"), &args, Some(v("b"))),
        v("C:\\repo\\a\\c")
    );
}

#[test]
fn working_directory_windows_join_corners() {
    // A path with a drive or UNC prefix replaces the base outright.
    let args = vv(&["-C", "\\\\other\\share\\x", "cmd"]);
    assert_eq!(
        workdir::get_working_directory(v("\\\\wsl$\\dist\\repo"), &args, None),
        v("\\\\other\\share\\x")
    );

    // A rooted path keeps the base's prefix: the drive of a drive
    // base, the server and share of a UNC base.
    let args = vv(&["-C", "\\foo", "cmd"]);
    assert_eq!(workdir::get_working_directory(v("C:\\repo"), &args, None), v("C:\\foo"));
    assert_eq!(
        workdir::get_working_directory(v("\\\\wsl$\\dist\\repo\\sub"), &args, None),
        v("\\\\wsl$\\dist\\foo")
    );

    // Joining onto a bare drive stays drive-relative: no separator is
    // inserted.
    let args = vv(&["-C", "rel", "cmd"]);
    assert_eq!(workdir::get_working_directory(v("C:"), &args, None), v("C:rel"));
}

#[test]
fn wsl_dist_name() {
    assert_eq!(
        distro::get_wsl_dist_name(&v("\\\\wsl$\\dist-name\\a\\b\\c"), None),
        Some(v("dist-name"))
    );
    assert_eq!(
        distro::get_wsl_dist_name(&v("\\\\wsl.localhost\\dist-name\\a\\b\\c"), None),
        Some(v("dist-name"))
    );
    assert_eq!(distro::get_wsl_dist_name(&v("\\\\server\\dist-name\\a\\b\\c"), None), None);
    assert_eq!(distro::get_wsl_dist_name(&v("C:\\a\\b\\c"), None), None);
}

#[test]
fn wsl_default_dist_name() {
    let dflt = || Some(v("some-dist"));
    assert_eq!(
        distro::get_wsl_dist_name(&v("\\\\wsl$\\dist-name\\a\\b\\c"), dflt()),
        Some(v("dist-name"))
    );
    assert_eq!(
        distro::get_wsl_dist_name(&v("\\\\server\\dist-name\\a\\b\\c"), dflt()),
        Some(v("some-dist"))
    );
    assert_eq!(distro::get_wsl_dist_name(&v("C:\\a\\b\\c"), dflt()), Some(v("some-dist")));
}

#[test]
fn share_variable_to_wsl() {
    // No WSLENV
    let entry = wslenv::wslenv_entry_exec(&v("VAR1"), false);
    assert_eq!(wslenv::wslenv_with_entry(&None, &entry), v("VAR1"));

    // Empty WSLENV
    let entry = wslenv::wslenv_entry_exec(&v("VAR2"), false);
    assert_eq!(wslenv::wslenv_with_entry(&Some(v("")), &entry), v("VAR2"));

    // Non-empty WSLENV
    let entry = wslenv::wslenv_entry_exec(&v("VAR3"), false);
    assert_eq!(wslenv::wslenv_with_entry(&Some(v("A")), &entry), v("A:VAR3"));

    // Variable already in WSLENV
    let entry = wslenv::wslenv_entry_exec(&v("VAR4"), false);
    assert_eq!(
        wslenv::wslenv_with_entry(&Some(v("VAR1:VAR2:VAR3:VAR4:VAR5")), &entry),
        v("VAR1:VAR2:VAR3:VAR4:VAR5")
    );

    // Variable already in WSLENV but without the /p flag
    let entry = wslenv::wslenv_entry_exec(&v("VAR5"), true);
    assert_eq!(entry, v("VAR5/p"));
    assert_eq!(
        wslenv::wslenv_with_entry(&Some(v("VAR1:VAR2:VAR3:VAR4:VAR5")), &entry),
        v("VAR1:VAR2:VAR3:VAR4:VAR5:VAR5/p")
    );
}

#[test]
fn command_line_assembly() {
    let cmd = command::build_git_command(&vv(&["log", "-n1", "\"a b\""]));
    assert_eq!(cmd, v("git log -n1 \"a b\""));
    assert_eq!(command::build_git_command(&vv(&[])), v("git"));

    let args = command::build_wsl_args(&None, false, v("git --version"));
    assert_eq!(args, vv(&["-e", "/bin/bash", "-c", "git --version"]));

    let args = command::build_wsl_args(&Some(v("Ubuntu")), true, v("git fetch"));
    assert_eq!(
        args,
        vv(&["--distribution", "Ubuntu", "-e", "/bin/bash", "-ic", "git fetch"])
    );
}
