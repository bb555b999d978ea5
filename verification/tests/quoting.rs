//! Escaping and quoting of single arguments.

use wslgit::policy::ShellMode;
use wslgit::quote;
use wslgit::translate;

fn v(s: &str) -> Vec<u8> {
    s.as_bytes().to_vec()
}

fn quote_i(s: &str) -> Vec<u8> {
    quote::quote_argument(ShellMode::Interactive, v(s))
}

fn quote_n(s: &str) -> Vec<u8> {
    quote::quote_argument(ShellMode::NonInteractive, v(s))
}

#[test]
fn escape_characters() {
    assert_eq!(quote::escape_characters(v("ab\ncdef")), v("ab$\'\n\'cdef"));
    assert_eq!(quote::escape_characters(v("ab\ncd ef")), v("ab$\'\n\'cd ef"));
    assert_eq!(
        quote::escape_characters(v(
            "--pretty=format:%H±.%aN±.%aE±.%at±.%cN±.%cE±.%ct±.%P±.%B<!--RevisionMessageEnd-->"
        )),
        v("--pretty=format:%H±.%aN±.%aE±.%at±.%cN±.%cE±.%ct±.%P±.%B\\<\\!--RevisionMessageEnd--\\>")
    );
    // Long arguments with newlines...
    assert_eq!(quote::escape_characters(v("--ab\ncdef")), v("--ab$\'\n\'cdef"));
    assert_eq!(quote::escape_characters(v("--ab\ncd ef")), v("--ab$\'\n\'cd ef"));
    assert_eq!(quote::escape_characters(v("ab\"cd ef\"")), v("ab\\\"cd ef\\\""));
}

#[test]
fn quote_argument_with_invalid_character() {
    assert_eq!(quote_i("abc def"), v("\"abc def\""));
    assert_eq!(quote_i("abc(def"), v("\"abc(def\""));
    assert_eq!(quote_i("abc)def"), v("\"abc)def\""));
    assert_eq!(quote_i("abc|def"), v("\"abc|def\""));
    // An argument already holding quote bytes is assumed pre-quoted by
    // the caller and is never wrapped again.
    assert_eq!(quote_i("\\\"abc def\\\""), v("\\\"abc def\\\""));
    assert_eq!(quote_i("user.(name|email)"), v("\"user.(name|email)\""));
}

#[test]
fn quote_long_argument_with_invalid_character() {
    assert_eq!(quote_i("--abc def"), v("\"--abc def\""));
    assert_eq!(quote_i("--abc=def"), v("--abc=def"));
    assert_eq!(quote_i("--abc=d ef"), v("\"--abc=d ef\""));
    assert_eq!(quote_i("--abc=d(ef"), v("\"--abc=d(ef\""));
    assert_eq!(quote_i("--abc=d)ef"), v("\"--abc=d)ef\""));
    assert_eq!(quote_i("--abc=d|ef"), v("\"--abc=d|ef\""));
    assert_eq!(quote_i("--pretty=format:a(b|c)d"), v("\"--pretty=format:a(b|c)d\""));
    assert_eq!(quote_i("--pretty=format:a (b | c) d"), v("\"--pretty=format:a (b | c) d\""));
    // Long arguments with invalid characters in argument name
    assert_eq!(quote_i("--abc(def"), v("\"--abc(def\""));
    assert_eq!(quote_i("--abc)def"), v("\"--abc)def\""));
    assert_eq!(quote_i("--abc|def"), v("\"--abc|def\""));
}

#[test]
fn quote_empty_argument() {
    // An empty argument is always an explicit empty-quoted token, in
    // either shell mode.
    assert_eq!(quote_i(""), v("\"\""));
    assert_eq!(quote_n(""), v("\"\""));
}

#[test]
fn quote_noninteractive_option_passes_through() {
    // In non-interactive mode an option-looking argument with an
    // invalid byte but no space passes through with one trailing
    // separator space instead of being wrapped.
    assert_eq!(quote_n("--abc(def"), v("--abc(def "));
    assert_eq!(quote_n("--abc=d|ef"), v("--abc=d|ef "));
    assert_eq!(quote_n("-n(1)"), v("-n(1) "));
    // A space forces the wrap even for an option-looking argument.
    assert_eq!(quote_n("--abc d(ef"), v("\"--abc d(ef\""));
    // A non-option argument is wrapped as in interactive mode.
    assert_eq!(quote_n("abc(def"), v("\"abc(def\""));
    // A pre-quoted option-looking argument stays untouched.
    assert_eq!(quote_n("--abc=\"d|ef\""), v("--abc=\"d|ef\""));
}

#[test]
fn quote_preserves_prequoted_argument() {
    // An argument that already carries a quote character is never
    // wrapped in additional quotes, whatever else it holds.
    assert_eq!(quote_i("\"abc\""), v("\"abc\""));
    assert_eq!(quote_i("ab\"cd"), v("ab\"cd"));
    assert_eq!(quote_i("\"abc def\""), v("\"abc def\""));
    assert_eq!(quote_n("\"abc def\""), v("\"abc def\""));
}

#[test]
fn formatted_path_argument_is_quoted() {
    // A translated absolute path holds spaces and parentheses from the
    // deferred conversion and no quote byte, so the formatted argument
    // is wrapped; the substitution still runs inside the quotes on the
    // remote side.
    let mut state = translate::initial_state();
    assert_eq!(
        translate::format_argument(
            v("D:\\test\\file.txt"),
            false,
            ShellMode::Interactive,
            &mut state
        ),
        v("\"$(wslpath 'D:\\test\\file.txt')\"")
    );
    assert_eq!(state.double_dash_found, false);
}

#[test]
fn plain_argument_unchanged_by_pipeline() {
    // Idempotence on plain arguments: the full translate, escape and
    // quote pipeline leaves them byte for byte in place, in either
    // shell mode.
    for arg in ["status", "--version", "-n1", "user.name", "--pretty=format:%H"] {
        for mode in [ShellMode::Interactive, ShellMode::NonInteractive] {
            let mut state = translate::initial_state();
            assert_eq!(translate::format_argument(v(arg), false, mode, &mut state), v(arg));
            let mut state = translate::TranslationState { double_dash_found: true };
            assert_eq!(translate::format_argument(v(arg), true, mode, &mut state), v(arg));
        }
    }
}
