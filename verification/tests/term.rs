use fy_docs::term::{display_path, strip_verbatim, strip_verbatim_for};

#[test]
fn displays_normal_windows_paths_without_verbatim_prefix() {
    assert_eq!(strip_verbatim_for(r"\\?\D:\Code\fy", true), r"D:\Code\fy");
}

#[test]
fn strips_verbatim_prefixes_anywhere_in_text() {
    // typst embeds the path inside its diagnostic, not at the start.
    assert_eq!(
        strip_verbatim_for(r"warning: x ┌─ \\?\D:\Code\fy\docs\main.typ:42:1", true),
        r"warning: x ┌─ D:\Code\fy\docs\main.typ:42:1"
    );
    assert_eq!(
        strip_verbatim_for(r"\\?\UNC\server\share\a.typ", true),
        r"\\server\share\a.typ"
    );
}

#[test]
fn preserves_native_unix_paths() {
    assert_eq!(display_path("/tmp/fy-docs"), "/tmp/fy-docs");
}

#[test]
fn text_is_kept_where_paths_are_not_windows_paths() {
    assert_eq!(strip_verbatim_for(r"\\?\D:\x", false), r"\\?\D:\x");
    assert_eq!(strip_verbatim("plain text"), "plain text");
}
