use msh::command::{app_root, is_missing, metadata_paths, resolve_command_path};
use msh::error::{ErrorKind, ShellError};
use msh::font::{parse_font_metrics, FontMetrics};
use msh::metadata::{
    bounded_text, join_path, parse_toml_string_field, parse_toml_string_literal,
    resolve_app_entry, MAX_APP_METADATA_BYTES,
};

fn some(text: &str) -> Option<String> {
    Some(text.to_string())
}

fn failure(kind: ErrorKind, message: &str) -> ShellError {
    ShellError::Failure { kind, message: message.to_string() }
}

#[test]
fn string_literals() {
    assert_eq!(parse_toml_string_literal(r#" "a b" "#), some("a b"));
    assert_eq!(parse_toml_string_literal(r#""a" # rest"#), some("a"));
    assert_eq!(parse_toml_string_literal(r#""\"\\\n\r\t\x""#), some("\"\\\n\r\tx"));
    assert_eq!(parse_toml_string_literal(r#""""#), some(""));
    assert_eq!(parse_toml_string_literal("a"), None);
    assert_eq!(parse_toml_string_literal(""), None);
    assert_eq!(parse_toml_string_literal("'a'"), None);
    assert_eq!(parse_toml_string_literal("\"a"), None);
    assert_eq!(parse_toml_string_literal("\"a\\"), None);
    assert_eq!(parse_toml_string_literal("\"a\\\""), None);
}

#[test]
fn string_fields() {
    let text = "[app]\r\nname = \"Term\"\r\n  entry=\"bin/term\"  \r\nentry = \"other\"\n";
    assert_eq!(parse_toml_string_field(text, "name"), some("Term"));
    assert_eq!(parse_toml_string_field(text, "entry"), some("bin/term"));
    assert_eq!(parse_toml_string_field(text, "path"), None);
    assert_eq!(parse_toml_string_field(text, "[app]"), None);
    assert_eq!(parse_toml_string_field("", "a"), None);
    assert_eq!(parse_toml_string_field("a = \"=\"", "a"), some("="));
    assert_eq!(parse_toml_string_field("\n\na = \"1\"", "a"), some("1"));
}

#[test]
fn first_line_of_a_field_decides() {
    assert_eq!(parse_toml_string_field("a = 1\na = \"x\"", "a"), None);
    assert_eq!(parse_toml_string_field("b = 1\na = \"x\"", "a"), some("x"));
    assert_eq!(parse_toml_string_field("= \"x\"", ""), some("x"));
}

#[test]
fn a_written_string_reads_back() {
    let text = "path = \"C:\\\\a \\\"b\\\"\\n\\t\"\nmore";
    assert_eq!(parse_toml_string_field(text, "path"), some("C:\\a \"b\"\n\t"));
}

#[test]
fn files_are_bounded() {
    assert_eq!(MAX_APP_METADATA_BYTES, 64 * 1024);
    assert_eq!(bounded_text("/f", b"abc", 3), Ok("abc".to_string()));
    assert_eq!(
        bounded_text("/f", b"abcd", 3),
        Err(failure(ErrorKind::InvalidData, "/f: app metadata too large"))
    );
    assert_eq!(
        bounded_text("/f", &[0xff], 3),
        Err(failure(ErrorKind::InvalidData, "/f: invalid utf-8"))
    );
    assert_eq!(bounded_text("/f", "é".as_bytes(), 2), Ok("é".to_string()));
}

#[test]
fn paths_are_joined_as_std_joins_them() {
    for base in ["", "/", "/a", "/a/", "a", "a//"] {
        for path in ["", "b", "/b", "b/c", "./b", "../b", "/"] {
            let expected = std::path::PathBuf::from(base).join(path);
            assert_eq!(join_path(base, path), expected.to_str().unwrap(), "{base} {path}");
        }
    }
}

#[test]
fn entry_of_an_application() {
    let about = some("entry = \"bin/term\"");
    let manifest = some("path = \"/opt/term\"");
    let none = some("");
    assert_eq!(resolve_app_entry("/a.app", &about, &manifest), Ok("/a.app/bin/term".to_string()));
    assert_eq!(resolve_app_entry("/a.app", &none, &manifest), Ok("/opt/term".to_string()));
    assert_eq!(
        resolve_app_entry("/a.app", &None, &manifest),
        Err(failure(ErrorKind::NotFound, "/a.app: app about.toml not found"))
    );
    assert_eq!(
        resolve_app_entry("/a.app", &about, &None),
        Err(failure(ErrorKind::NotFound, "/a.app: app manifest.toml not found"))
    );
    assert_eq!(
        resolve_app_entry("/a.app", &none, &none),
        Err(failure(ErrorKind::InvalidData, "/a.app: app entry not found"))
    );
}

#[test]
fn command_paths() {
    let about = some("entry = \"run\"");
    let manifest = some("");
    assert_eq!(resolve_command_path("ls", &None, &None), Ok("/bin/ls".to_string()));
    assert_eq!(resolve_command_path("./ls", &None, &None), Ok("./ls".to_string()));
    assert_eq!(resolve_command_path("ls", &about, &manifest), Ok("/bin/ls".to_string()));
    assert_eq!(
        resolve_command_path("term.app", &about, &manifest),
        Ok("/applications/term.app/run".to_string())
    );
    assert_eq!(
        resolve_command_path("x/term.app", &about, &manifest),
        Ok("x/term.app/run".to_string())
    );
    assert_eq!(
        resolve_command_path("term.app", &None, &None),
        Err(failure(ErrorKind::NotFound, "/applications/term.app: app about.toml not found"))
    );
}

#[test]
fn application_directories() {
    assert_eq!(app_root("term.app"), some("/applications/term.app"));
    assert_eq!(app_root("/x/term.app"), some("/x/term.app"));
    assert_eq!(app_root("term"), None);
    assert_eq!(app_root("term.app/"), None);
    assert_eq!(
        metadata_paths("/x.app"),
        ("/x.app/about.toml".to_string(), "/x.app/manifest.toml".to_string())
    );
}

#[test]
fn missing_programs() {
    assert!(is_missing("/bin/x", false));
    assert!(!is_missing("/bin/x", true));
    assert!(!is_missing("/x.app", false));
}

#[test]
fn font_sizes() {
    let size = |width: usize, height: usize| FontMetrics { width, height };
    assert_eq!(parse_font_metrics("STARTFONT 2.1\nFONTBOUNDINGBOX 6 12 0 -2\n"), size(6, 12));
    assert_eq!(parse_font_metrics("FONTBOUNDINGBOX 6 12\r\nFONTBOUNDINGBOX 1 1"), size(6, 12));
    assert_eq!(parse_font_metrics("FONTBOUNDINGBOX   6"), size(6, 8));
    assert_eq!(parse_font_metrics("FONTBOUNDINGBOX x 12"), size(8, 12));
    assert_eq!(parse_font_metrics("FONTBOUNDINGBOX -6 +12"), size(8, 12));
    assert_eq!(parse_font_metrics("FONTBOUNDINGBOX "), size(8, 8));
    assert_eq!(parse_font_metrics("FONTBOUNDINGBOX\n"), size(8, 8));
    assert_eq!(parse_font_metrics(" FONTBOUNDINGBOX 6 12\n"), size(8, 8));
    assert_eq!(parse_font_metrics(""), size(8, 8));
    assert_eq!(FontMetrics::default(), size(0, 0));
}
