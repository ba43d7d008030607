use vyakriti::decoder::{decode, opcode_byte, Instr};
use vyakriti::vm::OpCode;
use vyakriti::import_resolver::{confine_import, import_candidate, path_within, resolve_import_path, with_vya_extension, ImportTracker};
use vyakriti::lsp::{completions, definition, format_source, hover, symbols};
use vyakriti::workspace::{is_blank_query, is_skipped_dir, is_source_file, join_path, normalize_relative, resolve_workspace_path, search_file};
use vyakriti::location::{extract_location, infer_location, parse_error, phase_error};
use vyakriti::numeric::parse_usize_chars;
use vyakriti::session::{session_command, SessionCommand};
use vyakriti::editor::{diagnostics, editor_diagnostics, has_errors};

#[test]
fn completions_include_canonical_devanagari_keywords() {
    let items = completions();
    assert!(items.iter().any(|item| item.label == "कार्य"));
    assert!(items.iter().any(|item| item.label == "मुद्रण"));
    assert!(!items.iter().any(|item| item.label == "function"));
}

#[test]
fn symbols_reports_declarations() {
    let symbols = symbols("मान x : अङ्क = 1 ।\nकार्य योगः() -> अङ्क { प्रतिफल 1 । }");
    assert!(symbols.iter().any(|item| item.name == "x" && item.kind == "variable"));
    assert!(symbols.iter().any(|item| item.name == "योगः" && item.kind == "function"));
}

#[test]
fn definition_finds_simple_declaration() {
    let location = definition("मान उत्तरम् : अङ्क = 42 ।", "उत्तरम्");
    assert!(location.found);
    assert_eq!(location.line, 1);
}

#[test]
fn rejects_paths_outside_workspace() {
    assert!(normalize_relative("../secret.vya").is_err());
    assert!(normalize_relative("..\\secret.vya").is_err());
    assert!(normalize_relative("C:\\secret.vya").is_err());
}

#[test]
fn accepts_nested_relative_vya_path() {
    let path = normalize_relative("src/main.vya").expect("relative path should be accepted");
    assert_eq!(path.replace('\\', "/"), "src/main.vya");
}

#[test]
fn rejects_absolute_import_path() {
    assert!(resolve_import_path("/etc/passwd", "/tmp", "/tmp").is_err());
}

#[test]
fn adds_vya_extension_if_missing() {
    let result = resolve_import_path("math_utils", "/tmp", "/tmp").unwrap();
    assert!(result.ends_with("math_utils.vya"));
}

#[test]
fn keeps_vya_extension_if_present() {
    let result = resolve_import_path("math_utils.vya", "/tmp", "/tmp").unwrap();
    assert!(result.ends_with("math_utils.vya"));
}

#[test]
fn completion_table_has_twenty_entries_in_order() {
    let items = completions();
    assert_eq!(items.len(), 20);
    assert_eq!(items[0].label, "मान");
    assert_eq!(items[0].kind, "keyword");
    assert_eq!(items[0].detail, "variable declaration");
    assert_eq!(items[19].label, "अनुष्ठान");
}

#[test]
fn hover_describes_keyword_and_ignores_other_words() {
    assert_eq!(hover("यदि").contents.as_deref(), Some("यदि (keyword) — conditional branch"));
    assert_eq!(hover("मुद्रण").contents.as_deref(), Some("मुद्रण (builtin) — print a value"));
    assert_eq!(hover("print").contents, None);
}

#[test]
fn symbols_of_unparsable_source_are_empty() {
    assert!(symbols("मान x = ").is_empty());
}

#[test]
fn symbols_include_enum_variants_nested_and_calls() {
    let items = symbols("रूपभेदः रङ्गः { लोहितः, नीलः }\nयदि (सत) तर्हि { मान y = 1 । मुद्रण(y) । }");
    let pairs: Vec<(String, String)> = items.iter().map(|s| (s.name.clone(), s.kind.clone())).collect();
    assert_eq!(
        pairs,
        vec![
            ("रङ्गः".to_string(), "enum".to_string()),
            ("लोहितः".to_string(), "variant".to_string()),
            ("नीलः".to_string(), "variant".to_string()),
            ("y".to_string(), "variable".to_string()),
            ("मुद्रण".to_string(), "call".to_string()),
        ]
    );
}

#[test]
fn format_trims_line_ends_and_drops_final_newline() {
    assert_eq!(format_source("a  \nb\t\r\n\nc \n").source, "a\nb\n\nc");
    assert_eq!(format_source("").source, "");
}

#[test]
fn definition_column_counts_bytes_and_misses_report_origin() {
    let d = definition("// x\nकार्य योगः() -> अङ्क { प्रतिफल 1 । }", "योगः");
    assert!(d.found);
    assert_eq!(d.line, 2);
    assert_eq!(d.column, "कार्य ".len() + 1);
    let miss = definition("मान a = 1 ।", "b");
    assert!(!miss.found);
    assert_eq!((miss.line, miss.column), (1, 1));
}

#[test]
fn normalize_drops_current_dir_and_empty_parts() {
    assert_eq!(normalize_relative("./src//main.vya").unwrap(), "src/main.vya");
    assert_eq!(normalize_relative("/etc/passwd").unwrap_err(), "absolute paths are not allowed");
    assert_eq!(normalize_relative("a/../b").unwrap_err(), "path must stay inside the workspace");
    assert_eq!(normalize_relative("./").unwrap_err(), "path is empty");
    assert_eq!(normalize_relative("C:x.vya").unwrap_err(), "path must stay inside the workspace");
}

#[test]
fn workspace_paths_join_under_root() {
    assert_eq!(join_path("/ws", "a.vya"), "/ws/a.vya");
    assert_eq!(join_path("/ws/", "a.vya"), "/ws/a.vya");
    assert_eq!(join_path("/ws", "/abs"), "/abs");
    assert_eq!(resolve_workspace_path("/ws", "src/./m.vya").unwrap(), "/ws/src/m.vya");
    assert!(resolve_workspace_path("/ws", "../m.vya").is_err());
}

#[test]
fn listing_filters() {
    assert!(is_skipped_dir("target"));
    assert!(is_skipped_dir(".git"));
    assert!(!is_skipped_dir("src"));
    assert!(is_source_file("src/main.vya"));
    assert!(!is_source_file("src/main.rs"));
    assert!(is_blank_query("  \t "));
    assert!(!is_blank_query(" x "));
}

#[test]
fn search_reports_line_byte_column_and_trimmed_preview() {
    let hits = search_file("m.vya", "मान x = 1 ।\n  योगः(x) ।  \nnothing", "x");
    assert_eq!(hits.len(), 2);
    assert_eq!(hits[0].path, "m.vya");
    assert_eq!((hits[0].line, hits[0].column), (1, "मान ".len() + 1));
    assert_eq!(hits[1].line, 2);
    assert_eq!(hits[1].column, "  योगः(".len() + 1);
    assert_eq!(hits[1].preview, "योगः(x) ।");
}

#[test]
fn import_paths() {
    assert_eq!(with_vya_extension("a"), "a.vya");
    assert_eq!(with_vya_extension("a.vya"), "a.vya");
    assert_eq!(import_candidate("lib/m", "/w/src").unwrap(), "/w/src/lib/m.vya");
    assert_eq!(import_candidate("/etc/x", "/w").unwrap_err(), "absolute import path '/etc/x' is not allowed");
    assert!(path_within("/tmp/a.vya", "/tmp"));
    assert!(path_within("/tmp", "/tmp"));
    assert!(!path_within("/tmpx/a.vya", "/tmp"));
    assert_eq!(confine_import("../x", "/other/x.vya".to_string(), "/tmp").unwrap_err(), "import path '../x' escapes the workspace root");
    assert_eq!(resolve_import_path("m", "/w/src", "/w").unwrap(), "/w/src/m.vya");
    assert!(resolve_import_path("m", "/elsewhere", "/w").is_err());
}

#[test]
fn import_tracker_skips_repeats() {
    let mut t = ImportTracker::new();
    assert!(t.first_visit("/w/a.vya"));
    assert!(t.first_visit("/w/b.vya"));
    assert!(!t.first_visit("/w/a.vya"));
    assert_eq!(t.visited.len(), 2);
}

#[test]
fn extract_location_reads_parser_messages() {
    assert_eq!(extract_location("error at 3:7: expected '।'"), (3, 7));
    assert_eq!(extract_location("error at 12:1"), (12, 1));
    assert_eq!(extract_location("error at +2:5: x"), (2, 5));
    assert_eq!(extract_location("error at x:5: x"), (1, 1));
    assert_eq!(extract_location("error at 4"), (1, 1));
    assert_eq!(extract_location("warning at 3:7: x"), (1, 1));
    assert_eq!(extract_location("error at 99999999999999999999999:1"), (1, 1));
}

#[test]
fn infer_location_finds_quoted_symbol() {
    let source = "मान x = 1 ।\nमान योगः = x ।";
    assert_eq!(infer_location(source, "undefined 'योगः' here"), (2, 11));
    assert_eq!(infer_location(source, "undefined 'x"), (1, 11));
    assert_eq!(infer_location(source, "no quote"), (1, 1));
    assert_eq!(infer_location(source, "'absent'"), (1, 1));
    assert_eq!(infer_location("", "'x'"), (1, 1));
}

#[test]
fn parse_usize_chars_follows_usize_reading() {
    let chars = |s: &str| s.chars().collect::<Vec<char>>();
    assert_eq!(parse_usize_chars(&chars("42")), Some(42));
    assert_eq!(parse_usize_chars(&chars("+7")), Some(7));
    assert_eq!(parse_usize_chars(&chars("+")), None);
    assert_eq!(parse_usize_chars(&chars("")), None);
    assert_eq!(parse_usize_chars(&chars("-1")), None);
    assert_eq!(parse_usize_chars(&chars("1 ")), None);
    assert_eq!(parse_usize_chars(&chars("18446744073709551616")), None);
    assert_eq!(parse_usize_chars(&chars("18446744073709551615")), Some(usize::MAX));
}

#[test]
fn session_commands_are_read_from_trimmed_messages() {
    assert_eq!(session_command("  :reset\n"), SessionCommand::Reset);
    assert_eq!(session_command(":globals"), SessionCommand::Globals);
    assert_eq!(session_command("\t:cancel "), SessionCommand::Cancel);
    assert_eq!(session_command(":quit"), SessionCommand::Run);
    assert_eq!(session_command("मान x = 1 ।"), SessionCommand::Run);
}

#[test]
fn diagnostics_are_placed_and_worded() {
    let d = phase_error("मान x = 1 ।\nx + y ।", "Type error: ", "undefined variable 'y'");
    assert_eq!((d.line, d.column), (2, 5));
    assert_eq!(d.message, "Type error: undefined variable 'y'");
    assert_eq!(d.severity, "error");
    assert!(d.sanskrit_message.is_none());
    let p = parse_error("error at 4:2: expected '।'");
    assert_eq!((p.line, p.column), (4, 2));
    assert_eq!(p.message, "Parse error: error at 4:2: expected '।'");
}

#[test]
fn explain_reads_the_lowercase_message() {
    let r = vyakriti::payload::explain("BORROW CHECK failed for x");
    assert!(r.explanation.starts_with("The borrow checker found a violation of ownership rules."));
    assert_eq!(r.sanskrit_hint, "स्वामित्व-नियमः भङ्गः — एकस्य मूल्यस्य एकः स्वामी भवति।");
    assert!(r.suggestion.is_some());
    let m = vyakriti::payload::explain("Missing Arm in MATCH");
    assert!(m.explanation.starts_with("A match expression does not cover all variants"));
    let d = vyakriti::payload::explain("Something Odd");
    assert_eq!(d.explanation, "Vyākṛti compiler diagnostic: Something Odd");
    assert_eq!(d.sanskrit_hint, "व्याकृति-संकलक-निदानम्।");
    assert!(d.suggestion.is_none());
    let t = vyakriti::payload::explain_lowered("TYPE", "type");
    assert!(t.explanation.starts_with("A type mismatch was detected."));
}

#[test]
fn decoder_replaces_invalid_utf8_in_names() {
    let code = vec![opcode_byte(OpCode::LoadVar), 0, 3, b'a', 0xff, b'b'];
    assert_eq!(decode(&code, 0), Some((Instr::LoadVar("a\u{FFFD}b".to_string()), 6)));
    let short = vec![opcode_byte(OpCode::LoadVar), 0, 9, b'a'];
    assert_eq!(decode(&short, 0), None);
}

fn editor_tokens(source: &str) -> Vec<vyakriti::lexer::SpannedToken> {
    let mut lex = vyakriti::lexer::Lexer::new(source);
    lex.tokenize()
}

#[test]
fn editor_diagnostics_follow_the_phases() {
    let (d, code) = editor_diagnostics("", editor_tokens("")).expect("no transformation refuses");
    assert_eq!(d.len(), 1);
    assert_eq!(d[0].severity, "warning");
    assert_eq!(d[0].message, "Empty source file or no tokens recognized.");
    assert!(code.is_some());
    let (d, code) = editor_diagnostics("मान x : अङ्क = 5", editor_tokens("मान x : अङ्क = 5")).expect("parse errors are diagnostics");
    assert_eq!(d.len(), 1);
    assert!(d[0].message.starts_with("Parse error: "));
    assert!(code.is_none());
    let src = "मान x = y ।";
    let (d, _) = editor_diagnostics(src, editor_tokens(src)).expect("transformed");
    assert!(d.iter().any(|x| x.message == "Type error: undefined variable 'y'" && x.line == 1 && x.column == 15));
    assert!(has_errors(&d));
    let ok = "मान x : अङ्क = 42 ।";
    let (d, code) = editor_diagnostics(ok, editor_tokens(ok)).expect("transformed");
    assert!(d.is_empty());
    assert!(!has_errors(&d));
    assert!(code.is_some());
    assert_eq!(diagnostics(ok, editor_tokens(ok)).map(|v| v.len()), Some(0));
}
