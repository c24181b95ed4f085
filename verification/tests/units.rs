use matlab_lsp::apply_edit;
use matlab_lsp::clean_doc;
use matlab_lsp::dir_entry_class;
use matlab_lsp::dir_entry_package;
use matlab_lsp::glob_matches;
use matlab_lsp::is_matlab_file;
use matlab_lsp::is_valid_identifier;
use matlab_lsp::lib_paths;
use matlab_lsp::pkg_basename;
use matlab_lsp::qualified_name;
use matlab_lsp::rename_symbol;
use matlab_lsp::sort_dedup_strings;
use matlab_lsp::split_colon;
use matlab_lsp::str_eq_ignore_case;
use matlab_lsp::str_lex_le;
use matlab_lsp::usize_to_string;
use matlab_lsp::Arguments;
use matlab_lsp::DispatchState;
use matlab_lsp::HandlerTask;
use matlab_lsp::NotificationMsg;
use matlab_lsp::Point;
use matlab_lsp::Range;
use matlab_lsp::RenameError;
use matlab_lsp::RequestMsg;
use matlab_lsp::SemanticToken;
use matlab_lsp::SessionState;
use matlab_lsp::Store;
use matlab_lsp::WorkItem;

fn pt(row: usize, column: usize) -> Point {
    Point { row, column }
}

fn rg(sr: usize, sc: usize, er: usize, ec: usize) -> Range {
    Range { start: pt(sr, sc), end: pt(er, ec) }
}

#[test]
fn identifier_validity() {
    assert!(is_valid_identifier("abc"));
    assert!(is_valid_identifier("_a1"));
    assert!(is_valid_identifier("A9_z"));
    assert!(!is_valid_identifier(""));
    assert!(!is_valid_identifier("9abc"));
    assert!(!is_valid_identifier("a-b"));
    assert!(!is_valid_identifier("a.b"));
}

#[test]
fn glob_matching() {
    assert!(glob_matches("*", "anything"));
    assert!(glob_matches("*", ""));
    assert!(glob_matches("a*", "abc"));
    assert!(!glob_matches("a*", "bac"));
    assert!(glob_matches("a*c", "abc"));
    assert!(glob_matches("a*c", "ac"));
    assert!(!glob_matches("a*c", "acb"));
    assert!(glob_matches("abc", "abc"));
    assert!(!glob_matches("abc", "abcd"));
    assert!(glob_matches("*b*", "abc"));
}

#[test]
fn case_insensitive_equality() {
    assert!(str_eq_ignore_case("CLEAR", "clear"));
    assert!(str_eq_ignore_case("ClearVars", "clearvars"));
    assert!(!str_eq_ignore_case("clear", "clears"));
    assert!(!str_eq_ignore_case("clear", "clean"));
}

#[test]
fn lexicographic_order() {
    assert!(str_lex_le("a", "b"));
    assert!(str_lex_le("a", "ab"));
    assert!(!str_lex_le("ab", "a"));
    assert!(str_lex_le("abc", "abc"));
    assert!(str_lex_le("A", "a"));
}

#[test]
fn decimal_rendering() {
    assert_eq!(usize_to_string(0), "0");
    assert_eq!(usize_to_string(7), "7");
    assert_eq!(usize_to_string(10), "10");
    assert_eq!(usize_to_string(90210), "90210");
}

#[test]
fn doc_cleaning() {
    assert_eq!(clean_doc("% hello "), " hello");
    assert_eq!(clean_doc("% hello\n  %world  "), " hello\nworld");
    assert_eq!(clean_doc("no comment"), "no comment");
    assert_eq!(clean_doc(""), "");
    assert_eq!(clean_doc("%a\n%b\n%c"), "a\nb\nc");
}

#[test]
fn package_basename_splitting() {
    assert_eq!(pkg_basename("a.b.c"), ("a.b".to_string(), "c".to_string()));
    assert_eq!(pkg_basename("foo"), ("".to_string(), "foo".to_string()));
    assert_eq!(pkg_basename("pkg.f"), ("pkg".to_string(), "f".to_string()));
}

#[test]
fn qualified_names() {
    assert_eq!(qualified_name("", "f"), "f");
    assert_eq!(qualified_name("pkg.sub", "f"), "pkg.sub.f");
}

#[test]
fn colon_splitting() {
    assert_eq!(split_colon("a:b:c"), vec!["a", "b", "c"]);
    assert_eq!(split_colon("one"), vec!["one"]);
    assert_eq!(split_colon(""), vec![""]);
    assert_eq!(split_colon("a::b"), vec!["a", "", "b"]);
    let args = Arguments { path: Some("/lib:/opt/m".to_string()) };
    assert_eq!(lib_paths(&args), vec!["/lib", "/opt/m"]);
    let none = Arguments { path: None };
    assert_eq!(lib_paths(&none), vec![""]);
}

#[test]
fn directory_classification() {
    assert!(is_matlab_file("foo.m"));
    assert!(!is_matlab_file("foo.mat"));
    assert!(!is_matlab_file("m"));
    assert_eq!(dir_entry_package("+pkg", ""), Some("pkg".to_string()));
    assert_eq!(dir_entry_package("+sub", "pkg"), Some("pkg.sub".to_string()));
    assert_eq!(dir_entry_package("plain", "pkg"), None);
}

#[test]
fn path_helpers() {
    assert_eq!(matlab_lsp::file_basename("/w/pkg/foo.m"), "foo".to_string());
    assert_eq!(matlab_lsp::file_basename("bar.m"), "bar".to_string());
    assert_eq!(matlab_lsp::file_basename("/w/dir/"), "".to_string());
    assert_eq!(matlab_lsp::file_basename("/w/noext"), "noext".to_string());
    assert_eq!(matlab_lsp::ensure_trailing_newline("a = 1;".to_string()), "a = 1;\n".to_string());
    assert_eq!(matlab_lsp::ensure_trailing_newline("a = 1;\n".to_string()), "a = 1;\n".to_string());
    assert_eq!(matlab_lsp::ensure_trailing_newline(String::new()), "\n".to_string());
    assert_eq!(matlab_lsp::uri_to_path("file:///w/a.m"), "/w/a.m".to_string());
    assert_eq!(matlab_lsp::uri_to_path("/w/a.m"), "/w/a.m".to_string());
}

#[test]
fn class_folder_classification() {
    assert_eq!(dir_entry_class("@MyClass", ""), Some("MyClass".to_string()));
    assert_eq!(dir_entry_class("@Point", "pkg"), Some("pkg.Point".to_string()));
    assert_eq!(dir_entry_class("plain", "pkg"), None);
    assert_eq!(dir_entry_class("+pkg", ""), None);
}

#[test]
fn scan_roots_sorted_and_distinct() {
    let st = SessionState {
        lib_path: vec!["/b".to_string(), "/a".to_string()],
        ws_path: vec!["/a".to_string(), "/c".to_string()],
    };
    assert_eq!(st.full_scan_path(), vec!["/a", "/b", "/c"]);
}

#[test]
fn sort_dedup() {
    let v = vec!["pear".to_string(), "apple".to_string(), "pear".to_string()];
    assert_eq!(sort_dedup_strings(v), vec!["apple", "pear"]);
}

#[test]
fn edits_replace_and_insert() {
    // replace the range [start, end)
    let s = "x = 1;\n";
    let out = apply_edit(s, Some(rg(0, 4, 0, 5)), "42");
    assert_eq!(out, "x = 42;\n");
    // start >= end inserts at start
    let out2 = apply_edit(s, Some(rg(0, 4, 0, 4)), "-");
    assert_eq!(out2, "x = -1;\n");
    // no range replaces everything
    let out3 = apply_edit(s, None, "y = 2;\n");
    assert_eq!(out3, "y = 2;\n");
}

#[test]
fn edit_roundtrip_restores_contents() {
    let original = "a = 1;\nb = a + 2;\n";
    let edited = apply_edit(original, Some(rg(1, 4, 1, 5)), "c");
    assert_eq!(edited, "a = 1;\nb = c + 2;\n");
    // the inverse edit writes the replaced text back over the insertion
    let restored = apply_edit(&edited, Some(rg(1, 4, 1, 5)), "a");
    assert_eq!(restored, original);
}

#[test]
fn store_freshness_background_cannot_clobber_open_file() {
    let mut store = Store::new();
    let newer = matlab_lsp::ParsedFile {
        contents: "x = 2;\n".to_string(),
        name: "a".to_string(),
        path: "/w/a.m".to_string(),
        open: true,
        tree: matlab_lsp::SyntaxTree { nodes: Vec::new() },
        timestamp: 2,
        package: String::new(),
        is_script: true,
        workspace: matlab_lsp::Workspace::new(),
    };
    assert!(store.set_parsed_file(newer, true));
    let older = matlab_lsp::ParsedFile {
        contents: "x = 1;\n".to_string(),
        name: "a".to_string(),
        path: "/w/a.m".to_string(),
        open: false,
        tree: matlab_lsp::SyntaxTree { nodes: Vec::new() },
        timestamp: 1,
        package: String::new(),
        is_script: true,
        workspace: matlab_lsp::Workspace::new(),
    };
    // a background write for the same path is dropped
    assert!(!store.set_parsed_file(older, false));
    let got = store.get_parsed_file("/w/a.m").unwrap();
    assert_eq!(got.contents, "x = 2;\n");
    assert_eq!(got.timestamp, 2);
}

#[test]
fn store_stale_write_dropped_even_from_handler() {
    let mut store = Store::new();
    let newer = matlab_lsp::ParsedFile {
        contents: "fresh".to_string(),
        name: "b".to_string(),
        path: "/w/b.m".to_string(),
        open: false,
        tree: matlab_lsp::SyntaxTree { nodes: Vec::new() },
        timestamp: 9,
        package: String::new(),
        is_script: true,
        workspace: matlab_lsp::Workspace::new(),
    };
    assert!(store.set_parsed_file(newer, false));
    let stale = matlab_lsp::ParsedFile {
        contents: "stale".to_string(),
        name: "b".to_string(),
        path: "/w/b.m".to_string(),
        open: false,
        tree: matlab_lsp::SyntaxTree { nodes: Vec::new() },
        timestamp: 3,
        package: String::new(),
        is_script: true,
        workspace: matlab_lsp::Workspace::new(),
    };
    assert!(!store.set_parsed_file(stale, true));
    assert_eq!(store.get_parsed_file("/w/b.m").unwrap().contents, "fresh");
}

#[test]
fn store_functions_and_packages() {
    let mut store = Store::new();
    store.set_packages(vec!["pkg".to_string(), "pkg.sub".to_string(), "other".to_string()]);
    assert_eq!(store.get_package("pkg"), vec!["pkg", "pkg.sub"]);
    assert_eq!(store.get_package(""), vec!["pkg", "pkg.sub", "other"]);
    assert_eq!(store.get_package("zzz"), Vec::<String>::new());
    assert_eq!(store.next_request_id(), 0);
    assert_eq!(store.next_request_id(), 1);
}

#[test]
fn rename_rejects_bad_names() {
    let store = Store::new();
    let r = rename_symbol(&store, "/w/a.m", pt(0, 0), "9bad");
    assert!(matches!(r, Err(RenameError::InvalidName)));
    let r2 = rename_symbol(&store, "/w/a.m", pt(0, 0), "good");
    assert!(matches!(r2, Err(RenameError::UnknownFile)));
}

#[test]
fn dispatcher_priorities() {
    let mut d = DispatchState::new();
    d.push_request(RequestMsg { id: 1, method: "m".to_string(), params: String::new() });
    d.push_notification(NotificationMsg { method: "n".to_string(), params: String::new() });
    // the notification outranks the older request
    match d.next_handler_task() {
        Some(HandlerTask::Notification(msg)) => assert_eq!(msg.method, "n"),
        _ => panic!("expected the notification first"),
    }
    // the handler is busy: nothing more until it reports done
    assert!(d.next_handler_task().is_none());
    d.handler_done();
    match d.next_handler_task() {
        Some(HandlerTask::Request(msg)) => assert_eq!(msg.id, 1),
        _ => panic!("expected the request next"),
    }
    d.handler_done();
    assert!(d.next_handler_task().is_none());
}

#[test]
fn dispatcher_cancel_removes_pending_request() {
    let mut d = DispatchState::new();
    d.push_request(RequestMsg { id: 1, method: "a".to_string(), params: String::new() });
    d.push_request(RequestMsg { id: 2, method: "b".to_string(), params: String::new() });
    d.cancel_request(1);
    match d.next_handler_task() {
        Some(HandlerTask::Request(msg)) => assert_eq!(msg.id, 2),
        _ => panic!("expected request 2 to survive"),
    }
}

#[test]
fn dispatcher_background_queue() {
    let mut d = DispatchState::new();
    d.push_bw_work(WorkItem::ScanPath(vec!["/lib".to_string()]));
    // the worker starts busy until its first done report
    assert!(d.next_bw_task().is_none());
    d.bw_done();
    match d.next_bw_task() {
        Some(WorkItem::ScanPath(p)) => assert_eq!(p, vec!["/lib"]),
        _ => panic!("expected the scan"),
    }
    assert!(d.next_bw_task().is_none());
}

#[test]
fn deltalize() {
    let t1 = SemanticToken {
        delta_line: 0,
        delta_start: 2,
        length: 3,
        token_type: 8,
        token_modifiers_bitset: 0,
    };
    let t2 = SemanticToken {
        delta_line: 0,
        delta_start: 7,
        length: 1,
        token_type: 8,
        token_modifiers_bitset: 0,
    };
    let t3 = SemanticToken {
        delta_line: 2,
        delta_start: 4,
        length: 2,
        token_type: 12,
        token_modifiers_bitset: 0,
    };
    let abs = vec![t1, t2, t3];
    let d = matlab_lsp::deltalize_tokens(&abs);
    assert_eq!(d.len(), 3);
    assert_eq!((d[0].delta_line, d[0].delta_start), (0, 2));
    assert_eq!((d[1].delta_line, d[1].delta_start), (0, 5));
    assert_eq!((d[2].delta_line, d[2].delta_start), (2, 4));
}

#[test]
fn range_containment() {
    let r = rg(1, 2, 1, 5);
    assert!(r.contains(pt(1, 3)));
    assert!(r.contains(pt(1, 2)));
    assert!(r.contains(pt(1, 5)));
    assert!(!r.contains(pt(1, 6)));
    assert!(!r.contains(pt(0, 3)));
    let outer = rg(0, 0, 4, 0);
    assert!(outer.contains(pt(2, 70)));
    assert!(outer.fully_contains(rg(1, 1, 2, 9)));
}

#[test]
fn completion_prefix_extraction() {
    let src = "x = 1;\ny = pkg.su\n";
    let p = matlab_lsp::completion_prefix(src, Point { row: 1, column: 10 });
    assert_eq!(p, "pkg.su");
    let p2 = matlab_lsp::completion_prefix(src, Point { row: 1, column: 5 });
    assert_eq!(p2, "p");
    let p3 = matlab_lsp::completion_prefix(src, Point { row: 0, column: 0 });
    assert_eq!(p3, "");
}
