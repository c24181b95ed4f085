//! End-to-end tests of the extraction engine and the query features,
//! on real parse trees.

use matlab_lsp::complete;
use matlab_lsp::diagnostics;
use matlab_lsp::extract_symbols;
use matlab_lsp::find_references_to_symbol;
use matlab_lsp::folding_ranges;
use matlab_lsp::function_signature;
use matlab_lsp::goto_definition;
use matlab_lsp::hover_for_symbol;
use matlab_lsp::rename_symbol;
use matlab_lsp::semantic_tokens;
use matlab_lsp::apply_edit;
use matlab_lsp::CompletionKind;
use matlab_lsp::DiagnosticKind;
use matlab_lsp::Field;
use matlab_lsp::FunctionDefinition;
use matlab_lsp::FunctionSignature;
use matlab_lsp::HighlightKind;
use matlab_lsp::NodeKind;
use matlab_lsp::ParsedFile;
use matlab_lsp::Point;
use matlab_lsp::Range;
use matlab_lsp::ReferenceTarget;
use matlab_lsp::Store;
use matlab_lsp::SyntaxNode;
use matlab_lsp::SyntaxTree;
use matlab_lsp::Workspace;

fn node_kind(kind: &str) -> NodeKind {
    match kind {
        "arguments" => NodeKind::Arguments,
        "arguments_statement" => NodeKind::ArgumentsStatement,
        "assignment" => NodeKind::Assignment,
        "attributes" => NodeKind::Attributes,
        "block" => NodeKind::Block,
        "case_clause" => NodeKind::CaseClause,
        "catch_clause" => NodeKind::CatchClause,
        "else_clause" => NodeKind::ElseClause,
        "elseif_clause" => NodeKind::ElseifClause,
        "otherwise_clause" => NodeKind::OtherwiseClause,
        "class_definition" => NodeKind::ClassDefinition,
        "command" => NodeKind::Command,
        "command_argument" => NodeKind::CommandArgument,
        "command_name" => NodeKind::CommandName,
        "comment" => NodeKind::Comment,
        "ERROR" => NodeKind::ErrorNode,
        "field_expression" => NodeKind::FieldExpression,
        "for_statement" => NodeKind::ForStatement,
        "function_arguments" => NodeKind::FunctionArguments,
        "function_call" => NodeKind::FunctionCall,
        "function_definition" => NodeKind::FunctionDefinition,
        "function_output" => NodeKind::FunctionOutput,
        "global_operator" => NodeKind::GlobalOperator,
        "identifier" => NodeKind::Identifier,
        "if_statement" => NodeKind::IfStatement,
        "lambda" => NodeKind::Lambda,
        "iterator" => NodeKind::LoopIterator,
        "multioutput_variable" => NodeKind::MultioutputVariable,
        "number" => NodeKind::Number,
        "property_name" => NodeKind::PropertyName,
        "range" => NodeKind::RangeExpression,
        "string" => NodeKind::StringLiteral,
        "switch_statement" => NodeKind::SwitchStatement,
        "try_statement" => NodeKind::TryStatement,
        "while_statement" => NodeKind::WhileStatement,
        _ => NodeKind::Other,
    }
}

fn field_of(name: Option<&str>) -> Field {
    match name {
        Some("name") => Field::FieldName,
        Some("left") => Field::FieldLeft,
        Some("right") => Field::FieldRight,
        Some("object") => Field::FieldObject,
        Some("field") => Field::FieldMember,
        _ => Field::NoField,
    }
}

fn walk(cursor: &mut tree_sitter::TreeCursor, src: &str, nodes: &mut Vec<SyntaxNode>, parent: Option<usize>) {
    let node = cursor.node();
    let mut my_parent = parent;
    if node.is_named() {
        let idx = nodes.len();
        let sp = node.start_position();
        let ep = node.end_position();
        nodes.push(SyntaxNode {
            kind: node_kind(node.kind()),
            parent,
            field: field_of(cursor.field_name()),
            range: Range {
                start: Point { row: sp.row, column: sp.column },
                end: Point { row: ep.row, column: ep.column },
            },
            start_byte: node.start_byte(),
            end_byte: node.end_byte(),
            text: node.utf8_text(src.as_bytes()).unwrap_or("").to_string(),
        });
        my_parent = Some(idx);
    }
    if cursor.goto_first_child() {
        loop {
            walk(cursor, src, nodes, my_parent);
            if !cursor.goto_next_sibling() {
                break;
            }
        }
        cursor.goto_parent();
    }
}

fn parse_tree(src: &str) -> SyntaxTree {
    let mut parser = tree_sitter::Parser::new();
    let language = tree_sitter::Language::new(tree_sitter_matlab::LANGUAGE);
    parser.set_language(&language).expect("load the MATLAB grammar");
    let tree = parser.parse(src, None).expect("parse");
    let mut nodes: Vec<SyntaxNode> = Vec::new();
    let mut cursor = tree.walk();
    walk(&mut cursor, src, &mut nodes, None);
    SyntaxTree { nodes }
}

fn parsed_file(path: &str, name: &str, src: &str, open: bool, ts: u64) -> ParsedFile {
    ParsedFile {
        contents: src.to_string(),
        name: name.to_string(),
        path: path.to_string(),
        open,
        tree: parse_tree(src),
        timestamp: ts,
        package: String::new(),
        is_script: true,
        workspace: Workspace::new(),
    }
}

/// Parses, extracts against the store, and stores the file.
fn load_file(store: &mut Store, path: &str, name: &str, src: &str) {
    let mut pf = parsed_file(path, name, src, true, 1);
    let (ws, public_fn) = extract_symbols(&pf, store);
    pf.workspace = ws;
    if let Some(fd) = public_fn {
        pf.is_script = false;
        store.set_function(fd);
    }
    store.set_parsed_file(pf, true);
}

fn pt(row: usize, column: usize) -> Point {
    Point { row, column }
}

#[test]
fn references_of_a_variable() {
    let mut store = Store::new();
    load_file(&mut store, "/w/a.m", "a", "x = 1;\ny = x + 2;\n");
    // find-references at the read of x on the second line
    let refs = find_references_to_symbol(&store, "/w/a.m", pt(1, 4), true).unwrap();
    assert_eq!(refs.len(), 2);
    assert_eq!(refs[0].range.start, pt(1, 4));
    assert_eq!(refs[0].kind, HighlightKind::Read);
    assert_eq!(refs[1].range.start, pt(0, 0));
    assert_eq!(refs[1].kind, HighlightKind::Write);
}

#[test]
fn soft_scope_branches() {
    let mut store = Store::new();
    let src = "if cond\n  a = 1;\nelse\n  a = 2;\nend\ndisp(a);\n";
    load_file(&mut store, "/w/b.m", "b", src);
    let file = store.get_parsed_file("/w/b.m").unwrap();
    // each branch introduces its own binding of a
    let defs: Vec<_> = file.workspace.variables.iter().filter(|v| v.name == "a").collect();
    assert_eq!(defs.len(), 2);
    // the read after the statement resolves to the most recent binding
    let d = goto_definition(&store, "/w/b.m", pt(5, 5)).unwrap();
    assert_eq!(d.range.start, pt(3, 2));
    // no reference inside either branch targets the sibling branch
    for r in file.workspace.references.iter() {
        if let ReferenceTarget::Variable(vi) = r.target {
            let def = &file.workspace.variables[vi];
            let same_row_branch = def.loc.start.row == 1 && r.loc.start.row == 3;
            let other_way = def.loc.start.row == 3 && r.loc.start.row == 1;
            assert!(!same_row_branch && !other_way);
        }
    }
}

#[test]
fn clear_invalidates_bindings() {
    let mut store = Store::new();
    let src = "x = 1;\nclear x\ny = x + 1;\n";
    load_file(&mut store, "/w/c.m", "c", src);
    let file = store.get_parsed_file("/w/c.m").unwrap();
    let x = file.workspace.variables.iter().find(|v| v.name == "x").unwrap();
    assert_eq!(x.cleared, 1);
    // the read after the clear is undefined and warned about
    let ds = diagnostics(&file.tree, &file.workspace.references);
    let warnings: Vec<_> =
        ds.iter().filter(|d| d.kind == DiagnosticKind::UndefinedVariable).collect();
    assert_eq!(warnings.len(), 1);
    assert_eq!(warnings[0].range.start, pt(2, 4));
}

#[test]
fn clearvars_except_keeps_matches() {
    let mut store = Store::new();
    let src = "ab = 1;\nac = 2;\nzz = 3;\nclearvars a* -except ac\n";
    load_file(&mut store, "/w/k.m", "k", src);
    let file = store.get_parsed_file("/w/k.m").unwrap();
    let find = |n: &str| file.workspace.variables.iter().find(|v| v.name == n).unwrap().cleared;
    assert_eq!(find("ab"), 3);
    assert_eq!(find("ac"), 0);
    assert_eq!(find("zz"), 0);
}

#[test]
fn namespace_walks() {
    let mut store = Store::new();
    store.set_packages(vec!["pkg".to_string(), "pkg.sub".to_string()]);
    store.set_function(FunctionDefinition {
        loc: Range { start: pt(0, 0), end: pt(0, 10) },
        name: "foo".to_string(),
        path: "/lib/+pkg/+sub/foo.m".to_string(),
        signature: empty_signature("foo"),
        package: "pkg.sub".to_string(),
    });
    let src = "pkg.sub.foo(1);\npkg.sub.bar(1);\n";
    load_file(&mut store, "/w/d.m", "d", src);
    let file = store.get_parsed_file("/w/d.m").unwrap();
    let refs = &file.workspace.references;
    let ns: Vec<_> = refs
        .iter()
        .filter_map(|r| match &r.target {
            ReferenceTarget::Namespace(n) => Some(n.clone()),
            _ => None,
        })
        .collect();
    assert!(ns.contains(&"pkg".to_string()));
    assert!(ns.contains(&"pkg.sub".to_string()));
    let fun = refs.iter().find(
        |r| matches!(&r.target, ReferenceTarget::Function(fd) if fd.name == "foo"),
    );
    assert!(fun.is_some());
    let unknown = refs
        .iter()
        .find(|r| matches!(&r.target, ReferenceTarget::UnknownFunction) && r.name == "pkg.sub.bar");
    assert!(unknown.is_some());
}

fn empty_signature(name: &str) -> FunctionSignature {
    FunctionSignature {
        name_range: Range { start: pt(0, 0), end: pt(0, 0) },
        name: name.to_string(),
        argin: 0,
        argout: 0,
        vargin: false,
        vargout: false,
        argout_names: Vec::new(),
        argin_names: Vec::new(),
        vargin_names: Vec::new(),
        documentation: String::new(),
        range: Range { start: pt(0, 0), end: pt(0, 0) },
    }
}

#[test]
fn completion_offers_the_function_with_a_snippet() {
    let mut store = Store::new();
    let src = "function y = f(x)\n  y = x + 1;\nend\nz = f(2);\n";
    load_file(&mut store, "/w/e.m", "e", src);
    let file = store.get_parsed_file("/w/e.m").unwrap();
    let items = complete(&store, file, pt(3, 5));
    let f = items.iter().find(|i| i.label == "f").expect("an item for f");
    assert_eq!(f.kind, CompletionKind::Function);
    assert_eq!(f.insert_text.as_deref(), Some("f(${1:x})"));
    assert!(f.documentation.contains("function y = f(x)"));
}

#[test]
fn did_change_yields_one_new_warning() {
    let mut store = Store::new();
    let src = "x = 1;\nb = x + 1;\n";
    load_file(&mut store, "/w/g.m", "g", src);
    // the editor replaces `1` with `y` on the second line
    let edited = apply_edit(src, Some(Range { start: pt(1, 8), end: pt(1, 9) }), "y");
    assert_eq!(edited, "x = 1;\nb = x + y;\n");
    load_file(&mut store, "/w/g.m", "g", &edited);
    let file = store.get_parsed_file("/w/g.m").unwrap();
    let ds = diagnostics(&file.tree, &file.workspace.references);
    let warnings: Vec<_> =
        ds.iter().filter(|d| d.kind == DiagnosticKind::UndefinedVariable).collect();
    assert_eq!(warnings.len(), 1);
    assert_eq!(warnings[0].range.start, pt(1, 8));
}

#[test]
fn edit_and_inverse_restore_the_workspace() {
    let mut store = Store::new();
    let src = "a = 1;\nb = a + 2;\n";
    load_file(&mut store, "/w/p.m", "p", src);
    let before = store.get_parsed_file("/w/p.m").unwrap().workspace.references.len();
    let edited = apply_edit(src, Some(Range { start: pt(1, 4), end: pt(1, 5) }), "c");
    let restored = apply_edit(&edited, Some(Range { start: pt(1, 4), end: pt(1, 5) }), "a");
    assert_eq!(restored, src);
    load_file(&mut store, "/w/p.m", "p", &restored);
    let after = store.get_parsed_file("/w/p.m").unwrap();
    assert_eq!(after.workspace.references.len(), before);
    assert_eq!(after.contents, src);
}

#[test]
fn rename_round_trip() {
    let mut store = Store::new();
    let src = "x = 1;\ny = x + 2;\n";
    load_file(&mut store, "/w/r.m", "r", src);
    let file = store.get_parsed_file("/w/r.m").unwrap();
    let defs_before =
        file.workspace.variables.iter().filter(|v| v.name == "x").count();
    let refs_before = file
        .workspace
        .references
        .iter()
        .filter(|r| matches!(r.target, ReferenceTarget::Variable(_)))
        .count();
    let groups = rename_symbol(&store, "/w/r.m", pt(1, 4), "abc").unwrap();
    assert_eq!(groups.len(), 1);
    assert_eq!(groups[0].path, "/w/r.m");
    // apply the edits from the back of the file forward
    let mut edits: Vec<_> = groups[0].edits.iter().collect();
    edits.sort_by(|a, b| {
        (b.range.start.row, b.range.start.column).cmp(&(a.range.start.row, a.range.start.column))
    });
    let mut text = src.to_string();
    for e in edits {
        text = apply_edit(&text, Some(e.range), &e.new_text);
    }
    assert_eq!(text, "abc = 1;\ny = abc + 2;\n");
    load_file(&mut store, "/w/r.m", "r", &text);
    let file2 = store.get_parsed_file("/w/r.m").unwrap();
    let defs_after =
        file2.workspace.variables.iter().filter(|v| v.name == "abc").count();
    let refs_after = file2
        .workspace
        .references
        .iter()
        .filter(|r| matches!(r.target, ReferenceTarget::Variable(_)))
        .count();
    assert_eq!(defs_after, defs_before);
    assert_eq!(refs_after, refs_before);
    assert!(file2.workspace.variables.iter().all(|v| v.name != "x"));
}

#[test]
fn hover_shows_the_defining_line() {
    let mut store = Store::new();
    load_file(&mut store, "/w/h.m", "h", "x = 41;\ny = x + 1;\n");
    let (md, plain) = hover_for_symbol(&store, "/w/h.m", pt(1, 4)).unwrap();
    assert_eq!(plain, "x = 41");
    assert!(md.contains("x = 41"));
    assert!(md.contains("Line 1:"));
}

#[test]
fn hover_renders_the_signature() {
    let mut store = Store::new();
    let src = "function [a, b] = two(p, q)\n  % Adds and subtracts.\n  a = p + q;\n  b = p - q;\nend\n";
    load_file(&mut store, "/w/two.m", "two", src);
    load_file(&mut store, "/w/use.m", "use", "[u, v] = two(1, 2);\n");
    let (md, plain) = hover_for_symbol(&store, "/w/use.m", pt(0, 10)).unwrap();
    assert!(plain.contains("function [a, b] = two(p, q)"));
    assert!(plain.contains("Adds and subtracts."));
    assert!(md.contains("```matlab"));
}

#[test]
fn signatures_count_arguments() {
    let tree = parse_tree("function [y, varargout] = f(a, b)\ny = a;\nvarargout{1} = b;\nend\n");
    let fnode = (0..tree.nodes.len())
        .find(|i| tree.nodes[*i].kind == NodeKind::FunctionDefinition)
        .unwrap();
    let sig = matlab_lsp::function_signature(&tree, fnode).unwrap();
    assert_eq!(sig.name, "f");
    assert_eq!(sig.argout, 1);
    assert!(sig.vargout);
    assert_eq!(sig.argout_names, vec!["y"]);
    assert_eq!(sig.argin, 2);
    assert_eq!(sig.argin_names, vec!["a", "b"]);
}

#[test]
fn signature_detects_varargin() {
    let tree = parse_tree("function y = f(a, varargin)\ny = a;\nend\n");
    let fd_node = (0..tree.nodes.len())
        .find(|&i| tree.nodes[i].kind == NodeKind::FunctionDefinition)
        .expect("a function definition node");
    let sig = function_signature(&tree, fd_node).expect("a signature");
    assert!(sig.vargin);
    assert_eq!(sig.argin, 1);
    assert_eq!(sig.argin_names, vec!["a".to_string()]);
}

#[test]
fn goto_function_answers_name_range() {
    let mut store = Store::new();
    load_file(&mut store, "/w/f.m", "f", "function y = f(x)\ny = x + 1;\nend\n");
    load_file(&mut store, "/w/u.m", "u", "z = f(2);\n");
    // the call site resolves to the function's name, not its whole body
    let d = goto_definition(&store, "/w/u.m", pt(0, 4)).unwrap();
    assert_eq!(d.path, "/w/f.m");
    assert_eq!(d.range.start, pt(0, 13));
    assert_eq!(d.range.end.row, 0);
}

#[test]
fn load_and_syms_define_variables() {
    let mut store = Store::new();
    let src = "load data.mat alpha beta\nsyms gamma delta\nz = alpha + gamma;\n";
    load_file(&mut store, "/w/l.m", "l", src);
    let file = store.get_parsed_file("/w/l.m").unwrap();
    let names: Vec<_> = file.workspace.variables.iter().map(|v| v.name.clone()).collect();
    assert!(names.contains(&"alpha".to_string()));
    assert!(names.contains(&"beta".to_string()));
    assert!(names.contains(&"gamma".to_string()));
    assert!(names.contains(&"delta".to_string()));
    // the reads on the last line resolve
    let ds = diagnostics(&file.tree, &file.workspace.references);
    assert!(ds.iter().all(|d| d.kind != DiagnosticKind::UndefinedVariable));
}

#[test]
fn script_commands_resolve_through_the_store() {
    let mut store = Store::new();
    load_file(&mut store, "/w/setup.m", "setup", "a = 1;\n");
    load_file(&mut store, "/w/main.m", "main", "setup\nb = 2;\n");
    let file = store.get_parsed_file("/w/main.m").unwrap();
    let script_ref = file
        .workspace
        .references
        .iter()
        .find(|r| matches!(&r.target, ReferenceTarget::Script(p) if p == "/w/setup.m"));
    assert!(script_ref.is_some());
}

#[test]
fn folding_covers_blocks() {
    let tree = parse_tree("if a\n  b = 1;\n  c = 2;\nend\n");
    let folds = folding_ranges(&tree);
    assert_eq!(folds.len(), 1);
    assert_eq!(folds[0], (1, 3));
}

#[test]
fn syntax_errors_are_reported() {
    let tree = parse_tree("x = = 1;\n");
    let refs = Vec::new();
    let ds = diagnostics(&tree, &refs);
    assert!(ds.iter().any(|d| d.kind == DiagnosticKind::SyntaxError));
}

#[test]
fn semantic_tokens_classify_identifiers() {
    let mut store = Store::new();
    let src = "x = 1;\ny = x;\n";
    load_file(&mut store, "/w/s.m", "s", src);
    let file = store.get_parsed_file("/w/s.m").unwrap();
    let toks = semantic_tokens(file);
    // a number token and a variable token for the read of x
    assert!(toks.iter().any(|t| t.token_type == matlab_lsp::token_id(matlab_lsp::TokenType::Number)));
    assert!(toks.iter().any(|t| t.token_type == matlab_lsp::token_id(matlab_lsp::TokenType::Variable)));
}

#[test]
fn lambdas_capture_enclosing_locals() {
    let mut store = Store::new();
    let src = "k = 3;\nf = @(v) v + k;\n";
    load_file(&mut store, "/w/lam.m", "lam", src);
    let file = store.get_parsed_file("/w/lam.m").unwrap();
    // the k inside the lambda resolves to the outer binding
    let kref = file
        .workspace
        .references
        .iter()
        .find(|r| r.name == "k" && r.loc.start.row == 1)
        .expect("a reference to k inside the lambda");
    match kref.target {
        ReferenceTarget::Variable(vi) => {
            assert_eq!(file.workspace.variables[vi].loc.start, pt(0, 0));
        },
        _ => panic!("expected a variable target"),
    }
    // the diagnostics stay clean
    let ds = diagnostics(&file.tree, &file.workspace.references);
    assert!(ds.iter().all(|d| d.kind != DiagnosticKind::UndefinedVariable));
}

#[test]
fn indexed_assignment_is_no_unknown_call() {
    let mut store = Store::new();
    let src = "m(1) = 5;\n";
    load_file(&mut store, "/w/ix.m", "ix", src);
    let file = store.get_parsed_file("/w/ix.m").unwrap();
    // the left-hand call target is a definition, not an unknown call
    assert!(file
        .workspace
        .references
        .iter()
        .all(|r| !matches!(r.target, ReferenceTarget::UnknownFunction)));
    assert!(file.workspace.variables.iter().any(|v| v.name == "m"));
}

#[test]
fn struct_fields_define_and_resolve() {
    let mut store = Store::new();
    let src = "s.a = 1;\nt = s.a + 2;\n";
    load_file(&mut store, "/w/st.m", "st", src);
    let file = store.get_parsed_file("/w/st.m").unwrap();
    assert!(file.workspace.variables.iter().any(|v| v.name == "s"));
    assert!(file.workspace.variables.iter().any(|v| v.name == "s.a"));
    // the read of s.a resolves to the definition
    let read = file
        .workspace
        .references
        .iter()
        .find(|r| r.name == "s.a" && r.loc.start.row == 1)
        .expect("a read of s.a");
    assert!(matches!(read.target, ReferenceTarget::Variable(_)));
}

#[test]
fn import_brings_store_functions() {
    let mut store = Store::new();
    store.set_packages(vec!["pkg".to_string()]);
    store.set_function(FunctionDefinition {
        loc: Range { start: pt(0, 0), end: pt(0, 10) },
        name: "helper".to_string(),
        path: "/lib/+pkg/helper.m".to_string(),
        signature: empty_signature("helper"),
        package: "pkg".to_string(),
    });
    let src = "import pkg.*\nhelper(1);\n";
    load_file(&mut store, "/w/imp.m", "imp", src);
    let file = store.get_parsed_file("/w/imp.m").unwrap();
    // the imported function answers the bare call
    let hit = file.workspace.references.iter().find(
        |r| matches!(&r.target, ReferenceTarget::Function(fd) if fd.name == "helper"),
    );
    assert!(hit.is_some());
}

#[test]
fn globals_survive_a_plain_clear() {
    let mut store = Store::new();
    let src = "global g
h = 1;
clear
";
    load_file(&mut store, "/w/gl.m", "gl", src);
    let file = store.get_parsed_file("/w/gl.m").unwrap();
    let g = file.workspace.variables.iter().find(|v| v.name == "g").unwrap();
    let h = file.workspace.variables.iter().find(|v| v.name == "h").unwrap();
    assert!(g.is_global);
    assert_eq!(g.cleared, 0);
    assert_eq!(h.cleared, 2);
}

#[test]
fn for_loop_variables_are_definitions() {
    let mut store = Store::new();
    let src = "for i = 1:3
  s = i;
end
";
    load_file(&mut store, "/w/fl.m", "fl", src);
    let file = store.get_parsed_file("/w/fl.m").unwrap();
    assert!(file.workspace.variables.iter().any(|v| v.name == "i"));
    let ds = diagnostics(&file.tree, &file.workspace.references);
    assert!(ds.iter().all(|d| d.kind != DiagnosticKind::UndefinedVariable));
}

#[test]
fn switch_branches_are_isolated() {
    let mut store = Store::new();
    let src = "switch k
case 1
  w = 1;
case 2
  u = w;
end
";
    load_file(&mut store, "/w/sw.m", "sw", src);
    let file = store.get_parsed_file("/w/sw.m").unwrap();
    // the read of w in the second case does not see the first case
    let wref = file
        .workspace
        .references
        .iter()
        .find(|r| r.name == "w" && r.loc.start.row == 4)
        .expect("a reference to w in the second case");
    assert!(matches!(wref.target, ReferenceTarget::UnknownVariable));
}

#[test]
fn clear_with_global_reaches_globals() {
    let mut store = Store::new();
    let src = "global g
h = 1;
clear global g*
";
    load_file(&mut store, "/w/cg.m", "cg", src);
    let file = store.get_parsed_file("/w/cg.m").unwrap();
    let g = file.workspace.variables.iter().find(|v| v.name == "g").unwrap();
    let h = file.workspace.variables.iter().find(|v| v.name == "h").unwrap();
    assert_eq!(g.cleared, 2);
    assert_eq!(h.cleared, 0);
}
