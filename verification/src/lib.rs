//! Symbol-resolution engine for a MATLAB language server.
//!
//! The library models MATLAB source files, their syntax trees and the
//! symbols they define, and answers editor queries (definitions,
//! references, completion, rename, hover, semantic tokens) over an
//! in-memory store of parsed files.

use vstd::prelude::*;

mod completion;
mod diagnostics;
mod dispatch;
mod edit;
mod extract;
mod hover;
mod ident;
mod order;
mod range;
mod references;
mod rename;
mod scan;
mod semantic;
mod sigs;
mod store;
mod symbols;
mod tree;

pub use completion::complete;
pub use completion::completion_prefix;
pub use completion::from_functions;
pub use completion::from_packages;
pub use completion::from_references;
pub use completion::from_scripts;
pub use completion::from_variables;
pub use completion::has_label;
pub use completion::item_from_sources;
pub use completion::ref_live_at;
pub use completion::var_live_at;
pub use completion::CompletionItem;
pub use completion::CompletionKind;
pub use diagnostics::diagnostics;
pub use diagnostics::folding_ranges;
pub use diagnostics::Diagnostic;
pub use diagnostics::DiagnosticKind;
pub use dispatch::DispatchState;
pub use dispatch::HandlerTask;
pub use dispatch::NotificationMsg;
pub use dispatch::RequestMsg;
pub use dispatch::ResponseMsg;
pub use dispatch::WorkItem;
pub use edit::apply_edit;
pub use edit::lemma_edit_roundtrip;
pub use edit::offset_of;
pub use edit::spec_apply_edit;
pub use edit::splice;
pub use extract::arg_texts;
pub use extract::clear_only;
pub use extract::cmd_args_upto;
pub use extract::collect_captures;
pub use extract::def_fold;
pub use extract::def_var_rel;
pub use extract::field_first_step;
pub use extract::glob_any_v;
pub use extract::is_syms_mode_word;
pub use extract::lemma_glob_any_views;
pub use extract::lemma_prefix_index;
pub use extract::lemma_prefix_push;
pub use extract::lemma_prefix_refl;
pub use extract::lemma_prefix_trans;
pub use extract::should_clear_v;
pub use extract::spec_clear_parse;
pub use extract::spec_cmd_args;
pub use extract::spec_field_is_def;
pub use extract::syms_first_stop;
pub use extract::syms_stop;
pub use extract::extract_symbols;
pub use extract::fn_target_eq;
pub use extract::fncall_right_def;
pub use extract::fncall_skip;
pub use extract::ident_skip;
pub use extract::is_out_point;
pub use extract::out_rebind_hit;
pub use extract::out_rebind_witness;
pub use extract::owner_active;
pub use extract::rebind_ref_target;
pub use extract::spec_clear_all;
pub use extract::spec_glob_any;
pub use extract::spec_is_param;
pub use extract::spec_should_clear;
pub use extract::is_in_soft_scope;
pub use extract::lemma_no_self_definition;
pub use extract::lemma_reference_soundness;
pub use extract::lemma_reference_soundness_strict;
pub use extract::lemma_soft_scope_isolation;
pub use extract::soft_chain_has;
pub use extract::spec_in_soft_scope;
pub use extract::workspace_sound;
pub use extract::Capture;
pub use extract::CaptureKind;
pub use hover::hover_for_symbol;
pub use hover::hover_source;
pub use hover::spec_hover;
pub use hover::spec_hover_fn_md;
pub use hover::spec_hover_fn_plain;
pub use hover::spec_hover_line_md;
pub use hover::spec_hover_variable;
pub use hover::spec_render_signature;
pub use hover::hover_function;
pub use hover::hover_variable;
pub use hover::render_signature;
pub use hover::usize_to_string;
pub use ident::glob_matches;
pub use ident::is_valid_identifier;
pub use ident::str_eq;
pub use ident::str_eq_ignore_case;
pub use ident::str_starts_with;
pub use order::sort_dedup_strings;
pub use order::str_lex_le;
pub use range::Point;
pub use range::Range;
pub use references::find_references_to_symbol;
pub use references::first_fun_at;
pub use references::first_ref_at;
pub use references::first_var_at;
pub use references::fn_found;
pub use references::goto_definition;
pub use references::locs_match;
pub use references::path_ranges;
pub use references::lemma_locs_match_path_ranges;
pub use references::lemma_path_ranges_none;
pub use references::lemma_path_ranges_push;
pub use references::spec_found;
pub use references::spec_goto;
pub use references::ns_locs;
pub use references::var_found;
pub use references::var_locs;
pub use references::HighlightKind;
pub use references::SymbolLocation;
pub use rename::covers_paths;
pub use rename::edits_follow;
pub use rename::has_path_group;
pub use rename::rename_symbol;
pub use rename::FileEdits;
pub use rename::RenameError;
pub use rename::TextEdit;
pub use scan::dir_entry_class;
pub use scan::ensure_trailing_newline;
pub use scan::file_basename;
pub use scan::last_segment;
pub use scan::strip_m_suffix;
pub use scan::uri_to_path;
pub use scan::dir_entry_package;
pub use scan::is_matlab_file;
pub use scan::lib_paths;
pub use scan::pkg_basename;
pub use scan::split_colon;
pub use scan::Arguments;
pub use scan::SessionState;
pub use semantic::delta_tok;
pub use semantic::deltalize_tokens;
pub use semantic::ident_tok_of_ref;
pub use semantic::semantic_tokens;
pub use semantic::spec_abs_tokens;
pub use semantic::spec_deltalize;
pub use semantic::spec_identifier_token;
pub use semantic::spec_node_token;
pub use semantic::spec_token_id;
pub use semantic::tok_le;
pub use semantic::token_id;
pub use semantic::SemanticToken;
pub use semantic::TokenType;
pub use sigs::clean_doc;
pub use sigs::first_code_child;
pub use sigs::function_signature;
pub use sigs::has_ident_named;
pub use sigs::has_text;
pub use sigs::ident_names_except;
pub use sigs::public_function;
pub use sigs::texts_except;
pub use store::lemma_store_freshness;
pub use store::spec_first_script;
pub use store::qualified_name;
pub use store::spec_qualified;
pub use store::spec_set_accepted;
pub use store::DBOperation;
pub use store::DBTarget;
pub use store::ParsedFile;
pub use store::SenderThread;
pub use store::Store;
pub use symbols::FunMap;
pub use symbols::FunctionDefinition;
pub use symbols::FunctionSignature;
pub use symbols::KeyMap;
pub use symbols::Reference;
pub use symbols::ReferenceTarget;
pub use symbols::VariableDefinition;
pub use symbols::Workspace;
pub use tree::children_upto;
pub use tree::lemma_kind_child_found;
pub use tree::spec_children;
pub use tree::Field;
pub use tree::NodeKind;
pub use tree::SyntaxNode;
pub use tree::SyntaxTree;

verus! {

} // verus!
