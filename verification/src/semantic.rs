//! Semantic tokens: classifies comments, numbers, strings and
//! identifiers (refined through the extracted references), and
//! turns the absolute positions into the deltas the editor expects.

use vstd::prelude::*;

use crate::ident::str_contains_char;
use crate::ident::str_eq;
use crate::references::first_ref_at;
use crate::references::first_var_at;
use crate::store::ParsedFile;
use crate::symbols::Reference;
use crate::symbols::ReferenceTarget;
use crate::tree::NodeKind;

verus! {

/// The token types this server emits, with their places in the
/// advertised legend.
#[derive(Clone, Copy, Debug, PartialEq, Eq, Structural)]
pub enum TokenType {
    Namespace,
    Parameter,
    Variable,
    Property,
    Function,
    Keyword,
    Comment,
    StringToken,
    Number,
}

/// The legend index of a token type.
pub open spec fn spec_token_id(t: TokenType) -> u32 {
    match t {
        TokenType::Namespace => 0,
        TokenType::Parameter => 7,
        TokenType::Variable => 8,
        TokenType::Property => 9,
        TokenType::Function => 12,
        TokenType::Keyword => 15,
        TokenType::Comment => 17,
        TokenType::StringToken => 18,
        TokenType::Number => 19,
    }
}

/// Maps a token type to its legend index.
pub fn token_id(t: TokenType) -> (r: u32)
    ensures
        r == spec_token_id(t),
{
    match t {
        TokenType::Namespace => 0,
        TokenType::Parameter => 7,
        TokenType::Variable => 8,
        TokenType::Property => 9,
        TokenType::Function => 12,
        TokenType::Keyword => 15,
        TokenType::Comment => 17,
        TokenType::StringToken => 18,
        TokenType::Number => 19,
    }
}

/// One token at its absolute position.
#[derive(Clone, Copy, Debug, PartialEq, Eq, Structural)]
pub struct SemanticToken {
    pub delta_line: usize,
    pub delta_start: usize,
    pub length: usize,
    pub token_type: u32,
    pub token_modifiers_bitset: u32,
}

/// One token of the delta form: the line becomes the difference to
/// the previous token's line, and on an unchanged line the start
/// becomes the difference to the previous start; length, type and
/// modifiers are kept.
pub open spec fn delta_tok(prev: SemanticToken, cur: SemanticToken) -> SemanticToken {
    SemanticToken {
        delta_line: (cur.delta_line - prev.delta_line) as usize,
        delta_start: if cur.delta_line == prev.delta_line {
            (cur.delta_start - prev.delta_start) as usize
        } else {
            cur.delta_start
        },
        length: cur.length,
        token_type: cur.token_type,
        token_modifiers_bitset: cur.token_modifiers_bitset,
    }
}

/// The delta form of an absolutely positioned token list.
pub open spec fn spec_deltalize(ts: Seq<SemanticToken>) -> Seq<SemanticToken> {
    Seq::new(
        ts.len(),
        |i: int|
            if i == 0 {
                ts[0]
            } else {
                delta_tok(ts[i - 1], ts[i])
            },
    )
}

/// Turns absolutely positioned tokens into delta form, exactly as
/// `spec_deltalize` describes.
pub fn deltalize_tokens(ts: &Vec<SemanticToken>) -> (r: Vec<SemanticToken>)
    requires
        forall|i: int|
            0 < i < ts@.len() ==> (#[trigger] ts@[i]).delta_line >= ts@[i - 1].delta_line && (
            ts@[i].delta_line == ts@[i - 1].delta_line ==> ts@[i].delta_start >= ts@[i
                - 1].delta_start),
    ensures
        r@ == spec_deltalize(ts@),
{
    let mut r: Vec<SemanticToken> = Vec::new();
    let n = ts.len();
    if n == 0 {
        proof {
            assert(r@ =~= spec_deltalize(ts@));
        }
        return r;
    }
    r.push(ts[0]);
    let mut i: usize = 1;
    while i < n
        invariant
            n == ts@.len(),
            1 <= i <= n,
            r@.len() == i,
            r@[0] == ts@[0],
            forall|j: int|
                0 < j < ts@.len() ==> (#[trigger] ts@[j]).delta_line >= ts@[j - 1].delta_line && (
                ts@[j].delta_line == ts@[j - 1].delta_line ==> ts@[j].delta_start >= ts@[j
                    - 1].delta_start),
            forall|j: int| 0 < j < i ==> (#[trigger] r@[j]) == delta_tok(ts@[j - 1], ts@[j]),
        decreases n - i,
    {
        let last = ts[i - 1];
        let cur = ts[i];
        let dl = cur.delta_line - last.delta_line;
        let dsx = if dl == 0 {
            cur.delta_start - last.delta_start
        } else {
            cur.delta_start
        };
        r.push(
            SemanticToken {
                delta_line: dl,
                delta_start: dsx,
                length: cur.length,
                token_type: cur.token_type,
                token_modifiers_bitset: cur.token_modifiers_bitset,
            },
        );
        i = i + 1;
    }
    proof {
        assert(r@ =~= spec_deltalize(ts@));
    }
    r
}

/// The refined token type the first reference or binding at a
/// position decides.
pub open spec fn ident_tok_of_ref(file: ParsedFile, rf: Reference) -> TokenType {
    let dotted = rf.name@.contains('.');
    match rf.target {
        ReferenceTarget::Function(_) => TokenType::Function,
        ReferenceTarget::Namespace(_) => TokenType::Namespace,
        ReferenceTarget::Script(_) => TokenType::Function,
        ReferenceTarget::UnknownFunction => TokenType::Function,
        ReferenceTarget::Variable(vj) => if dotted {
            TokenType::Property
        } else if (vj as int) < file.workspace.variables@.len()
            && file.workspace.variables@[vj as int].is_parameter {
            TokenType::Parameter
        } else {
            TokenType::Variable
        },
        ReferenceTarget::UnknownVariable => if dotted {
            TokenType::Property
        } else {
            TokenType::Variable
        },
    }
}

/// The refined type of the identifier at node `node`: `end` is a
/// keyword; the first reference containing the identifier's start
/// decides function, namespace, property, parameter or variable;
/// failing that, the first variable binding there decides property
/// or variable; anything else gets no token.
pub open spec fn spec_identifier_token(file: ParsedFile, node: int) -> Option<TokenType> {
    let ns = file.tree.nodes@;
    let vars = file.workspace.variables@;
    if ns[node].text@ == "end"@ {
        Some(TokenType::Keyword)
    } else {
        let start = ns[node].range.start;
        match first_ref_at(file.workspace.references@, start, 0) {
            Option::Some(j) => Some(ident_tok_of_ref(file, file.workspace.references@[j])),
            Option::None => match first_var_at(vars, start, 0) {
                Option::Some(v) => Some(
                    if vars[v].name@.contains('.') {
                        TokenType::Property
                    } else {
                        TokenType::Variable
                    },
                ),
                Option::None => None,
            },
        }
    }
}

/// The refined type of an identifier occurrence: `end` is a
/// keyword; a reference decides function, namespace, property,
/// parameter or variable; a variable binding decides property or
/// variable; anything else gets no token.
fn identifier_token(file: &ParsedFile, node: usize) -> (r: Option<TokenType>)
    requires
        node < file.tree.nodes@.len(),
    ensures
        r == spec_identifier_token(*file, node as int),
{
    let ghost refs = file.workspace.references@;
    let ghost vars = file.workspace.variables@;
    if str_eq(file.tree.nodes[node].text.as_str(), "end") {
        return Some(TokenType::Keyword);
    }
    let start = file.tree.nodes[node].range.start;
    let nrefs = file.workspace.references.len();
    let mut i: usize = 0;
    while i < nrefs
        invariant
            i <= nrefs,
            nrefs == refs.len(),
            refs == file.workspace.references@,
            vars == file.workspace.variables@,
            start == file.tree.nodes@[node as int].range.start,
            node < file.tree.nodes@.len(),
            file.tree.nodes@[node as int].text@ != "end"@,
            first_ref_at(refs, start, 0) == first_ref_at(refs, start, i as int),
        decreases nrefs - i,
    {
        let rf = &file.workspace.references[i];
        if rf.loc.contains(start) {
            proof {
                assert(first_ref_at(refs, start, 0) == Some(i as int));
            }
            let dotted = str_contains_char(rf.name.as_str(), '.');
            match &rf.target {
                ReferenceTarget::Function(_) => {
                    return Some(TokenType::Function);
                },
                ReferenceTarget::Namespace(_) => {
                    return Some(TokenType::Namespace);
                },
                ReferenceTarget::Script(_) => {
                    return Some(TokenType::Function);
                },
                ReferenceTarget::UnknownFunction => {
                    return Some(TokenType::Function);
                },
                ReferenceTarget::Variable(vj) => {
                    if dotted {
                        return Some(TokenType::Property);
                    }
                    let vj = *vj;
                    if vj < file.workspace.variables.len() && file.workspace.variables[
                        vj
                    ].is_parameter {
                        return Some(TokenType::Parameter);
                    }
                    return Some(TokenType::Variable);
                },
                ReferenceTarget::UnknownVariable => {
                    if dotted {
                        return Some(TokenType::Property);
                    }
                    return Some(TokenType::Variable);
                },
            }
        }
        i = i + 1;
    }
    proof {
        assert(first_ref_at(refs, start, 0) is None);
    }
    let nvars = file.workspace.variables.len();
    let mut v: usize = 0;
    while v < nvars
        invariant
            v <= nvars,
            nvars == vars.len(),
            refs == file.workspace.references@,
            vars == file.workspace.variables@,
            start == file.tree.nodes@[node as int].range.start,
            node < file.tree.nodes@.len(),
            file.tree.nodes@[node as int].text@ != "end"@,
            first_ref_at(refs, start, 0) is None,
            first_var_at(vars, start, 0) == first_var_at(vars, start, v as int),
        decreases nvars - v,
    {
        if file.workspace.variables[v].loc.contains(start) {
            proof {
                assert(first_var_at(vars, start, 0) == Some(v as int));
            }
            if str_contains_char(file.workspace.variables[v].name.as_str(), '.') {
                return Some(TokenType::Property);
            }
            return Some(TokenType::Variable);
        }
        v = v + 1;
    }
    proof {
        assert(first_var_at(vars, start, 0) is None);
    }
    None
}

/// The absolutely positioned token the node at `i` contributes, if
/// any: comments (length in bytes), numbers and strings (length in
/// columns), and refined identifiers.
pub open spec fn spec_node_token(file: ParsedFile, i: int) -> Option<SemanticToken> {
    let nd = file.tree.nodes@[i];
    let rg = nd.range;
    let col_len: usize = if rg.end.column >= rg.start.column && rg.end.row == rg.start.row {
        (rg.end.column - rg.start.column) as usize
    } else {
        0
    };
    let made = if nd.kind == NodeKind::Comment {
        Some(
            (
                TokenType::Comment,
                if nd.end_byte >= nd.start_byte {
                    (nd.end_byte - nd.start_byte) as usize
                } else {
                    0
                },
            ),
        )
    } else if nd.kind == NodeKind::Number {
        Some((TokenType::Number, col_len))
    } else if nd.kind == NodeKind::StringLiteral {
        Some((TokenType::StringToken, col_len))
    } else if nd.kind == NodeKind::Identifier {
        match spec_identifier_token(file, i) {
            Option::Some(t) => Some((t, col_len)),
            Option::None => None,
        }
    } else {
        None
    };
    match made {
        Option::Some((t, len)) => Some(
            SemanticToken {
                delta_line: rg.start.row,
                delta_start: rg.start.column,
                length: len,
                token_type: spec_token_id(t),
                token_modifiers_bitset: 0,
            },
        ),
        Option::None => None,
    }
}

/// Whether `t` stands at or after `prev` in source order.
pub open spec fn tok_le(prev: SemanticToken, t: SemanticToken) -> bool {
    prev.delta_line < t.delta_line || (prev.delta_line == t.delta_line && prev.delta_start
        <= t.delta_start)
}

/// The absolutely positioned tokens of the first `n` nodes, in
/// source order: a node's token is kept when it does not precede the
/// token kept before it.
pub open spec fn spec_abs_tokens(file: ParsedFile, n: int) -> Seq<SemanticToken>
    decreases n,
{
    if n <= 0 {
        Seq::empty()
    } else {
        let pre = spec_abs_tokens(file, n - 1);
        match spec_node_token(file, n - 1) {
            Option::Some(t) => if pre.len() == 0 || tok_le(pre.last(), t) {
                pre.push(t)
            } else {
                pre
            },
            Option::None => pre,
        }
    }
}

/// The semantic tokens of a file, in source order and delta form,
/// exactly `spec_deltalize` of `spec_abs_tokens`: comments (length
/// in bytes), numbers and strings (length in columns), and refined
/// identifiers.
pub fn semantic_tokens(file: &ParsedFile) -> (r: Vec<SemanticToken>)
    ensures
        r@ == spec_deltalize(spec_abs_tokens(*file, file.tree.nodes@.len() as int)),
{
    let mut abs: Vec<SemanticToken> = Vec::new();
    let n = file.tree.nodes.len();
    let mut i: usize = 0;
    while i < n
        invariant
            n == file.tree.nodes@.len(),
            i <= n,
            abs@ == spec_abs_tokens(*file, i as int),
            forall|j: int|
                0 < j < abs@.len() ==> (#[trigger] abs@[j]).delta_line >= abs@[j - 1].delta_line
                    && (abs@[j].delta_line == abs@[j - 1].delta_line ==> abs@[j].delta_start
                    >= abs@[j - 1].delta_start),
        decreases n - i,
    {
        let ghost pre = abs@;
        let nd = &file.tree.nodes[i];
        let rg = nd.range;
        let col_len = if rg.end.column >= rg.start.column && rg.end.row == rg.start.row {
            rg.end.column - rg.start.column
        } else {
            0
        };
        let tok: Option<(TokenType, usize)> = if nd.kind == NodeKind::Comment {
            let blen = if nd.end_byte >= nd.start_byte {
                nd.end_byte - nd.start_byte
            } else {
                0
            };
            Some((TokenType::Comment, blen))
        } else if nd.kind == NodeKind::Number {
            Some((TokenType::Number, col_len))
        } else if nd.kind == NodeKind::StringLiteral {
            Some((TokenType::StringToken, col_len))
        } else if nd.kind == NodeKind::Identifier {
            match identifier_token(file, i) {
                Option::Some(t) => Some((t, col_len)),
                Option::None => None,
            }
        } else {
            None
        };
        if let Option::Some((t, len)) = tok {
            let ok = match abs.last() {
                Option::Some(prev) => prev.delta_line < rg.start.row || (prev.delta_line
                    == rg.start.row && prev.delta_start <= rg.start.column),
                Option::None => true,
            };
            // tokens out of source order are dropped
            if ok {
                abs.push(
                    SemanticToken {
                        delta_line: rg.start.row,
                        delta_start: rg.start.column,
                        length: len,
                        token_type: token_id(t),
                        token_modifiers_bitset: 0,
                    },
                );
                proof {
                    assert(spec_node_token(*file, i as int) == Some(abs@.last()));
                    assert(abs@ =~= spec_abs_tokens(*file, (i + 1) as int));
                }
            } else {
                proof {
                    assert(spec_node_token(*file, i as int) matches Some(tt) && pre.len() > 0
                        && !tok_le(pre.last(), tt));
                    assert(abs@ =~= spec_abs_tokens(*file, (i + 1) as int));
                }
            }
        } else {
            proof {
                assert(spec_node_token(*file, i as int) is None);
                assert(abs@ =~= spec_abs_tokens(*file, (i + 1) as int));
            }
        }
        i = i + 1;
    }
    deltalize_tokens(&abs)
}

} // verus!
