//! Parsing: [`Token`]s to a [`Program`].
use vstd::prelude::*;
use crate::ast::{
    AddExpression, AddExpressionView, Command, CommandView, EdgeExpr, EdgeExprView, Modifier,
    NodeExpr, NodeExprView, Program, PropertyFilter, PropertyFilterView, VectorFilter,
    VectorFilterView,
};
use crate::text::{one_char_string, push_chars, string_from_chars};
use crate::token::{option_token_text, push_option_token, SpecToken, Token};

verus! {

/// Why a script was rejected.
#[derive(Debug)]
pub enum ParseError {
    /// A command starts with a token that is neither `ADD` nor `GET` (the token found).
    UnknownCommand(Option<Token>),
    /// `ADD (a)-[` is not followed by a relation name.
    MissingAddRelationName,
    /// The relation of an `ADD` is not closed by `]->`.
    MissingAddArrow,
    /// `-[` in a `GET` path is not followed by a relation name.
    MissingEdgeName,
    /// `|` is not followed by the name of the semantic filter's target.
    MissingVectorTarget,
    /// The semantic filter's operator is not one of `>`, `<`, `=`.
    InvalidVectorOperator,
    /// The semantic filter's operator is not followed by a numeric literal.
    MissingVectorValue,
    /// An edge of a `GET` path is not closed by `]->` (the token found instead).
    MissingEdgeEnd(Option<Token>),
    /// A `GET` crosses no edge.
    EmptyPath,
    /// A node does not start with `(`.
    MissingOpenParen,
    /// A node has no alias.
    MissingAlias,
    /// `:` inside a node is not followed by a label.
    MissingLabel,
    /// A node is not closed by `)`.
    MissingCloseParen,
    /// A property filter has no valid key.
    InvalidPropertyName,
    /// A property's `:` is not followed by a string or identifier.
    InvalidPropertyValue,
}

/// The mathematical model of a [`ParseError`].
pub enum SpecParseError {
    UnknownCommand(Option<SpecToken>),
    MissingAddRelationName,
    MissingAddArrow,
    MissingEdgeName,
    MissingVectorTarget,
    InvalidVectorOperator,
    MissingVectorValue,
    MissingEdgeEnd(Option<SpecToken>),
    EmptyPath,
    MissingOpenParen,
    MissingAlias,
    MissingLabel,
    MissingCloseParen,
    InvalidPropertyName,
    InvalidPropertyValue,
}

impl View for ParseError {
    type V = SpecParseError;

    open spec fn view(&self) -> SpecParseError {
        match self {
            ParseError::UnknownCommand(t) => SpecParseError::UnknownCommand(t.deep_view()),
            ParseError::MissingAddRelationName => SpecParseError::MissingAddRelationName,
            ParseError::MissingAddArrow => SpecParseError::MissingAddArrow,
            ParseError::MissingEdgeName => SpecParseError::MissingEdgeName,
            ParseError::MissingVectorTarget => SpecParseError::MissingVectorTarget,
            ParseError::InvalidVectorOperator => SpecParseError::InvalidVectorOperator,
            ParseError::MissingVectorValue => SpecParseError::MissingVectorValue,
            ParseError::MissingEdgeEnd(t) => SpecParseError::MissingEdgeEnd(t.deep_view()),
            ParseError::EmptyPath => SpecParseError::EmptyPath,
            ParseError::MissingOpenParen => SpecParseError::MissingOpenParen,
            ParseError::MissingAlias => SpecParseError::MissingAlias,
            ParseError::MissingLabel => SpecParseError::MissingLabel,
            ParseError::MissingCloseParen => SpecParseError::MissingCloseParen,
            ParseError::InvalidPropertyName => SpecParseError::InvalidPropertyName,
            ParseError::InvalidPropertyValue => SpecParseError::InvalidPropertyValue,
        }
    }
}

/// The message shown for a parse error.
pub open spec fn error_message(e: SpecParseError) -> Seq<char> {
    match e {
        SpecParseError::UnknownCommand(t) => "Syntax Error: Commande inconnue au token "@ + option_token_text(t),
        SpecParseError::MissingEdgeEnd(t) => "Syntaxe invalide : Fin d'arête ' ]-> ' manquante (Reçu à la place : "@
            + option_token_text(t) + ")"@,
        SpecParseError::MissingAddRelationName => "Nom de relation manquant dans le ADD"@,
        SpecParseError::MissingAddArrow => "Syntaxe invalide : ']->' manquant après la relation"@,
        SpecParseError::MissingEdgeName => "Nom de relation manquant dans l'arête"@,
        SpecParseError::MissingVectorTarget => "Cible du filtre sémantique manquante"@,
        SpecParseError::InvalidVectorOperator => "Opérateur de comparaison sémantique invalide"@,
        SpecParseError::MissingVectorValue => "Valeur flottante attendue pour le filtre vectoriel"@,
        SpecParseError::EmptyPath => "Une requête GET doit spécifier au moins une arête à traverser."@,
        SpecParseError::MissingOpenParen => "Syntaxe invalide : Un nœud doit commencer par '('"@,
        SpecParseError::MissingAlias => "Syntaxe invalide : Alias du nœud manquant"@,
        SpecParseError::MissingLabel => "Syntaxe invalide : Label manquant après ':'"@,
        SpecParseError::MissingCloseParen => "Syntaxe invalide : Parenthèse fermante ')' manquante"@,
        SpecParseError::InvalidPropertyName => "Nom de propriété invalide"@,
        SpecParseError::InvalidPropertyValue => "Valeur de propriété invalide"@,
    }
}

impl ParseError {
    /// The message shown to the user for this error.
    pub fn message(&self) -> (r: String)
        ensures
            r@ == error_message(self@),
    {
        match self {
            ParseError::UnknownCommand(t) => {
                let mut out: Vec<char> = Vec::new();
                push_chars(&mut out, "Syntax Error: Commande inconnue au token ");
                push_option_token(&mut out, t);
                string_from_chars(out.as_slice())
            },
            ParseError::MissingEdgeEnd(t) => {
                let mut out: Vec<char> = Vec::new();
                push_chars(&mut out, "Syntaxe invalide : Fin d'arête ' ]-> ' manquante (Reçu à la place : ");
                push_option_token(&mut out, t);
                push_chars(&mut out, ")");
                string_from_chars(out.as_slice())
            },
            ParseError::MissingAddRelationName => "Nom de relation manquant dans le ADD".to_owned(),
            ParseError::MissingAddArrow => "Syntaxe invalide : ']->' manquant après la relation".to_owned(),
            ParseError::MissingEdgeName => "Nom de relation manquant dans l'arête".to_owned(),
            ParseError::MissingVectorTarget => "Cible du filtre sémantique manquante".to_owned(),
            ParseError::InvalidVectorOperator => "Opérateur de comparaison sémantique invalide".to_owned(),
            ParseError::MissingVectorValue => "Valeur flottante attendue pour le filtre vectoriel".to_owned(),
            ParseError::EmptyPath => "Une requête GET doit spécifier au moins une arête à traverser.".to_owned(),
            ParseError::MissingOpenParen => "Syntaxe invalide : Un nœud doit commencer par '('".to_owned(),
            ParseError::MissingAlias => "Syntaxe invalide : Alias du nœud manquant".to_owned(),
            ParseError::MissingLabel => "Syntaxe invalide : Label manquant après ':'".to_owned(),
            ParseError::MissingCloseParen => "Syntaxe invalide : Parenthèse fermante ')' manquante".to_owned(),
            ParseError::InvalidPropertyName => "Nom de propriété invalide".to_owned(),
            ParseError::InvalidPropertyValue => "Valeur de propriété invalide".to_owned(),
        }
    }
}

// ---------------------------------------------------------------------------
// Specification of the grammar
// ---------------------------------------------------------------------------

/// A parse of something of model type `A` ending at a token position.
pub type Parsed<A> = Result<(A, int), SpecParseError>;

/// The token at `p`, if any.
pub open spec fn peek(t: Seq<SpecToken>, p: int) -> Option<SpecToken> {
    if 0 <= p < t.len() {
        Some(t[p])
    } else {
        None
    }
}

/// Property filters up to and including the closing `}`; `p` is just after `{`.
///
/// `properties := ( ['!'] key ['*' | '?'] [':' (string | ident)] [','] )* '}'`;
/// a `*` or `?` after the key applies only when there is no leading `!`.
pub open spec fn parse_properties_at(t: Seq<SpecToken>, p: int) -> Parsed<Seq<PropertyFilterView>>
    decreases t.len() - p,
{
    if peek(t, p) == Some(SpecToken::CloseBrace) {
        Ok((Seq::empty(), p + 1))
    } else {
        let opposed = peek(t, p) == Some(SpecToken::Not);
        let q0 = if opposed { p + 1 } else { p };
        match peek(t, q0) {
            Some(SpecToken::Ident(key)) => {
                let q1 = q0 + 1;
                let modifier = if opposed {
                    Modifier::Opposed
                } else if peek(t, q1) == Some(SpecToken::Star) {
                    Modifier::Required
                } else if peek(t, q1) == Some(SpecToken::Question) {
                    Modifier::Optional
                } else {
                    Modifier::Neutral
                };
                let q2 = if modifier == Modifier::Required || modifier == Modifier::Optional {
                    q1 + 1
                } else {
                    q1
                };
                let value: Parsed<Seq<char>> = if peek(t, q2) == Some(SpecToken::Colon) {
                    match peek(t, q2 + 1) {
                        Some(SpecToken::Str(v)) => Ok((v, q2 + 2)),
                        Some(SpecToken::Ident(v)) => Ok((v, q2 + 2)),
                        _ => Err(SpecParseError::InvalidPropertyValue),
                    }
                } else {
                    Ok((Seq::empty(), q2))
                };
                match value {
                    Err(e) => Err(e),
                    Ok((v, q3)) => {
                        let q4 = if peek(t, q3) == Some(SpecToken::Comma) { q3 + 1 } else { q3 };
                        let f = PropertyFilterView { key_id: key, target_value_id: v, modifier };
                        match parse_properties_at(t, q4) {
                            Err(e) => Err(e),
                            Ok((rest, e)) => Ok((seq![f] + rest, e)),
                        }
                    },
                }
            },
            _ => Err(SpecParseError::InvalidPropertyName),
        }
    }
}

/// How a single property filter is read, whatever its key `k` and value `v`: `!k: "v"` is an
/// opposed filter on `k` with value `v`; `k*` is a required filter with no value; `k?: "v"` is
/// an optional filter with value `v`; `k: "v"` is a filter without modifier. Each runs to the
/// closing `}`.
pub proof fn law_property_filter_forms(t: Seq<SpecToken>, p: int, k: Seq<char>, v: Seq<char>)
    requires
        0 <= p,
    ensures
        (peek(t, p) == Some(SpecToken::Not) && peek(t, p + 1) == Some(SpecToken::Ident(k))
            && peek(t, p + 2) == Some(SpecToken::Colon) && peek(t, p + 3) == Some(SpecToken::Str(v))
            && peek(t, p + 4) == Some(SpecToken::CloseBrace)) ==> parse_properties_at(t, p) == Ok::<(Seq<PropertyFilterView>, int), SpecParseError>(
            (seq![PropertyFilterView { key_id: k, target_value_id: v, modifier: Modifier::Opposed }], p + 5)),
        (peek(t, p) == Some(SpecToken::Ident(k)) && peek(t, p + 1) == Some(SpecToken::Star)
            && peek(t, p + 2) == Some(SpecToken::CloseBrace)) ==> parse_properties_at(t, p) == Ok::<(Seq<PropertyFilterView>, int), SpecParseError>(
            (seq![PropertyFilterView { key_id: k, target_value_id: Seq::empty(), modifier: Modifier::Required }], p + 3)),
        (peek(t, p) == Some(SpecToken::Ident(k)) && peek(t, p + 1) == Some(SpecToken::Question)
            && peek(t, p + 2) == Some(SpecToken::Colon) && peek(t, p + 3) == Some(SpecToken::Str(v))
            && peek(t, p + 4) == Some(SpecToken::CloseBrace)) ==> parse_properties_at(t, p) == Ok::<(Seq<PropertyFilterView>, int), SpecParseError>(
            (seq![PropertyFilterView { key_id: k, target_value_id: v, modifier: Modifier::Optional }], p + 5)),
        (peek(t, p) == Some(SpecToken::Ident(k)) && peek(t, p + 1) == Some(SpecToken::Colon)
            && peek(t, p + 2) == Some(SpecToken::Str(v)) && peek(t, p + 3) == Some(SpecToken::CloseBrace))
            ==> parse_properties_at(t, p) == Ok::<(Seq<PropertyFilterView>, int), SpecParseError>(
            (seq![PropertyFilterView { key_id: k, target_value_id: v, modifier: Modifier::Neutral }], p + 4)),
{
    assert(parse_properties_at(t, p + 4) == (if peek(t, p + 4) == Some(SpecToken::CloseBrace) {
        Ok::<(Seq<PropertyFilterView>, int), SpecParseError>((Seq::empty(), p + 5))
    } else {
        parse_properties_at(t, p + 4)
    }));
    assert(parse_properties_at(t, p + 3) == (if peek(t, p + 3) == Some(SpecToken::CloseBrace) {
        Ok::<(Seq<PropertyFilterView>, int), SpecParseError>((Seq::empty(), p + 4))
    } else {
        parse_properties_at(t, p + 3)
    }));
    assert(parse_properties_at(t, p + 2) == (if peek(t, p + 2) == Some(SpecToken::CloseBrace) {
        Ok::<(Seq<PropertyFilterView>, int), SpecParseError>((Seq::empty(), p + 3))
    } else {
        parse_properties_at(t, p + 2)
    }));
    let fo = PropertyFilterView { key_id: k, target_value_id: v, modifier: Modifier::Opposed };
    let fr = PropertyFilterView { key_id: k, target_value_id: Seq::empty(), modifier: Modifier::Required };
    let fq = PropertyFilterView { key_id: k, target_value_id: v, modifier: Modifier::Optional };
    let fn_ = PropertyFilterView { key_id: k, target_value_id: v, modifier: Modifier::Neutral };
    assert(seq![fo] + Seq::<PropertyFilterView>::empty() =~= seq![fo]);
    assert(seq![fr] + Seq::<PropertyFilterView>::empty() =~= seq![fr]);
    assert(seq![fq] + Seq::<PropertyFilterView>::empty() =~= seq![fq]);
    assert(seq![fn_] + Seq::<PropertyFilterView>::empty() =~= seq![fn_]);
}

/// A node `'(' alias [':' label] ['{' properties] ')'` starting at `p`.
pub open spec fn parse_node_at(t: Seq<SpecToken>, p: int) -> Parsed<NodeExprView> {
    if peek(t, p) != Some(SpecToken::OpenParen) {
        Err(SpecParseError::MissingOpenParen)
    } else {
        match peek(t, p + 1) {
            Some(SpecToken::Ident(alias)) => {
                let q = p + 2;
                let label: Parsed<Option<Seq<char>>> = if peek(t, q) == Some(SpecToken::Colon) {
                    match peek(t, q + 1) {
                        Some(SpecToken::Ident(l)) => Ok((Some(l), q + 2)),
                        _ => Err(SpecParseError::MissingLabel),
                    }
                } else {
                    Ok((None, q))
                };
                match label {
                    Err(e) => Err(e),
                    Ok((label, q1)) => {
                        let props = if peek(t, q1) == Some(SpecToken::OpenBrace) {
                            parse_properties_at(t, q1 + 1)
                        } else {
                            Ok((Seq::empty(), q1))
                        };
                        match props {
                            Err(e) => Err(e),
                            Ok((filters, q2)) => {
                                if peek(t, q2) != Some(SpecToken::CloseParen) {
                                    Err(SpecParseError::MissingCloseParen)
                                } else {
                                    Ok((
                                        NodeExprView { alias, label, properties_filters: filters },
                                        q2 + 1,
                                    ))
                                }
                            },
                        }
                    },
                }
            },
            _ => Err(SpecParseError::MissingAlias),
        }
    }
}

/// The operator text of a semantic filter's comparison token.
pub open spec fn vector_operator(tok: Option<SpecToken>) -> Option<Seq<char>> {
    match tok {
        Some(SpecToken::GreaterThan) => Some(seq!['>']),
        Some(SpecToken::LessThan) => Some(seq!['<']),
        Some(SpecToken::Equal) => Some(seq!['=']),
        _ => None,
    }
}

/// An optional semantic filter `'|' target op number` starting at `p`.
pub open spec fn parse_vector_filter_at(t: Seq<SpecToken>, p: int) -> Parsed<Option<VectorFilterView>> {
    if peek(t, p) != Some(SpecToken::Pipe) {
        Ok((None, p))
    } else {
        match peek(t, p + 1) {
            Some(SpecToken::Ident(target)) => match vector_operator(peek(t, p + 2)) {
                None => Err(SpecParseError::InvalidVectorOperator),
                Some(operator) => match peek(t, p + 3) {
                    Some(SpecToken::Float(value)) => Ok(
                        (Some(VectorFilterView { target, operator, value }), p + 4),
                    ),
                    _ => Err(SpecParseError::MissingVectorValue),
                },
            },
            _ => Err(SpecParseError::MissingVectorTarget),
        }
    }
}

/// One step of a path, `'-[' ['*' | '?'] name [filter] ']->' node`, where `p` holds `-[`.
pub open spec fn parse_segment_at(t: Seq<SpecToken>, p: int) -> Parsed<(EdgeExprView, NodeExprView)> {
    let q = p + 1;
    let modifier = if peek(t, q) == Some(SpecToken::Star) {
        Some('*')
    } else if peek(t, q) == Some(SpecToken::Question) {
        Some('?')
    } else {
        None
    };
    let q1 = if modifier is Some { q + 1 } else { q };
    match peek(t, q1) {
        Some(SpecToken::Ident(name)) => match parse_vector_filter_at(t, q1 + 1) {
            Err(e) => Err(e),
            Ok((vec_filter, q3)) => {
                if peek(t, q3) != Some(SpecToken::Arrow) {
                    Err(SpecParseError::MissingEdgeEnd(peek(t, q3)))
                } else {
                    match parse_node_at(t, q3 + 1) {
                        Err(e) => Err(e),
                        Ok((node, q4)) => Ok(((EdgeExprView { name, modifier, vec_filter }, node), q4)),
                    }
                }
            },
        },
        _ => Err(SpecParseError::MissingEdgeName),
    }
}

/// The node of a path step is exactly the node pattern written after the step's `]->`, as the
/// node parser reads it there: with its alias, label and every property filter inside its
/// parentheses; the step ends where that node ends.
pub proof fn law_segment_node(t: Seq<SpecToken>, p: int)
    requires
        parse_segment_at(t, p) is Ok,
    ensures
        ({
            let ((edge, node), q) = parse_segment_at(t, p)->Ok_0;
            exists|r: int| p < r && peek(t, r - 1) == Some(SpecToken::Arrow) && #[trigger] parse_node_at(t, r) == Ok::<(NodeExprView, int), SpecParseError>((node, q))
        }),
{
    let q = p + 1;
    let modifier = if peek(t, q) == Some(SpecToken::Star) {
        Some('*')
    } else if peek(t, q) == Some(SpecToken::Question) {
        Some('?')
    } else {
        None
    };
    let q1 = if modifier is Some { q + 1 } else { q };
    let (vf, q3) = parse_vector_filter_at(t, q1 + 1)->Ok_0;
    let r = q3 + 1;
    assert(parse_node_at(t, r) is Ok);
}

/// The steps of a path, as long as the next token is `-[`.
pub open spec fn parse_path_at(t: Seq<SpecToken>, p: int) -> Parsed<Seq<(EdgeExprView, NodeExprView)>>
    decreases t.len() - p,
{
    if p < 0 || p >= t.len() || t[p] != SpecToken::StartEdge {
        Ok((Seq::empty(), p))
    } else {
        match parse_segment_at(t, p) {
            Err(e) => Err(e),
            Ok((seg, q)) => {
                proof {
                    lemma_segment_advances(t, p);
                }
                match parse_path_at(t, q) {
                    Err(e) => Err(e),
                    Ok((rest, e)) => Ok((seq![seg] + rest, e)),
                }
            },
        }
    }
}

/// The body of a `GET` command (after the keyword): a start node and at least one step.
pub open spec fn parse_get_at(t: Seq<SpecToken>, p: int) -> Parsed<CommandView> {
    match parse_node_at(t, p) {
        Err(e) => Err(e),
        Ok((start, q)) => match parse_path_at(t, q) {
            Err(e) => Err(e),
            Ok((path, q2)) => if path.len() == 0 {
                Err(SpecParseError::EmptyPath)
            } else {
                Ok((CommandView::Get { start, path }, q2))
            },
        },
    }
}

/// The body of an `ADD` command (after the keyword): a node, or a relation between two nodes.
pub open spec fn parse_add_at(t: Seq<SpecToken>, p: int) -> Parsed<CommandView> {
    match parse_node_at(t, p) {
        Err(e) => Err(e),
        Ok((first, q)) => if peek(t, q) == Some(SpecToken::StartEdge) {
            match peek(t, q + 1) {
                Some(SpecToken::Ident(name)) => {
                    let q2 = q + 2;
                    let props = if peek(t, q2) == Some(SpecToken::OpenBrace) {
                        parse_properties_at(t, q2 + 1)
                    } else {
                        Ok((Seq::empty(), q2))
                    };
                    match props {
                        Err(e) => Err(e),
                        Ok((properties, q3)) => if peek(t, q3) != Some(SpecToken::Arrow) {
                            Err(SpecParseError::MissingAddArrow)
                        } else {
                            match parse_node_at(t, q3 + 1) {
                                Err(e) => Err(e),
                                Ok((target, q4)) => Ok((
                                    CommandView::Add(AddExpressionView::Edge {
                                        source: first.alias,
                                        target: target.alias,
                                        name,
                                        properties,
                                    }),
                                    q4,
                                )),
                            }
                        },
                    }
                },
                _ => Err(SpecParseError::MissingAddRelationName),
            }
        } else {
            Ok((CommandView::Add(AddExpressionView::Node(first)), q))
        },
    }
}

/// A command starting at its keyword.
pub open spec fn parse_command_at(t: Seq<SpecToken>, p: int) -> Parsed<CommandView> {
    match peek(t, p) {
        Some(SpecToken::Add) => parse_add_at(t, p + 1),
        Some(SpecToken::Get) => parse_get_at(t, p + 1),
        other => Err(SpecParseError::UnknownCommand(other)),
    }
}

/// Whether a token starts a command.
pub open spec fn starts_command(tok: SpecToken) -> bool {
    tok == SpecToken::Add || tok == SpecToken::Get
}

/// All commands from `p` on. Tokens between commands that start no command are skipped;
/// the first malformed command rejects the whole program.
pub open spec fn parse_commands_from(t: Seq<SpecToken>, p: int) -> Result<Seq<CommandView>, SpecParseError>
    decreases t.len() - p,
{
    if p < 0 || p >= t.len() {
        Ok(Seq::empty())
    } else if starts_command(t[p]) {
        match parse_command_at(t, p) {
            Err(e) => Err(e),
            Ok((c, q)) => {
                proof {
                    lemma_command_advances(t, p);
                }
                match parse_commands_from(t, q) {
                    Err(e) => Err(e),
                    Ok(rest) => Ok(seq![c] + rest),
                }
            },
        }
    } else {
        parse_commands_from(t, p + 1)
    }
}

// ---------------------------------------------------------------------------
// Every successful parse consumes tokens and stays within the input
// ---------------------------------------------------------------------------

pub proof fn lemma_properties_advance(t: Seq<SpecToken>, p: int)
    requires
        0 <= p,
    ensures
        parse_properties_at(t, p) matches Ok((_, q)) ==> p < q <= t.len(),
    decreases t.len() - p,
{
    if peek(t, p) != Some(SpecToken::CloseBrace) {
        let opposed = peek(t, p) == Some(SpecToken::Not);
        let q0 = if opposed { p + 1 } else { p };
        if let Some(SpecToken::Ident(key)) = peek(t, q0) {
            let q1 = q0 + 1;
            let modifier = if opposed {
                Modifier::Opposed
            } else if peek(t, q1) == Some(SpecToken::Star) {
                Modifier::Required
            } else if peek(t, q1) == Some(SpecToken::Question) {
                Modifier::Optional
            } else {
                Modifier::Neutral
            };
            let q2 = if modifier == Modifier::Required || modifier == Modifier::Optional {
                q1 + 1
            } else {
                q1
            };
            let value: Parsed<Seq<char>> = if peek(t, q2) == Some(SpecToken::Colon) {
                match peek(t, q2 + 1) {
                    Some(SpecToken::Str(v)) => Ok((v, q2 + 2)),
                    Some(SpecToken::Ident(v)) => Ok((v, q2 + 2)),
                    _ => Err(SpecParseError::InvalidPropertyValue),
                }
            } else {
                Ok((Seq::empty(), q2))
            };
            if let Ok((v, q3)) = value {
                let q4 = if peek(t, q3) == Some(SpecToken::Comma) { q3 + 1 } else { q3 };
                lemma_properties_advance(t, q4);
            }
        }
    }
}

pub proof fn lemma_node_advances(t: Seq<SpecToken>, p: int)
    requires
        0 <= p,
    ensures
        parse_node_at(t, p) matches Ok((_, q)) ==> p < q <= t.len(),
{
    lemma_properties_advance(t, p + 3);
    lemma_properties_advance(t, p + 5);
}

pub proof fn lemma_segment_advances(t: Seq<SpecToken>, p: int)
    requires
        0 <= p,
    ensures
        parse_segment_at(t, p) matches Ok((_, q)) ==> p < q <= t.len(),
{
    let q = p + 1;
    let q1 = if peek(t, q) == Some(SpecToken::Star) || peek(t, q) == Some(SpecToken::Question) { q + 1 } else { q };
    if let Some(SpecToken::Ident(name)) = peek(t, q1) {
        if let Ok((vf, q3)) = parse_vector_filter_at(t, q1 + 1) {
            lemma_node_advances(t, q3 + 1);
        }
    }
}

pub proof fn lemma_path_bounds(t: Seq<SpecToken>, p: int)
    requires
        0 <= p <= t.len(),
    ensures
        parse_path_at(t, p) matches Ok((path, q)) ==> p <= q <= t.len() && (path.len() > 0 ==> p < q),
    decreases t.len() - p,
{
    if !(p < 0 || p >= t.len() || t[p] != SpecToken::StartEdge) {
        lemma_segment_advances(t, p);
        if let Ok((seg, q)) = parse_segment_at(t, p) {
            lemma_path_bounds(t, q);
        }
    }
}

pub proof fn lemma_command_advances(t: Seq<SpecToken>, p: int)
    requires
        0 <= p,
    ensures
        parse_command_at(t, p) matches Ok((_, q)) ==> p < q <= t.len(),
{
    lemma_node_advances(t, p + 1);
    if let Ok((first, q)) = parse_node_at(t, p + 1) {
        lemma_properties_advance(t, q + 3);
        lemma_path_bounds(t, q);
        if let Ok((props, q3)) = (if peek(t, q + 2) == Some(SpecToken::OpenBrace) {
            parse_properties_at(t, q + 3)
        } else {
            Ok((Seq::empty(), q + 2))
        }) {
            lemma_node_advances(t, q3 + 1);
        }
    }
}

/// Every `GET` command of a parsed program crosses at least one edge.
pub proof fn law_get_crosses_an_edge(t: Seq<SpecToken>, p: int)
    requires
        0 <= p,
    ensures
        parse_commands_from(t, p) matches Ok(cmds) ==> forall|i: int|
            0 <= i < cmds.len() ==> (#[trigger] cmds[i] matches CommandView::Get { path, .. } ==> path.len() > 0),
    decreases t.len() - p,
{
    if 0 <= p < t.len() {
        if starts_command(t[p]) {
            lemma_command_advances(t, p);
            if let Ok((c, q)) = parse_command_at(t, p) {
                law_get_crosses_an_edge(t, q);
                if let Ok(rest) = parse_commands_from(t, q) {
                    let cmds = seq![c] + rest;
                    assert forall|i: int| 0 <= i < cmds.len() implies (#[trigger] cmds[i] matches CommandView::Get { path, .. } ==> path.len() > 0) by {
                        if i > 0 {
                            assert(cmds[i] == rest[i - 1]);
                        }
                    }
                }
            }
        } else {
            law_get_crosses_an_edge(t, p + 1);
        }
    }
}

/// `front` followed by what `r` parsed, or `r`'s error.
pub open spec fn prepend<A>(front: Seq<A>, r: Parsed<Seq<A>>) -> Parsed<Seq<A>> {
    match r {
        Ok((rest, e)) => Ok((front + rest, e)),
        Err(x) => Err(x),
    }
}

/// An executable parse result `r` that ended at position `end` is the one the grammar gives.
pub open spec fn agrees<A: DeepView>(r: Result<A, ParseError>, spec: Parsed<A::V>, end: int) -> bool {
    match spec {
        Ok((v, q)) => r matches Ok(x) && x.deep_view() == v && end == q,
        Err(e) => r matches Err(x) && x@ == e,
    }
}

// ---------------------------------------------------------------------------
// Executable parser
// ---------------------------------------------------------------------------

/// A recursive-descent parser over a token list.
pub struct Parser {
    tokens: Vec<Token>,
    position: usize,
}

impl Parser {
    /// The tokens being parsed.
    pub closed spec fn input(&self) -> Seq<SpecToken> {
        self.tokens.deep_view()
    }

    /// The position of the next token to read.
    pub closed spec fn pos(&self) -> int {
        self.position as int
    }

    /// The parser's invariant: the position never passes the end of the tokens.
    pub closed spec fn wf(&self) -> bool {
        self.position <= self.tokens@.len()
    }

    /// A parser at the first of `tokens`.
    pub fn new(tokens: Vec<Token>) -> (p: Self)
        ensures
            p.wf(),
            p.input() == tokens.deep_view(),
            p.pos() == 0,
    {
        Parser { tokens, position: 0 }
    }

    /// Parses every command of the script; tokens that start no command are skipped.
    pub fn parse_program(&mut self) -> (r: Result<Program, ParseError>)
        requires
            old(self).wf(),
        ensures
            final(self).wf(),
            final(self).input() == old(self).input(),
            match parse_commands_from(old(self).input(), old(self).pos()) {
                Ok(cmds) => r matches Ok(prog) && prog@.commands == cmds,
                Err(e) => r matches Err(x) && x@ == e,
            },
            r is Ok ==> final(self).pos() == final(self).input().len(),
    {
        let ghost s = self.input();
        let ghost p0 = self.pos();
        let mut commands: Vec<Command> = Vec::new();
        while self.position < self.tokens.len()
            invariant
                self.wf(),
                self.tokens.deep_view() == s,
                s == old(self).input(),
                p0 == old(self).pos(),
                parse_commands_from(s, p0) == (match parse_commands_from(s, self.position as int) {
                    Ok(rest) => Ok(commands.deep_view() + rest),
                    Err(x) => Err(x),
                }),
            decreases s.len() - self.position,
        {
            let ghost before = self.position as int;
            if matches!(self.peek_token(), Some(Token::Get) | Some(Token::Add)) {
                proof {
                    lemma_command_advances(s, before);
                }
                let command = match self.parse_single_command() {
                    Ok(v) => v,
                    Err(e) => return Err(e),
                };
                let ghost prev = commands.deep_view();
                let ghost cv = command.deep_view();
                commands.push(command);
                proof {
                    assert(commands.deep_view() =~= prev.push(cv));
                    if let Ok(rest) = parse_commands_from(s, self.position as int) {
                        assert(prev.push(cv) + rest =~= prev + (seq![cv] + rest));
                    }
                }
            } else {
                self.position += 1;
            }
        }
        proof {
            assert(commands.deep_view() + Seq::<CommandView>::empty() =~= commands.deep_view());
        }
        Ok(Program { commands })
    }

    /// Parses one command, starting at its keyword.
    fn parse_single_command(&mut self) -> (r: Result<Command, ParseError>)
        requires
            old(self).wf(),
        ensures
            final(self).wf(),
            final(self).input() == old(self).input(),
            agrees(r, parse_command_at(old(self).input(), old(self).pos()), final(self).pos()),
    {
        if matches!(self.peek_token(), Some(Token::Add)) {
            self.consume_token();
            self.parse_add_command()
        } else if matches!(self.peek_token(), Some(Token::Get)) {
            self.consume_token();
            self.parse_get_path()
        } else {
            let found = match self.peek_token() {
                Some(t) => Some(t.clone()),
                None => None,
            };
            Err(ParseError::UnknownCommand(found))
        }
    }

    /// Parses the rest of an `ADD`: a node, or a relation `(a)-[name {props}]->(b)`.
    fn parse_add_command(&mut self) -> (r: Result<Command, ParseError>)
        requires
            old(self).wf(),
        ensures
            final(self).wf(),
            final(self).input() == old(self).input(),
            agrees(r, parse_add_at(old(self).input(), old(self).pos()), final(self).pos()),
    {
        let first_node = match self.parse_node() {
            Ok(v) => v,

            Err(e) => return Err(e),

        };
        if matches!(self.peek_token(), Some(Token::StartEdge)) {
            self.consume_token();
            let edge_name = match self.consume_token() {
                Some(Token::Ident(name)) => name,
                _ => return Err(ParseError::MissingAddRelationName),
            };
            let mut edge_properties: Vec<PropertyFilter> = Vec::new();
            proof {
                assert(edge_properties.deep_view() =~= Seq::<PropertyFilterView>::empty());
            }
            if matches!(self.peek_token(), Some(Token::OpenBrace)) {
                self.consume_token();
                edge_properties = match self.parse_properties() {
                Ok(v) => v,
                Err(e) => return Err(e),
            };
            }
            if !matches!(self.consume_token(), Some(Token::Arrow)) {
                return Err(ParseError::MissingAddArrow);
            }
            let target_node = match self.parse_node() {
                Ok(v) => v,

                Err(e) => return Err(e),

            };
            Ok(Command::Add(AddExpression::Edge {
                source: first_node.alias,
                target: target_node.alias,
                name: edge_name,
                properties: edge_properties,
            }))
        } else {
            Ok(Command::Add(AddExpression::Node(first_node)))
        }
    }

    /// Parses the rest of a `GET`: a start node followed by at least one step.
    fn parse_get_path(&mut self) -> (r: Result<Command, ParseError>)
        requires
            old(self).wf(),
        ensures
            final(self).wf(),
            final(self).input() == old(self).input(),
            agrees(r, parse_get_at(old(self).input(), old(self).pos()), final(self).pos()),
    {
        let ghost s = self.input();
        let start = match self.parse_node() {
            Ok(v) => v,

            Err(e) => return Err(e),

        };
        let ghost q = self.pos();
        let mut path: Vec<(EdgeExpr, NodeExpr)> = Vec::new();
        loop
            invariant_except_break
                parse_path_at(s, q) == prepend(path.deep_view(), parse_path_at(s, self.position as int)),
            invariant
                self.wf(),
                self.tokens.deep_view() == s,
                s == old(self).input(),
                parse_node_at(s, old(self).pos()) == Ok::<(NodeExprView, int), SpecParseError>((start.deep_view(), q)),
            ensures
                parse_path_at(s, q) == prepend(path.deep_view(), Ok((Seq::empty(), self.position as int))),
            decreases s.len() - self.position,
        {
            if !matches!(self.peek_token(), Some(Token::StartEdge)) {
                break;
            }
            let ghost before = self.position as int;
            proof {
                lemma_segment_advances(s, before);
            }
            let segment = match self.parse_segment() {
                Ok(v) => v,

                Err(e) => return Err(e),

            };
            let ghost prev = path.deep_view();
            let ghost sv = segment.deep_view();
            path.push(segment);
            proof {
                assert(path.deep_view() =~= prev.push(sv));
                if let Ok((rest, e)) = parse_path_at(s, self.position as int) {
                    assert(prev.push(sv) + rest =~= prev + (seq![sv] + rest));
                }
            }
        }
        proof {
            assert(path.deep_view() + Seq::<(EdgeExprView, NodeExprView)>::empty() =~= path.deep_view());
        }
        if path.len() == 0 {
            return Err(ParseError::EmptyPath);
        }
        Ok(Command::Get { start, path })
    }

    /// Parses one step `-[modifier name filter]-> node`; the next token is `-[`.
    fn parse_segment(&mut self) -> (r: Result<(EdgeExpr, NodeExpr), ParseError>)
        requires
            old(self).wf(),
        ensures
            final(self).wf(),
            final(self).input() == old(self).input(),
            agrees(r, parse_segment_at(old(self).input(), old(self).pos()), final(self).pos()),
    {
        self.consume_token();
        let mut modifier: Option<char> = None;
        if matches!(self.peek_token(), Some(Token::Star)) {
            self.consume_token();
            modifier = Some('*');
        } else if matches!(self.peek_token(), Some(Token::Question)) {
            self.consume_token();
            modifier = Some('?');
        }
        let name = match self.consume_token() {
            Some(Token::Ident(n)) => n,
            _ => return Err(ParseError::MissingEdgeName),
        };
        let vec_filter = match self.parse_vector_filter() {
            Ok(v) => v,

            Err(e) => return Err(e),

        };
        let next_t = self.consume_token();
        if !matches!(next_t, Some(Token::Arrow)) {
            return Err(ParseError::MissingEdgeEnd(next_t));
        }
        let next_node = match self.parse_node() {
            Ok(v) => v,

            Err(e) => return Err(e),

        };
        Ok((EdgeExpr { name, modifier, vec_filter }, next_node))
    }

    /// Parses an optional semantic filter `| target op value`.
    fn parse_vector_filter(&mut self) -> (r: Result<Option<VectorFilter>, ParseError>)
        requires
            old(self).wf(),
        ensures
            final(self).wf(),
            final(self).input() == old(self).input(),
            agrees(r, parse_vector_filter_at(old(self).input(), old(self).pos()), final(self).pos()),
    {
        if !matches!(self.peek_token(), Some(Token::Pipe)) {
            return Ok(None);
        }
        self.consume_token();
        let target = match self.consume_token() {
            Some(Token::Ident(t)) => t,
            _ => return Err(ParseError::MissingVectorTarget),
        };
        let operator = match self.consume_token() {
            Some(Token::GreaterThan) => one_char_string('>'),
            Some(Token::LessThan) => one_char_string('<'),
            Some(Token::Equal) => one_char_string('='),
            _ => return Err(ParseError::InvalidVectorOperator),
        };
        let value = match self.consume_token() {
            Some(Token::Float(v)) => v,
            _ => return Err(ParseError::MissingVectorValue),
        };
        Ok(Some(VectorFilter { target, operator, value }))
    }

    /// Parses a node `(alias:Label {filters})`.
    fn parse_node(&mut self) -> (r: Result<NodeExpr, ParseError>)
        requires
            old(self).wf(),
        ensures
            final(self).wf(),
            final(self).input() == old(self).input(),
            agrees(r, parse_node_at(old(self).input(), old(self).pos()), final(self).pos()),
    {
        if !matches!(self.consume_token(), Some(Token::OpenParen)) {
            return Err(ParseError::MissingOpenParen);
        }
        let alias = match self.consume_token() {
            Some(Token::Ident(name)) => name,
            _ => return Err(ParseError::MissingAlias),
        };
        let mut label: Option<String> = None;
        let mut properties_filters: Vec<PropertyFilter> = Vec::new();
        proof {
            assert(properties_filters.deep_view() =~= Seq::<PropertyFilterView>::empty());
        }
        if matches!(self.peek_token(), Some(Token::Colon)) {
            self.consume_token();
            label = match self.consume_token() {
                Some(Token::Ident(lbl)) => Some(lbl),
                _ => return Err(ParseError::MissingLabel),
            };
        }
        if matches!(self.peek_token(), Some(Token::OpenBrace)) {
            self.consume_token();
            properties_filters = match self.parse_properties() {
                Ok(v) => v,
                Err(e) => return Err(e),
            };
        }
        if !matches!(self.consume_token(), Some(Token::CloseParen)) {
            return Err(ParseError::MissingCloseParen);
        }
        Ok(NodeExpr { alias, label, properties_filters })
    }

    /// Parses property filters up to and including the closing `}`.
    fn parse_properties(&mut self) -> (r: Result<Vec<PropertyFilter>, ParseError>)
        requires
            old(self).wf(),
        ensures
            final(self).wf(),
            final(self).input() == old(self).input(),
            agrees(r, parse_properties_at(old(self).input(), old(self).pos()), final(self).pos()),
    {
        let ghost s = self.input();
        let ghost p0 = self.pos();
        let mut filters: Vec<PropertyFilter> = Vec::new();
        loop
            invariant_except_break
                parse_properties_at(s, p0) == prepend(filters.deep_view(), parse_properties_at(s, self.position as int)),
            invariant
                self.wf(),
                self.tokens.deep_view() == s,
                s == old(self).input(),
                p0 == old(self).pos(),
            ensures
                peek(s, self.position as int) == Some(SpecToken::CloseBrace),
                parse_properties_at(s, p0) == prepend(filters.deep_view(), parse_properties_at(s, self.position as int)),
            decreases s.len() - self.position,
        {
            if matches!(self.peek_token(), Some(Token::CloseBrace)) {
                break;
            }
            let ghost before = self.position as int;
            let mut modifier = Modifier::Neutral;
            if matches!(self.peek_token(), Some(Token::Not)) {
                self.consume_token();
                modifier = Modifier::Opposed;
            }
            let key_id = match self.consume_token() {
                Some(Token::Ident(k)) => k,
                _ => return Err(ParseError::InvalidPropertyName),
            };
            if modifier == Modifier::Neutral {
                if matches!(self.peek_token(), Some(Token::Star)) {
                    self.consume_token();
                    modifier = Modifier::Required;
                } else if matches!(self.peek_token(), Some(Token::Question)) {
                    self.consume_token();
                    modifier = Modifier::Optional;
                }
            }
            let mut target_value_id = String::new();
            if matches!(self.peek_token(), Some(Token::Colon)) {
                self.consume_token();
                target_value_id = match self.consume_token() {
                    Some(Token::Str(v)) => v,
                    Some(Token::Ident(v)) => v,
                    _ => return Err(ParseError::InvalidPropertyValue),
                };
            }
            let f = PropertyFilter { key_id, target_value_id, modifier };
            let ghost prev = filters.deep_view();
            let ghost fv = f@;
            filters.push(f);
            if matches!(self.peek_token(), Some(Token::Comma)) {
                self.consume_token();
            }
            proof {
                assert(filters.deep_view() =~= prev.push(fv));
                if let Ok((rest, e)) = parse_properties_at(s, self.position as int) {
                    assert(prev.push(fv) + rest =~= prev + (seq![fv] + rest));
                }
            }
        }
        self.consume_token();
        proof {
            assert(filters.deep_view() + Seq::<PropertyFilterView>::empty() =~= filters.deep_view());
        }
        Ok(filters)
    }

    /// The next token, without consuming it.
    fn peek_token(&self) -> (r: Option<&Token>)
        ensures
            r.deep_view() == peek(self.input(), self.pos()),
    {
        if self.position < self.tokens.len() {
            Some(&self.tokens[self.position])
        } else {
            None
        }
    }

    /// Consumes and returns the next token, if any.
    fn consume_token(&mut self) -> (r: Option<Token>)
        requires
            old(self).wf(),
        ensures
            final(self).wf(),
            final(self).input() == old(self).input(),
            r.deep_view() == peek(old(self).input(), old(self).pos()),
            final(self).pos() == if old(self).pos() < old(self).input().len() {
                old(self).pos() + 1
            } else {
                old(self).pos()
            },
    {
        if self.position < self.tokens.len() {
            let t = self.tokens[self.position].clone();
            self.position += 1;
            Some(t)
        } else {
            None
        }
    }
}

} // verus!
