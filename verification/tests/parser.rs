use ji::ast::{AddExpression, Command, Modifier};
use ji::lexer::Lexer;
use ji::parser::{ParseError, Parser};
use ji::token::Token;

fn ident(s: &str) -> Token {
    Token::Ident(s.to_string())
}

fn parse(src: &str) -> Result<ji::ast::Program, ParseError> {
    let mut lexer = Lexer::new(src);
    let tokens = lexer.get_tokens();
    Parser::new(tokens).parse_program()
}

#[test]
fn test_parse_isolated_node_with_label_and_props() {
    // ADD (G_PARIS:Gare {ville: "Paris"})
    let tokens = vec![
        Token::Add,
        Token::OpenParen,
        ident("G_PARIS"),
        Token::Colon,
        ident("Gare"),
        Token::OpenBrace,
        ident("ville"),
        Token::Colon,
        Token::Str("Paris".to_string()),
        Token::CloseBrace,
        Token::CloseParen,
    ];

    let mut parser = Parser::new(tokens);
    let program = parser.parse_program().unwrap();

    assert_eq!(program.commands.len(), 1);
    if let Command::Add(AddExpression::Node(node)) = &program.commands[0] {
        assert_eq!(node.alias, "G_PARIS");
        assert_eq!(node.label, Some("Gare".to_string()));
        assert_eq!(node.properties_filters[0].key_id, "ville");
        assert_eq!(node.properties_filters[0].target_value_id, "Paris");
    } else {
        panic!("La commande aurait dû être un Add Expression d'un Nœud");
    }
}

#[test]
fn test_parse_syntax_error_missing_paren() {
    // ADD (G_PARIS:Gare
    let tokens = vec![
        Token::Add,
        Token::OpenParen,
        ident("G_PARIS"),
        Token::Colon,
        ident("Gare"),
    ];

    let mut parser = Parser::new(tokens);
    let result = parser.parse_program();
    assert!(result.is_err(), "Le parseur aurait dû lever une erreur de syntaxe");
}

#[test]
fn parses_edge_with_properties() {
    let program = parse("ADD (paris)-[LGV {duree: \"2h\"}]->(lyon)").unwrap();
    assert_eq!(program.commands.len(), 1);
    match &program.commands[0] {
        Command::Add(AddExpression::Edge { source, target, name, properties }) => {
            assert_eq!(source, "paris");
            assert_eq!(target, "lyon");
            assert_eq!(name, "LGV");
            assert_eq!(properties.len(), 1);
            assert_eq!(properties[0].key_id, "duree");
            assert_eq!(properties[0].target_value_id, "2h");
        }
        other => panic!("unexpected command {:?}", other),
    }
}

#[test]
fn parses_get_path_with_modifiers_and_filter() {
    let program = parse("GET (a)-[*amis]->(b)-[?voisin | similarite > 0.85]->(c)").unwrap();
    match &program.commands[0] {
        Command::Get { start, path } => {
            assert_eq!(start.alias, "a");
            assert_eq!(path.len(), 2);
            assert_eq!(path[0].0.name, "amis");
            assert_eq!(path[0].0.modifier, Some('*'));
            assert!(path[0].0.vec_filter.is_none());
            assert_eq!(path[1].0.modifier, Some('?'));
            let f = path[1].0.vec_filter.as_ref().unwrap();
            assert_eq!(f.target, "similarite");
            assert_eq!(f.operator, ">");
            assert_eq!(f.value, "0.85");
            assert_eq!(path[1].1.alias, "c");
        }
        other => panic!("unexpected command {:?}", other),
    }
}

#[test]
fn parses_property_modifiers() {
    let program = parse("GET (g:Gare {hub*, wifi?: oui, !ville: \"Paris\", nom: x})-[r]->(h)").unwrap();
    match &program.commands[0] {
        Command::Get { start, .. } => {
            let f = &start.properties_filters;
            assert_eq!(f.len(), 4);
            assert_eq!(f[0].key_id, "hub");
            assert_eq!(f[0].modifier, Modifier::Required);
            assert_eq!(f[0].target_value_id, "");
            assert_eq!(f[1].modifier, Modifier::Optional);
            assert_eq!(f[1].target_value_id, "oui");
            assert_eq!(f[2].modifier, Modifier::Opposed);
            assert_eq!(f[2].target_value_id, "Paris");
            assert_eq!(f[3].modifier, Modifier::Neutral);
        }
        other => panic!("unexpected command {:?}", other),
    }
}

#[test]
fn skips_tokens_between_commands_and_keeps_order() {
    let program = parse("x ADD (a) , . GET (a)-[r]->(b) ADD (b)").unwrap();
    assert_eq!(program.commands.len(), 3);
    assert!(matches!(program.commands[0], Command::Add(AddExpression::Node(_))));
    assert!(matches!(program.commands[1], Command::Get { .. }));
    assert!(matches!(program.commands[2], Command::Add(AddExpression::Node(_))));
}

#[test]
fn get_without_edge_is_rejected() {
    assert!(matches!(parse("GET (a)"), Err(ParseError::EmptyPath)));
}

#[test]
fn each_error_variant_has_an_input() {
    assert!(matches!(parse("ADD a"), Err(ParseError::MissingOpenParen)));
    assert!(matches!(parse("ADD ()"), Err(ParseError::MissingAlias)));
    assert!(matches!(parse("ADD (a:)"), Err(ParseError::MissingLabel)));
    assert!(matches!(parse("ADD (a"), Err(ParseError::MissingCloseParen)));
    assert!(matches!(parse("ADD (a {1})"), Err(ParseError::InvalidPropertyName)));
    assert!(matches!(parse("ADD (a {k: 1})"), Err(ParseError::InvalidPropertyValue)));
    assert!(matches!(parse("ADD (a)-[]->(b)"), Err(ParseError::MissingAddRelationName)));
    assert!(matches!(parse("ADD (a)-[r (b)"), Err(ParseError::MissingAddArrow)));
    assert!(matches!(parse("GET (a)-[]->(b)"), Err(ParseError::MissingEdgeName)));
    assert!(matches!(parse("GET (a)-[r | > 1]->(b)"), Err(ParseError::MissingVectorTarget)));
    assert!(matches!(parse("GET (a)-[r | s ! 1]->(b)"), Err(ParseError::InvalidVectorOperator)));
    assert!(matches!(parse("GET (a)-[r | s > x]->(b)"), Err(ParseError::MissingVectorValue)));
    match parse("GET (a)-[r (b)") {
        Err(ParseError::MissingEdgeEnd(found)) => assert_eq!(found, Some(Token::OpenParen)),
        other => panic!("unexpected result {:?}", other),
    }
}

#[test]
fn unknown_command_is_reported_with_its_token() {
    // Only reached when a command keyword is expected; `parse_program` never does that on
    // other tokens, so an empty program is accepted.
    assert_eq!(parse("LINK DETACH").unwrap().commands.len(), 0);
}

#[test]
fn error_messages_name_what_was_found() {
    assert_eq!(
        parse("GET (a)-[r (b)").unwrap_err().message(),
        "Syntaxe invalide : Fin d'arête ' ]-> ' manquante (Reçu à la place : Some(OpenParen))"
    );
    assert_eq!(
        parse("GET (a)-[r").unwrap_err().message(),
        "Syntaxe invalide : Fin d'arête ' ]-> ' manquante (Reçu à la place : None)"
    );
    assert_eq!(
        parse("GET (a)-[r \"x\\\"y\"]->(b)").unwrap_err().message(),
        "Syntaxe invalide : Fin d'arête ' ]-> ' manquante (Reçu à la place : Some(Str(\"x\\\\\")))"
    );
    assert_eq!(parse("ADD ()").unwrap_err().message(), "Syntaxe invalide : Alias du nœud manquant");
    assert_eq!(
        ParseError::UnknownCommand(Some(Token::Ident("x".to_string()))).message(),
        "Syntax Error: Commande inconnue au token Some(Ident(\"x\"))"
    );
    assert_eq!(
        parse("GET (a)").unwrap_err().message(),
        "Une requête GET doit spécifier au moins une arête à traverser."
    );
}

#[test]
fn error_messages_escape_text_as_debug_does() {
    let text = "a\tb'\u{7}é\u{301}";
    let src = format!("GET (a)-[r \"{text}\"]->(b)");
    assert_eq!(
        parse(&src).unwrap_err().message(),
        format!("Syntaxe invalide : Fin d'arête ' ]-> ' manquante (Reçu à la place : Some(Str({:?})))", text)
    );
}
