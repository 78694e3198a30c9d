use t32_language_server::protocol::{Position, Range, TextDocumentItem};
use t32_language_server::semantic::{flatten_semantic_tokens, split_multiline_semantic_tokens, SemanticToken};
use t32_language_server::textdoc::{TextDoc, LANGUAGE_ID};

#[test]
fn can_flatten_overlapping_tokens() {
    let tokens = vec![
        SemanticToken {
            span: Range {
                start: Position {
                    line: 0,
                    character: 0,
                },
                end: Position {
                    line: 0,
                    character: 10,
                },
            },
            token_type: 0,
            modifier: 0,
        },
        SemanticToken {
            span: Range {
                start: Position {
                    line: 0,
                    character: 11,
                },
                end: Position {
                    line: 0,
                    character: 12,
                },
            },
            token_type: 1,
            modifier: 1,
        },
    ];

    let flattened = tokens.clone();

    let tokens = flatten_semantic_tokens(tokens);
    assert_eq!(tokens, flattened);

    let tokens = vec![
        SemanticToken {
            span: Range {
                start: Position {
                    line: 0,
                    character: 0,
                },
                end: Position {
                    line: 0,
                    character: 10,
                },
            },
            token_type: 0,
            modifier: 0,
        },
        SemanticToken {
            span: Range {
                start: Position {
                    line: 0,
                    character: 0,
                },
                end: Position {
                    line: 0,
                    character: 2,
                },
            },
            token_type: 1,
            modifier: 1,
        },
        SemanticToken {
            span: Range {
                start: Position {
                    line: 0,
                    character: 8,
                },
                end: Position {
                    line: 0,
                    character: 10,
                },
            },
            token_type: 1,
            modifier: 1,
        },
    ];

    let flattened = vec![
        SemanticToken {
            span: Range {
                start: Position {
                    line: 0,
                    character: 0,
                },
                end: Position {
                    line: 0,
                    character: 2,
                },
            },
            token_type: 1,
            modifier: 1,
        },
        SemanticToken {
            span: Range {
                start: Position {
                    line: 0,
                    character: 2,
                },
                end: Position {
                    line: 0,
                    character: 8,
                },
            },
            token_type: 0,
            modifier: 0,
        },
        SemanticToken {
            span: Range {
                start: Position {
                    line: 0,
                    character: 8,
                },
                end: Position {
                    line: 0,
                    character: 10,
                },
            },
            token_type: 1,
            modifier: 1,
        },
    ];

    let tokens = flatten_semantic_tokens(tokens);
    assert_eq!(tokens, flattened);

    let tokens = vec![
        SemanticToken {
            span: Range {
                start: Position {
                    line: 0,
                    character: 0,
                },
                end: Position {
                    line: 0,
                    character: 10,
                },
            },
            token_type: 0,
            modifier: 0,
        },
        SemanticToken {
            span: Range {
                start: Position {
                    line: 0,
                    character: 2,
                },
                end: Position {
                    line: 0,
                    character: 4,
                },
            },
            token_type: 1,
            modifier: 1,
        },
        SemanticToken {
            span: Range {
                start: Position {
                    line: 0,
                    character: 6,
                },
                end: Position {
                    line: 0,
                    character: 8,
                },
            },
            token_type: 1,
            modifier: 1,
        },
    ];

    let flattened = vec![
        SemanticToken {
            span: Range {
                start: Position {
                    line: 0,
                    character: 0,
                },
                end: Position {
                    line: 0,
                    character: 2,
                },
            },
            token_type: 0,
            modifier: 0,
        },
        SemanticToken {
            span: Range {
                start: Position {
                    line: 0,
                    character: 2,
                },
                end: Position {
                    line: 0,
                    character: 4,
                },
            },
            token_type: 1,
            modifier: 1,
        },
        SemanticToken {
            span: Range {
                start: Position {
                    line: 0,
                    character: 4,
                },
                end: Position {
                    line: 0,
                    character: 6,
                },
            },
            token_type: 0,
            modifier: 0,
        },
        SemanticToken {
            span: Range {
                start: Position {
                    line: 0,
                    character: 6,
                },
                end: Position {
                    line: 0,
                    character: 8,
                },
            },
            token_type: 1,
            modifier: 1,
        },
        SemanticToken {
            span: Range {
                start: Position {
                    line: 0,
                    character: 8,
                },
                end: Position {
                    line: 0,
                    character: 10,
                },
            },
            token_type: 0,
            modifier: 0,
        },
    ];

    let tokens = flatten_semantic_tokens(tokens);
    assert_eq!(tokens, flattened);

    let tokens = vec![
        SemanticToken {
            span: Range {
                start: Position {
                    line: 0,
                    character: 0,
                },
                end: Position {
                    line: 0,
                    character: 10,
                },
            },
            token_type: 0,
            modifier: 0,
        },
        SemanticToken {
            span: Range {
                start: Position {
                    line: 0,
                    character: 2,
                },
                end: Position {
                    line: 0,
                    character: 8,
                },
            },
            token_type: 1,
            modifier: 1,
        },
        SemanticToken {
            span: Range {
                start: Position {
                    line: 0,
                    character: 4,
                },
                end: Position {
                    line: 0,
                    character: 6,
                },
            },
            token_type: 2,
            modifier: 2,
        },
        SemanticToken {
            span: Range {
                start: Position {
                    line: 0,
                    character: 10,
                },
                end: Position {
                    line: 0,
                    character: 12,
                },
            },
            token_type: 3,
            modifier: 3,
        },
    ];

    let flattened = vec![
        SemanticToken {
            span: Range {
                start: Position {
                    line: 0,
                    character: 0,
                },
                end: Position {
                    line: 0,
                    character: 2,
                },
            },
            token_type: 0,
            modifier: 0,
        },
        SemanticToken {
            span: Range {
                start: Position {
                    line: 0,
                    character: 2,
                },
                end: Position {
                    line: 0,
                    character: 4,
                },
            },
            token_type: 1,
            modifier: 1,
        },
        SemanticToken {
            span: Range {
                start: Position {
                    line: 0,
                    character: 4,
                },
                end: Position {
                    line: 0,
                    character: 6,
                },
            },
            token_type: 2,
            modifier: 2,
        },
        SemanticToken {
            span: Range {
                start: Position {
                    line: 0,
                    character: 6,
                },
                end: Position {
                    line: 0,
                    character: 8,
                },
            },
            token_type: 1,
            modifier: 1,
        },
        SemanticToken {
            span: Range {
                start: Position {
                    line: 0,
                    character: 8,
                },
                end: Position {
                    line: 0,
                    character: 10,
                },
            },
            token_type: 0,
            modifier: 0,
        },
        SemanticToken {
            span: Range {
                start: Position {
                    line: 0,
                    character: 10,
                },
                end: Position {
                    line: 0,
                    character: 12,
                },
            },
            token_type: 3,
            modifier: 3,
        },
    ];

    let tokens = flatten_semantic_tokens(tokens);
    assert_eq!(tokens, flattened);
}

#[test]
fn can_split_multiline_tokens() {
    let textdoc = TextDoc::from(TextDocumentItem {
        uri: "file:///test.cmm".to_string(),
        language_id: LANGUAGE_ID.to_string(),
        version: 0,
        text: "Line one\nLine two\nLine three\nLine four\n".to_string(),
    });

    let tokens = vec![
        SemanticToken {
            span: Range {
                start: Position {
                    line: 0,
                    character: 0,
                },
                end: Position {
                    line: 0,
                    character: 4,
                },
            },
            token_type: 0,
            modifier: 0,
        },
        SemanticToken {
            span: Range {
                start: Position {
                    line: 0,
                    character: 5,
                },
                end: Position {
                    line: 2,
                    character: 4,
                },
            },
            token_type: 1,
            modifier: 1,
        },
    ];

    let expected = vec![
        SemanticToken {
            span: Range {
                start: Position {
                    line: 0,
                    character: 0,
                },
                end: Position {
                    line: 0,
                    character: 4,
                },
            },
            token_type: 0,
            modifier: 0,
        },
        SemanticToken {
            span: Range {
                start: Position {
                    line: 0,
                    character: 5,
                },
                end: Position {
                    line: 0,
                    character: 8,
                },
            },
            token_type: 1,
            modifier: 1,
        },
        SemanticToken {
            span: Range {
                start: Position {
                    line: 1,
                    character: 0,
                },
                end: Position {
                    line: 1,
                    character: 8,
                },
            },
            token_type: 1,
            modifier: 1,
        },
        SemanticToken {
            span: Range {
                start: Position {
                    line: 2,
                    character: 0,
                },
                end: Position {
                    line: 2,
                    character: 4,
                },
            },
            token_type: 1,
            modifier: 1,
        },
    ];

    let split_tokens = split_multiline_semantic_tokens(&textdoc, tokens);
    assert_eq!(split_tokens, expected);

    let tokens = vec![
        SemanticToken {
            span: Range {
                start: Position {
                    line: 0,
                    character: 0,
                },
                end: Position {
                    line: 0,
                    character: 4,
                },
            },
            token_type: 0,
            modifier: 0,
        },
        SemanticToken {
            span: Range {
                start: Position {
                    line: 0,
                    character: 5,
                },
                end: Position {
                    line: 1,
                    character: 4,
                },
            },
            token_type: 1,
            modifier: 1,
        },
        SemanticToken {
            span: Range {
                start: Position {
                    line: 1,
                    character: 5,
                },
                end: Position {
                    line: 1,
                    character: 8,
                },
            },
            token_type: 2,
            modifier: 2,
        },
    ];

    let expected = vec![
        SemanticToken {
            span: Range {
                start: Position {
                    line: 0,
                    character: 0,
                },
                end: Position {
                    line: 0,
                    character: 4,
                },
            },
            token_type: 0,
            modifier: 0,
        },
        SemanticToken {
            span: Range {
                start: Position {
                    line: 0,
                    character: 5,
                },
                end: Position {
                    line: 0,
                    character: 8,
                },
            },
            token_type: 1,
            modifier: 1,
        },
        SemanticToken {
            span: Range {
                start: Position {
                    line: 1,
                    character: 0,
                },
                end: Position {
                    line: 1,
                    character: 4,
                },
            },
            token_type: 1,
            modifier: 1,
        },
        SemanticToken {
            span: Range {
                start: Position {
                    line: 1,
                    character: 5,
                },
                end: Position {
                    line: 1,
                    character: 8,
                },
            },
            token_type: 2,
            modifier: 2,
        },
    ];

    let split_tokens = split_multiline_semantic_tokens(&textdoc, tokens);
    assert_eq!(split_tokens, expected);
}
