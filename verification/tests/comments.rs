use djc_template_parser::{TagAttr, TagParser, TagToken, TagValue, ValueKind};

#[test]
fn test_comment_before() {
    // Test comment before attribute
    let input = "{# comment #}key=val";
    let result = TagParser::parse_tag(input).unwrap();
    assert_eq!(
        result,
        vec![TagAttr {
            key: Some(TagToken {
                token: "key".to_string(),
                start_index: 13,
                end_index: 16,
                line_col: (1, 14),
            }),
            value: TagValue {
                token: TagToken {
                    token: "val".to_string(),
                    start_index: 17,
                    end_index: 20,
                    line_col: (1, 18),
                },
                children: vec![],
                spread: None,
                filters: vec![],
                kind: ValueKind::Variable,
                start_index: 17,
                end_index: 20,
                line_col: (1, 18),
            },
            start_index: 13,
            end_index: 20,
            line_col: (1, 14),
        }]
    );
}

#[test]
fn test_comment_after() {
    // Test comment after attribute
    let input = "key=val{# comment #}";
    let result = TagParser::parse_tag(input).unwrap();
    assert_eq!(
        result,
        vec![TagAttr {
            key: Some(TagToken {
                token: "key".to_string(),
                start_index: 0,
                end_index: 3,
                line_col: (1, 1),
            }),
            value: TagValue {
                token: TagToken {
                    token: "val".to_string(),
                    start_index: 4,
                    end_index: 7,
                    line_col: (1, 5),
                },
                children: vec![],
                spread: None,
                filters: vec![],
                kind: ValueKind::Variable,
                start_index: 4,
                end_index: 7,
                line_col: (1, 5),
            },
            start_index: 0,
            end_index: 7,
            line_col: (1, 1),
        }]
    );
}

#[test]
fn test_comment_between() {
    let input = "key1=val1 {# comment #} key2=val2";
    let result = TagParser::parse_tag(input).unwrap();
    assert_eq!(
        result,
        vec![
            TagAttr {
                key: Some(TagToken {
                    token: "key1".to_string(),
                    start_index: 0,
                    end_index: 4,
                    line_col: (1, 1),
                }),
                value: TagValue {
                    token: TagToken {
                        token: "val1".to_string(),
                        start_index: 5,
                        end_index: 9,
                        line_col: (1, 6),
                    },
                    children: vec![],
                    spread: None,
                    filters: vec![],
                    kind: ValueKind::Variable,
                    start_index: 5,
                    end_index: 9,
                    line_col: (1, 6),
                },
                start_index: 0,
                end_index: 9,
                line_col: (1, 1),
            },
            TagAttr {
                key: Some(TagToken {
                    token: "key2".to_string(),
                    start_index: 24,
                    end_index: 28,
                    line_col: (1, 25),
                }),
                value: TagValue {
                    token: TagToken {
                        token: "val2".to_string(),
                        start_index: 29,
                        end_index: 33,
                        line_col: (1, 30),
                    },
                    children: vec![],
                    spread: None,
                    filters: vec![],
                    kind: ValueKind::Variable,
                    start_index: 29,
                    end_index: 33,
                    line_col: (1, 30),
                },
                start_index: 24,
                end_index: 33,
                line_col: (1, 25),
            }
        ]
    );
}

#[test]
fn test_comment_multiple() {
    // Test multiple comments
    let input = "{# c1 #}key1=val1{# c2 #}key2=val2{# c3 #}";
    let result = TagParser::parse_tag(input).unwrap();
    assert_eq!(
        result,
        vec![
            TagAttr {
                key: Some(TagToken {
                    token: "key1".to_string(),
                    start_index: 8,
                    end_index: 12,
                    line_col: (1, 9),
                }),
                value: TagValue {
                    token: TagToken {
                        token: "val1".to_string(),
                        start_index: 13,
                        end_index: 17,
                        line_col: (1, 14),
                    },
                    children: vec![],
                    spread: None,
                    filters: vec![],
                    kind: ValueKind::Variable,
                    start_index: 13,
                    end_index: 17,
                    line_col: (1, 14),
                },
                start_index: 8,
                end_index: 17,
                line_col: (1, 9),
            },
            TagAttr {
                key: Some(TagToken {
                    token: "key2".to_string(),
                    start_index: 25,
                    end_index: 29,
                    line_col: (1, 26),
                }),
                value: TagValue {
                    token: TagToken {
                        token: "val2".to_string(),
                        start_index: 30,
                        end_index: 34,
                        line_col: (1, 31),
                    },
                    children: vec![],
                    spread: None,
                    filters: vec![],
                    kind: ValueKind::Variable,
                    start_index: 30,
                    end_index: 34,
                    line_col: (1, 31),
                },
                start_index: 25,
                end_index: 34,
                line_col: (1, 26),
            }
        ]
    );
}

#[test]
fn test_comment_with_newlines() {
    // Test comment with newlines
    let input = "key1=val1 {# multi\nline\ncomment #} key2=val2";
    let result = TagParser::parse_tag(input).unwrap();
    assert_eq!(
        result,
        vec![
            TagAttr {
                key: Some(TagToken {
                    token: "key1".to_string(),
                    start_index: 0,
                    end_index: 4,
                    line_col: (1, 1),
                }),
                value: TagValue {
                    token: TagToken {
                        token: "val1".to_string(),
                        start_index: 5,
                        end_index: 9,
                        line_col: (1, 6),
                    },
                    children: vec![],
                    spread: None,
                    filters: vec![],
                    kind: ValueKind::Variable,
                    start_index: 5,
                    end_index: 9,
                    line_col: (1, 6),
                },
                start_index: 0,
                end_index: 9,
                line_col: (1, 1),
            },
            TagAttr {
                key: Some(TagToken {
                    token: "key2".to_string(),
                    start_index: 35,
                    end_index: 39,
                    line_col: (3, 12),
                }),
                value: TagValue {
                    token: TagToken {
                        token: "val2".to_string(),
                        start_index: 40,
                        end_index: 44,
                        line_col: (3, 17),
                    },
                    children: vec![],
                    spread: None,
                    filters: vec![],
                    kind: ValueKind::Variable,
                    start_index: 40,
                    end_index: 44,
                    line_col: (3, 17),
                },
                start_index: 35,
                end_index: 44,
                line_col: (3, 12),
            }
        ]
    );
}

#[test]
fn test_comment_not_allowed_between_key_and_value() {
    // Test comment between key and equals
    let input = "key{# comment #}=val";
    assert!(
        TagParser::parse_tag(input).is_err(),
        "Should not allow comment between key and equals"
    );

    // Test comment between equals and value
    let input = "key={# comment #}val";
    assert!(
        TagParser::parse_tag(input).is_err(),
        "Should not allow comment between equals and value"
    );
}
