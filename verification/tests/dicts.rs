use djc_template_parser::{TagAttr, TagParser, TagToken, TagValue, TagValueFilter, ValueKind};

#[test]
fn test_dict_empty() {
    // Empty dict
    let input = "{}";
    let result = TagParser::parse_tag(input).unwrap();
    assert_eq!(
        result,
        vec![TagAttr {
            key: None,
            value: TagValue {
                token: TagToken {
                    token: "{}".to_string(),
                    start_index: 0,
                    end_index: 2,
                    line_col: (1, 1),
                },
                children: vec![],
                spread: None,
                filters: vec![],
                kind: ValueKind::Dict,
                start_index: 0,
                end_index: 2,
                line_col: (1, 1),
            },
            start_index: 0,
            end_index: 2,
            line_col: (1, 1),
        }]
    );
}

#[test]
fn test_dict_basic() {
    // Simple dict with string key and value
    let input = r#"{"key": "value"}"#;
    let result = TagParser::parse_tag(input).unwrap();
    assert_eq!(
        result,
        vec![TagAttr {
            key: None,
            value: TagValue {
                token: TagToken {
                    token: r#"{"key": "value"}"#.to_string(),
                    start_index: 0,
                    end_index: 16,
                    line_col: (1, 1),
                },
                children: vec![
                    TagValue {
                        token: TagToken {
                            token: "\"key\"".to_string(),
                            start_index: 1,
                            end_index: 6,
                            line_col: (1, 2),
                        },
                        children: vec![],
                        spread: None,
                        filters: vec![],
                        kind: ValueKind::String,
                        start_index: 1,
                        end_index: 6,
                        line_col: (1, 2),
                    },
                    TagValue {
                        token: TagToken {
                            token: "\"value\"".to_string(),
                            start_index: 8,
                            end_index: 15,
                            line_col: (1, 9),
                        },
                        children: vec![],
                        spread: None,
                        filters: vec![],
                        kind: ValueKind::String,
                        start_index: 8,
                        end_index: 15,
                        line_col: (1, 9),
                    }
                ],
                spread: None,
                filters: vec![],
                kind: ValueKind::Dict,
                start_index: 0,
                end_index: 16,
                line_col: (1, 1),
            },
            start_index: 0,
            end_index: 16,
            line_col: (1, 1),
        }]
    );
}

#[test]
fn test_dict_multiple() {
    // Dict with multiple key types
    let input = r#"{"key1": 42, my_var: "value2", _("hello"): var3}"#;
    let result = TagParser::parse_tag(input).unwrap();
    assert_eq!(
        result[0],
        TagAttr {
            key: None,
            value: TagValue {
                token: TagToken {
                    token: r#"{"key1": 42, my_var: "value2", _("hello"): var3}"#.to_string(),
                    start_index: 0,
                    end_index: 48,
                    line_col: (1, 1),
                },
                children: vec![
                    TagValue {
                        token: TagToken {
                            token: "\"key1\"".to_string(),
                            start_index: 1,
                            end_index: 7,
                            line_col: (1, 2),
                        },
                        children: vec![],
                        spread: None,
                        filters: vec![],
                        kind: ValueKind::String,
                        start_index: 1,
                        end_index: 7,
                        line_col: (1, 2),
                    },
                    TagValue {
                        token: TagToken {
                            token: "42".to_string(),
                            start_index: 9,
                            end_index: 11,
                            line_col: (1, 10),
                        },
                        children: vec![],
                        spread: None,
                        filters: vec![],
                        kind: ValueKind::Int,
                        start_index: 9,
                        end_index: 11,
                        line_col: (1, 10),
                    },
                    TagValue {
                        token: TagToken {
                            token: "my_var".to_string(),
                            start_index: 13,
                            end_index: 19,
                            line_col: (1, 14),
                        },
                        children: vec![],
                        spread: None,
                        filters: vec![],
                        kind: ValueKind::Variable,
                        start_index: 13,
                        end_index: 19,
                        line_col: (1, 14),
                    },
                    TagValue {
                        token: TagToken {
                            token: "\"value2\"".to_string(),
                            start_index: 21,
                            end_index: 29,
                            line_col: (1, 22),
                        },
                        children: vec![],
                        spread: None,
                        filters: vec![],
                        kind: ValueKind::String,
                        start_index: 21,
                        end_index: 29,
                        line_col: (1, 22),
                    },
                    TagValue {
                        token: TagToken {
                            token: "_(\"hello\")".to_string(),
                            start_index: 31,
                            end_index: 41,
                            line_col: (1, 32),
                        },
                        children: vec![],
                        spread: None,
                        filters: vec![],
                        kind: ValueKind::Translation,
                        start_index: 31,
                        end_index: 41,
                        line_col: (1, 32),
                    },
                    TagValue {
                        token: TagToken {
                            token: "var3".to_string(),
                            start_index: 43,
                            end_index: 47,
                            line_col: (1, 44),
                        },
                        children: vec![],
                        spread: None,
                        filters: vec![],
                        kind: ValueKind::Variable,
                        start_index: 43,
                        end_index: 47,
                        line_col: (1, 44),
                    },
                ],
                spread: None,
                filters: vec![],
                kind: ValueKind::Dict,
                start_index: 0,
                end_index: 48,
                line_col: (1, 1),
            },
            start_index: 0,
            end_index: 48,
            line_col: (1, 1),
        }
    );
}

#[test]
fn test_dict_filters_key() {
    // Test filters on keys
    let input = r#"{"key"|upper|lower: "value"}"#;
    let result = TagParser::parse_tag(input).unwrap();

    assert_eq!(
        result,
        vec![TagAttr {
            key: None,
            value: TagValue {
                token: TagToken {
                    token: r#"{"key"|upper|lower: "value"}"#.to_string(),
                    start_index: 0,
                    end_index: 28,
                    line_col: (1, 1),
                },
                children: vec![
                    TagValue {
                        token: TagToken {
                            token: "\"key\"".to_string(),
                            start_index: 1,
                            end_index: 6,
                            line_col: (1, 2),
                        },
                        children: vec![],
                        spread: None,
                        filters: vec![
                            TagValueFilter {
                                arg: None,
                                token: TagToken {
                                    token: "upper".to_string(),
                                    start_index: 7,
                                    end_index: 12,
                                    line_col: (1, 8),
                                },
                                start_index: 6,
                                end_index: 12,
                                line_col: (1, 7),
                            },
                            TagValueFilter {
                                arg: None,
                                token: TagToken {
                                    token: "lower".to_string(),
                                    start_index: 13,
                                    end_index: 18,
                                    line_col: (1, 14),
                                },
                                start_index: 12,
                                end_index: 18,
                                line_col: (1, 13),
                            },
                        ],
                        kind: ValueKind::String,
                        start_index: 1,
                        end_index: 18,
                        line_col: (1, 2),
                    },
                    TagValue {
                        token: TagToken {
                            token: "\"value\"".to_string(),
                            start_index: 20,
                            end_index: 27,
                            line_col: (1, 21),
                        },
                        children: vec![],
                        spread: None,
                        filters: vec![],
                        kind: ValueKind::String,
                        start_index: 20,
                        end_index: 27,
                        line_col: (1, 21),
                    },
                ],
                spread: None,
                filters: vec![],
                kind: ValueKind::Dict,
                start_index: 0,
                end_index: 28,
                line_col: (1, 1),
            },
            start_index: 0,
            end_index: 28,
            line_col: (1, 1),
        }]
    );
}

#[test]
fn test_dict_filters_value() {
    // Test filters on values
    let input = r#"{"key": "value"|upper|lower}"#;
    let result = TagParser::parse_tag(input).unwrap();

    assert_eq!(
        result,
        vec![TagAttr {
            key: None,
            value: TagValue {
                token: TagToken {
                    token: r#"{"key": "value"|upper|lower}"#.to_string(),
                    start_index: 0,
                    end_index: 28,
                    line_col: (1, 1),
                },
                children: vec![
                    TagValue {
                        token: TagToken {
                            token: "\"key\"".to_string(),
                            start_index: 1,
                            end_index: 6,
                            line_col: (1, 2),
                        },
                        children: vec![],
                        spread: None,
                        filters: vec![],
                        kind: ValueKind::String,
                        start_index: 1,
                        end_index: 6,
                        line_col: (1, 2),
                    },
                    TagValue {
                        token: TagToken {
                            token: "\"value\"".to_string(),
                            start_index: 8,
                            end_index: 15,
                            line_col: (1, 9),
                        },
                        children: vec![],
                        spread: None,
                        filters: vec![
                            TagValueFilter {
                                arg: None,
                                token: TagToken {
                                    token: "upper".to_string(),
                                    start_index: 16,
                                    end_index: 21,
                                    line_col: (1, 17),
                                },
                                start_index: 15,
                                end_index: 21,
                                line_col: (1, 16),
                            },
                            TagValueFilter {
                                arg: None,
                                token: TagToken {
                                    token: "lower".to_string(),
                                    start_index: 22,
                                    end_index: 27,
                                    line_col: (1, 23),
                                },
                                start_index: 21,
                                end_index: 27,
                                line_col: (1, 22),
                            },
                        ],
                        kind: ValueKind::String,
                        start_index: 8,
                        end_index: 27,
                        line_col: (1, 9),
                    },
                ],
                spread: None,
                filters: vec![],
                kind: ValueKind::Dict,
                start_index: 0,
                end_index: 28,
                line_col: (1, 1),
            },
            start_index: 0,
            end_index: 28,
            line_col: (1, 1),
        }]
    );
}

#[test]
fn test_dict_filters() {
    // Test filter on entire dict
    let input = r#"{"key": "value"}|default:empty_dict"#;
    let result = TagParser::parse_tag(input).unwrap();
    assert_eq!(
        result,
        vec![TagAttr {
            key: None,
            value: TagValue {
                token: TagToken {
                    token: r#"{"key": "value"}"#.to_string(),
                    start_index: 0,
                    end_index: 16,
                    line_col: (1, 1),
                },
                children: vec![
                    TagValue {
                        token: TagToken {
                            token: "\"key\"".to_string(),
                            start_index: 1,
                            end_index: 6,
                            line_col: (1, 2),
                        },
                        children: vec![],
                        spread: None,
                        filters: vec![],
                        kind: ValueKind::String,
                        start_index: 1,
                        end_index: 6,
                        line_col: (1, 2),
                    },
                    TagValue {
                        token: TagToken {
                            token: "\"value\"".to_string(),
                            start_index: 8,
                            end_index: 15,
                            line_col: (1, 9),
                        },
                        children: vec![],
                        spread: None,
                        filters: vec![],
                        kind: ValueKind::String,
                        start_index: 8,
                        end_index: 15,
                        line_col: (1, 9),
                    },
                ],
                spread: None,
                filters: vec![TagValueFilter {
                    token: TagToken {
                        token: "default".to_string(),
                        start_index: 17,
                        end_index: 24,
                        line_col: (1, 18),
                    },
                    arg: Some(TagValue {
                        token: TagToken {
                            token: "empty_dict".to_string(),
                            start_index: 25,
                            end_index: 35,
                            line_col: (1, 26),
                        },
                        children: vec![],
                        spread: None,
                        filters: vec![],
                        kind: ValueKind::Variable,
                        start_index: 24,
                        end_index: 35,
                        line_col: (1, 25),
                    }),
                    start_index: 16,
                    end_index: 35,
                    line_col: (1, 17),
                }],
                kind: ValueKind::Dict,
                start_index: 0,
                end_index: 35,
                line_col: (1, 1),
            },
            start_index: 0,
            end_index: 35,
            line_col: (1, 1),
        }]
    );
}

#[test]
fn test_dict_filters_all() {
    // Test filter on all dict
    let input = r#"{"key" | default: "value" | default : empty_dict} | default : empty_dict"#;
    let result = TagParser::parse_tag(input).unwrap();
    assert_eq!(
        result,
        vec![TagAttr {
            key: None,
            value: TagValue {
                token: TagToken {
                    token: r#"{"key" | default: "value" | default : empty_dict}"#.to_string(),
                    start_index: 0,
                    end_index: 49,
                    line_col: (1, 1),
                },
                children: vec![
                    TagValue {
                        token: TagToken {
                            token: "\"key\"".to_string(),
                            start_index: 1,
                            end_index: 6,
                            line_col: (1, 2),
                        },
                        children: vec![],
                        spread: None,
                        filters: vec![TagValueFilter {
                            arg: None,
                            token: TagToken {
                                token: "default".to_string(),
                                start_index: 9,
                                end_index: 16,
                                line_col: (1, 10),
                            },
                            start_index: 7,
                            end_index: 16,
                            line_col: (1, 8),
                        }],
                        kind: ValueKind::String,
                        start_index: 1,
                        end_index: 16,
                        line_col: (1, 2),
                    },
                    TagValue {
                        token: TagToken {
                            token: "\"value\"".to_string(),
                            start_index: 18,
                            end_index: 25,
                            line_col: (1, 19),
                        },
                        children: vec![],
                        spread: None,
                        filters: vec![TagValueFilter {
                            arg: Some(TagValue {
                                token: TagToken {
                                    token: "empty_dict".to_string(),
                                    start_index: 38,
                                    end_index: 48,
                                    line_col: (1, 39),
                                },
                                children: vec![],
                                spread: None,
                                filters: vec![],
                                kind: ValueKind::Variable,
                                start_index: 36,
                                end_index: 48,
                                line_col: (1, 37),
                            }),
                            token: TagToken {
                                token: "default".to_string(),
                                start_index: 28,
                                end_index: 35,
                                line_col: (1, 29),
                            },
                            start_index: 26,
                            end_index: 48,
                            line_col: (1, 27),
                        }],
                        kind: ValueKind::String,
                        start_index: 18,
                        end_index: 48,
                        line_col: (1, 19),
                    },
                ],
                spread: None,
                filters: vec![TagValueFilter {
                    arg: Some(TagValue {
                        token: TagToken {
                            token: "empty_dict".to_string(),
                            start_index: 62,
                            end_index: 72,
                            line_col: (1, 63),
                        },
                        children: vec![],
                        spread: None,
                        filters: vec![],
                        kind: ValueKind::Variable,
                        start_index: 60,
                        end_index: 72,
                        line_col: (1, 61),
                    }),
                    token: TagToken {
                        token: "default".to_string(),
                        start_index: 52,
                        end_index: 59,
                        line_col: (1, 53),
                    },
                    start_index: 50,
                    end_index: 72,
                    line_col: (1, 51),
                }],
                kind: ValueKind::Dict,
                start_index: 0,
                end_index: 72,
                line_col: (1, 1),
            },
            start_index: 0,
            end_index: 72,
            line_col: (1, 1),
        }]
    );
}

#[test]
fn test_dict_nested() {
    // Test dict in list
    let input = "[1, {\"key\": \"val\"}, 2]";
    let result = TagParser::parse_tag(input).unwrap();
    assert_eq!(
        result,
        vec![TagAttr {
            key: None,
            value: TagValue {
                token: TagToken {
                    token: r#"[1, {"key": "val"}, 2]"#.to_string(),
                    start_index: 0,
                    end_index: 22,
                    line_col: (1, 1),
                },
                children: vec![
                    TagValue {
                        token: TagToken {
                            token: "1".to_string(),
                            start_index: 1,
                            end_index: 2,
                            line_col: (1, 2),
                        },
                        children: vec![],
                        spread: None,
                        filters: vec![],
                        kind: ValueKind::Int,
                        start_index: 1,
                        end_index: 2,
                        line_col: (1, 2),
                    },
                    TagValue {
                        token: TagToken {
                            token: r#"{"key": "val"}"#.to_string(),
                            start_index: 4,
                            end_index: 18,
                            line_col: (1, 5),
                        },
                        children: vec![
                            TagValue {
                                token: TagToken {
                                    token: "\"key\"".to_string(),
                                    start_index: 5,
                                    end_index: 10,
                                    line_col: (1, 6),
                                },
                                children: vec![],
                                spread: None,
                                filters: vec![],
                                kind: ValueKind::String,
                                start_index: 5,
                                end_index: 10,
                                line_col: (1, 6),
                            },
                            TagValue {
                                token: TagToken {
                                    token: "\"val\"".to_string(),
                                    start_index: 12,
                                    end_index: 17,
                                    line_col: (1, 13),
                                },
                                children: vec![],
                                spread: None,
                                filters: vec![],
                                kind: ValueKind::String,
                                start_index: 12,
                                end_index: 17,
                                line_col: (1, 13),
                            },
                        ],
                        spread: None,
                        filters: vec![],
                        kind: ValueKind::Dict,
                        start_index: 4,
                        end_index: 18,
                        line_col: (1, 5),
                    },
                    TagValue {
                        token: TagToken {
                            token: "2".to_string(),
                            start_index: 20,
                            end_index: 21,
                            line_col: (1, 21),
                        },
                        children: vec![],
                        spread: None,
                        filters: vec![],
                        kind: ValueKind::Int,
                        start_index: 20,
                        end_index: 21,
                        line_col: (1, 21),
                    },
                ],
                spread: None,
                filters: vec![],
                kind: ValueKind::List,
                start_index: 0,
                end_index: 22,
                line_col: (1, 1),
            },
            start_index: 0,
            end_index: 22,
            line_col: (1, 1),
        }]
    );
}

#[test]
fn test_dict_nested_list() {
    // Test list in dict
    let input = r#"{"key": [1, 2, 3]}"#;
    let result = TagParser::parse_tag(input).unwrap();
    assert_eq!(
        result,
        vec![TagAttr {
            key: None,
            value: TagValue {
                token: TagToken {
                    token: r#"{"key": [1, 2, 3]}"#.to_string(),
                    start_index: 0,
                    end_index: 18,
                    line_col: (1, 1),
                },
                children: vec![
                    TagValue {
                        token: TagToken {
                            token: "\"key\"".to_string(),
                            start_index: 1,
                            end_index: 6,
                            line_col: (1, 2),
                        },
                        children: vec![],
                        spread: None,
                        filters: vec![],
                        kind: ValueKind::String,
                        start_index: 1,
                        end_index: 6,
                        line_col: (1, 2),
                    },
                    TagValue {
                        token: TagToken {
                            token: r#"[1, 2, 3]"#.to_string(),
                            start_index: 8,
                            end_index: 17,
                            line_col: (1, 9),
                        },
                        children: vec![
                            TagValue {
                                token: TagToken {
                                    token: "1".to_string(),
                                    start_index: 9,
                                    end_index: 10,
                                    line_col: (1, 10),
                                },
                                children: vec![],
                                spread: None,
                                filters: vec![],
                                kind: ValueKind::Int,
                                start_index: 9,
                                end_index: 10,
                                line_col: (1, 10),
                            },
                            TagValue {
                                token: TagToken {
                                    token: "2".to_string(),
                                    start_index: 12,
                                    end_index: 13,
                                    line_col: (1, 13),
                                },
                                children: vec![],
                                spread: None,
                                filters: vec![],
                                kind: ValueKind::Int,
                                start_index: 12,
                                end_index: 13,
                                line_col: (1, 13),
                            },
                            TagValue {
                                token: TagToken {
                                    token: "3".to_string(),
                                    start_index: 15,
                                    end_index: 16,
                                    line_col: (1, 16),
                                },
                                children: vec![],
                                spread: None,
                                filters: vec![],
                                kind: ValueKind::Int,
                                start_index: 15,
                                end_index: 16,
                                line_col: (1, 16),
                            },
                        ],
                        spread: None,
                        filters: vec![],
                        kind: ValueKind::List,
                        start_index: 8,
                        end_index: 17,
                        line_col: (1, 9),
                    },
                ],
                spread: None,
                filters: vec![],
                kind: ValueKind::Dict,
                start_index: 0,
                end_index: 18,
                line_col: (1, 1),
            },
            start_index: 0,
            end_index: 18,
            line_col: (1, 1),
        }]
    );
}

#[test]
fn test_dict_invalid() {
    let invalid_inputs = vec![
        (
            r#"{key|lower:my_arg: 123}"#,
            "filter arguments in dictionary keys",
        ),
        (
            r#"{"key"|default:empty_dict: "value"|default:empty_dict}"#,
            "filter arguments in dictionary keys",
        ),
        ("{key}", "missing value"),
        ("{key,}", "missing value with comma"),
        ("{key:}", "missing value after colon"),
        ("{:value}", "missing key"),
        ("{key: key:}", "double colon"),
        ("{:key :key}", "double key"),
    ];

    for (input, msg) in invalid_inputs {
        assert!(
            TagParser::parse_tag(input).is_err(),
            "Should not allow {}: {}",
            msg,
            input
        );
    }
}

#[test]
fn test_dict_key_types() {
    // Test string literal key
    let input = r#"{"key": "value"}"#;
    assert!(TagParser::parse_tag(input).is_ok());

    // Test variable key
    let input = r#"{my_var: "value"}"#;
    assert!(TagParser::parse_tag(input).is_ok());

    // Test i18n string key
    let input = r#"{_("hello"): "value"}"#;
    assert!(TagParser::parse_tag(input).is_ok());

    // Test number key
    let input = r#"{42: "value"}"#;
    assert!(TagParser::parse_tag(input).is_ok());

    // Test filtered key
    let input = r#"{"key"|upper: "value"}"#;
    assert!(TagParser::parse_tag(input).is_ok());

    // Test list as key (should fail)
    let input = r#"{[1, 2]: "value"}"#;
    assert!(
        TagParser::parse_tag(input).is_err(),
        "Should not allow list as dictionary key"
    );

    // Test dict as key (should fail)
    let input = r#"{{"nested": "dict"}: "value"}"#;
    assert!(
        TagParser::parse_tag(input).is_err(),
        "Should not allow dictionary as dictionary key"
    );
}

#[test]
fn test_dict_value_types() {
    // Test string literal value
    let input = r#"{"key": "value"}"#;
    assert!(TagParser::parse_tag(input).is_ok());

    // Test variable value
    let input = r#"{"key": my_var}"#;
    assert!(TagParser::parse_tag(input).is_ok());

    // Test i18n string value
    let input = r#"{"key": _("hello")}"#;
    assert!(TagParser::parse_tag(input).is_ok());

    // Test number value
    let input = r#"{"key": 42}"#;
    assert!(TagParser::parse_tag(input).is_ok());

    // Test list value
    let input = r#"{"key": [1, 2, 3]}"#;
    assert!(TagParser::parse_tag(input).is_ok());

    // Test dict value
    let input = r#"{"key": {"nested": "dict"}}"#;
    assert!(TagParser::parse_tag(input).is_ok());

    // Test filtered value
    let input = r#"{"key": "value"|upper}"#;
    assert!(TagParser::parse_tag(input).is_ok());

    // Test spread value
    let input = r#"{"key1": "val1", **other_dict}"#;
    assert!(TagParser::parse_tag(input).is_ok());

    // Test spread with filter that might return dict
    let input = r#"{"key1": "val1", **42|make_dict}"#;
    assert!(TagParser::parse_tag(input).is_ok());
}

#[test]
fn test_dict_spread() {
    // Test spreading into dict
    let input =
        r#"{"key1": "val1", **other_dict, "key2": "val2", **"{{ key3 }}", **_( " key4 ")}"#;
    let result = TagParser::parse_tag(input).unwrap();
    assert_eq!(
        result,
        vec![TagAttr {
            key: None,
            value: TagValue {
                token: TagToken {
                    token: r#"{"key1": "val1", **other_dict, "key2": "val2", **"{{ key3 }}", **_( " key4 ")}"#.to_string(),
                    start_index: 0,
                    end_index: 78,
                    line_col: (1, 1),
                },
                children: vec![
                    TagValue {
                        token: TagToken {
                            token: "\"key1\"".to_string(),
                            start_index: 1,
                            end_index: 7,
                            line_col: (1, 2),
                        },
                        children: vec![],
                        spread: None,
                        filters: vec![],
                        kind: ValueKind::String,
                        start_index: 1,
                        end_index: 7,
                        line_col: (1, 2),
                    },
                    TagValue {
                        token: TagToken {
                            token: "\"val1\"".to_string(),
                            start_index: 9,
                            end_index: 15,
                            line_col: (1, 10),
                        },
                        children: vec![],
                        spread: None,
                        filters: vec![],
                        kind: ValueKind::String,
                        start_index: 9,
                        end_index: 15,
                        line_col: (1, 10),
                    },
                    TagValue {
                        token: TagToken {
                            token: "other_dict".to_string(),
                            start_index: 19,
                            end_index: 29,
                            line_col: (1, 20),
                        },
                        children: vec![],
                        spread: Some("**".to_string()),
                        filters: vec![],
                        kind: ValueKind::Variable,
                        start_index: 17,
                        end_index: 29,
                        line_col: (1, 18),
                    },
                    TagValue {
                        token: TagToken {
                            token: "\"key2\"".to_string(),
                            start_index: 31,
                            end_index: 37,
                            line_col: (1, 32),
                        },
                        children: vec![],
                        spread: None,
                        filters: vec![],
                        kind: ValueKind::String,
                        start_index: 31,
                        end_index: 37,
                        line_col: (1, 32),
                    },
                    TagValue {
                        token: TagToken {
                            token: "\"val2\"".to_string(),
                            start_index: 39,
                            end_index: 45,
                            line_col: (1, 40),
                        },
                        children: vec![],
                        spread: None,
                        filters: vec![],
                        kind: ValueKind::String,
                        start_index: 39,
                        end_index: 45,
                        line_col: (1, 40),
                    },
                    TagValue {
                        token: TagToken {
                            token: "\"{{ key3 }}\"".to_string(),
                            start_index: 49,
                            end_index: 61,
                            line_col: (1, 50),
                        },
                        children: vec![],
                        spread: Some("**".to_string()),
                        filters: vec![],
                        kind: ValueKind::Expression,
                        start_index: 47,
                        end_index: 61,
                        line_col: (1, 48),
                    },
                    TagValue {
                        token: TagToken {
                            token: "_(\" key4 \")".to_string(),
                            start_index: 65,
                            end_index: 77,
                            line_col: (1, 66),
                        },
                        children: vec![],
                        spread: Some("**".to_string()),
                        filters: vec![],
                        kind: ValueKind::Translation,
                        start_index: 63,
                        end_index: 77,
                        line_col: (1, 64),
                    },
                ],
                spread: None,
                filters: vec![],
                kind: ValueKind::Dict,
                start_index: 0,
                end_index: 78,
                line_col: (1, 1),
            },
            start_index: 0,
            end_index: 78,
            line_col: (1, 1),
        }]
    );
}

#[test]
fn test_dict_spread_filters() {
    // Test spreading into dict + filters
    let input =
        r#"{"key1": "val1", **other_dict, "key2": "val2", **"{{ key3 }}", **_( " key4 ")}"#;
    let result = TagParser::parse_tag(input).unwrap();
    assert_eq!(
        result,
        vec![TagAttr {
            key: None,
            value: TagValue {
                token: TagToken {
                    token: r#"{"key1": "val1", **other_dict, "key2": "val2", **"{{ key3 }}", **_( " key4 ")}"#.to_string(),
                    start_index: 0,
                    end_index: 78,
                    line_col: (1, 1),
                },
                children: vec![
                    TagValue {
                        token: TagToken {
                            token: "\"key1\"".to_string(),
                            start_index: 1,
                            end_index: 7,
                            line_col: (1, 2),
                        },
                        children: vec![],
                        spread: None,
                        filters: vec![],
                        kind: ValueKind::String,
                        start_index: 1,
                        end_index: 7,
                        line_col: (1, 2),
                    },
                    TagValue {
                        token: TagToken {
                            token: "\"val1\"".to_string(),
                            start_index: 9,
                            end_index: 15,
                            line_col: (1, 10),
                        },
                        children: vec![],
                        spread: None,
                        filters: vec![],
                        kind: ValueKind::String,
                        start_index: 9,
                        end_index: 15,
                        line_col: (1, 10),
                    },
                    TagValue {
                        token: TagToken {
                            token: "other_dict".to_string(),
                            start_index: 19,
                            end_index: 29,
                            line_col: (1, 20),
                        },
                        children: vec![],
                        spread: Some("**".to_string()),
                        filters: vec![],
                        kind: ValueKind::Variable,
                        start_index: 17,
                        end_index: 29,
                        line_col: (1, 18),
                    },
                    TagValue {
                        token: TagToken {
                            token: "\"key2\"".to_string(),
                            start_index: 31,
                            end_index: 37,
                            line_col: (1, 32),
                        },
                        children: vec![],
                        spread: None,
                        filters: vec![],
                        kind: ValueKind::String,
                        start_index: 31,
                        end_index: 37,
                        line_col: (1, 32),
                    },
                    TagValue {
                        token: TagToken {
                            token: "\"val2\"".to_string(),
                            start_index: 39,
                            end_index: 45,
                            line_col: (1, 40),
                        },
                        children: vec![],
                        spread: None,
                        filters: vec![],
                        kind: ValueKind::String,
                        start_index: 39,
                        end_index: 45,
                        line_col: (1, 40),
                    },
                    TagValue {
                        token: TagToken {
                            token: "\"{{ key3 }}\"".to_string(),
                            start_index: 49,
                            end_index: 61,
                            line_col: (1, 50),
                        },
                        children: vec![],
                        spread: Some("**".to_string()),
                        filters: vec![],
                        kind: ValueKind::Expression,
                        start_index: 47,
                        end_index: 61,
                        line_col: (1, 48),
                    },
                    TagValue {
                        token: TagToken {
                            token: "_(\" key4 \")".to_string(),
                            start_index: 65,
                            end_index: 77,
                            line_col: (1, 66),
                        },
                        children: vec![],
                        spread: Some("**".to_string()),
                        filters: vec![],
                        kind: ValueKind::Translation,
                        start_index: 63,
                        end_index: 77,
                        line_col: (1, 64),
                    },
                ],
                spread: None,
                filters: vec![],
                kind: ValueKind::Dict,
                start_index: 0,
                end_index: 78,
                line_col: (1, 1),
            },
            start_index: 0,
            end_index: 78,
            line_col: (1, 1),
        }]
    );
}

#[test]
fn test_dict_spread_dict() {
    // Test spreading literal dict
    let input = r#"{"key1": "val1", **{"inner": "value"}, "key2": "val2"}"#;
    let result = TagParser::parse_tag(input).unwrap();
    assert_eq!(
        result[0],
        TagAttr {
            key: None,
            value: TagValue {
                token: TagToken {
                    token: r#"{"key1": "val1", **{"inner": "value"}, "key2": "val2"}"#
                        .to_string(),
                    start_index: 0,
                    end_index: 54,
                    line_col: (1, 1),
                },
                children: vec![
                    TagValue {
                        token: TagToken {
                            token: "\"key1\"".to_string(),
                            start_index: 1,
                            end_index: 7,
                            line_col: (1, 2),
                        },
                        children: vec![],
                        spread: None,
                        filters: vec![],
                        kind: ValueKind::String,
                        start_index: 1,
                        end_index: 7,
                        line_col: (1, 2),
                    },
                    TagValue {
                        token: TagToken {
                            token: "\"val1\"".to_string(),
                            start_index: 9,
                            end_index: 15,
                            line_col: (1, 10),
                        },
                        children: vec![],
                        spread: None,
                        filters: vec![],
                        kind: ValueKind::String,
                        start_index: 9,
                        end_index: 15,
                        line_col: (1, 10),
                    },
                    TagValue {
                        token: TagToken {
                            token: r#"{"inner": "value"}"#.to_string(),
                            start_index: 19,
                            end_index: 37,
                            line_col: (1, 20),
                        },
                        children: vec![
                            TagValue {
                                token: TagToken {
                                    token: "\"inner\"".to_string(),
                                    start_index: 20,
                                    end_index: 27,
                                    line_col: (1, 21),
                                },
                                children: vec![],
                                spread: None,
                                filters: vec![],
                                kind: ValueKind::String,
                                start_index: 20,
                                end_index: 27,
                                line_col: (1, 21),
                            },
                            TagValue {
                                token: TagToken {
                                    token: "\"value\"".to_string(),
                                    start_index: 29,
                                    end_index: 36,
                                    line_col: (1, 30),
                                },
                                children: vec![],
                                spread: None,
                                filters: vec![],
                                kind: ValueKind::String,
                                start_index: 29,
                                end_index: 36,
                                line_col: (1, 30),
                            },
                        ],
                        spread: Some("**".to_string()),
                        filters: vec![],
                        kind: ValueKind::Dict,
                        start_index: 17,
                        end_index: 37,
                        line_col: (1, 18),
                    },
                    TagValue {
                        token: TagToken {
                            token: "\"key2\"".to_string(),
                            start_index: 39,
                            end_index: 45,
                            line_col: (1, 40),
                        },
                        children: vec![],
                        spread: None,
                        filters: vec![],
                        kind: ValueKind::String,
                        start_index: 39,
                        end_index: 45,
                        line_col: (1, 40),
                    },
                    TagValue {
                        token: TagToken {
                            token: "\"val2\"".to_string(),
                            start_index: 47,
                            end_index: 53,
                            line_col: (1, 48),
                        },
                        children: vec![],
                        spread: None,
                        filters: vec![],
                        kind: ValueKind::String,
                        start_index: 47,
                        end_index: 53,
                        line_col: (1, 48),
                    },
                ],
                spread: None,
                filters: vec![],
                kind: ValueKind::Dict,
                start_index: 0,
                end_index: 54,
                line_col: (1, 1),
            },
            start_index: 0,
            end_index: 54,
            line_col: (1, 1),
        }
    );
}

#[test]
fn test_dict_key_value_types() {
    // Test valid key types
    let valid_keys = vec![r#""string_key""#, "123", "_('i18n_key')", "my_var"];

    for key in valid_keys {
        let input = format!("{{{}: 42}}", key);
        assert!(
            TagParser::parse_tag(&input).is_ok(),
            "Should allow {} as dictionary key",
            key
        );
    }

    // Test invalid key types (lists and dicts)
    let invalid_keys = vec!["[1, 2, 3]", "{a: 1}"];

    for key in invalid_keys {
        let input = format!("{{{}: 42}}", key);
        assert!(
            TagParser::parse_tag(&input).is_err(),
            "Should not allow {} as dictionary key",
            key
        );
    }

    // Test all value types (should all be valid)
    let valid_values = vec![
        r#""string_value""#,
        "123",
        "_('i18n_value')",
        "my_var",
        "[1, 2, 3]",
        "{a: 1}",
    ];

    for value in valid_values {
        let input = format!(r#"{{"key": {}}}"#, value);
        assert!(
            TagParser::parse_tag(&input).is_ok(),
            "Should allow {} as dictionary value",
            value
        );
    }
}

#[test]
fn test_dict_with_comments() {
    // Test comments after values
    let input = r#"{# comment before dict #}{{# comment after dict start #}
            "key1": "value1", {# comment after first value #}
            "key2": "value2"
        {# comment before dict end #}}{# comment after dict #}"#;
    let result = TagParser::parse_tag(input).unwrap();
    assert_eq!(
        result[0],
        TagAttr {
            key: None,
            value: TagValue {
                token: TagToken {
                    token: r#"{{# comment after dict start #}
            "key1": "value1", {# comment after first value #}
            "key2": "value2"
        {# comment before dict end #}}"#
                        .to_string(),
                    start_index: 25,
                    end_index: 186,
                    line_col: (1, 26),
                },
                children: vec![
                    TagValue {
                        token: TagToken {
                            token: "\"key1\"".to_string(),
                            start_index: 69,
                            end_index: 75,
                            line_col: (2, 13),
                        },
                        children: vec![],
                        spread: None,
                        filters: vec![],
                        kind: ValueKind::String,
                        start_index: 69,
                        end_index: 75,
                        line_col: (2, 13),
                    },
                    TagValue {
                        token: TagToken {
                            token: "\"value1\"".to_string(),
                            start_index: 77,
                            end_index: 85,
                            line_col: (2, 21),
                        },
                        children: vec![],
                        spread: None,
                        filters: vec![],
                        kind: ValueKind::String,
                        start_index: 77,
                        end_index: 85,
                        line_col: (2, 21),
                    },
                    TagValue {
                        token: TagToken {
                            token: "\"key2\"".to_string(),
                            start_index: 131,
                            end_index: 137,
                            line_col: (3, 13),
                        },
                        children: vec![],
                        spread: None,
                        filters: vec![],
                        kind: ValueKind::String,
                        start_index: 131,
                        end_index: 137,
                        line_col: (3, 13),
                    },
                    TagValue {
                        token: TagToken {
                            token: "\"value2\"".to_string(),
                            start_index: 139,
                            end_index: 147,
                            line_col: (3, 21),
                        },
                        children: vec![],
                        spread: None,
                        filters: vec![],
                        kind: ValueKind::String,
                        start_index: 139,
                        end_index: 147,
                        line_col: (3, 21),
                    },
                ],
                spread: None,
                filters: vec![],
                kind: ValueKind::Dict,
                start_index: 25,
                end_index: 186,
                line_col: (1, 26),
            },
            start_index: 25,
            end_index: 186,
            line_col: (1, 26),
        }
    );
}

#[test]
fn test_dict_comments_colons_commas() {
    // Test comments around colons and commas
    let input = r#"{
            "key1" {# comment before colon #}: {# comment after colon #} "value1" {# comment before comma #}, {# comment after comma #}
            "key2": "value2"
        }"#;
    let result = TagParser::parse_tag(input).unwrap();
    assert_eq!(
        result[0],
        TagAttr {
            key: None,
            value: TagValue {
                token: TagToken {
                    token: r#"{
            "key1" {# comment before colon #}: {# comment after colon #} "value1" {# comment before comma #}, {# comment after comma #}
            "key2": "value2"
        }"#.to_string(),
                    start_index: 0,
                    end_index: 176,
                    line_col: (1, 1),
                },
                children: vec![
                    TagValue {
                        token: TagToken {
                            token: "\"key1\"".to_string(),
                            start_index: 14,
                            end_index: 20,
                            line_col: (2, 13),
                        },
                        children: vec![],
                        spread: None,
                        filters: vec![],
                        kind: ValueKind::String,
                        start_index: 14,
                        end_index: 20,
                        line_col: (2, 13),
                    },
                    TagValue {
                        token: TagToken {
                            token: "\"value1\"".to_string(),
                            start_index: 75,
                            end_index: 83,
                            line_col: (2, 74),
                        },
                        children: vec![],
                        spread: None,
                        filters: vec![],
                        kind: ValueKind::String,
                        start_index: 75,
                        end_index: 83,
                        line_col: (2, 74),
                    },
                    TagValue {
                        token: TagToken {
                            token: "\"key2\"".to_string(),
                            start_index: 150,
                            end_index: 156,
                            line_col: (3, 13),
                        },
                        children: vec![],
                        spread: None,
                        filters: vec![],
                        kind: ValueKind::String,
                        start_index: 150,
                        end_index: 156,
                        line_col: (3, 13),
                    },
                    TagValue {
                        token: TagToken {
                            token: "\"value2\"".to_string(),
                            start_index: 158,
                            end_index: 166,
                            line_col: (3, 21),
                        },
                        children: vec![],
                        spread: None,
                        filters: vec![],
                        kind: ValueKind::String,
                        start_index: 158,
                        end_index: 166,
                        line_col: (3, 21),
                    },
                ],
                spread: None,
                filters: vec![],
                kind: ValueKind::Dict,
                start_index: 0,
                end_index: 176,
                line_col: (1, 1),
            },
            start_index: 0,
            end_index: 176,
            line_col: (1, 1),
        }
    );
}

#[test]
fn test_dict_comments_spread() {
    // Test comments around spread operator
    let input = r#"{
            "key1": "value1",
            {# comment before spread #}**{# comment after spread #}{"key2": "value2"}
        }"#;
    let result = TagParser::parse_tag(input).unwrap();
    assert_eq!(
        result,
        vec![TagAttr {
            key: None,
            value: TagValue {
                token: TagToken {
                    token: r#"{
            "key1": "value1",
            {# comment before spread #}**{# comment after spread #}{"key2": "value2"}
        }"#
                    .to_string(),
                    start_index: 0,
                    end_index: 127,
                    line_col: (1, 1),
                },
                children: vec![
                    TagValue {
                        token: TagToken {
                            token: "\"key1\"".to_string(),
                            start_index: 14,
                            end_index: 20,
                            line_col: (2, 13),
                        },
                        children: vec![],
                        spread: None,
                        filters: vec![],
                        kind: ValueKind::String,
                        start_index: 14,
                        end_index: 20,
                        line_col: (2, 13),
                    },
                    TagValue {
                        token: TagToken {
                            token: "\"value1\"".to_string(),
                            start_index: 22,
                            end_index: 30,
                            line_col: (2, 21),
                        },
                        children: vec![],
                        spread: None,
                        filters: vec![],
                        kind: ValueKind::String,
                        start_index: 22,
                        end_index: 30,
                        line_col: (2, 21),
                    },
                    TagValue {
                        token: TagToken {
                            token: r#"{"key2": "value2"}"#.to_string(),
                            start_index: 99,
                            end_index: 117,
                            line_col: (3, 68),
                        },
                        children: vec![
                            TagValue {
                                token: TagToken {
                                    token: "\"key2\"".to_string(),
                                    start_index: 100,
                                    end_index: 106,
                                    line_col: (3, 69),
                                },
                                children: vec![],
                                spread: None,
                                filters: vec![],
                                kind: ValueKind::String,
                                start_index: 100,
                                end_index: 106,
                                line_col: (3, 69),
                            },
                            TagValue {
                                token: TagToken {
                                    token: "\"value2\"".to_string(),
                                    start_index: 108,
                                    end_index: 116,
                                    line_col: (3, 77),
                                },
                                children: vec![],
                                spread: None,
                                filters: vec![],
                                kind: ValueKind::String,
                                start_index: 108,
                                end_index: 116,
                                line_col: (3, 77),
                            },
                        ],
                        spread: Some("**".to_string()),
                        filters: vec![],
                        kind: ValueKind::Dict,
                        start_index: 97,
                        end_index: 117,
                        line_col: (3, 66),
                    },
                ],
                spread: None,
                filters: vec![],
                kind: ValueKind::Dict,
                start_index: 0,
                end_index: 127,
                line_col: (1, 1),
            },
            start_index: 0,
            end_index: 127,
            line_col: (1, 1),
        }]
    );
}
