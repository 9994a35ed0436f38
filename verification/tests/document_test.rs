use tool_versions::ast::{
    is_white_space, Identifier, Line, Node, SyntaxError, Unparsed, Version, Versions, Whitespace,
    AST,
};
use tool_versions::{parser, transformer, writer, ToolVersions, ValidationError};

fn definition(name: &str, versions: Vec<(&str, &str)>, space: Option<&str>, comment: Option<&str>) -> Line {
    Line::ToolDefinition {
        name: Identifier::new(name.to_string()),
        versions: Versions::new(
            versions
                .into_iter()
                .map(|(padding, version)| {
                    (Whitespace::new(padding.to_string()), Version::new(version.to_string()))
                })
                .collect(),
        ),
        whitespace: space.map(|s| Whitespace::new(s.to_string())),
        comment: comment.map(|c| Unparsed::new(c.to_string())),
    }
}

fn kept(error: SyntaxError, raw: &str) -> Line {
    Line::Invalid { error, unparsed: Unparsed::new(raw.to_string()) }
}

fn parse_one(line: &str) -> Line {
    let mut lines = parser::parse(line).lines;
    assert_eq!(lines.len(), 1);
    lines.remove(0)
}

#[test]
fn white_space_is_the_unicode_property() {
    for code in 0..=0x10ffff_u32 {
        if let Some(c) = char::from_u32(code) {
            assert_eq!(is_white_space(c), c.is_whitespace(), "U+{:04X}", code);
        }
    }
}

#[test]
fn every_text_is_read_and_written_back() {
    let texts = [
        "",
        "\n",
        "\n\n",
        "go 1\n",
        "go 1",
        "  \t # c\n+bad\nname\nname#c\nname 1 2  3 #x\n",
        "a 1\na 2\n b\n#\n",
        "tab\t1\u{a0}2\u{3000}#\u{2028}\n",
    ];
    for text in texts {
        let written = writer::write(&parser::parse(text));
        let closed = if text.is_empty() || text.ends_with('\n') {
            text.to_string()
        } else {
            format!("{}\n", text)
        };
        assert_eq!(written, closed);
    }
}

#[test]
fn carriage_return_before_line_feed_ends_the_line() {
    let ast = parser::parse("go 1\r\n# c\r\n");
    assert_eq!(
        ast,
        AST {
            lines: vec![
                definition("go", vec![(" ", "1")], None, None),
                Line::Empty { whitespace: None, comment: Some(Unparsed::new(" c".to_string())) },
            ]
        }
    );
    assert_eq!(writer::write(&ast), "go 1\n# c\n");
}

#[test]
fn carriage_return_stands_in_no_name_padding_or_version() {
    assert_eq!(
        parse_one("\rgo 1"),
        kept(
            SyntaxError::UnexpectedToken { token: '\r', expected: "Identifier,Whitespace,Comment" },
            "\rgo 1"
        )
    );
    assert_eq!(
        parse_one(" \r"),
        kept(SyntaxError::UnexpectedToken { token: '\r', expected: "EOL,Comment" }, " \r")
    );
    assert_eq!(
        parse_one("go\r1"),
        kept(SyntaxError::UnexpectedToken { token: '\r', expected: "Whitespace" }, "go\r1")
    );
    assert_eq!(
        parse_one("go \r1"),
        kept(SyntaxError::UnexpectedToken { token: '\r', expected: "Version" }, "go \r1")
    );
    assert_eq!(
        parse_one("go 1\r2"),
        kept(SyntaxError::UnexpectedToken { token: '\r', expected: "Whitespace" }, "go 1\r2")
    );
    assert_eq!(
        parse_one("go 1 \r"),
        kept(SyntaxError::UnexpectedToken { token: '\r', expected: "Version" }, "go 1 \r")
    );
}

#[test]
fn a_comment_is_the_rest_of_the_line() {
    assert_eq!(
        parse_one("go 1 # a\rb"),
        definition("go", vec![(" ", "1")], Some(" "), Some(" a\rb"))
    );
    assert_eq!(parse_one("go 1#\r"), definition("go", vec![(" ", "1")], None, Some("\r")));
    assert_eq!(
        parse_one("#\r"),
        Line::Empty { whitespace: None, comment: Some(Unparsed::new("\r".to_string())) }
    );
    assert_eq!(
        parse_one(" \t#\r# \u{2028}\r "),
        Line::Empty {
            whitespace: Some(Whitespace::new(" \t".to_string())),
            comment: Some(Unparsed::new("\r# \u{2028}\r ".to_string())),
        }
    );
    assert_eq!(writer::write(&parser::parse("go 1 # a\rb\n")), "go 1 # a\rb\n");
    let tools = ToolVersions::from("go 1 #\r");
    assert_eq!(tools.versions("go"), Some(vec!["1".to_string()]));
    assert_eq!(tools.errors(), Vec::<&SyntaxError>::new());
    assert_eq!(tools.write(), "go 1 #\r\n");
}

#[test]
fn a_carriage_return_at_the_end_of_a_written_line_is_not_read_again() {
    let ast = parser::parse("#x\r");
    assert_eq!(
        ast,
        AST {
            lines: vec![Line::Empty {
                whitespace: None,
                comment: Some(Unparsed::new("x\r".to_string())),
            }]
        }
    );
    let written = writer::write(&ast);
    assert_eq!(written, "#x\r\n");
    assert_eq!(
        parser::parse(&written),
        AST {
            lines: vec![Line::Empty {
                whitespace: None,
                comment: Some(Unparsed::new("x".to_string())),
            }]
        }
    );
}

#[test]
fn blank_lines() {
    assert_eq!(parser::parse(""), AST { lines: vec![] });
    assert_eq!(
        parser::parse("\n"),
        AST { lines: vec![Line::Empty { whitespace: None, comment: None }] }
    );
    assert_eq!(
        parse_one("#"),
        Line::Empty { whitespace: None, comment: Some(Unparsed::new(String::new())) }
    );
    assert_eq!(
        parse_one(" \t"),
        Line::Empty { whitespace: Some(Whitespace::new(" \t".to_string())), comment: None }
    );
    assert_eq!(
        parse_one("  # x #"),
        Line::Empty {
            whitespace: Some(Whitespace::new("  ".to_string())),
            comment: Some(Unparsed::new(" x #".to_string())),
        }
    );
    assert_eq!(
        parse_one("  x"),
        kept(SyntaxError::UnexpectedToken { token: 'x', expected: "EOL,Comment" }, "  x")
    );
}

#[test]
fn definitions() {
    assert_eq!(parse_one("a.b-c_D9 1"), definition("a.b-c_D9", vec![(" ", "1")], None, None));
    assert_eq!(
        parse_one("go  1.21\t~>2 "),
        definition("go", vec![("  ", "1.21"), ("\t", "~>2")], Some(" "), None)
    );
    assert_eq!(parse_one("go 1#c"), definition("go", vec![(" ", "1")], None, Some("c")));
    assert_eq!(parse_one("go 1 #"), definition("go", vec![(" ", "1")], Some(" "), Some("")));
    assert_eq!(
        parse_one("go \u{a0}+1"),
        definition("go", vec![(" \u{a0}", "+1")], None, None)
    );
}

#[test]
fn each_error_has_its_line() {
    assert_eq!(
        parse_one("+go 1"),
        kept(
            SyntaxError::UnexpectedToken { token: '+', expected: "Identifier,Whitespace,Comment" },
            "+go 1"
        )
    );
    assert_eq!(parse_one("go"), kept(SyntaxError::UnexpectedEOL { expected: "Version" }, "go"));
    assert_eq!(
        parse_one("go#c"),
        kept(SyntaxError::UnexpectedToken { token: '#', expected: "Version" }, "go#c")
    );
    assert_eq!(
        parse_one("go+ 1"),
        kept(SyntaxError::UnexpectedToken { token: '+', expected: "Whitespace" }, "go+ 1")
    );
    assert_eq!(parse_one("go  "), kept(SyntaxError::UnexpectedEOL { expected: "Version" }, "go  "));
    assert_eq!(
        parse_one("go # c"),
        kept(SyntaxError::UnexpectedToken { token: '#', expected: "Version" }, "go # c")
    );
    assert_eq!(
        parser::parse("go 1\ngo 1\n").lines[1],
        kept(SyntaxError::DuplicateIdentifier(Identifier::new("go".to_string())), "go 1")
    );
}

#[test]
fn a_name_is_declared_even_where_its_line_is_refused() {
    let ast = parser::parse("go \ngo 1\nGo 2\n");
    assert_eq!(
        ast,
        AST {
            lines: vec![
                kept(SyntaxError::UnexpectedEOL { expected: "Version" }, "go "),
                kept(SyntaxError::DuplicateIdentifier(Identifier::new("go".to_string())), "go 1"),
                definition("Go", vec![(" ", "2")], None, None),
            ]
        }
    );
}

#[test]
fn names_are_kept_apart_by_one_document_only() {
    let mut names = parser::StringHashSet::new();
    assert_eq!(parser::parse_line("go 1", &mut names), definition("go", vec![(" ", "1")], None, None));
    assert_eq!(
        parser::parse_line("go 2", &mut names),
        kept(SyntaxError::DuplicateIdentifier(Identifier::new("go".to_string())), "go 2")
    );
    let mut fresh = parser::StringHashSet::new();
    assert_eq!(parser::parse_line("go 2", &mut fresh), definition("go", vec![(" ", "2")], None, None));
}

#[test]
fn duplicate_detection() {
    let tools = ToolVersions::from("go 1\ngo 2\n");
    assert_eq!(
        tools.errors(),
        vec![&SyntaxError::DuplicateIdentifier(Identifier::new("go".to_string()))]
    );
    assert_eq!(
        parser::parse("go 1\ngo 2\n").lines[1],
        kept(SyntaxError::DuplicateIdentifier(Identifier::new("go".to_string())), "go 2")
    );
    assert_eq!(tools.versions("go"), Some(vec!["1".to_string()]));
}

#[test]
fn end_to_end_rewrite_keeps_padding_and_comment() {
    let mut tools = ToolVersions::from("node  18 # c\n");
    assert_eq!(tools.set_versions("node", vec!["20", "21"]), Ok(()));
    assert_eq!(tools.write(), "node  20 21 # c\n");
}

#[test]
fn end_to_end_removal_leaves_the_empty_text() {
    let mut tools = ToolVersions::from("go 1.21\n");
    assert_eq!(tools.versions("go"), Some(vec!["1.21".to_string()]));
    assert_eq!(tools.set_versions("go", vec![]), Ok(()));
    assert_eq!(tools.write(), "");
}

#[test]
fn end_to_end_first_definition() {
    let mut tools = ToolVersions::new();
    assert_eq!(tools.write(), "");
    assert_eq!(tools.set_versions("golang", vec!["1337"]), Ok(()));
    assert_eq!(tools.write(), "golang 1337\n");
}

#[test]
fn removing_an_absent_tool_changes_nothing() {
    let ast = parser::parse("go 1\n  # c\n+bad\nnode 18 \n");
    let result = transformer::set_versions(&ast, Identifier::new("ruby".to_string()), vec![]);
    assert_eq!(result, ast);
    let kept_only = parser::parse("go\n");
    let result = transformer::set_versions(&kept_only, Identifier::new("go".to_string()), vec![]);
    assert_eq!(result, kept_only);
}

#[test]
fn paddings_stay_at_their_index() {
    let ast = AST { lines: vec![definition("t", vec![("  ", "a"), ("    ", "b")], None, None)] };
    let result = transformer::set_versions(
        &ast,
        Identifier::new("t".to_string()),
        vec![Version::new("x".to_string()), Version::new("y".to_string())],
    );
    assert_eq!(
        result,
        AST { lines: vec![definition("t", vec![("  ", "x"), ("    ", "y")], None, None)] }
    );
    let longer = transformer::set_versions(
        &ast,
        Identifier::new("t".to_string()),
        vec![
            Version::new("x".to_string()),
            Version::new("y".to_string()),
            Version::new("z".to_string()),
        ],
    );
    assert_eq!(writer::write(&longer), "t  x    y z\n");
    let shorter =
        transformer::set_versions(&ast, Identifier::new("t".to_string()), vec![Version::new("x".to_string())]);
    assert_eq!(writer::write(&shorter), "t  x\n");
}

#[test]
fn one_line_changes_and_no_other() {
    let text = "# head\ngo 1 # keep\n+bad\ngo 2\n\nnode 18\n";
    let ast = parser::parse(text);
    let name = || Identifier::new("go".to_string());
    let rewritten = transformer::set_versions(&ast, name(), vec![Version::new("3".to_string())]);
    assert_eq!(writer::write(&rewritten), "# head\ngo 3 # keep\n+bad\ngo 2\n\nnode 18\n");
    let removed = transformer::set_versions(&ast, name(), vec![]);
    assert_eq!(writer::write(&removed), "# head\n+bad\ngo 2\n\nnode 18\n");
    let added = transformer::set_versions(
        &ast,
        Identifier::new("lua".to_string()),
        vec![Version::new("5".to_string()), Version::new("6".to_string())],
    );
    assert_eq!(writer::write(&added), "# head\ngo 1 # keep\n+bad\ngo 2\n\nnode 18\nlua 5 6\n");
    assert_eq!(writer::write(&ast), text);
}

#[test]
fn written_documents_are_read_as_they_were_written() {
    let mut tools = ToolVersions::from("go 1\n\t# c\nnode  18   19#x\n");
    tools.set_versions("node", vec!["20"]).unwrap();
    tools.set_versions("ruby", vec!["3.3", "system"]).unwrap();
    tools.set_versions("go", vec![]).unwrap();
    let written = tools.write();
    assert_eq!(written, "\t# c\nnode  20#x\nruby 3.3 system\n");
    assert_eq!(ToolVersions::from(&written).write(), written);
    assert_eq!(ToolVersions::from(&written).errors(), Vec::<&SyntaxError>::new());
}

#[test]
fn texts_that_are_no_tokens_are_refused() {
    let mut tools = ToolVersions::from("go 1\n");
    assert_eq!(tools.set_versions("", vec!["1"]), Err(ValidationError::InvalidIdentifier));
    assert_eq!(tools.set_versions("g o", vec!["1"]), Err(ValidationError::InvalidIdentifier));
    assert_eq!(tools.set_versions("go#", vec![]), Err(ValidationError::InvalidIdentifier));
    assert_eq!(tools.set_versions("go", vec!["1", ""]), Err(ValidationError::InvalidVersion(1)));
    assert_eq!(tools.set_versions("go", vec!["1 2"]), Err(ValidationError::InvalidVersion(0)));
    assert_eq!(
        tools.set_versions("go", vec!["1", "2", "#3", " "]),
        Err(ValidationError::InvalidVersion(2))
    );
    assert_eq!(tools.set_versions("go", vec!["1\n"]), Err(ValidationError::InvalidVersion(0)));
    assert_eq!(tools.write(), "go 1\n");
    assert_eq!(tools.set_versions("go", vec!["~>1.2", "système"]), Ok(()));
    assert_eq!(tools.write(), "go ~>1.2 système\n");
}

#[test]
fn checked_tokens() {
    assert_eq!(Identifier::try_new("a-b_c.9".to_string()), Some(Identifier::new("a-b_c.9".to_string())));
    assert_eq!(Identifier::try_new(String::new()), None);
    assert_eq!(Identifier::try_new("a b".to_string()), None);
    assert_eq!(Identifier::try_new("é".to_string()), None);
    assert_eq!(Version::try_new("1.2+é".to_string()), Some(Version::new("1.2+é".to_string())));
    assert_eq!(Version::try_new(String::new()), None);
    assert_eq!(Version::try_new("1#".to_string()), None);
    assert_eq!(Version::try_new("1\u{2003}2".to_string()), None);
    assert_eq!(Whitespace::try_new(" \t\u{a0}".to_string()), Some(Whitespace::new(" \t\u{a0}".to_string())));
    assert_eq!(Whitespace::try_new(String::new()), None);
    assert_eq!(Whitespace::try_new(" \n".to_string()), None);
    assert_eq!(Whitespace::try_new(" \r".to_string()), None);
    assert_eq!(Whitespace::try_new(" x".to_string()), None);
    assert_eq!(Whitespace::single_space(), Whitespace::new(" ".to_string()));
    assert_eq!(Identifier::new("go".to_string()).value(), "go");
    assert!(Identifier::new("go".to_string()).same_as(&Identifier::new("go".to_string())));
    assert!(!Identifier::new("go".to_string()).same_as(&Identifier::new("Go".to_string())));
}

#[test]
fn lines_are_written_as_their_tokens_stand() {
    assert_eq!(definition("go", vec![(" ", "1"), ("\t", "2")], Some("  "), Some(" c")).to_string(), "go 1\t2  # c");
    assert_eq!(definition("go", vec![(" ", "1")], None, None).to_string(), "go 1");
    assert_eq!(Line::Empty { whitespace: None, comment: None }.to_string(), "");
    assert_eq!(
        Line::Empty { whitespace: Some(Whitespace::new(" ".to_string())), comment: Some(Unparsed::new(String::new())) }
            .to_string(),
        " #"
    );
    assert_eq!(kept(SyntaxError::UnexpectedEOL { expected: "Version" }, "go").to_string(), "go");
    assert_eq!(writer::write(&AST { lines: vec![] }), "");
    assert_eq!(writer::write(&AST { lines: vec![Line::Empty { whitespace: None, comment: None }] }), "\n");
}

#[test]
fn copies_are_equal() {
    let ast = parser::parse("go 1  2 # c\n+bad\n \ngo 3\n");
    for line in &ast.lines {
        assert_eq!(&line.clone(), line);
    }
}

#[test]
fn lines_are_those_of_the_text() {
    let texts = [
        "",
        "\n",
        "\r\n",
        "\r",
        "a",
        "a\n",
        "a\r\n",
        "a\r",
        "a\r\r\n",
        "\r\r\n\n\r",
        "a\n\nb",
        "a\r\n\r\nb\r\n",
        "a\rb\nc\n\rd\r\n\n",
        "# c\u{85}d\u{2028}e\n f",
    ];
    for text in texts {
        let written: Vec<String> =
            parser::parse(text).lines.iter().map(|line| line.to_string()).collect();
        let expected: Vec<String> = text.lines().map(|line| line.to_string()).collect();
        assert_eq!(written, expected, "{:?}", text);
    }
}

#[test]
fn lines_kept_verbatim_are_slices_of_the_text() {
    let text = "+a\nok 1\n b\r\nc\n\u{e9} \rd";
    let mut start = 0;
    let mut raws = Vec::new();
    for (line, parsed) in text.split('\n').zip(parser::parse(text).lines) {
        if let Line::Invalid { unparsed, .. } = parsed {
            let raw = unparsed.value().clone();
            assert_eq!(&text[start..start + raw.len()], raw);
            raws.push(raw);
        }
        start += line.len() + 1;
    }
    assert_eq!(raws, vec!["+a", " b", "c", "\u{e9} \rd"]);
}

#[test]
fn an_edit_keeps_the_errors_and_the_other_tools() {
    let mut tools = ToolVersions::from("go 1\n+bad\nnode 18\ngo 2\n");
    let errors = format!("{:?}", tools.errors());
    tools.set_versions("go", vec!["3", "4"]).unwrap();
    assert_eq!(tools.versions("go"), Some(vec!["3".to_string(), "4".to_string()]));
    assert_eq!(tools.versions("node"), Some(vec!["18".to_string()]));
    assert_eq!(format!("{:?}", tools.errors()), errors);
    tools.set_versions("go", vec![]).unwrap();
    assert_eq!(tools.versions("go"), None);
    assert_eq!(tools.versions("node"), Some(vec!["18".to_string()]));
    assert_eq!(format!("{:?}", tools.errors()), errors);
    assert_eq!(tools.write(), "+bad\nnode 18\ngo 2\n");
}

#[test]
fn a_written_document_is_read_as_itself() {
    let ast = AST {
        lines: vec![
            definition("node", vec![("  ", "20"), (" ", "21")], Some(" "), Some(" c")),
            Line::Empty { whitespace: Some(Whitespace::new("\t".to_string())), comment: None },
            definition("go", vec![(" ", "1.21")], None, Some("")),
            Line::Empty { whitespace: None, comment: Some(Unparsed::new("# x".to_string())) },
            Line::Empty { whitespace: None, comment: None },
            definition("ruby", vec![("\u{a0}", "3")], Some("  "), None),
        ],
    };
    assert_eq!(parser::parse(&writer::write(&ast)), ast);
}
