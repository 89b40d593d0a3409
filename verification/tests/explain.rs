use js_parser::explain::{
    explain, has_white_space, print_rule, trim_lines, CliDiagnostic, Doc, FixKind, RuleMetadata,
};

const RULE: RuleMetadata = RuleMetadata {
    name: "noVar",
    docs: " Disallow the use of `var`\n\n ECMAScript 2015 allows to declare\r\n   variables with block scope.\n",
    recommended: true,
    fix_kind: Some(FixKind::Unsafe),
};

#[test]
fn a_rule_is_explained_in_three_messages() {
    assert_eq!(
        print_rule(&RULE),
        vec![
            String::from("# noVar\n"),
            String::from("Fix is Unsafe.\n"),
            String::from(
                "This rule is recommended.\n\n# Description\nDisallow the use of `var`\n\nECMAScript 2015 allows to declare\nvariables with block scope."
            ),
        ]
    );
}

#[test]
fn a_rule_without_a_fix_is_explained() {
    let rule = RuleMetadata {
        name: "noDebugger",
        docs: "",
        recommended: false,
        fix_kind: None,
    };
    assert_eq!(
        print_rule(&rule),
        vec![
            String::from("# noDebugger\n"),
            String::from("No fix available.\n"),
            String::from("This rule is not recommended.\n\n# Description\n"),
        ]
    );
}

#[test]
fn fix_kinds_have_names() {
    assert_eq!(FixKind::Safe.name(), "Safe");
    assert_eq!(FixKind::Unsafe.name(), "Unsafe");
}

#[test]
fn explaining_a_rule_gives_its_messages() {
    match explain(Doc::Rule(RULE)) {
        Ok(messages) => assert_eq!(messages, print_rule(&RULE)),
        Err(_) => panic!("the rule is known"),
    }
}

#[test]
fn explaining_something_unknown_fails() {
    match explain(Doc::Unknown(String::from("noSuchRule"))) {
        Ok(_) => panic!("the rule is not known"),
        Err(CliDiagnostic::UnexpectedArgument {
            argument,
            subcommand,
        }) => {
            assert_eq!(argument, "noSuchRule");
            assert_eq!(subcommand, "explain");
        }
    }
}

/// What the standard library makes of the same text.
fn reference(text: &str) -> String {
    text.lines()
        .map(|line| line.trim_start())
        .collect::<Vec<_>>()
        .join("\n")
}

#[test]
fn lines_are_trimmed_like_those_of_the_standard_library() {
    let texts = [
        "",
        "\n",
        "\n\n",
        "a",
        " a",
        "a\n",
        "a\nb",
        "a\r\nb\r\n",
        "a\r\r\nb",
        "\r",
        "\r\n",
        "a\r",
        "a\rb\n c",
        "\t x\u{a0}\n\u{2003}y\n\u{feff}z",
        "  \n  \n",
        " \r\n\r \n",
        "é\n  ü\n\u{3000}漢",
    ];
    for text in texts {
        assert_eq!(trim_lines(text), reference(text), "{:?}", text);
    }
    assert_eq!(trim_lines("  a\r\n\tb \n"), "a\nb ");
}

#[test]
fn white_space_is_that_of_the_standard_library() {
    for code in 0..=0x10ffffu32 {
        if let Some(c) = char::from_u32(code) {
            assert_eq!(has_white_space(c), c.is_whitespace(), "{:?}", c);
        }
    }
}

/// How the console prints a value.
fn printed(value: &dyn biome_console::fmt::Display) -> String {
    let mut buffer = biome_console::MarkupBuf::default();
    value
        .fmt(&mut biome_console::fmt::Formatter::new(&mut buffer))
        .unwrap();
    buffer
        .0
        .iter()
        .map(|node| node.content.as_str())
        .collect::<Vec<_>>()
        .join("")
}

#[test]
fn fix_kinds_are_named_as_the_console_prints_them() {
    assert_eq!(FixKind::Safe.name(), printed(&biome_analyze::FixKind::Safe));
    assert_eq!(
        FixKind::Unsafe.name(),
        printed(&biome_analyze::FixKind::Unsafe)
    );
}
