use command_parser::split_shell;

#[test]
fn split_shell_keeps_quoted_spaces() {
    assert_eq!(split_shell("mot1 mot2 \"mot 3\""), vec!["mot1", "mot2", "mot 3"]);
}

#[test]
fn split_shell_of_nothing_is_empty() {
    assert!(split_shell("").is_empty());
    assert!(split_shell(" ").is_empty());
    assert!(split_shell("     ").is_empty());
}

#[test]
fn split_shell_takes_an_open_quote_to_the_end() {
    assert_eq!(split_shell("foo \"bar"), vec!["foo", "bar"]);
    assert_eq!(split_shell("foo \"bar baz"), vec!["foo", "bar baz"]);
}

#[test]
fn split_shell_drops_empty_tokens() {
    assert_eq!(split_shell("  a   b  "), vec!["a", "b"]);
    assert_eq!(split_shell("a \"\" b"), vec!["a", "b"]);
    assert!(split_shell("\"\"\"\"").is_empty());
    assert!(split_shell("\"").is_empty());
}

#[test]
fn split_shell_cuts_at_every_quote() {
    assert_eq!(split_shell("ab\"cd\"ef"), vec!["ab", "cd", "ef"]);
    assert_eq!(split_shell("a\"b c\"d e"), vec!["a", "b c", "d", "e"]);
}

#[test]
fn split_shell_of_a_word_is_the_word() {
    assert_eq!(split_shell("word"), vec!["word"]);
    assert_eq!(split_shell("-flag"), vec!["-flag"]);
}

#[test]
fn split_shell_keeps_other_blanks_and_wide_characters() {
    assert_eq!(split_shell("a\tb c"), vec!["a\tb", "c"]);
    assert_eq!(split_shell("été \"à l'œil\" 日本"), vec!["été", "à l'œil", "日本"]);
}

#[test]
fn split_shell_reads_a_command_line() {
    assert_eq!(
        split_shell("misc concat -string1 \"Hello\" -string2 \" world\""),
        vec!["misc", "concat", "-string1", "Hello", "-string2", " world"]
    );
}

#[test]
fn split_shell_tokens_are_never_empty_nor_hold_a_quote() {
    for line in ["a b", "\"a b\" c\"d", "   ", "x\"\"y \" \" z"] {
        for token in split_shell(line) {
            assert!(!token.is_empty());
            assert!(!token.contains('"'));
        }
    }
}

#[test]
fn split_shell_of_two_lines_around_a_space_is_both_token_lists() {
    let pairs = [
        ("mot1", "mot2 \"mot 3\""),
        ("a \"b c\"", "d"),
        ("", "x y"),
        ("x y", ""),
        ("\"\"", "\"q r\" s"),
        (" a ", " b "),
    ];
    for (before, after) in pairs {
        let whole = format!("{} {}", before, after);
        let mut expected = split_shell(before);
        expected.extend(split_shell(after));
        assert_eq!(split_shell(&whole), expected);
    }
}

#[test]
fn split_shell_of_quoted_text_is_the_text() {
    assert_eq!(split_shell("\"mot 3\""), vec!["mot 3"]);
    assert_eq!(split_shell("\"  \""), vec!["  "]);
    assert_eq!(split_shell("\"-a b- c\""), vec!["-a b- c"]);
    assert!(split_shell("\"\"").is_empty());
}

/// The same cut, made with `split` of the standard library.
fn split_by_closure(txt: &str) -> Vec<&str> {
    let mut quoted = false;
    txt.split(|c| match (quoted, c) {
        (_, '"') => {
            quoted = !quoted;
            true
        }
        (false, ' ') => true,
        _ => false,
    })
    .filter(|s| !s.is_empty())
    .collect()
}

#[test]
fn split_shell_agrees_with_split_on_every_short_line() {
    let alphabet = ['a', 'b', ' ', '"', '-', 'é'];
    let mut lines = vec![String::new()];
    for _ in 0..5 {
        let mut longer = Vec::new();
        for line in &lines {
            for c in alphabet {
                let mut next = line.clone();
                next.push(c);
                longer.push(next);
            }
        }
        for line in &longer {
            assert_eq!(split_shell(line), split_by_closure(line), "line {:?}", line);
        }
        lines = longer;
    }
}
