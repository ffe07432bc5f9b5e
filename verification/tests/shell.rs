use melon::input::parser::{tokenize, QuoteMode, Token, TokenKind};
use melon::shell::detect::{classify_shell, ShellType};
use melon::shell::escape::escape_fallback_completion;

#[test]
fn test_classify_zsh() {
    assert_eq!(classify_shell("/bin/zsh"), ShellType::Zsh);
    assert_eq!(classify_shell("/usr/local/bin/zsh"), ShellType::Zsh);
}

#[test]
fn test_classify_bash() {
    assert_eq!(classify_shell("/bin/bash"), ShellType::Bash);
}

#[test]
fn test_classify_unknown() {
    assert!(matches!(classify_shell("/bin/tcsh"), ShellType::Unknown(_)));
}

#[test]
fn classify_fish_and_zsh5_and_unknown_names() {
    assert_eq!(classify_shell("/usr/bin/fish"), ShellType::Fish);
    assert_eq!(classify_shell("/opt/zsh6"), ShellType::Unknown("zsh6".to_string()));
    assert_eq!(classify_shell("/usr/bin/zsh5"), ShellType::Zsh);
    assert_eq!(classify_shell("/bin/tcsh").name(), "tcsh");
    assert_eq!(classify_shell("nushell").name(), "nushell");
    assert_eq!(ShellType::Fish.name(), "fish");
}

#[test]
fn test_escape_unquoted_spaces_and_parens() {
    assert_eq!(
        escape_fallback_completion(&ShellType::Zsh, QuoteMode::Plain, "My Dir (1)/"),
        r"My\ Dir\ \(1\)/"
    );
}

#[test]
fn test_escape_single_quoted_embedded_quote() {
    assert_eq!(
        escape_fallback_completion(&ShellType::Bash, QuoteMode::Single, "it's"),
        "it'\\''s"
    );
}

#[test]
fn test_escape_double_quoted_shell_expansion_chars() {
    assert_eq!(
        escape_fallback_completion(&ShellType::Zsh, QuoteMode::Double, r#"$HOME"!"#),
        r#"\$HOME\"\!"#
    );
}

#[test]
fn test_escape_double_quoted_fish_leaves_history_bang_alone() {
    assert_eq!(
        escape_fallback_completion(&ShellType::Fish, QuoteMode::Double, "wow!"),
        "wow!"
    );
}

#[test]
fn escape_unquoted_keeps_safe_characters() {
    assert_eq!(
        escape_fallback_completion(&ShellType::Bash, QuoteMode::Plain, "src/main_v1.2-x:y"),
        "src/main_v1.2-x:y"
    );
    assert_eq!(escape_fallback_completion(&ShellType::Bash, QuoteMode::Plain, "é"), "\\é");
}

#[test]
fn escaped_text_tokenizes_back_to_itself() {
    let texts = ["hello world", "it's", "a\"b$c`d\\e!f", "2>x", "&& | ; < >", "plain-name.txt"];
    for shell in [ShellType::Zsh, ShellType::Bash, ShellType::Fish] {
        for t in texts {
            let word = vec![Token { text: t.to_string(), kind: TokenKind::Word, start: 0 }];
            let bare = escape_fallback_completion(&shell, QuoteMode::Plain, t);
            assert_eq!(tokenize(&bare), word, "bare {bare}");
            let single = format!("'{}'", escape_fallback_completion(&shell, QuoteMode::Single, t));
            assert_eq!(tokenize(&single), word, "single {single}");
            let double = format!("\"{}\"", escape_fallback_completion(&shell, QuoteMode::Double, t));
            assert_eq!(tokenize(&double), word, "double {double}");
        }
    }
}
