use calvin_rs::repl::{classify_file_line, classify_line, parse_command, split_definition, trimmed, ReplCommand, ReplConfig, ReplInput};

#[test]
fn test_repl_config_default() {
    let config = ReplConfig::default();
    assert_eq!(config.prompt, "> ");
    assert!(!config.show_types);
}

#[test]
fn config_history_location() {
    assert_eq!(ReplConfig::for_home(Some("/home/u")).history_file.unwrap(), "/home/u/.calvin_history");
    assert_eq!(ReplConfig::default().history_file.unwrap(), "./.calvin_history");
    assert!(ReplConfig::default().color);
}

#[test]
fn commands() {
    assert_eq!(parse_command(":q"), ReplCommand::Quit);
    assert_eq!(parse_command(":quit"), ReplCommand::Quit);
    assert_eq!(parse_command(":help"), ReplCommand::Help);
    assert_eq!(parse_command(":t  1 + 2 "), ReplCommand::ShowType("1 + 2".to_string()));
    assert_eq!(parse_command(":type"), ReplCommand::TypeUsage);
    assert_eq!(parse_command(":t   "), ReplCommand::TypeUsage);
    assert_eq!(parse_command(":env"), ReplCommand::ShowEnv);
    assert_eq!(parse_command(":load file.cv"), ReplCommand::Load("file.cv".to_string()));
    assert_eq!(parse_command(":load"), ReplCommand::LoadUsage);
    assert_eq!(parse_command(":reset"), ReplCommand::Reset);
    assert_eq!(parse_command(":what now"), ReplCommand::Unknown(":what".to_string()));
}

#[test]
fn lines() {
    assert_eq!(classify_line("   "), ReplInput::Skip);
    assert_eq!(classify_line("  :q "), ReplInput::Command(ReplCommand::Quit));
    assert_eq!(
        classify_line("let x = 1 + 2"),
        ReplInput::Define { name: "x".to_string(), expr: "1 + 2".to_string() }
    );
    assert_eq!(classify_line("let x = 1 in x"), ReplInput::Eval("let x = 1 in x".to_string()));
    assert_eq!(classify_line(" 1 + 2\t"), ReplInput::Eval("1 + 2".to_string()));
    assert_eq!(classify_file_line("-- a comment"), ReplInput::Skip);
    assert_eq!(classify_file_line(":q"), ReplInput::Eval(":q".to_string()));
    assert_eq!(
        classify_file_line("let f = \\x -> x == 1"),
        ReplInput::Define { name: "f".to_string(), expr: "\\x -> x == 1".to_string() }
    );
    assert_eq!(split_definition("let a=b=c"), Some(("a".to_string(), "b=c".to_string())));
    assert_eq!(split_definition("no equals"), None);
    assert_eq!(trimmed("\u{3000} x \n"), "x");
}
