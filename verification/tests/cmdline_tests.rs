use tsh::cmdline::CommandLine;
use tsh::cmdline::parse_cli;
use tsh::cmdline::parse_command;

#[test]
fn test_command_line_new() {
    let expect_ls: CommandLine = CommandLine {
        commands: vec![(0, "ls".to_string(), vec!["-l".to_string()])],
    };
    let actual_ls: CommandLine = CommandLine::new("ls -l");
    assert_eq!(actual_ls, expect_ls);

    let expect_grep: CommandLine = CommandLine {
        commands: vec![
            (
                0,
                "grep".to_string(),
                vec!["-v".to_string(), "a.c".to_string(), "test.txt".to_string()],
            ),
        ],
    };
    let actual_grep: CommandLine = CommandLine::new("grep -v a.c test.txt");
    assert_eq!(actual_grep, expect_grep);

    let expect_pwd: CommandLine = CommandLine {
        commands: vec![(0, "pwd".to_string(), vec![])],
    };
    let actual_pwd: CommandLine = CommandLine::new("pwd");
    assert_eq!(actual_pwd, expect_pwd);
}

#[test]
fn test_parse_cli() {
    let expect: Vec<(usize, String, Vec<String>)> = vec![
        (0, "ls".to_string(), vec!["-l".to_string()]),
        (1, "grep".to_string(), vec!["test".to_string()]),
    ];

    let actual: Vec<(usize, String, Vec<String>)> = parse_cli("ls -l | grep test");
    assert_eq!(actual, expect);
}

#[test]
fn test_parse_command_plain() {
    let (cmd, args) = parse_command("ls -l").unwrap();
    assert_eq!(cmd, "ls");
    assert_eq!(args, vec!["-l".to_string()]);
}

#[test]
fn test_parse_command_no_arguments() {
    let (cmd, args) = parse_command("pwd").unwrap();
    assert_eq!(cmd, "pwd");
    assert!(args.is_empty());
}

#[test]
fn test_parse_command_blank() {
    assert_eq!(parse_command(""), None);
    assert_eq!(parse_command("   \t  "), None);
}

#[test]
fn test_parse_cli_surrounding_whitespace() {
    let actual = parse_cli("  ls   -l  ");
    assert_eq!(actual, vec![(0, "ls".to_string(), vec!["-l".to_string()])]);
}

#[test]
fn test_parse_cli_empty_segment_dropped() {
    // The blank middle segment is dropped and not counted: each stage's
    // index is its position in the resulting pipeline.
    let actual = parse_cli("ls | | wc");
    assert_eq!(
        actual,
        vec![
            (0, "ls".to_string(), vec![]),
            (1, "wc".to_string(), vec![]),
        ]
    );
}

#[test]
fn test_parse_cli_blank_line_yields_no_stage() {
    assert_eq!(parse_cli(""), vec![]);
    assert_eq!(parse_cli(" | "), vec![]);
}

#[test]
fn test_parse_cli_single_character_line() {
    assert_eq!(parse_cli("x"), vec![(0, "x".to_string(), vec![])]);
}

#[test]
fn test_parse_cli_indices_ascend() {
    let actual = parse_cli("a | b | c");
    let indices: Vec<usize> = actual.iter().map(|stage| stage.0).collect();
    assert_eq!(indices, vec![0, 1, 2]);
}
