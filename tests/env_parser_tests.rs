use envsafe_cli::env_parser::{format_env_file, parse_env_file, parse_env_file_raw};
use envsafe_cli::merge::{merge, render_env_file, sync_env_file};
use envsafe_cli::vars::VariableSet;

fn set_of(pairs: &[(&str, &str)]) -> VariableSet {
    let mut vars = VariableSet::new();
    for (k, v) in pairs {
        vars.insert(k.to_string(), v.to_string());
    }
    vars
}

#[test]
fn test_parse_env_file() {
    let content = r#"
# Comment
DATABASE_URL=postgres://localhost/db
API_KEY="secret key with spaces"
DEBUG=true
        "#;

    let vars = parse_env_file(content);

    assert_eq!(vars.get("DATABASE_URL").unwrap(), "postgres://localhost/db");
    assert_eq!(vars.get("API_KEY").unwrap(), "secret key with spaces");
    assert_eq!(vars.get("DEBUG").unwrap(), "true");
}

#[test]
fn test_format_env_file() {
    let mut vars = VariableSet::new();
    vars.insert(
        "DATABASE_URL".to_string(),
        "postgres://localhost/db".to_string(),
    );
    vars.insert("API_KEY".to_string(), "secret key".to_string());

    let formatted = format_env_file(&vars);

    assert!(formatted.contains("DATABASE_URL=postgres://localhost/db"));
    assert!(formatted.contains("API_KEY=\"secret key\""));
}

#[test]
fn format_sorts_lines_without_trailing_newline() {
    let vars = set_of(&[("B", "2"), ("A", "1 2"), ("C", "")]);
    assert_eq!(format_env_file(&vars), "A=\"1 2\"\nB=2\nC=");
    assert_eq!(format_env_file(&VariableSet::new()), "");
}

#[test]
fn format_orders_whole_lines_not_keys() {
    let vars = set_of(&[("PORT", "1"), ("PORT2", "2"), ("A", "x"), ("A0", "y")]);
    assert_eq!(format_env_file(&vars), "A0=y\nA=x\nPORT2=2\nPORT=1");
}

#[test]
fn raw_parse_keeps_values_as_written() {
    let vars = parse_env_file_raw("X=\" a\"\n  Y = 'b'  \nZ=c");
    assert_eq!(vars.get("X").unwrap(), "\" a\"");
    assert_eq!(vars.get("Y").unwrap(), "'b'");
    assert_eq!(vars.get("Z").unwrap(), "c");
}

#[test]
fn parse_strips_matching_quotes_only() {
    let vars = parse_env_file("API_KEY=\"secret with spaces\"\nPLAIN=value\nS='single'\nMIXED=\"a'\nONE=\"\n");
    assert_eq!(vars.get("API_KEY").unwrap(), "secret with spaces");
    assert_eq!(vars.get("PLAIN").unwrap(), "value");
    assert_eq!(vars.get("S").unwrap(), "single");
    assert_eq!(vars.get("MIXED").unwrap(), "\"a'");
    assert_eq!(vars.get("ONE").unwrap(), "\"");
    assert_eq!(vars.len(), 5);
}

#[test]
fn parse_skips_comments_blank_and_malformed_lines() {
    let vars = parse_env_file("  # note=1\n\n   \nNOEQUALS\n  KEY = a=b  \r\n");
    assert_eq!(vars.len(), 1);
    assert_eq!(vars.get("KEY").unwrap(), "a=b");
    assert!(vars.get("NOEQUALS").is_none());
    assert!(vars.get("# note").is_none());
}

#[test]
fn parse_later_line_wins_and_keeps_first_position() {
    let vars = parse_env_file("A=1\nB=2\nA=3");
    assert_eq!(vars.len(), 2);
    assert_eq!(vars.get("A").unwrap(), "3");
    let (k0, v0) = vars.entry(0);
    assert_eq!((k0.as_str(), v0.as_str()), ("A", "3"));
}

#[test]
fn parse_empty_text_is_empty() {
    assert!(parse_env_file("").is_empty());
}

#[test]
fn merge_remote_wins_and_local_only_is_kept() {
    let remote = set_of(&[("FOO", "remote1"), ("BAZ", "remote3")]);
    let local = parse_env_file("FOO=local1\nBAR=local2");
    let m = merge(&remote, &local);
    assert_eq!(m.merged.len(), 3);
    assert_eq!(m.merged.get("FOO").unwrap(), "remote1");
    assert_eq!(m.merged.get("BAZ").unwrap(), "remote3");
    assert_eq!(m.merged.get("BAR").unwrap(), "local2");
    assert_eq!(m.local_only.len(), 1);
    assert_eq!(m.local_only.get("BAR").unwrap(), "local2");
    assert!(m.local_only.get("FOO").is_none());
}

#[test]
fn sync_scenario_sorted_remote_and_local_block() {
    let remote = set_of(&[("FOO", "remote1"), ("BAZ", "remote3")]);
    let text = sync_env_file("FOO=local1\nBAR=local2", &remote, "p", "dev", "T0");
    assert_eq!(
        text,
        "# EnvSafe - p\n# Environment: dev\n# Updated: T0\n# Variables from EnvSafe (managed remotely)\n\nBAZ=remote3\nFOO=remote1\n\n# Local variables (not managed by EnvSafe)\nBAR=local2\n"
    );
    assert!(!text.contains("local1"));
}

#[test]
fn render_without_local_only_has_no_separator() {
    let remote = set_of(&[("B", "2"), ("A", "1")]);
    let text = render_env_file(&remote, &VariableSet::new(), "proj", "prod", "now");
    assert_eq!(
        text,
        "# EnvSafe - proj\n# Environment: prod\n# Updated: now\n# Variables from EnvSafe (managed remotely)\n\nA=1\nB=2\n"
    );
}

#[test]
fn sync_twice_is_stable() {
    let remote = set_of(&[("FOO", "remote1"), ("BAZ", "remote3")]);
    let first = sync_env_file("FOO=local1\nBAR=local2\nQ=\"x y\"\nX=\" a\"", &remote, "p", "dev", "T0");
    assert_eq!(
        first,
        "# EnvSafe - p\n# Environment: dev\n# Updated: T0\n# Variables from EnvSafe (managed remotely)\n\nBAZ=remote3\nFOO=remote1\n\n# Local variables (not managed by EnvSafe)\nBAR=local2\nQ=\"x y\"\nX=\" a\"\n"
    );
    let second = sync_env_file(&first, &remote, "p", "dev", "T1");
    assert_eq!(second, first.replace("# Updated: T0", "# Updated: T1"));
    assert_eq!(parse_env_file(&second).get("X").unwrap(), " a");
    assert_eq!(parse_env_file(&second).get("Q").unwrap(), "x y");
}

#[test]
fn sorting_puts_prefix_first_and_orders_by_code() {
    let remote = set_of(&[("a", "1"), ("B", "2"), ("A0", "3"), ("A", "4")]);
    let text = render_env_file(&remote, &VariableSet::new(), "p", "e", "t");
    assert!(text.ends_with("\n\nA=4\nA0=3\nB=2\na=1\n"));
}
