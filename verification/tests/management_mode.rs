use wsllink::management::{help_text, management_mode};

#[test]
fn help_text_substitutes_binary_name() {
    let text = help_text("wsllink");
    let expected = "usage: wsllink <operation> [<arg1> <arg2> ...]\n\n  <operation>\n\n    - Link new commands\n\n        wsllink new <command-name-1> <command-name-2> ...\n        wsllink add <command-name-1> <command-name-2> ...\n        wsllink ln <command-name-1> <command-name-2> ...\n\n    - Unlink existing commands\n\n        wsllink del <command-name-1> <command-name-2> ...\n        wsllink rm <command-name-1> <command-name-2> ...\n\n    - List linked commands\n\n        wsllink list\n\n";
    assert_eq!(text, expected);
}

#[test]
fn management_mode_reports_usage_and_success() {
    let args = vec!["C:\\tools\\wsllink.exe".to_string()];
    let (text, code) = management_mode(&args);
    assert_eq!(code, Some(0));
    assert!(text.starts_with("usage: wsllink <operation>"));
    assert!(text.contains("        wsllink list\n"));
}

#[test]
fn management_mode_tolerates_missing_binary_name() {
    let args: Vec<String> = vec![];
    let (text, code) = management_mode(&args);
    assert_eq!(code, Some(0));
    assert!(text.starts_with("usage:  <operation>"));
}
