use tinyc_lexer::{code_gen, parse, parse_args, Command};

fn args(list: &[&str]) -> Vec<String> {
    list.iter().map(|s| s.to_string()).collect()
}

#[test]
fn each_flag_selects_its_command() {
    assert_eq!(parse_args(args(&["--lex"])), Ok(Command::Lex));
    assert_eq!(parse_args(args(&["--parse"])), Ok(Command::Parse));
    assert_eq!(parse_args(args(&["--codegen"])), Ok(Command::Codegen));
}

#[test]
fn first_flag_wins_and_others_are_skipped() {
    assert_eq!(parse_args(args(&["-v", "lex", "--parse", "--lex"])), Ok(Command::Parse));
}

#[test]
fn no_flag_is_an_error() {
    assert_eq!(parse_args(args(&[])), Err("no valid option found".to_string()));
    assert_eq!(parse_args(args(&["--LEX", "codegen"])), Err("no valid option found".to_string()));
}

#[test]
fn later_stages_produce_nothing_yet() {
    assert_eq!(parse("int main(void) { return 2; }"), None);
    assert_eq!(code_gen("int main(void) { return 2; }"), None);
}
