use minigrep::{
    is_non_opt_flag, is_opt_flag, match_non_opt_flag, match_opt_flag, parse_exclude_paths,
    parse_mult_opt_flags, parse_user_input_cli, split_str_into_vec, CliError, OptFlag, UserInput,
};

fn args(items: &[&str]) -> Vec<String> {
    items.iter().map(|s| s.to_string()).collect()
}

fn parse(items: &[&str]) -> UserInput {
    match parse_user_input_cli(args(items)) {
        Ok(u) => u,
        Err(_) => panic!("command line refused"),
    }
}

#[test]
fn empty_input_has_nothing_set() {
    let u = UserInput::new_empty();
    assert!(u.search_pattern.is_empty());
    assert!(u.search_path.is_empty());
    assert!(u.output_file_path.is_none());
    assert!(u.exclude_paths.is_none());
    assert!(u.opt_flags.is_empty());
    assert!(!u.has_opt_flag(OptFlag::Help));
}

#[test]
fn pattern_and_path_are_read() {
    let u = parse(&["minigrep", "-s", "needle", "-p", "hay.txt"]);
    assert_eq!(u.search_pattern, "needle");
    assert_eq!(u.search_path, "hay.txt");
    assert!(u.opt_flags.is_empty());
}

#[test]
fn program_path_alone_asks_for_nothing() {
    let u = parse(&["minigrep"]);
    assert!(u.search_pattern.is_empty());
    let u = parse(&[]);
    assert!(u.opt_flags.is_empty());
}

#[test]
fn single_flags_are_recorded() {
    let u = parse(&["minigrep", "-i", "-s", "x", "-n", "-p", "d", "-q"]);
    assert_eq!(u.opt_flags, vec![OptFlag::IgnoreCase, OptFlag::LineNumbers, OptFlag::Quiet]);
    assert!(u.has_opt_flag(OptFlag::Quiet));
    assert!(!u.has_opt_flag(OptFlag::Dir));
}

#[test]
fn flag_group_is_recorded() {
    let u = parse(&["minigrep", "-rin", "-s", "x", "-p", "dir"]);
    assert_eq!(u.opt_flags, vec![OptFlag::Recursive, OptFlag::IgnoreCase, OptFlag::LineNumbers]);
    assert_eq!(u.search_path, "dir");
}

#[test]
fn output_file_and_exclusions_are_read() {
    let u = parse(&["minigrep", "-s", "x", "-p", ".", "-d", "-f", "out.txt", "-e", ".git,.png,.exe"]);
    assert_eq!(u.output_file_path, Some("out.txt".to_string()));
    assert_eq!(u.exclude_paths, Some(vec![".git".to_string(), ".png".to_string(), ".exe".to_string()]));
    assert!(u.has_opt_flag(OptFlag::Dir));
}

#[test]
fn flag_argument_may_start_with_dash() {
    let u = parse(&["minigrep", "-s", "-x-", "-p", "f"]);
    assert_eq!(u.search_pattern, "-x-");
}

#[test]
fn missing_argument_is_refused() {
    match parse_user_input_cli(args(&["minigrep", "-p", "f", "-s"])) {
        Err(CliError::MissingArgument(c)) => assert_eq!(c, b's'),
        _ => panic!("expected a missing argument"),
    }
}

#[test]
fn unknown_flag_is_refused() {
    match parse_user_input_cli(args(&["minigrep", "-x"])) {
        Err(CliError::UnknownFlag(c)) => assert_eq!(c, b'x'),
        _ => panic!("expected an unknown flag"),
    }
}

#[test]
fn unknown_flag_in_group_is_refused() {
    match parse_user_input_cli(args(&["minigrep", "-rxi"])) {
        Err(CliError::UnknownOptFlag(c)) => assert_eq!(c, b'x'),
        _ => panic!("expected an unknown flag in a group"),
    }
}

#[test]
fn stray_argument_is_refused() {
    match parse_user_input_cli(args(&["minigrep", "-s", "a", "zzz"])) {
        Err(CliError::UnknownInput(s)) => assert_eq!(s, "zzz"),
        _ => panic!("expected unknown input"),
    }
}

#[test]
fn group_parsing() {
    match parse_mult_opt_flags(b"hd") {
        Ok(v) => assert_eq!(v, vec![OptFlag::Help, OptFlag::Dir]),
        Err(_) => panic!("group refused"),
    }
    match parse_mult_opt_flags(b"h-") {
        Err(CliError::UnknownOptFlag(c)) => assert_eq!(c, b'-'),
        _ => panic!("expected an unknown flag"),
    }
}

#[test]
fn flag_letters() {
    for c in [b'h', b'd', b'r', b'n', b'q', b'i'] {
        assert!(is_opt_flag(c));
        assert!(!is_non_opt_flag(c));
    }
    for c in [b's', b'f', b'p', b'e'] {
        assert!(is_non_opt_flag(c));
        assert!(!is_opt_flag(c));
    }
    assert!(!is_opt_flag(b'x') && !is_non_opt_flag(b'x'));
    assert_eq!(match_opt_flag(b'h'), OptFlag::Help);
    assert_eq!(match_opt_flag(b'r'), OptFlag::Recursive);
    assert_eq!(match_opt_flag(b'i'), OptFlag::IgnoreCase);
}

#[test]
fn flag_arguments_are_stored() {
    let mut u = UserInput::new_empty();
    match_non_opt_flag(b's', "pat".to_string(), &mut u);
    match_non_opt_flag(b'p', "path".to_string(), &mut u);
    match_non_opt_flag(b'f', "out".to_string(), &mut u);
    match_non_opt_flag(b'e', ",,".to_string(), &mut u);
    assert_eq!(u.search_pattern, "pat");
    assert_eq!(u.search_path, "path");
    assert_eq!(u.output_file_path, Some("out".to_string()));
    assert_eq!(u.exclude_paths, None);
}

#[test]
fn splitting_drops_empty_pieces() {
    assert_eq!(split_str_into_vec(&"a,,bc,".to_string(), ','), vec!["a", "bc"]);
    assert_eq!(split_str_into_vec(&".git,.png".to_string(), ','), vec![".git", ".png"]);
    assert_eq!(split_str_into_vec(&"x".to_string(), ','), vec!["x"]);
    assert!(split_str_into_vec(&"".to_string(), ',').is_empty());
}

#[test]
fn exclusion_list_is_none_when_empty() {
    assert_eq!(parse_exclude_paths(&",".to_string(), ','), None);
    assert_eq!(parse_exclude_paths(&"a;b".to_string(), ';'), Some(vec!["a".to_string(), "b".to_string()]));
}
