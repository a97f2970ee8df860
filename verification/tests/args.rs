use repolyzer::args::{
    find_path, parse_args, parse_flags, remote_location, AppArgs, ArgsError, Flags, GitLocation,
};

fn line(args: &[&str]) -> Vec<String> {
    args.iter().map(|arg| arg.to_string()).collect()
}

fn accepted(args: &[&str]) -> AppArgs {
    match parse_args(&line(args)) {
        Ok(app) => app,
        Err(error) => panic!("not accepted: {:?}", error),
    }
}

#[test]
fn no_argument_after_the_program_name() {
    assert!(matches!(parse_args(&line(&[])), Err(ArgsError::MissingArguments)));
    assert!(matches!(parse_args(&line(&["repolyzer"])), Err(ArgsError::MissingArguments)));
    // the count is looked at before anything else
    assert!(matches!(parse_args(&line(&["--bogus"])), Err(ArgsError::MissingArguments)));
}

#[test]
fn a_plain_path_is_local_with_the_general_overview() {
    let app = accepted(&["repolyzer", "some/dir"]);
    assert!(matches!(&app.location, GitLocation::Local(path) if path == "some/dir"));
    assert_eq!(app.flags, Flags::new());
    assert_eq!(
        app.flags,
        Flags {
            general_overview: true,
            extended_overview: false,
            pie_chart: false,
            commit_graph: false,
            weekday_stats: false,
        }
    );
}

#[test]
fn short_and_long_options_set_the_same_flags() {
    let short = accepted(&["repolyzer", "-c", "-e", "-n", "-p", "-w", "."]);
    let long = accepted(&[
        "repolyzer", "--commit-graph", "--extended-overview", "--no-overview", "--pie-chart",
        "--week-day-stats", ".",
    ]);
    let all = Flags {
        general_overview: false,
        extended_overview: true,
        pie_chart: true,
        commit_graph: true,
        weekday_stats: true,
    };
    assert_eq!(short.flags, all);
    assert_eq!(long.flags, all);
}

#[test]
fn each_option_sets_one_flag() {
    let none = Flags::new();
    assert_eq!(accepted(&["r", "-c", "."]).flags, Flags { commit_graph: true, ..none });
    assert_eq!(accepted(&["r", "-e", "."]).flags, Flags { extended_overview: true, ..none });
    assert_eq!(accepted(&["r", "-n", "."]).flags, Flags { general_overview: false, ..none });
    assert_eq!(accepted(&["r", "-p", "."]).flags, Flags { pie_chart: true, ..none });
    assert_eq!(accepted(&["r", "-w", "."]).flags, Flags { weekday_stats: true, ..none });
    assert_eq!(accepted(&["r", "-w", "-w", "."]).flags, Flags { weekday_stats: true, ..none });
}

#[test]
fn options_may_follow_the_path() {
    let app = accepted(&["repolyzer", "repo", "-p", "other", "-w"]);
    assert!(matches!(&app.location, GitLocation::Local(path) if path == "repo"));
    assert!(app.flags.pie_chart);
    assert!(app.flags.weekday_stats);
    assert!(!app.flags.commit_graph);
}

#[test]
fn an_unknown_option_is_reported() {
    let parsed = parse_args(&line(&["repolyzer", "-c", "--bogus", "-x", "repo"]));
    assert!(matches!(parsed, Err(ArgsError::UnknownArgument(arg)) if arg == "--bogus"));
    let parsed = parse_args(&line(&["repolyzer", "repo", "-"]));
    assert!(matches!(parsed, Err(ArgsError::UnknownArgument(arg)) if arg == "-"));
    let parsed = parse_args(&line(&["repolyzer", "-C", "repo"]));
    assert!(matches!(parsed, Err(ArgsError::UnknownArgument(arg)) if arg == "-C"));
    let parsed = parse_args(&line(&["repolyzer", "-cc", "repo"]));
    assert!(matches!(parsed, Err(ArgsError::UnknownArgument(arg)) if arg == "-cc"));
}

#[test]
fn the_program_name_is_checked_like_an_option() {
    let parsed = parse_args(&line(&["-repolyzer", "repo"]));
    assert!(matches!(parsed, Err(ArgsError::UnknownArgument(arg)) if arg == "-repolyzer"));
    let app = accepted(&["-c", "repo"]);
    assert!(app.flags.commit_graph);
}

#[test]
fn an_unknown_option_comes_before_a_missing_path() {
    let parsed = parse_args(&line(&["repolyzer", "-c", "-z"]));
    assert!(matches!(parsed, Err(ArgsError::UnknownArgument(arg)) if arg == "-z"));
}

#[test]
fn options_alone_name_no_path() {
    assert!(matches!(parse_args(&line(&["repolyzer", "-c"])), Err(ArgsError::NoPath)));
    assert!(matches!(parse_args(&line(&["repolyzer", "-c", "-w", "-p"])), Err(ArgsError::NoPath)));
}

#[test]
fn an_empty_argument_is_a_path() {
    let app = accepted(&["repolyzer", ""]);
    assert!(matches!(&app.location, GitLocation::Local(path) if path == ""));
}

#[test]
fn the_ssh_form_is_not_supported() {
    let parsed = parse_args(&line(&["repolyzer", "git@github.com:owner/repo.git"]));
    assert!(matches!(parsed, Err(ArgsError::SshNotSupported)));
    let app = accepted(&["repolyzer", "git"]);
    assert!(matches!(&app.location, GitLocation::Local(path) if path == "git"));
}

#[test]
fn a_url_is_remote_and_written_as_parsed() {
    let app = accepted(&["repolyzer", "https://example.net"]);
    assert!(matches!(&app.location, GitLocation::Remote(url) if url == "https://example.net/"));
    let app = accepted(&["repolyzer", "-w", "https://EXAMPLE.net/owner/a repo.git"]);
    assert!(matches!(
        &app.location,
        GitLocation::Remote(url) if url == "https://example.net/owner/a%20repo.git"
    ));
    assert!(app.flags.weekday_stats);
    let app = accepted(&["repolyzer", "http://example.net:80/x/../y"]);
    assert!(matches!(&app.location, GitLocation::Remote(url) if url == "http://example.net/y"));
}

#[test]
fn a_url_that_does_not_parse_is_an_error() {
    assert!(matches!(parse_args(&line(&["repolyzer", "http://"])), Err(ArgsError::InvalidUrl)));
    assert!(matches!(parse_args(&line(&["repolyzer", "httpfoo"])), Err(ArgsError::InvalidUrl)));
    assert!(matches!(parse_args(&line(&["repolyzer", "http"])), Err(ArgsError::InvalidUrl)));
}

#[test]
fn only_a_lower_case_http_prefix_makes_a_url() {
    let app = accepted(&["repolyzer", "HTTP://example.net"]);
    assert!(matches!(&app.location, GitLocation::Local(path) if path == "HTTP://example.net"));
    let app = accepted(&["repolyzer", "htt"]);
    assert!(matches!(&app.location, GitLocation::Local(path) if path == "htt"));
    let app = accepted(&["repolyzer", "ftp://example.net"]);
    assert!(matches!(&app.location, GitLocation::Local(path) if path == "ftp://example.net"));
}

#[test]
fn parse_flags_reads_all_arguments() {
    assert_eq!(parse_flags(&line(&[])).ok(), Some(Flags::new()));
    let flags = parse_flags(&line(&["r", "-p", "path", "--commit-graph"])).ok();
    assert_eq!(flags, Some(Flags { pie_chart: true, commit_graph: true, ..Flags::new() }));
    assert_eq!(parse_flags(&line(&["r", "-p", "-q", "-r"])).err(), Some("-q".to_string()));
}

#[test]
fn apply_knows_the_ten_options() {
    let none = Flags::new();
    assert_eq!(none.apply("-c"), Some(Flags { commit_graph: true, ..none }));
    assert_eq!(none.apply("--week-day-stats"), Some(Flags { weekday_stats: true, ..none }));
    assert_eq!(none.apply("--no-overview"), Some(Flags { general_overview: false, ..none }));
    assert_eq!(none.apply("--weekday-stats"), None);
    assert_eq!(none.apply("c"), None);
    assert_eq!(none.apply(""), None);
    assert_eq!(none.apply("-é"), None);
}

#[test]
fn find_path_skips_the_program_name_and_options() {
    assert_eq!(find_path(&line(&[])), None);
    assert_eq!(find_path(&line(&["r"])), None);
    assert_eq!(find_path(&line(&["r", "-a", "-b"])), None);
    assert_eq!(find_path(&line(&["r", "p"])), Some(1));
    assert_eq!(find_path(&line(&["r", "-a", "-b", "p", "q"])), Some(3));
}

#[test]
fn flags_choose_the_aggregates() {
    let options = Flags::new().analysis_options();
    assert!(!options.churn && !options.calendar && !options.weekdays);
    let flags = Flags { extended_overview: true, weekday_stats: true, ..Flags::new() };
    let options = flags.analysis_options();
    assert!(options.churn && !options.calendar && options.weekdays);
    let flags = Flags { commit_graph: true, pie_chart: true, ..Flags::new() };
    let options = flags.analysis_options();
    assert!(!options.churn && options.calendar && !options.weekdays);
}

#[test]
fn remote_location_maps_the_parsers_answer() {
    let parsed = remote_location(Ok("https://example.net/".to_string()));
    assert!(matches!(parsed, Ok(GitLocation::Remote(url)) if url == "https://example.net/"));
    let failed = remote_location(Err(url::ParseError::EmptyHost));
    assert!(matches!(failed, Err(ArgsError::InvalidUrl)));
}
