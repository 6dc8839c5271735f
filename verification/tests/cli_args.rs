use p2p::cli::args::{ArgsError, Arguments};

fn args(v: &[&str]) -> Vec<String> {
    v.iter().map(|s| s.to_string()).collect()
}

#[test]
fn test_argument_parsing_with_config() {
    let args = Arguments::parse_from(args(&["test", "--config", "config.yaml"]));
    assert_eq!(args.config.as_deref(), Some("config.yaml"));
    assert!(args.cache.is_none());
}

#[test]
fn test_argument_parsing_with_cache() {
    let args = Arguments::parse_from(args(&["test", "--cache", "cache.json"]));
    assert_eq!(args.cache.as_deref(), Some("cache.json"));
    assert!(args.config.is_none());
}

#[test]
fn test_argument_parsing_with_verbose() {
    let args = Arguments::parse_from(args(&["test", "--config", "config.yaml", "--verbose"]));
    assert_eq!(args.config.as_deref(), Some("config.yaml"));
    assert!(args.verbose);
}

#[test]
fn test_argument_parsing_missing_input() {
    let result = Arguments::try_parse_from(args(&["test"]));
    assert!(result.is_err());
}

#[test]
fn test_argument_parsing_unknown_argument() {
    let result = Arguments::try_parse_from(args(&["test", "--config", "config.yaml", "--unknown"]));
    assert!(result.is_err());
}

#[test]
fn cli_short_options_and_attached_values() {
    let a = Arguments::try_parse_from(args(&["prog", "-vs", "-cconf.yaml", "-p", "8081", "-a"])).unwrap();
    assert_eq!(a.config.as_deref(), Some("conf.yaml"));
    assert!(a.verbose);
    assert!(a.skip_join);
    assert!(a.automatic_storage);
    assert_eq!(a.port, Some(8081));
    let b = Arguments::try_parse_from(args(&["prog", "--cache=c.json", "--port=+7"])).unwrap();
    assert_eq!(b.cache.as_deref(), Some("c.json"));
    assert_eq!(b.port, Some(7));
    let c = Arguments::try_parse_from(args(&["prog", "-c=x.yaml"])).unwrap();
    assert_eq!(c.config.as_deref(), Some("x.yaml"));
}

#[test]
fn cli_errors_each_kind() {
    assert_eq!(Arguments::try_parse_from(args(&["p", "--config", "a", "--cache", "b"])), Err(ArgsError::ArgumentConflict));
    assert_eq!(Arguments::try_parse_from(args(&["p"])), Err(ArgsError::MissingRequiredArgument));
    assert_eq!(Arguments::try_parse_from(args(&["p", "--config"])), Err(ArgsError::MissingValue));
    assert_eq!(Arguments::try_parse_from(args(&["p", "--config", "--verbose"])), Err(ArgsError::MissingValue));
    assert_eq!(Arguments::try_parse_from(args(&["p", "--config", "a", "--port", "70000"])), Err(ArgsError::InvalidValue));
    assert_eq!(Arguments::try_parse_from(args(&["p", "--config", "a", "--port", "x1"])), Err(ArgsError::InvalidValue));
    assert_eq!(Arguments::try_parse_from(args(&["p", "--config", "a", "--verbose=yes"])), Err(ArgsError::UnexpectedValue));
    assert_eq!(Arguments::try_parse_from(args(&["p", "--config", "a", "-v", "-v"])), Err(ArgsError::ArgumentUsedTwice));
    assert_eq!(Arguments::try_parse_from(args(&["p", "--config", "a", "extra"])), Err(ArgsError::UnexpectedArgument));
    assert_eq!(Arguments::try_parse_from(args(&["p", "--config", "a", "--", "x"])), Err(ArgsError::UnexpectedArgument));
    assert_eq!(Arguments::try_parse_from(args(&["p", "-x"])), Err(ArgsError::UnknownArgument));
    assert_eq!(Arguments::try_parse_from(args(&["p", "--help"])), Err(ArgsError::DisplayHelp));
    assert_eq!(Arguments::try_parse_from(args(&["p", "-V"])), Err(ArgsError::DisplayVersion));
}

#[test]
fn cli_port_bounds() {
    let a = Arguments::try_parse_from(args(&["p", "--config", "a", "--port", "65535"])).unwrap();
    assert_eq!(a.port, Some(65535));
    let b = Arguments::try_parse_from(args(&["p", "--config", "a", "-p0"])).unwrap();
    assert_eq!(b.port, Some(0));
    let c = Arguments::try_parse_from(args(&["p", "--config", "-"])).unwrap();
    assert_eq!(c.config.as_deref(), Some("-"));
}
