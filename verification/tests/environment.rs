use asterisk::environment::EnvironmentResolver;
use asterisk::error::{AsteriskError, ReferenceFault};

fn env(pairs: &[(&str, &str)]) -> Vec<(String, String)> {
    pairs.iter().map(|(k, v)| (k.to_string(), v.to_string())).collect()
}

#[test]
fn test_no_variables() {
    let mut resolver = EnvironmentResolver::new();
    assert_eq!(resolver.resolve("plain_string").unwrap(), "plain_string");
}

#[test]
fn test_simple_variable() {
    let mut resolver = EnvironmentResolver::with_environment(env(&[("TEST_VAR", "test_value")]));
    assert_eq!(resolver.resolve("$TEST_VAR").unwrap(), "test_value");
}

#[test]
fn test_braced_variable() {
    let mut resolver = EnvironmentResolver::with_environment(env(&[("TEST_VAR", "test_value")]));
    assert_eq!(resolver.resolve("${TEST_VAR}").unwrap(), "test_value");
}

#[test]
fn test_variable_in_string() {
    let mut resolver = EnvironmentResolver::with_environment(env(&[("API_HOST", "localhost")]));
    assert_eq!(
        resolver.resolve("http://${API_HOST}:3000").unwrap(),
        "http://localhost:3000"
    );
}

#[test]
fn test_missing_variable() {
    let mut resolver = EnvironmentResolver::new();
    assert!(resolver.resolve("$NONEXISTENT_VAR").is_err());
}

#[test]
fn test_invalid_variable_name() {
    let mut resolver = EnvironmentResolver::new();
    assert!(resolver.resolve("$INVALID-NAME").is_err());
}

#[test]
fn test_empty_variable_name() {
    let mut resolver = EnvironmentResolver::new();
    assert!(resolver.resolve("$").is_err());
}

#[test]
fn test_unterminated_brace() {
    let mut resolver = EnvironmentResolver::new();
    assert!(resolver.resolve("${UNCLOSED").is_err());
}

#[test]
fn text_without_dollar_is_unchanged() {
    let mut resolver = EnvironmentResolver::with_environment(env(&[("A", "1")]));
    for text in ["", " ", "{A}", "http://host:3000/path?q=1", "héllo wörld", "a}b{c"] {
        assert_eq!(resolver.resolve(text).unwrap(), text);
    }
}

#[test]
fn bare_and_braced_agree_when_set() {
    let mut bare = EnvironmentResolver::with_environment(env(&[("X", "value of x")]));
    let mut braced = EnvironmentResolver::with_environment(env(&[("X", "value of x")]));
    assert_eq!(bare.resolve("$X").unwrap(), "value of x");
    assert_eq!(braced.resolve("${X}").unwrap(), "value of x");
}

#[test]
fn bare_and_braced_agree_when_unset() {
    let mut bare = EnvironmentResolver::new();
    let mut braced = EnvironmentResolver::new();
    assert!(matches!(
        bare.resolve("$X"),
        Err(AsteriskError::UnresolvedVariable(name)) if name == "X"
    ));
    assert!(matches!(
        braced.resolve("${X}"),
        Err(AsteriskError::UnresolvedVariable(name)) if name == "X"
    ));
}

#[test]
fn missing_variable_names_the_variable() {
    let mut resolver = EnvironmentResolver::new();
    assert!(matches!(
        resolver.resolve("$NONEXISTENT_VAR"),
        Err(AsteriskError::UnresolvedVariable(name)) if name == "NONEXISTENT_VAR"
    ));
    assert!(matches!(
        resolver.resolve("$INVALID-NAME"),
        Err(AsteriskError::UnresolvedVariable(name)) if name == "INVALID"
    ));
}

#[test]
fn malformed_references_are_told_apart() {
    let mut resolver = EnvironmentResolver::with_environment(env(&[("A", "1")]));
    assert!(matches!(
        resolver.resolve("$"),
        Err(AsteriskError::MalformedReference(ReferenceFault::EmptyName))
    ));
    assert!(matches!(
        resolver.resolve("a $ b"),
        Err(AsteriskError::MalformedReference(ReferenceFault::EmptyName))
    ));
    assert!(matches!(
        resolver.resolve("${}"),
        Err(AsteriskError::MalformedReference(ReferenceFault::EmptyName))
    ));
    assert!(matches!(
        resolver.resolve("${UNCLOSED"),
        Err(AsteriskError::MalformedReference(ReferenceFault::Unterminated))
    ));
    assert!(matches!(
        resolver.resolve("${"),
        Err(AsteriskError::MalformedReference(ReferenceFault::Unterminated))
    ));
    assert!(matches!(
        resolver.resolve("${A-B}"),
        Err(AsteriskError::MalformedReference(ReferenceFault::InvalidCharacter('-')))
    ));
    assert!(matches!(
        resolver.resolve("${A B"),
        Err(AsteriskError::MalformedReference(ReferenceFault::InvalidCharacter(' ')))
    ));
}

#[test]
fn first_failure_wins() {
    let mut resolver = EnvironmentResolver::with_environment(env(&[("A", "1")]));
    assert!(matches!(
        resolver.resolve("$A $MISSING ${"),
        Err(AsteriskError::UnresolvedVariable(name)) if name == "MISSING"
    ));
    assert!(matches!(
        resolver.resolve("$A ${ $MISSING"),
        Err(AsteriskError::MalformedReference(ReferenceFault::InvalidCharacter(' ')))
    ));
}

#[test]
fn every_occurrence_of_a_token_is_replaced() {
    let mut resolver =
        EnvironmentResolver::with_environment(env(&[("A", "1"), ("B_2", "two")]));
    assert_eq!(resolver.resolve("x$A-y").unwrap(), "x1-y");
    assert_eq!(resolver.resolve("$A/$A/${A}").unwrap(), "1/1/1");
    assert_eq!(resolver.resolve("${B_2}$A").unwrap(), "two1");
    assert_eq!(resolver.resolve("é$A").unwrap(), "é1");
}

#[test]
fn names_may_hold_letters_beyond_ascii() {
    let mut resolver = EnvironmentResolver::with_environment(env(&[("é", "e"), ("A", "1")]));
    assert_eq!(resolver.resolve("$é!").unwrap(), "e!");
    assert_eq!(resolver.resolve("$A→").unwrap(), "1→");
    assert!(matches!(
        resolver.resolve("$→"),
        Err(AsteriskError::MalformedReference(ReferenceFault::EmptyName))
    ));
}

#[test]
fn cached_value_outlives_the_environment() {
    let mut resolver = EnvironmentResolver::with_environment(env(&[("X", "first")]));
    assert_eq!(resolver.resolve("$X").unwrap(), "first");
    resolver.set_environment(env(&[("X", "second")]));
    assert_eq!(resolver.resolve("$X").unwrap(), "first");
    assert_eq!(resolver.resolve("${X}/$X").unwrap(), "first/first");
    resolver.set_environment(Vec::new());
    assert_eq!(resolver.resolve("$X").unwrap(), "first");
    resolver.clear_cache();
    assert!(resolver.resolve("$X").is_err());
}

#[test]
fn clear_cache_reads_the_environment_again() {
    let mut resolver = EnvironmentResolver::with_environment(env(&[("X", "first")]));
    assert_eq!(resolver.get_env_var("X").unwrap(), "first");
    resolver.set_environment(env(&[("X", "second")]));
    assert_eq!(resolver.get_env_var("X").unwrap(), "first");
    resolver.clear_cache();
    assert_eq!(resolver.get_env_var("X").unwrap(), "second");
}

#[test]
fn later_binding_of_the_environment_counts() {
    let mut resolver = EnvironmentResolver::with_environment(env(&[("X", "1"), ("X", "2")]));
    assert_eq!(resolver.resolve("$X").unwrap(), "2");
}
