use nal::config::{Config, ConfigError};
use nal::grammar::{Copula, OptionalTerm, ParseError, Query, Statement, Term};
use nal::text::{parse_usize, split_tokens};

fn words(v: &[&str]) -> Vec<String> {
    v.iter().map(|w| w.to_string()).collect()
}

#[test]
fn config_test_new() {
    assert_eq!(Config::new(&vec!["".to_string(), "help".to_string()]).unwrap(), Config::Help());
    assert_eq!(Config::new(&vec!["".to_string(), "-h".to_string()]).unwrap(), Config::Help());
    assert_eq!(Config::new(&vec!["".to_string(), "--help".to_string()]).unwrap(), Config::Help());
    assert_eq!(Config::new(&vec!["".to_string(), "repl".to_string()]).unwrap(), Config::Repl());
    assert_eq!(Config::new(&vec!["".to_string()]).is_err(), true);
}

#[test]
fn config_errors() {
    assert_eq!(Config::new(&vec![]), Err(ConfigError::NotEnoughArguments));
    assert_eq!(Config::new(&words(&["", "run"])), Err(ConfigError::InvalidArgument));
    assert_eq!(ConfigError::InvalidArgument.message(), "Invalid argument");
    assert_eq!(ConfigError::NotEnoughArguments.message(), "Not enough arguments");
}

#[test]
fn term_test_new() {
    assert_eq!(Term::new("").is_err(), true);
    assert_eq!(Term::new("is not a term").is_err(), true);
    assert_eq!(Term::new("?").is_err(), true);
    assert_eq!(Term::new("bird").unwrap().word, "bird".to_string());
    assert_eq!(Term::new("water").unwrap().to_string(), "water".to_string());
}

#[test]
fn term_test_to_string() {
    assert_eq!(Term::new("bird").unwrap().to_string(), "bird".to_string());
    assert_eq!(Term::new("water").unwrap().to_string(), "water".to_string());
}

#[test]
fn term_errors_and_whitespace() {
    assert_eq!(Term::new(""), Err(ParseError::EmptyTerm));
    assert_eq!(Term::new("a b"), Err(ParseError::SpacedTerm));
    assert_eq!(Term::new("a\tb"), Err(ParseError::SpacedTerm));
    assert_eq!(Term::new("a\u{3000}b"), Err(ParseError::SpacedTerm));
    assert_eq!(Term::new("?"), Err(ParseError::WildcardTerm));
    assert_eq!(Term::new("??").unwrap().to_string(), "??");
    assert_eq!(Term::new("(a|b)").unwrap().to_string(), "(a|b)");
    assert_eq!(Term::new("vogel").unwrap().to_string(), "vogel");
    assert_eq!(ParseError::EmptyTerm.message(), "Term can't be empty");
    assert_eq!(ParseError::SpacedTerm.message(), "Term can't contain whitespaces");
    assert_eq!(ParseError::WildcardTerm.message(), "Term can't be a question mark (?)");
}

#[test]
fn copula_test_new() {
    assert_eq!(Copula::new("is").unwrap(), Copula::Inheritance);
    assert_eq!(Copula::new("->").unwrap(), Copula::Inheritance);
    assert_eq!(Copula::new("similar").unwrap(), Copula::Similarity);
    assert_eq!(Copula::new("<->").unwrap(), Copula::Similarity);
    assert_eq!(Copula::new("is not").is_err(), true);
    assert_eq!(Copula::new("is not a").is_err(), true);
    assert_eq!(Copula::new("is not a copula").is_err(), true);
}

#[test]
fn copula_test_to_string() {
    assert_eq!(Copula::Inheritance.to_string(), "->".to_string());
    assert_eq!(Copula::Similarity.to_string(), "<->".to_string());
}

#[test]
fn statement_test_new() {
    let ab = Statement {
        left: Term::new("a").unwrap(),
        copula: Copula::Inheritance,
        right: Term::new("b").unwrap(),
    };
    assert_eq!(Statement::new("a is b").unwrap(), ab);
    assert_eq!(Statement::new("a -> b").unwrap(), ab);
    assert_eq!(Statement::new("a is b c").is_err(), true);
    assert_eq!(Statement::new("a is not b").is_err(), true);
    assert_eq!(Statement::new("a is").is_err(), true);
    assert_eq!(Statement::new("").is_err(), true);

    assert_eq!(Statement::from_vec(&words(&["a", "is", "b"])).unwrap(), ab);
    assert_eq!(Statement::from_vec(&words(&["a", "->", "b"])).unwrap(), ab);
    assert_eq!(Statement::from_vec(&words(&["a", "is", "b", "c"])).is_err(), true);
    assert_eq!(Statement::from_vec(&words(&["a", "is not", "b"])).is_err(), true);
    assert_eq!(Statement::from_vec(&words(&["a", "is"])).is_err(), true);
    assert_eq!(Statement::from_vec(&vec![]).is_err(), true);
}

#[test]
fn statement_test_to_string() {
    assert_eq!(
        Statement {
            left: Term::new("a").unwrap(),
            copula: Copula::Inheritance,
            right: Term::new("b").unwrap(),
        }
        .to_string(),
        "a -> b".to_string()
    );
}

#[test]
fn statement_errors_and_spacing() {
    assert_eq!(Statement::new("a is b c"), Err(ParseError::StatementArity));
    assert_eq!(Statement::new("a was b"), Err(ParseError::InvalidCopula));
    assert_eq!(Statement::new("? is b"), Err(ParseError::WildcardTerm));
    assert_eq!(Statement::new("a is ?"), Err(ParseError::WildcardTerm));
    assert_eq!(Statement::new("  d   <->\te  ").unwrap().to_string(), "d <-> e");
    assert_eq!(Statement::new("d similar e").unwrap().copula, Copula::Similarity);
    assert_eq!(ParseError::InvalidCopula.message(), "Invalid copula");
}

#[test]
fn query_test_new() {
    assert_eq!(
        Query::new("? is b").unwrap(),
        Query {
            left: OptionalTerm::Question,
            copula: Copula::Inheritance,
            right: OptionalTerm::Term(Term::new("b").unwrap()),
        }
    );
    assert_eq!(
        Query::new("a -> ?").unwrap(),
        Query {
            left: OptionalTerm::Term(Term::new("a").unwrap()),
            copula: Copula::Inheritance,
            right: OptionalTerm::Question,
        }
    );
    assert_eq!(
        Query::new("a -> b").unwrap(),
        Query {
            left: OptionalTerm::Term(Term::new("a").unwrap()),
            copula: Copula::Inheritance,
            right: OptionalTerm::Term(Term::new("b").unwrap()),
        }
    );
    assert_eq!(Query::new("? is ?").is_err(), true);
    assert_eq!(Query::new("a is").is_err(), true);
    assert_eq!(Query::new("").is_err(), true);

    assert_eq!(
        Query::from_vec(&words(&["?", "is", "b"])).unwrap(),
        Query {
            left: OptionalTerm::Question,
            copula: Copula::Inheritance,
            right: OptionalTerm::Term(Term::new("b").unwrap()),
        }
    );
    assert_eq!(Query::from_vec(&words(&["?", "is", "?"])).is_err(), true);
    assert_eq!(Query::from_vec(&words(&["a", "is"])).is_err(), true);
    assert_eq!(Query::from_vec(&vec![]).is_err(), true);
}

#[test]
fn query_test_to_string() {
    assert_eq!(
        Query {
            left: OptionalTerm::Question,
            copula: Copula::Inheritance,
            right: OptionalTerm::Term(Term::new("b").unwrap()),
        }
        .to_string(),
        "? -> b"
    );
    assert_eq!(
        Query {
            left: OptionalTerm::Term(Term::new("a").unwrap()),
            copula: Copula::Inheritance,
            right: OptionalTerm::Question,
        }
        .to_string(),
        "a -> ?"
    );
    assert_eq!(
        Query {
            left: OptionalTerm::Term(Term::new("a").unwrap()),
            copula: Copula::Inheritance,
            right: OptionalTerm::Term(Term::new("b").unwrap()),
        }
        .to_string(),
        "a -> b"
    );
}

#[test]
fn query_errors() {
    assert_eq!(Query::new("? is ?"), Err(ParseError::WildcardTerm));
    assert_eq!(Query::new("a is"), Err(ParseError::QueryArity));
    assert_eq!(Query::new("? was b"), Err(ParseError::InvalidCopula));
    assert_eq!(Query::new("d <-> ?").unwrap().to_string(), "d <-> ?");
}

#[test]
fn tokens_and_ids() {
    assert_eq!(split_tokens("  a  is\tb \n"), words(&["a", "is", "b"]));
    assert_eq!(split_tokens(""), Vec::<String>::new());
    assert_eq!(split_tokens("   "), Vec::<String>::new());
    assert_eq!(parse_usize("42"), Some(42));
    assert_eq!(parse_usize("+7"), Some(7));
    assert_eq!(parse_usize("0"), Some(0));
    assert_eq!(parse_usize(""), None);
    assert_eq!(parse_usize("+"), None);
    assert_eq!(parse_usize("j"), None);
    assert_eq!(parse_usize("-1"), None);
    assert_eq!(parse_usize("18446744073709551615"), Some(usize::MAX));
    assert_eq!(parse_usize("18446744073709551616"), None);
}
