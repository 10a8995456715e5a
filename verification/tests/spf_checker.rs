use std::collections::HashMap;
use std::sync::{Arc, Mutex};

use spf_check::error::{LookupFailed, ResolverError};
use spf_check::spf_checker::{CheckResult, SpfChecker, SpnResolver};

#[derive(Debug, Clone)]
struct MockResolver {
    records: Arc<Mutex<HashMap<String, String>>>,
    failing: Arc<Mutex<Vec<String>>>,
    queries: Arc<Mutex<Vec<String>>>,
}

impl MockResolver {
    fn new() -> Self {
        Self {
            records: Arc::new(Mutex::new(HashMap::new())),
            failing: Arc::new(Mutex::new(Vec::new())),
            queries: Arc::new(Mutex::new(Vec::new())),
        }
    }

    fn add_record(&self, domain: &str, spf_record: &str) {
        let mut records = self.records.lock().unwrap();
        records.insert(domain.to_string(), spf_record.to_owned());
    }

    fn fail_on(&self, domain: &str) {
        self.failing.lock().unwrap().push(domain.to_string());
    }

    fn queries(&self) -> Vec<String> {
        self.queries.lock().unwrap().clone()
    }
}

impl SpnResolver for MockResolver {
    fn find_spf_record(&self, domain: &str) -> Result<Option<String>, LookupFailed> {
        self.queries.lock().unwrap().push(domain.to_string());
        if self.failing.lock().unwrap().iter().any(|d| d == domain) {
            return Err(LookupFailed);
        }
        let records = self.records.lock().expect("mutex poisoned");
        Ok(records.get(domain).cloned())
    }
}

#[test]
fn test_target_in_first_record() {
    let root_domain = "example.com".to_string();
    let target_domain = "mail.easybill.de".to_string();

    let mock_resolver = MockResolver::new();
    mock_resolver.add_record(&root_domain, "v=spf1 include:mail.easybill.de ~all");

    let checker = SpfChecker::new(mock_resolver.clone());
    let result = checker.check(&root_domain, &target_domain).unwrap();

    assert!(result.found);
    assert_eq!(result.visited, 1);
    assert_eq!(
        result.spf_record,
        Some("v=spf1 include:mail.easybill.de ~all".to_string()),
    );
    assert_eq!(result.included_domains, Some(vec![target_domain]));
}

#[test]
fn test_target_not_in_first_record() {
    let root_domain = "_spf.example.com".to_string();
    let target_domain = "mail.other.com".to_string();

    let mock_resolver = MockResolver::new();
    mock_resolver.add_record(&root_domain, "v=spf1 include:mail.easybill.de ~all");

    let checker = SpfChecker::new(mock_resolver.clone());
    let result = checker.check(&root_domain, &target_domain).unwrap();

    assert!(!result.found);
    assert_eq!(result.visited, 2);
    assert_eq!(
        result.spf_record,
        Some("v=spf1 include:mail.easybill.de ~all".to_string()),
    );
    assert_eq!(
        result.included_domains,
        Some(vec!["mail.easybill.de".to_string()])
    );
}

#[test]
fn test_target_in_redirected_record() {
    let root_domain = "example.com".to_string();
    let redirect_domain = "spf.easybill-mail.de".to_string();
    let target_domain = "mail.easybill.de".to_string();

    let mock_resolver = MockResolver::new();
    mock_resolver.add_record(&root_domain, "v=spf1 redirect=spf.easybill-mail.de");
    mock_resolver.add_record(&redirect_domain, "v=spf1 include:mail.easybill.de ~all");

    let checker = SpfChecker::new(mock_resolver.clone());
    let result = checker.check(&root_domain, &target_domain).unwrap();

    assert!(result.found);
    assert_eq!(result.visited, 2);
    assert_eq!(
        result.spf_record,
        Some("v=spf1 redirect=spf.easybill-mail.de".to_string()),
    );
    assert_eq!(result.included_domains, Some(vec![target_domain]));
}

#[test]
fn test_target_not_in_redirected_record() {
    let root_domain = "example.com".to_string();
    let redirect_domain = "spf.easybill-mail.de".to_string();

    let mock_resolver = MockResolver::new();
    mock_resolver.add_record(&root_domain, "v=spf1 redirect=spf.easybill-mail.de");
    mock_resolver.add_record(&redirect_domain, "v=spf1 include:mail.easybill.de ~all");

    let checker = SpfChecker::new(mock_resolver.clone());

    let target = "other.com".to_string();
    let result = checker.check(&root_domain, &target).unwrap();

    assert!(!result.found);
    assert_eq!(result.visited, 3);
    assert_eq!(
        result.spf_record,
        Some("v=spf1 redirect=spf.easybill-mail.de".to_string()),
    );
    assert_eq!(
        result.included_domains,
        Some(vec!["mail.easybill.de".to_string()])
    );
}

#[test]
fn redirect_followed_when_record_has_no_all() {
    let mock_resolver = MockResolver::new();
    mock_resolver.add_record("root.example", "v=spf1 redirect=spf.other.com");
    mock_resolver.add_record("spf.other.com", "v=spf1 include:mail.x.com ~all");

    let checker = SpfChecker::new(mock_resolver.clone());
    let result = checker
        .check(&"root.example".to_string(), &"mail.x.com".to_string())
        .unwrap();

    assert!(result.found);
    assert_eq!(result.visited, 2);
    assert_eq!(
        mock_resolver.queries(),
        vec!["root.example".to_string(), "spf.other.com".to_string()]
    );
}

#[test]
fn redirect_suppressed_by_all() {
    let mock_resolver = MockResolver::new();
    mock_resolver.add_record("root.example", "v=spf1 all redirect=spf.other.com");
    mock_resolver.add_record("spf.other.com", "v=spf1 include:mail.x.com ~all");

    let checker = SpfChecker::new(mock_resolver.clone());
    let result = checker
        .check(&"root.example".to_string(), &"mail.x.com".to_string())
        .unwrap();

    assert!(!result.found);
    assert_eq!(result.visited, 1);
    assert_eq!(
        result.spf_record,
        Some("v=spf1 all redirect=spf.other.com".to_string())
    );
    assert_eq!(result.included_domains, Some(vec![]));
    assert_eq!(mock_resolver.queries(), vec!["root.example".to_string()]);
}

#[test]
fn redirect_suppressed_by_all_after_it() {
    let mock_resolver = MockResolver::new();
    mock_resolver.add_record("root.example", "v=spf1 redirect=spf.other.com -all");
    mock_resolver.add_record("spf.other.com", "v=spf1 include:mail.x.com ~all");

    let checker = SpfChecker::new(mock_resolver.clone());
    let result = checker
        .check(&"root.example".to_string(), &"mail.x.com".to_string())
        .unwrap();

    assert!(!result.found);
    assert_eq!(result.visited, 1);
    assert_eq!(mock_resolver.queries(), vec!["root.example".to_string()]);
}

#[test]
fn cycle_of_two_domains_ends() {
    let mock_resolver = MockResolver::new();
    mock_resolver.add_record("a.example", "v=spf1 include:b.example ~all");
    mock_resolver.add_record("b.example", "v=spf1 include:a.example ~all");

    let checker = SpfChecker::new(mock_resolver.clone());
    let result = checker
        .check(&"a.example".to_string(), &"mail.x.com".to_string())
        .unwrap();

    assert!(!result.found);
    assert_eq!(result.visited, 2);
    assert_eq!(
        result.spf_record,
        Some("v=spf1 include:b.example ~all".to_string())
    );
    assert_eq!(
        result.included_domains,
        Some(vec!["b.example".to_string(), "a.example".to_string()])
    );
    assert_eq!(
        mock_resolver.queries(),
        vec!["a.example".to_string(), "b.example".to_string()]
    );
}

#[test]
fn domain_that_includes_itself_is_visited_once() {
    let mock_resolver = MockResolver::new();
    mock_resolver.add_record("a.example", "v=spf1 include:a.example ~all");

    let checker = SpfChecker::new(mock_resolver.clone());
    let result = checker
        .check(&"a.example".to_string(), &"mail.x.com".to_string())
        .unwrap();

    assert!(!result.found);
    assert_eq!(result.visited, 1);
    assert_eq!(result.included_domains, Some(vec!["a.example".to_string()]));
}

fn chain_of_fifteen() -> MockResolver {
    let mock_resolver = MockResolver::new();
    for i in 0..15 {
        mock_resolver.add_record(
            &format!("d{}.example", i),
            &format!("v=spf1 include:d{}.example ~all", i + 1),
        );
    }
    mock_resolver
}

#[test]
fn budget_stops_a_long_chain() {
    let mock_resolver = chain_of_fifteen();
    let checker = SpfChecker::new(mock_resolver.clone());
    let result = checker
        .check(&"d0.example".to_string(), &"d12.example".to_string())
        .unwrap();

    assert!(!result.found);
    assert!(result.visited <= 10);
    assert_eq!(result.visited, 10);
    assert_eq!(mock_resolver.queries().len(), 10);
    let expected: Vec<String> = (1..=10).map(|i| format!("d{}.example", i)).collect();
    assert_eq!(result.included_domains, Some(expected));
    assert_eq!(
        result.spf_record,
        Some("v=spf1 include:d1.example ~all".to_string())
    );
}

#[test]
fn target_at_the_tenth_lookup_is_found() {
    let mock_resolver = chain_of_fifteen();
    let checker = SpfChecker::new(mock_resolver.clone());
    let result = checker
        .check(&"d0.example".to_string(), &"d10.example".to_string())
        .unwrap();

    assert!(result.found);
    assert_eq!(result.visited, 10);
}

#[test]
fn target_behind_the_tenth_lookup_is_not_found() {
    let mock_resolver = chain_of_fifteen();
    let checker = SpfChecker::new(mock_resolver.clone());
    let result = checker
        .check(&"d0.example".to_string(), &"d11.example".to_string())
        .unwrap();

    assert!(!result.found);
    assert_eq!(result.visited, 10);
}

#[test]
fn same_request_twice_gives_the_same_result() {
    let mock_resolver = MockResolver::new();
    mock_resolver.add_record("root.example", "v=spf1 include:a.example include:b.example");
    mock_resolver.add_record("a.example", "v=spf1 include:b.example ~all");
    mock_resolver.add_record("b.example", "v=spf1 include:c.example ~all");

    let checker = SpfChecker::new(mock_resolver.clone());
    let root = "root.example".to_string();
    let target = "nowhere.example".to_string();
    let first: CheckResult = checker.check(&root, &target).unwrap();
    let second: CheckResult = checker.check(&root, &target).unwrap();

    assert_eq!(first, second);
    assert_eq!(first.visited, 4);
    let queries = mock_resolver.queries();
    assert_eq!(queries.len(), 8);
    assert_eq!(queries[..4], queries[4..]);
}

#[test]
fn includes_are_looked_up_before_a_redirect_last_include_first() {
    let mock_resolver = MockResolver::new();
    mock_resolver.add_record(
        "root.example",
        "v=spf1 include:a.example redirect=r.example include:b.example",
    );

    let checker = SpfChecker::new(mock_resolver.clone());
    let result = checker
        .check(&"root.example".to_string(), &"nowhere.example".to_string())
        .unwrap();

    assert!(!result.found);
    assert_eq!(result.visited, 4);
    assert_eq!(
        result.included_domains,
        Some(vec!["a.example".to_string(), "b.example".to_string()])
    );
    assert_eq!(
        mock_resolver.queries(),
        vec![
            "root.example".to_string(),
            "b.example".to_string(),
            "a.example".to_string(),
            "r.example".to_string(),
        ]
    );
}

#[test]
fn included_domains_may_hold_a_domain_twice() {
    let mock_resolver = MockResolver::new();
    mock_resolver.add_record("root.example", "v=spf1 include:a.example include:b.example");
    mock_resolver.add_record("a.example", "v=spf1 include:c.example ~all");
    mock_resolver.add_record("b.example", "v=spf1 include:c.example ~all");

    let checker = SpfChecker::new(mock_resolver.clone());
    let result = checker
        .check(&"root.example".to_string(), &"nowhere.example".to_string())
        .unwrap();

    assert_eq!(result.visited, 4);
    assert_eq!(
        result.included_domains,
        Some(vec![
            "a.example".to_string(),
            "b.example".to_string(),
            "c.example".to_string(),
            "c.example".to_string(),
        ])
    );
}

#[test]
fn found_stops_the_traversal_at_once() {
    let mock_resolver = MockResolver::new();
    mock_resolver.add_record("root.example", "v=spf1 include:a.example include:b.example");
    mock_resolver.add_record("b.example", "v=spf1 include:mail.x.com include:c.example");
    mock_resolver.add_record("a.example", "v=spf1 include:d.example");

    let checker = SpfChecker::new(mock_resolver.clone());
    let result = checker
        .check(&"root.example".to_string(), &"mail.x.com".to_string())
        .unwrap();

    assert!(result.found);
    assert_eq!(result.visited, 2);
    assert_eq!(
        mock_resolver.queries(),
        vec!["root.example".to_string(), "b.example".to_string()]
    );
    assert_eq!(
        result.included_domains,
        Some(vec![
            "a.example".to_string(),
            "b.example".to_string(),
            "mail.x.com".to_string(),
            "c.example".to_string(),
        ])
    );
}

#[test]
fn root_without_record_is_a_dead_end() {
    let mock_resolver = MockResolver::new();
    let checker = SpfChecker::new(mock_resolver.clone());
    let result = checker
        .check(&"root.example".to_string(), &"mail.x.com".to_string())
        .unwrap();

    assert!(!result.found);
    assert_eq!(result.visited, 1);
    assert_eq!(result.spf_record, None);
    assert_eq!(result.included_domains, Some(vec![]));
}

#[test]
fn failed_lookup_ends_the_traversal_with_the_domain() {
    let mock_resolver = MockResolver::new();
    mock_resolver.add_record("root.example", "v=spf1 include:a.example ~all");
    mock_resolver.fail_on("a.example");

    let checker = SpfChecker::new(mock_resolver.clone());
    let outcome = checker.check(&"root.example".to_string(), &"mail.x.com".to_string());

    assert_eq!(
        outcome,
        Err(ResolverError::RecordSourceError {
            domain: "a.example".to_string()
        })
    );
    assert_eq!(outcome.unwrap_err().message(), "DNS_LOOKUP_FAILED");
}

#[test]
fn record_that_does_not_parse_ends_the_traversal_with_its_text() {
    let mock_resolver = MockResolver::new();
    mock_resolver.add_record("root.example", "v=spf1 include:a.example ~all");
    mock_resolver.add_record("a.example", "v=spf1 include: ~all");

    let checker = SpfChecker::new(mock_resolver.clone());
    let outcome = checker.check(&"root.example".to_string(), &"mail.x.com".to_string());

    assert_eq!(
        outcome,
        Err(ResolverError::RecordParseError {
            raw_text: "v=spf1 include: ~all".to_string()
        })
    );
    assert_eq!(outcome.unwrap_err().message(), "SPF_PARSE_FAILED");
}

#[test]
fn text_that_is_no_spf_record_does_not_parse() {
    let mock_resolver = MockResolver::new();
    mock_resolver.add_record("root.example", "google-site-verification=abc");

    let checker = SpfChecker::new(mock_resolver.clone());
    let outcome = checker.check(&"root.example".to_string(), &"mail.x.com".to_string());

    assert!(matches!(
        outcome,
        Err(ResolverError::RecordParseError { .. })
    ));
}

#[test]
fn domains_are_compared_as_written() {
    let mock_resolver = MockResolver::new();
    mock_resolver.add_record("root.example", "v=spf1 include:Mail.X.com ~all");

    let checker = SpfChecker::new(mock_resolver.clone());
    let result = checker
        .check(&"root.example".to_string(), &"mail.x.com".to_string())
        .unwrap();

    assert!(!result.found);
    assert_eq!(result.visited, 2);
    assert_eq!(result.included_domains, Some(vec!["Mail.X.com".to_string()]));
}
