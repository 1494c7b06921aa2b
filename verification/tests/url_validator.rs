use polzat::url_validator::{
    split_url, DisallowPolicy, Lookup, RobotsFetch, RobotsValidator, UrlValidator,
};
use polzat::UrlType;

fn split(url: &str) -> (String, String) {
    split_url(url)
}

fn pair(a: &str, b: &str) -> (String, String) {
    (a.to_owned(), b.to_owned())
}

fn allowed(validator: &RobotsValidator, url_type: UrlType, url: &str) -> bool {
    match validator.check(&url_type, url) {
        Lookup::Allowed => true,
        Lookup::Denied => false,
        Lookup::Fetch { domain, location } => {
            panic!("unexpected fetch of {} for {}", location, domain)
        }
    }
}

/// A validator that answers from robots files given up front, as a caller
/// with a network would from fetched ones.
struct Canned {
    inner: RobotsValidator,
    files: Vec<(String, Option<String>)>,
    fetches: usize,
}

impl UrlValidator for Canned {
    fn is_valid(&mut self, url_type: &UrlType, url: &str) -> bool {
        match self.inner.check(url_type, url) {
            Lookup::Allowed => true,
            Lookup::Denied => false,
            Lookup::Fetch { domain: _, location } => {
                self.fetches += 1;
                let mut body = None;
                for (at, text) in self.files.iter() {
                    if *at == location {
                        body = text.clone();
                    }
                }
                self.inner.is_valid(url_type, url, body.as_deref())
            }
        }
    }
}

#[test]
fn urls_split_into_domain_and_path() {
    assert_eq!(split("http://example.org/a/b"), pair("example.org", "/a/b"));
    assert_eq!(split("https://example.org/a/b"), pair("example.org", "/a/b"));
    assert_eq!(split("example.org/a"), pair("example.org", "/a"));
    assert_eq!(split("http://example.org/"), pair("example.org", "/"));
    assert_eq!(split("http://example.org"), pair("example.org", "*"));
    assert_eq!(split("example.org"), pair("example.org", "*"));
    assert_eq!(split(""), pair("", "*"));
    assert_eq!(split("http://"), pair("", "*"));
    assert_eq!(split("/only/path"), pair("", "/only/path"));
}

#[test]
fn only_a_leading_scheme_is_stripped() {
    assert_eq!(split("http://a.org/r?u=http://b.org/x"), pair("a.org", "/r?u=http://b.org/x"));
    assert_eq!(split("ftp://a.org/x"), pair("ftp:", "//a.org/x"));
    assert_eq!(split("https://http://a.org"), pair("http:", "//a.org"));
    assert_eq!(split("HTTP://a.org/x"), pair("HTTP:", "//a.org/x"));
}

#[test]
fn hidden_services_are_always_allowed() {
    let mut validator = RobotsValidator::new();
    assert!(allowed(&validator, UrlType::TorHiddenService, "http://anything/x"));
    validator.record("anything", Some("User-agent: *\nDisallow: /"));
    assert!(!allowed(&validator, UrlType::Web, "http://anything/x"));
    assert!(allowed(&validator, UrlType::TorHiddenService, "http://anything/x"));
    assert!(validator.is_valid(&UrlType::TorHiddenService, "http://other/x", Some("User-agent: *\nDisallow: /")));
    assert!(matches!(validator.check(&UrlType::Web, "http://other/x"), Lookup::Fetch { .. }));
}

#[test]
fn unknown_domain_asks_for_its_robots_file() {
    let validator = RobotsValidator::new();
    match validator.check(&UrlType::Web, "https://example.org/a/b") {
        Lookup::Fetch { domain, location } => {
            assert_eq!(domain, "example.org");
            assert_eq!(location, "example.org/robots.txt");
        }
        other => panic!("expected a fetch, got {:?}", other),
    }
}

#[test]
fn failed_fetch_allows_everything() {
    let mut validator = RobotsValidator::new();
    assert!(validator.is_valid(&UrlType::Web, "http://domain/anypath", None));
    assert!(allowed(&validator, UrlType::Web, "http://domain/anypath"));
    assert!(allowed(&validator, UrlType::Web, "http://domain/private/x"));
    assert!(allowed(&validator, UrlType::Web, "http://domain"));
}

#[test]
fn disallowed_prefix_is_denied() {
    let mut validator = RobotsValidator::new();
    let robots = "User-agent: *\nDisallow: /private";
    assert!(!validator.is_valid(&UrlType::Web, "http://domain/private/x", Some(robots)));
    assert!(!allowed(&validator, UrlType::Web, "http://domain/private/x"));
    assert!(!allowed(&validator, UrlType::Web, "http://domain/private"));
    assert!(allowed(&validator, UrlType::Web, "http://domain/public"));
    assert!(allowed(&validator, UrlType::Web, "https://domain/"));
}

#[test]
fn policies_are_kept_per_domain() {
    let mut validator = RobotsValidator::new();
    validator.record("a.org", Some("User-agent: *\nDisallow: /x"));
    validator.record("b.org", Some("User-agent: *\nDisallow: /y"));
    assert!(!allowed(&validator, UrlType::Web, "http://a.org/x"));
    assert!(allowed(&validator, UrlType::Web, "http://a.org/y"));
    assert!(allowed(&validator, UrlType::Web, "http://b.org/x"));
    assert!(!allowed(&validator, UrlType::Web, "http://b.org/y"));
    assert!(matches!(validator.check(&UrlType::Web, "http://c.org/x"), Lookup::Fetch { .. }));
}

#[test]
fn the_first_outcome_for_a_domain_stands() {
    let mut validator = RobotsValidator::new();
    validator.record("a.org", None);
    validator.record("a.org", Some("User-agent: *\nDisallow: /"));
    assert!(allowed(&validator, UrlType::Web, "http://a.org/x"));
    let mut other = RobotsValidator::new();
    other.record("a.org", Some("User-agent: *\nDisallow: /"));
    other.record("a.org", None);
    assert!(!allowed(&other, UrlType::Web, "http://a.org/x"));
}

#[test]
fn stars_and_question_marks_in_rules() {
    let mut validator = RobotsValidator::new();
    validator.record("a.org", Some("User-agent: *\nDisallow: /a*/z\nDisallow: /q?id="));
    assert!(!allowed(&validator, UrlType::Web, "http://a.org/abc/z"));
    assert!(!allowed(&validator, UrlType::Web, "http://a.org/a/z/more"));
    assert!(allowed(&validator, UrlType::Web, "http://a.org/abc/y"));
    assert!(!allowed(&validator, UrlType::Web, "http://a.org/q?id=7"));
    assert!(allowed(&validator, UrlType::Web, "http://a.org/qid=7"));
    assert!(allowed(&validator, UrlType::Web, "http://a.org/id=7"));
}

#[test]
fn a_rule_that_does_not_compile_is_left_out() {
    let mut validator = RobotsValidator::new();
    validator.record("a.org", Some("User-agent: *\nDisallow: /broken(\nDisallow: /fine"));
    assert!(allowed(&validator, UrlType::Web, "http://a.org/broken(/x"));
    assert!(!allowed(&validator, UrlType::Web, "http://a.org/fine/x"));
}

#[test]
fn url_without_a_path_is_tested_as_a_star() {
    let mut validator = RobotsValidator::new();
    validator.record("a.org", Some("User-agent: *\nDisallow: /"));
    assert!(allowed(&validator, UrlType::Web, "http://a.org"));
    assert!(!allowed(&validator, UrlType::Web, "http://a.org/"));
    validator.record("b.org", Some("User-agent: *\nDisallow: *"));
    assert!(!allowed(&validator, UrlType::Web, "http://b.org"));
}

#[test]
fn policy_from_file_and_from_fetch() {
    let none = DisallowPolicy::allow_all();
    assert!(!none.denies("/anything"));
    let failed = DisallowPolicy::from_fetch(None);
    assert!(!failed.denies("/anything"));
    let policy = DisallowPolicy::from_robots("User-agent: *\nDisallow: /private");
    assert!(policy.denies("/private/x"));
    assert!(!policy.denies("/public"));
    let fetched = DisallowPolicy::from_fetch(Some("User-agent: *\nDisallow: /private"));
    assert!(fetched.denies("/private"));
    assert!(!fetched.denies("/privat"));
    let empty = DisallowPolicy::from_robots("User-agent: *\n");
    assert!(!empty.denies("/"));
}

#[test]
fn a_driver_fetches_each_domain_once() {
    let mut validator = Canned {
        inner: RobotsValidator::new(),
        files: vec![
            ("domain/robots.txt".to_owned(), Some("User-agent: *\nDisallow: /private".to_owned())),
            ("down/robots.txt".to_owned(), None),
        ],
        fetches: 0,
    };
    assert!(!validator.is_valid(&UrlType::Web, "http://domain/private/x"));
    assert!(validator.is_valid(&UrlType::Web, "http://domain/public"));
    assert!(!validator.is_valid(&UrlType::Web, "https://domain/private"));
    assert_eq!(validator.fetches, 1);
    assert!(validator.is_valid(&UrlType::Web, "http://down/anypath"));
    assert!(validator.is_valid(&UrlType::Web, "http://down/private"));
    assert_eq!(validator.fetches, 2);
    assert!(validator.is_valid(&UrlType::TorHiddenService, "http://anything/x"));
    assert_eq!(validator.fetches, 2);
}

#[test]
fn only_a_successful_answer_brings_a_robots_file() {
    let answered = |status: u32| RobotsFetch::Answered { status, body: "text".to_owned() };
    assert_eq!(RobotsFetch::Failed.into_text(), None);
    assert_eq!(answered(200).into_text(), Some("text".to_owned()));
    assert_eq!(answered(204).into_text(), Some("text".to_owned()));
    assert_eq!(answered(299).into_text(), Some("text".to_owned()));
    assert_eq!(answered(199).into_text(), None);
    assert_eq!(answered(300).into_text(), None);
    assert_eq!(answered(404).into_text(), None);
    assert_eq!(answered(500).into_text(), None);
    assert_eq!(answered(0).into_text(), None);
}

#[test]
fn a_missing_robots_file_allows_everything() {
    let mut validator = RobotsValidator::new();
    let fetch = RobotsFetch::Answered {
        status: 404,
        body: "User-agent: *\nDisallow: /".to_owned(),
    };
    let robots = fetch.into_text();
    assert!(validator.is_valid(&UrlType::Web, "http://domain/private", robots.as_deref()));
}

#[test]
fn a_rule_excludes_only_the_paths_that_begin_with_it() {
    let mut validator = RobotsValidator::new();
    let robots = "User-agent: *\nDisallow: /private";
    assert!(validator.is_valid(&UrlType::Web, "http://example.com/public/private", Some(robots)));
    assert!(allowed(&validator, UrlType::Web, "http://example.com/public/private"));
    assert!(allowed(&validator, UrlType::Web, "http://example.com/x/private/y"));
    assert!(!allowed(&validator, UrlType::Web, "http://example.com/private/x"));
    assert!(!allowed(&validator, UrlType::Web, "http://example.com/private"));
    assert!(!allowed(&validator, UrlType::Web, "http://example.com/privateer"));
    let policy = DisallowPolicy::from_robots("User-agent: *\nDisallow: /a*/z\nDisallow: /b|/c");
    assert!(policy.denies("/a/z"));
    assert!(policy.denies("/abc/z/more"));
    assert!(!policy.denies("/x/a/z"));
    assert!(policy.denies("/b"));
    assert!(policy.denies("/c/d"));
    assert!(!policy.denies("/x/c"));
}

#[test]
fn a_hidden_service_leaves_the_validator_as_it_is() {
    let mut validator = RobotsValidator::new();
    validator.record("anything", Some("User-agent: *\nDisallow: *"));
    assert!(!allowed(&validator, UrlType::Web, "http://anything/x"));
    assert!(!allowed(&validator, UrlType::Web, "http://anything"));
    assert!(validator.is_valid(&UrlType::TorHiddenService, "http://anything/x", None));
    assert!(validator.is_valid(&UrlType::TorHiddenService, "http://anything", Some("")));
    assert!(validator.is_valid(&UrlType::TorHiddenService, "http://unknown/x", None));
    assert!(!allowed(&validator, UrlType::Web, "http://anything/x"));
    assert!(matches!(validator.check(&UrlType::Web, "http://unknown/x"), Lookup::Fetch { .. }));
}
