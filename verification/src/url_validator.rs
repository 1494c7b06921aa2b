//! The politeness validator: which URLs may be fetched.
//!
//! A web URL may be fetched unless the robots exclusion file of its domain
//! disallows its path for the wildcard user agent. The policy of a domain is
//! learnt once, from the first fetch of its robots file, and kept for the
//! life of the validator; a domain whose robots file could not be fetched
//! allows everything. Hidden services are never subject to robots exclusion.
//!
//! The validator performs no fetch itself. `check` either decides or names
//! the robots file it needs; the caller fetches it and hands the outcome to
//! `is_valid`, which is the whole decision for a caller that holds the
//! outcome of the fetch.

use vstd::prelude::*;
use vstd::string::StringExecFns;
use crate::pattern::{regex_compiles, regex_finds, Rule};
use crate::robots::{disallow_patterns, disallowed, texts};
use crate::task::UrlType;
use crate::text::{chars_of, copy_range, find_char, position_of, starts_with, string_of};

verus! {

/// Decides whether a URL may be fetched.
///
/// An implementation may have to ask the network before it can answer, which
/// is why it takes `&mut self`. `RobotsValidator` holds the rules of such a
/// decision and leaves the fetch to its caller.
pub trait UrlValidator {
    fn is_valid(&mut self, url_type: &UrlType, url: &str) -> bool;
}

/// The URL without a leading `https://` or `http://`.
pub open spec fn without_scheme(url: Seq<char>) -> Seq<char> {
    if "https://"@.is_prefix_of(url) {
        url.skip("https://"@.len() as int)
    } else if "http://"@.is_prefix_of(url) {
        url.skip("http://"@.len() as int)
    } else {
        url
    }
}

/// The domain of a URL: what stands between the scheme and the first `/`.
pub open spec fn domain_of(url: Seq<char>) -> Seq<char> {
    let rest = without_scheme(url);
    rest.take(position_of(rest, '/', 0))
}

/// The path of a URL: everything from the first `/` behind the scheme on,
/// or `*` for a URL without a path.
pub open spec fn path_of(url: Seq<char>) -> Seq<char> {
    let rest = without_scheme(url);
    let slash = position_of(rest, '/', 0);
    if slash < rest.len() {
        rest.skip(slash)
    } else {
        "*"@
    }
}

/// Where the robots exclusion file of a domain is fetched from.
pub open spec fn robots_location(domain: Seq<char>) -> Seq<char> {
    domain + "/robots.txt"@
}

/// Splits a URL into its domain and its path.
pub fn split_url(url: &str) -> (parts: (String, String))
    ensures
        parts.0@ == domain_of(url@),
        parts.1@ == path_of(url@),
{
    let chars = chars_of(url);
    proof {
        reveal_strlit("https://");
        reveal_strlit("http://");
        assert("https://"@.len() == 8 && "http://"@.len() == 7);
    }
    let start: usize = if starts_with(&chars, "https://") {
        8
    } else if starts_with(&chars, "http://") {
        7
    } else {
        0
    };
    let rest = copy_range(&chars, start, chars.len());
    assert(rest@ =~= without_scheme(url@));
    let slash = find_char(&rest, '/', 0);
    let domain = string_of(&rest, 0, slash);
    let path = if slash < rest.len() {
        string_of(&rest, slash, rest.len())
    } else {
        "*".to_owned()
    };
    (domain, path)
}

/// The patterns among `candidates` that the regular expression compiler
/// accepts, in order.
pub open spec fn compiling(candidates: Seq<Seq<char>>) -> Seq<Seq<char>> {
    candidates.filter(|p: Seq<char>| regex_compiles(p))
}

/// The policy that the outcome of fetching a robots file stands for: the
/// disallow patterns of the file that compile, or no pattern at all when
/// the fetch failed.
pub open spec fn policy_of(robots: Option<Seq<char>>) -> Seq<Seq<char>> {
    match robots {
        Some(body) => compiling(disallowed(body)),
        None => Seq::empty(),
    }
}

/// Whether a policy denies a path: one of its patterns matches the path.
pub open spec fn denies(policy: Seq<Seq<char>>, path: Seq<char>) -> bool {
    exists|i: int| 0 <= i < policy.len() && regex_finds(#[trigger] policy[i], path)
}

/// The text of a fetched robots file, if the fetch succeeded.
pub open spec fn fetched_text(robots: Option<&str>) -> Option<Seq<char>> {
    match robots {
        Some(body) => Some(body@),
        None => None,
    }
}

/// What came of the attempt to fetch a robots file.
#[derive(Clone, Debug, PartialEq, Eq)]
pub enum RobotsFetch {
    /// The transfer failed: no answer was received.
    Failed,
    /// The server answered with this status code and body.
    Answered { status: u32, body: String },
}

/// The text of the robots file that a fetch brought: the body of an answer
/// with a success status. A failed transfer and an answer with any other
/// status bring nothing.
pub open spec fn robots_text(fetch: RobotsFetch) -> Option<Seq<char>> {
    match fetch {
        RobotsFetch::Answered { status, body } => if 200 <= status < 300 {
            Some(body@)
        } else {
            None
        },
        RobotsFetch::Failed => None,
    }
}

impl RobotsFetch {
    /// The text of the robots file, if the fetch brought one.
    pub fn into_text(self) -> (text: Option<String>)
        ensures
            match text {
                Some(body) => robots_text(self) == Some(body@),
                None => robots_text(self) is None,
            },
    {
        match self {
            RobotsFetch::Answered { status, body } => {
                if 200 <= status && status < 300 {
                    Some(body)
                } else {
                    None
                }
            },
            RobotsFetch::Failed => None,
        }
    }
}

/// The compiled disallow rules of one domain.
pub struct DisallowPolicy {
    rules: Vec<Rule>,
}

impl View for DisallowPolicy {
    type V = Seq<Seq<char>>;

    /// The texts of the rules.
    closed spec fn view(&self) -> Seq<Seq<char>> {
        self.rules@.map_values(|r: Rule| r@)
    }
}

impl DisallowPolicy {
    /// The policy that denies nothing.
    pub fn allow_all() -> (policy: DisallowPolicy)
        ensures
            policy@ == Seq::<Seq<char>>::empty(),
    {
        let policy = DisallowPolicy { rules: Vec::new() };
        assert(policy@ =~= Seq::<Seq<char>>::empty());
        policy
    }

    /// The policy of a robots exclusion file. A disallow rule that does not
    /// compile is left out, as if its line were absent.
    pub fn from_robots(body: &str) -> (policy: DisallowPolicy)
        ensures
            policy@ == compiling(disallowed(body@)),
    {
        let patterns = disallow_patterns(body);
        let ghost accepts = |p: Seq<char>| regex_compiles(p);
        let mut rules: Vec<Rule> = Vec::new();
        let mut i: usize = 0;
        assert(texts(patterns@).take(0) =~= Seq::<Seq<char>>::empty());
        assert(rules@.map_values(|r: Rule| r@) =~= Seq::<Seq<char>>::empty());
        while i < patterns.len()
            invariant
                i <= patterns@.len(),
                texts(patterns@) == disallowed(body@),
                accepts == (|p: Seq<char>| regex_compiles(p)),
                rules@.map_values(|r: Rule| r@) == texts(patterns@).take(i as int).filter(accepts),
            decreases patterns@.len() - i,
        {
            let ghost before = rules@;
            proof {
                reveal_with_fuel(Seq::filter, 2);
                assert(texts(patterns@).take(i + 1).drop_last() =~= texts(patterns@).take(
                    i as int,
                ));
                assert(texts(patterns@).take(i + 1).last() == patterns@[i as int]@);
            }
            match Rule::compile(patterns[i].clone()) {
                Some(rule) => {
                    rules.push(rule);
                    assert(rules@.map_values(|r: Rule| r@) =~= before.map_values(|r: Rule| r@).push(
                        patterns@[i as int]@,
                    ));
                },
                None => {},
            }
            i = i + 1;
        }
        assert(texts(patterns@).take(patterns@.len() as int) =~= texts(patterns@));
        DisallowPolicy { rules }
    }

    /// The policy for the outcome of fetching a robots file: a failed fetch
    /// denies nothing.
    pub fn from_fetch(robots: Option<&str>) -> (policy: DisallowPolicy)
        ensures
            policy@ == policy_of(fetched_text(robots)),
    {
        match robots {
            Some(body) => DisallowPolicy::from_robots(body),
            None => DisallowPolicy::allow_all(),
        }
    }

    /// Whether the policy denies `path`.
    pub fn denies(&self, path: &str) -> (denied: bool)
        ensures
            denied == denies(self@, path@),
    {
        let mut i: usize = 0;
        while i < self.rules.len()
            invariant
                i <= self.rules@.len(),
                forall|j: int| 0 <= j < i ==> !regex_finds(#[trigger] self@[j], path@),
            decreases self.rules@.len() - i,
        {
            if self.rules[i].is_match(path) {
                assert(regex_finds(self@[i as int], path@));
                return true;
            }
            i = i + 1;
        }
        false
    }
}

/// What the validator knows: the policy of every domain whose robots file
/// has been fetched, or failed to be fetched, so far.
pub type PolicyCache = Map<Seq<char>, Seq<Seq<char>>>;

/// What a lookup comes to.
pub enum Decision {
    /// The URL may be fetched.
    Allowed,
    /// The URL must not be fetched.
    Denied,
    /// The policy of the domain is not known yet: the robots exclusion file
    /// at `location` has to be fetched first.
    Fetch { domain: Seq<char>, location: Seq<char> },
}

/// The decision for a URL under what is known.
pub open spec fn decide(cache: PolicyCache, url_type: UrlType, url: Seq<char>) -> Decision {
    match url_type {
        UrlType::TorHiddenService => Decision::Allowed,
        UrlType::Web => {
            let domain = domain_of(url);
            if !cache.contains_key(domain) {
                Decision::Fetch { domain, location: robots_location(domain) }
            } else if denies(cache[domain], path_of(url)) {
                Decision::Denied
            } else {
                Decision::Allowed
            }
        },
    }
}

/// What is known after the robots file of `domain` has been fetched with
/// the outcome `robots`. The first outcome for a domain stands: a later one
/// changes nothing.
pub open spec fn learn(cache: PolicyCache, domain: Seq<char>, robots: Option<Seq<char>>) -> PolicyCache {
    if cache.contains_key(domain) {
        cache
    } else {
        cache.insert(domain, policy_of(robots))
    }
}

/// The answer of `RobotsValidator::check`.
#[derive(Debug)]
pub enum Lookup {
    /// The URL may be fetched.
    Allowed,
    /// The URL must not be fetched.
    Denied,
    /// The robots exclusion file at `location` has to be fetched first, and
    /// its outcome handed to `RobotsValidator::is_valid`.
    Fetch { domain: String, location: String },
}

impl View for Lookup {
    type V = Decision;

    open spec fn view(&self) -> Decision {
        match self {
            Lookup::Allowed => Decision::Allowed,
            Lookup::Denied => Decision::Denied,
            Lookup::Fetch { domain, location } => Decision::Fetch {
                domain: domain@,
                location: location@,
            },
        }
    }
}

struct CacheEntry {
    domain: String,
    policy: DisallowPolicy,
}

/// The map that a list of cache entries stands for.
spec fn cache_of(entries: Seq<CacheEntry>) -> PolicyCache
    decreases entries.len(),
{
    if entries.len() == 0 {
        Map::empty()
    } else {
        cache_of(entries.drop_last()).insert(entries.last().domain@, entries.last().policy@)
    }
}

/// No domain occurs twice.
spec fn domains_distinct(entries: Seq<CacheEntry>) -> bool {
    forall|i: int, j: int|
        0 <= i < j < entries.len() ==> (#[trigger] entries[i]).domain@ != (
        #[trigger] entries[j]).domain@
}

proof fn lemma_cache_of(entries: Seq<CacheEntry>, domain: Seq<char>)
    requires
        domains_distinct(entries),
    ensures
        cache_of(entries).contains_key(domain) <==> exists|i: int|
            0 <= i < entries.len() && (#[trigger] entries[i]).domain@ == domain,
        forall|i: int|
            0 <= i < entries.len() && (#[trigger] entries[i]).domain@ == domain ==> cache_of(
                entries,
            )[domain] == entries[i].policy@,
    decreases entries.len(),
{
    if entries.len() > 0 {
        let front = entries.drop_last();
        assert forall|i: int, j: int| 0 <= i < j < front.len() implies (#[trigger] front[i]).domain@
            != (#[trigger] front[j]).domain@ by {
            assert(entries[i].domain@ != entries[j].domain@);
        }
        lemma_cache_of(front, domain);
        if entries.last().domain@ == domain {
            assert(entries[entries.len() - 1].domain@ == domain);
            assert forall|i: int|
                0 <= i < entries.len() && (#[trigger] entries[i]).domain@ == domain implies i
                == entries.len() - 1 by {
                if i < entries.len() - 1 {
                    assert(entries[i].domain@ != entries[entries.len() - 1].domain@);
                }
            }
        } else {
            if cache_of(entries).contains_key(domain) {
                let i = choose|i: int| 0 <= i < front.len() && (#[trigger] front[i]).domain@ == domain;
                assert(entries[i].domain@ == domain);
            }
            assert forall|i: int|
                0 <= i < entries.len() && (#[trigger] entries[i]).domain@ == domain implies cache_of(
                entries,
            )[domain] == entries[i].policy@ by {
                assert(front[i].domain@ == domain);
            }
            if exists|i: int| 0 <= i < entries.len() && (#[trigger] entries[i]).domain@ == domain {
                let i = choose|i: int|
                    0 <= i < entries.len() && (#[trigger] entries[i]).domain@ == domain;
                assert(front[i].domain@ == domain);
            }
        }
    }
}

/// The politeness validator: a cache of robots policies by domain.
pub struct RobotsValidator {
    robots_cache: Vec<CacheEntry>,
}

impl View for RobotsValidator {
    type V = PolicyCache;

    /// The policies known so far, by domain.
    closed spec fn view(&self) -> PolicyCache {
        cache_of(self.robots_cache@)
    }
}

impl RobotsValidator {
    /// The invariant of the representation.
    pub closed spec fn wf(&self) -> bool {
        domains_distinct(self.robots_cache@)
    }

    /// A validator that knows no domain yet.
    pub fn new() -> (validator: RobotsValidator)
        ensures
            validator.wf(),
            validator@ == Map::<Seq<char>, Seq<Seq<char>>>::empty(),
    {
        RobotsValidator { robots_cache: Vec::new() }
    }

    /// The position of the entry of `domain`, if there is one.
    fn find(&self, domain: &String) -> (at: Option<usize>)
        requires
            self.wf(),
        ensures
            match at {
                Some(i) => i < self.robots_cache@.len() && self.robots_cache@[i as int].domain@
                    == domain@ && self@.contains_key(domain@) && self@[domain@]
                    == self.robots_cache@[i as int].policy@,
                None => !self@.contains_key(domain@),
            },
    {
        let mut i: usize = 0;
        while i < self.robots_cache.len()
            invariant
                self.wf(),
                i <= self.robots_cache@.len(),
                forall|j: int| 0 <= j < i ==> (#[trigger] self.robots_cache@[j]).domain@ != domain@,
            decreases self.robots_cache@.len() - i,
        {
            if self.robots_cache[i].domain == *domain {
                proof {
                    lemma_cache_of(self.robots_cache@, domain@);
                    assert(self.robots_cache@[i as int].domain@ == domain@);
                }
                return Some(i);
            }
            i = i + 1;
        }
        proof {
            lemma_cache_of(self.robots_cache@, domain@);
        }
        None
    }

    /// Decides from what is known so far whether `url` may be fetched, or
    /// names the robots file that has to be fetched before that can be
    /// decided. A hidden service is allowed whatever is known.
    pub fn check(&self, url_type: &UrlType, url: &str) -> (lookup: Lookup)
        requires
            self.wf(),
        ensures
            lookup@ == decide(self@, *url_type, url@),
            *url_type == UrlType::TorHiddenService ==> lookup is Allowed,
    {
        match url_type {
            UrlType::TorHiddenService => Lookup::Allowed,
            UrlType::Web => {
                let (domain, path) = split_url(url);
                match self.find(&domain) {
                    Some(i) => {
                        if self.robots_cache[i].policy.denies(path.as_str()) {
                            Lookup::Denied
                        } else {
                            Lookup::Allowed
                        }
                    },
                    None => {
                        let mut location = domain.clone();
                        location.append("/robots.txt");
                        Lookup::Fetch { domain, location }
                    },
                }
            },
        }
    }

    /// Records the outcome of fetching the robots file of `domain`: the text
    /// of the file, or `None` when the fetch failed. The first outcome
    /// recorded for a domain stands.
    pub fn record(&mut self, domain: &str, robots: Option<&str>)
        requires
            old(self).wf(),
        ensures
            final(self).wf(),
            final(self)@ == learn(old(self)@, domain@, fetched_text(robots)),
    {
        let domain = domain.to_owned();
        match self.find(&domain) {
            Some(_) => {},
            None => {
                let ghost before = self.robots_cache@;
                let policy = DisallowPolicy::from_fetch(robots);
                self.robots_cache.push(CacheEntry { domain, policy });
                proof {
                    assert(self.robots_cache@.drop_last() =~= before);
                    assert forall|i: int, j: int|
                        0 <= i < j < self.robots_cache@.len() implies (
                    #[trigger] self.robots_cache@[i]).domain@ != (
                    #[trigger] self.robots_cache@[j]).domain@ by {
                        if j < before.len() {
                            assert(before[i].domain@ != before[j].domain@);
                        } else {
                            lemma_cache_of(before, domain@);
                            assert(before[i].domain@ != domain@);
                        }
                    }
                }
            },
        }
    }

    /// Decides whether `url` may be fetched, given the outcome `robots` of
    /// fetching the robots file of its domain: the text of the file, or
    /// `None` when the fetch failed.
    ///
    /// A hidden service is allowed whatever is known and whatever `robots`
    /// holds, and the validator stays as it is. For a web URL the outcome is
    /// recorded unless the domain is known already, and the path is tested
    /// against the policy that then stands for the domain.
    pub fn is_valid(&mut self, url_type: &UrlType, url: &str, robots: Option<&str>) -> (allowed:
        bool)
        requires
            old(self).wf(),
        ensures
            final(self).wf(),
            final(self)@ == match *url_type {
                UrlType::TorHiddenService => old(self)@,
                UrlType::Web => learn(old(self)@, domain_of(url@), fetched_text(robots)),
            },
            allowed == (decide(final(self)@, *url_type, url@) is Allowed),
            *url_type == UrlType::TorHiddenService ==> allowed && *final(self) == *old(self),
    {
        match url_type {
            UrlType::TorHiddenService => true,
            UrlType::Web => {
                let (domain, path) = split_url(url);
                self.record(domain.as_str(), robots);
                match self.find(&domain) {
                    Some(i) => !self.robots_cache[i].policy.denies(path.as_str()),
                    None => {
                        assert(false);
                        true
                    },
                }
            },
        }
    }
}

/// A hidden service may always be fetched, whatever is known of its domain.
pub proof fn lemma_hidden_services_are_allowed(cache: PolicyCache, url: Seq<char>)
    ensures
        decide(cache, UrlType::TorHiddenService, url) == Decision::Allowed,
{
}

/// Once an outcome has been recorded for the domain of a URL, the URL is
/// decided without another fetch.
pub proof fn lemma_known_domains_are_decided(
    cache: PolicyCache,
    url: Seq<char>,
    robots: Option<Seq<char>>,
)
    ensures
        !(decide(learn(cache, domain_of(url), robots), UrlType::Web, url) is Fetch),
{
}

/// A domain whose robots file could not be fetched allows every path.
pub proof fn lemma_failed_fetch_allows(cache: PolicyCache, url: Seq<char>)
    requires
        !cache.contains_key(domain_of(url)),
    ensures
        decide(learn(cache, domain_of(url), None), UrlType::Web, url) == Decision::Allowed,
{
}

/// What is known of a domain is never replaced.
pub proof fn lemma_first_policy_stands(
    cache: PolicyCache,
    domain: Seq<char>,
    first: Option<Seq<char>>,
    second: Option<Seq<char>>,
)
    ensures
        learn(learn(cache, domain, first), domain, second) == learn(cache, domain, first),
{
}

} // verus!
