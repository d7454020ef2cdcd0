use vstd::prelude::*;

verus! {

use crate::Permission;
use crate::selector::spec_emissions;
use crate::singlebot::{extend_trie, initial_policy, SingleBot};
use crate::text::{chars_of, eq_str};
use crate::tokenize::spec_captures;
use crate::trie::SpecTrie;

// ---------------------------------------------------------------------------
// URL parsing, behind trusted wrappers
// ---------------------------------------------------------------------------

/// What parsing an absolute URL yields: `None` when the text is not a URL,
/// otherwise its host (absent for URLs that carry none) and its path.  The
/// result depends on the text alone.
pub uninterp spec fn url_info_of(s: Seq<char>) -> Option<(Option<Seq<char>>, Seq<char>)>;

/// The normalized text of a host name, when the text parses as one.  The
/// result depends on the text alone.
pub uninterp spec fn host_of(s: Seq<char>) -> Option<Seq<char>>;

/// What the URL parser handed back, as plain values.
enum UrlParts {
    Invalid { detail: String },
    NoHost,
    Parsed { host: String, path: String },
}

/// Relies on url::Url::parse, and Url::host_str and Url::path on the parsed
/// value: all three are functions of the URL text alone.
#[verifier::external_body]
fn parse_url_parts(s: &str) -> (r: UrlParts)
    ensures
        match r {
            UrlParts::Invalid { .. } => url_info_of(s@) is None,
            UrlParts::NoHost => url_info_of(s@) is Some && (url_info_of(s@)->0).0 is None,
            UrlParts::Parsed { host, path } => url_info_of(s@) == Some((Some(host@), path@)),
        },
{
    match url::Url::parse(s) {
        Err(e) => UrlParts::Invalid { detail: format!("{}", e) },
        Ok(u) => match u.host_str() {
            None => UrlParts::NoHost,
            Some(h) => UrlParts::Parsed { host: h.to_string(), path: u.path().to_string() },
        },
    }
}

/// Relies on url::Host::parse and the Display form of the parsed host: both
/// are functions of the input text alone.
#[verifier::external_body]
fn parse_host(s: &str) -> (r: Option<String>)
    ensures
        match r {
            Some(h) => host_of(s@) == Some(h@),
            None => host_of(s@) is None,
        },
{
    match url::Host::<String>::parse(s) {
        Ok(h) => Some(h.to_string()),
        Err(_) => None,
    }
}

// ---------------------------------------------------------------------------
// Errors
// ---------------------------------------------------------------------------

/// Why a check against a URL could not answer.
#[derive(Debug)]
pub enum CheckError {
    /// The text did not parse as an absolute URL; the detail says why.
    ParseError(String),
    /// The URL parsed but carries no host.
    MissingHost,
}

// ---------------------------------------------------------------------------
// The engines, one per host
// ---------------------------------------------------------------------------

/// First index whose key spells `h`, or `-1`.
pub open spec fn host_find(s: Seq<(String, SingleBot)>, h: Seq<char>) -> int
    decreases s.len(),
{
    if s.len() == 0 {
        -1
    } else if s[0].0@ == h {
        0
    } else {
        let r = host_find(s.skip(1), h);
        if r < 0 {
            -1
        } else {
            r + 1
        }
    }
}

proof fn lemma_host_find(s: Seq<(String, SingleBot)>, h: Seq<char>)
    ensures
        host_find(s, h) >= 0 ==> host_find(s, h) < s.len() && s[host_find(s, h)].0@ == h,
        host_find(s, h) < 0 ==> forall|j: int| 0 <= j < s.len() ==> (#[trigger] s[j]).0@ != h,
        forall|j: int| 0 <= j < host_find(s, h) ==> (#[trigger] s[j]).0@ != h,
    decreases s.len(),
{
    if s.len() > 0 && s[0].0@ != h {
        lemma_host_find(s.skip(1), h);
        assert forall|j: int| 0 <= j < s.len() && host_find(s, h) < 0 implies (#[trigger] s[j]).0@
            != h by {
            if j > 0 {
                assert(s.skip(1)[j - 1] == s[j]);
            }
        }
        assert forall|j: int| 0 <= j < host_find(s, h) implies (#[trigger] s[j]).0@ != h by {
            if j > 0 {
                assert(s.skip(1)[j - 1] == s[j]);
            }
        }
    }
}

proof fn lemma_host_find_keys(s1: Seq<(String, SingleBot)>, s2: Seq<(String, SingleBot)>, h: Seq<char>)
    requires
        s1.len() == s2.len(),
        forall|k: int| 0 <= k < s1.len() ==> (#[trigger] s1[k]).0@ == s2[k].0@,
    ensures
        host_find(s1, h) == host_find(s2, h),
    decreases s1.len(),
{
    if s1.len() > 0 {
        assert(s1[0].0@ == s2[0].0@);
        assert forall|k: int| 0 <= k < s1.skip(1).len() implies (#[trigger] s1.skip(1)[k]).0@
            == s2.skip(1)[k].0@ by {
            assert(s1[k + 1].0@ == s2[k + 1].0@);
        }
        lemma_host_find_keys(s1.skip(1), s2.skip(1), h);
    }
}

proof fn lemma_host_find_push(s: Seq<(String, SingleBot)>, x: (String, SingleBot), h: Seq<char>)
    ensures
        host_find(s.push(x), h) == (if host_find(s, h) >= 0 {
            host_find(s, h)
        } else if x.0@ == h {
            s.len() as int
        } else {
            -1int
        }),
    decreases s.len(),
{
    if s.len() == 0 {
        assert(s.push(x)[0] == x);
        assert(s.push(x).skip(1) =~= Seq::<(String, SingleBot)>::empty());
        assert(host_find(Seq::<(String, SingleBot)>::empty(), h) == -1);
        if x.0@ != h {
            assert(host_find(s.push(x), h) == -1);
        }
    } else {
        assert(s.push(x)[0] == s[0]);
        lemma_host_find_push(s.skip(1), x, h);
        assert(s.push(x).skip(1) =~= s.skip(1).push(x));
        if s[0].0@ != h {
            assert(host_find(s, h) == (if host_find(s.skip(1), h) < 0 {
                -1int
            } else {
                host_find(s.skip(1), h) + 1
            }));
        }
    }
}

/// Keeps one engine per URL host and dispatches checks by parsed host.
#[derive(Debug)]
pub struct MetaBot {
    hosts: Vec<(String, SingleBot)>,
    user_agent: Option<String>,
}

impl MetaBot {
    /// The agent key every engine of this facade is attuned to, if any.
    pub closed spec fn agent(self) -> Option<Seq<char>> {
        match self.user_agent {
            Some(s) => Some(s@),
            None => None,
        }
    }

    /// Every engine answers, and carries this facade's agent key.
    pub closed spec fn wf(self) -> bool {
        forall|k: int|
            0 <= k < self.hosts@.len() ==> (#[trigger] self.hosts@[k]).1.wf()
                && self.hosts@[k].1.agent() == self.agent()
    }

    /// The policy stored for a host, if one was added.
    pub closed spec fn host_policy(self, h: Seq<char>) -> Option<SpecTrie<Permission>> {
        let i = host_find(self.hosts@, h);
        if 0 <= i < self.hosts@.len() {
            Some(self.hosts@[i].1.policy())
        } else {
            None
        }
    }

    /// Creates a facade with no hosts, passing `user_agent` on to every
    /// engine it will create.
    pub fn new(user_agent: Option<String>) -> (r: MetaBot)
        ensures
            r.wf(),
            r.agent() == (match user_agent {
                Some(s) => Some(s@),
                None => None::<Seq<char>>,
            }),
            forall|h: Seq<char>| #[trigger] r.host_policy(h) is None,
    {
        let r = MetaBot { hosts: Vec::new(), user_agent };
        proof {
            assert forall|h: Seq<char>| #[trigger] r.host_policy(h) is None by {
                lemma_host_find(r.hosts@, h);
            }
        }
        r
    }

    /// Index of the engine for a host name given as characters.
    fn find_host(&self, host: &[char]) -> (r: Option<usize>)
        ensures
            match r {
                Some(j) => j == host_find(self.hosts@, host@) && j < self.hosts@.len(),
                None => host_find(self.hosts@, host@) < 0,
            },
    {
        proof {
            lemma_host_find(self.hosts@, host@);
        }
        let mut j: usize = 0;
        while j < self.hosts.len()
            invariant
                j <= self.hosts@.len(),
                forall|k: int| 0 <= k < j ==> (#[trigger] self.hosts@[k]).0@ != host@,
                host_find(self.hosts@, host@) >= 0 ==> host_find(self.hosts@, host@)
                    < self.hosts@.len() && self.hosts@[host_find(self.hosts@, host@)].0@ == host@,
                host_find(self.hosts@, host@) < 0 ==> forall|k: int|
                    0 <= k < self.hosts@.len() ==> (#[trigger] self.hosts@[k]).0@ != host@,
                forall|k: int|
                    0 <= k < host_find(self.hosts@, host@) ==> (#[trigger] self.hosts@[k]).0@
                        != host@,
            decreases self.hosts@.len() - j,
        {
            if eq_str(host, self.hosts[j].0.as_str()) {
                return Some(j);
            }
            j += 1;
        }
        None
    }

    /// Feeds one robots text to the engine for `host`, creating the engine
    /// first when the host is new.
    pub fn add_robots(&mut self, host: String, robots_txt: &str)
        requires
            old(self).wf(),
        ensures
            final (self).wf(),
            final (self).agent() == old(self).agent(),
            final (self).host_policy(host@) == Some(
                extend_trie(
                    match old(self).host_policy(host@) {
                        Some(t) => t,
                        None => initial_policy(),
                    },
                    spec_emissions(spec_captures(robots_txt@), old(self).agent()),
                ),
            ),
            forall|h: Seq<char>|
                h != host@ ==> #[trigger] final (self).host_policy(h) == old(self).host_policy(h),
    {
        let hv = chars_of(host.as_str());
        let idx = self.find_host(hv.as_slice());
        match idx {
            Some(j) => {
                let ghost hosts0 = self.hosts@;
                let mut pair = self.hosts.remove(j);
                pair.1.add(robots_txt);
                self.hosts.insert(j, pair);
                proof {
                    assert(self.hosts@ =~= hosts0.update(j as int, pair));
                    lemma_host_find(hosts0, host@);
                    assert forall|h: Seq<char>|
                        h != host@ implies #[trigger] self.host_policy(h) == old(
                        self,
                    ).host_policy(h) by {
                        lemma_host_find_keys(self.hosts@, hosts0, h);
                        lemma_host_find(hosts0, h);
                    }
                    lemma_host_find_keys(self.hosts@, hosts0, host@);
                }
            },
            None => {
                let agent = match &self.user_agent {
                    Some(s) => Some(s.clone()),
                    None => None,
                };
                let mut bot = SingleBot::new(agent);
                bot.add(robots_txt);
                let ghost hosts0 = self.hosts@;
                self.hosts.push((host, bot));
                proof {
                    lemma_host_find(hosts0, host@);
                    lemma_host_find_push(hosts0, self.hosts@.last(), host@);
                    assert forall|h: Seq<char>|
                        h != host@ implies #[trigger] self.host_policy(h) == old(
                        self,
                    ).host_policy(h) by {
                        lemma_host_find_push(hosts0, self.hosts@.last(), h);
                        lemma_host_find(hosts0, h);
                    }
                }
            },
        }
    }

    /// Parses a host name and, when it parses, feeds the text to that
    /// host's engine; reports whether the host parsed.
    pub fn try_add_robots(&mut self, host: &str, robots_txt: &str) -> (r: bool)
        requires
            old(self).wf(),
        ensures
            final (self).wf(),
            final (self).agent() == old(self).agent(),
            r == (host_of(host@) is Some),
            match host_of(host@) {
                Some(h) => final (self).host_policy(h) == Some(
                    extend_trie(
                        match old(self).host_policy(h) {
                            Some(t) => t,
                            None => initial_policy(),
                        },
                        spec_emissions(spec_captures(robots_txt@), old(self).agent()),
                    ),
                ) && forall|h2: Seq<char>|
                    h2 != h ==> #[trigger] final (self).host_policy(h2) == old(self).host_policy(
                        h2,
                    ),
                None => *final (self) == *old(self),
            },
    {
        match parse_host(host) {
            Some(hs) => {
                self.add_robots(hs, robots_txt);
                true
            },
            None => false,
        }
    }

    /// The answer for a host and path already parsed out of a URL: the
    /// host's engine answers, and an unknown host answers `Unspecified`.
    pub fn check_host_path(&self, host: &str, path: &str) -> (r: Permission)
        requires
            self.wf(),
        ensures
            match self.host_policy(host@) {
                Some(t) => t.get(path@) == Some(r),
                None => r == Permission::Unspecified,
            },
    {
        let hv = chars_of(host);
        match self.find_host(hv.as_slice()) {
            Some(j) => {
                let pair = &self.hosts[j];
                pair.1.check(path)
            },
            None => Permission::Unspecified,
        }
    }

    /// Checks the permission for a full URL: parse, find the host's engine,
    /// ask it for the URL's path.
    pub fn check(&self, url: &str) -> (r: Result<Permission, CheckError>)
        requires
            self.wf(),
        ensures
            match url_info_of(url@) {
                None => r matches Err(CheckError::ParseError(_)),
                Some(info) => match info.0 {
                    None => r matches Err(CheckError::MissingHost),
                    Some(h) => match self.host_policy(h) {
                        Some(t) => r matches Ok(p) && t.get(info.1) == Some(p),
                        None => r matches Ok(p) && p == Permission::Unspecified,
                    },
                },
            },
    {
        match parse_url_parts(url) {
            UrlParts::Invalid { detail } => Err(CheckError::ParseError(detail)),
            UrlParts::NoHost => Err(CheckError::MissingHost),
            UrlParts::Parsed { host, path } => Ok(
                self.check_host_path(host.as_str(), path.as_str()),
            ),
        }
    }

    /// Shrinks the internal data structures, saving a few bytes.
    pub fn shrink(&mut self)
        requires
            old(self).wf(),
        ensures
            final (self).wf(),
            final (self).agent() == old(self).agent(),
            forall|h: Seq<char>|
                #[trigger] final (self).host_policy(h) == old(self).host_policy(h),
    {
        let mut j: usize = 0;
        while j < self.hosts.len()
            invariant
                j <= self.hosts@.len(),
                self.user_agent == old(self).user_agent,
                self.hosts@.len() == old(self).hosts@.len(),
                forall|k: int|
                    j <= k < self.hosts@.len() ==> #[trigger] self.hosts@[k] == old(
                        self,
                    ).hosts@[k],
                forall|k: int|
                    0 <= k < self.hosts@.len() ==> (#[trigger] self.hosts@[k]).0@ == old(
                        self,
                    ).hosts@[k].0@ && self.hosts@[k].1.wf() && self.hosts@[k].1.agent() == old(
                        self,
                    ).agent() && self.hosts@[k].1.policy() == old(self).hosts@[k].1.policy(),
            decreases self.hosts@.len() - j,
        {
            let ghost hosts0 = self.hosts@;
            let mut pair = self.hosts.remove(j);
            pair.1.trim();
            self.hosts.insert(j, pair);
            proof {
                assert(self.hosts@ =~= hosts0.update(j as int, pair));
            }
            j += 1;
        }
        proof {
            assert forall|h: Seq<char>|
                #[trigger] final (self).host_policy(h) == old(self).host_policy(h) by {
                lemma_host_find_keys(self.hosts@, old(self).hosts@, h);
                lemma_host_find(self.hosts@, h);
            }
        }
    }
}

} // verus!
