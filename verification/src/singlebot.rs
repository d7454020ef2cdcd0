use vstd::prelude::*;

verus! {

use crate::Permission;
use crate::selector::{
    conform,
    decode,
    decode_all,
    filter_weak,
    filter_weak_all,
    precise_from,
    retained_from,
    spec_decode,
    spec_emissions,
    unattuned_from,
    Match,
};
use crate::text::chars_of;
use crate::tokenize::{caps_view, capture_str, spec_captures, Directive};
use crate::trie::{lemma_lookup_total, PrefixTrie, SpecTrie};

// ---------------------------------------------------------------------------
// The policy an engine accumulates
// ---------------------------------------------------------------------------

/// The policy every engine starts from: the empty pattern answers every
/// query with `Unspecified`.
pub open spec fn initial_policy() -> SpecTrie<Permission> {
    SpecTrie::empty().insert(Seq::empty(), Permission::Unspecified)
}

/// Folds emitted `(directive, pattern)` pairs into a policy, in order:
/// `allow` stores `Allowed`, `disallow` stores `Denied`.
pub open spec fn extend_trie(
    t: SpecTrie<Permission>,
    adds: Seq<(Directive, Seq<char>)>,
) -> SpecTrie<Permission>
    decreases adds.len(),
{
    if adds.len() == 0 {
        t
    } else {
        let t2 = match adds[0].0 {
            Directive::Allow => t.insert(adds[0].1, Permission::Allowed),
            Directive::Disallow => t.insert(adds[0].1, Permission::Denied),
            Directive::UserAgent => t,
        };
        extend_trie(t2, adds.skip(1))
    }
}

/// The candidate triples an executable first pass stands for.
pub open spec fn rets_view(v: Seq<(Match, Directive, Vec<char>)>) -> Seq<
    (Match, Directive, Seq<char>),
> {
    Seq::new(v.len(), |i: int| (v[i].0, v[i].1, v[i].2@))
}

// ---------------------------------------------------------------------------
// Single-host engine
// ---------------------------------------------------------------------------

/// Answers queries against the `robots.txt` rules of one host, optionally
/// attuned to an agent key.
#[derive(Debug)]
pub struct SingleBot {
    prefixes: PrefixTrie<Permission>,
    user_agent: Option<Vec<char>>,
}

impl SingleBot {
    /// The engine's policy always answers: its root holds a default, and its
    /// trie is sound.
    pub closed spec fn wf(self) -> bool {
        self.prefixes.wf() && self.prefixes@.value is Some
    }

    /// The agent key this engine is attuned to, if any.
    pub closed spec fn agent(self) -> Option<Seq<char>> {
        match self.user_agent {
            Some(v) => Some(v@),
            None => None,
        }
    }

    /// The pattern trie this engine answers from.
    pub closed spec fn policy(self) -> SpecTrie<Permission> {
        self.prefixes@
    }

    /// Creates an engine attuned to `user_agent`, whose policy so far
    /// answers `Unspecified` everywhere.
    pub fn new(user_agent: Option<String>) -> (r: SingleBot)
        ensures
            r.wf(),
            r.policy() == initial_policy(),
            r.agent() == (match user_agent {
                Some(s) => Some(s@),
                None => None::<Seq<char>>,
            }),
    {
        let mut prefixes = PrefixTrie::new();
        let _ = prefixes.insert("", Permission::Unspecified);
        proof {
            reveal_strlit("");
            assert(""@ =~= Seq::<char>::empty());
        }
        let ua = match user_agent {
            Some(s) => Some(chars_of(s.as_str())),
            None => None,
        };
        SingleBot { prefixes, user_agent: ua }
    }

    /// Builds an unattuned engine from one robots text.
    pub fn from(robots_txt: &str) -> (r: SingleBot)
        ensures
            r.wf(),
            r.agent() is None,
            r.policy() == extend_trie(
                initial_policy(),
                spec_emissions(spec_captures(robots_txt@), None),
            ),
    {
        let mut bot = SingleBot::new(None);
        bot.add(robots_txt);
        bot
    }

    /// Adds the rules of one robots text; rules add up across calls, later
    /// inserts displacing earlier ones pattern by pattern.
    pub fn add(&mut self, robots_txt: &str)
        requires
            old(self).wf(),
        ensures
            final (self).wf(),
            final (self).agent() == old(self).agent(),
            final (self).policy() == extend_trie(
                old(self).policy(),
                spec_emissions(spec_captures(robots_txt@), old(self).agent()),
            ),
    {
        let caps = capture_str(robots_txt);
        self.extend_prefixes(caps);
    }

    /// Feeds captured directives through group selection into the trie.
    fn extend_prefixes(&mut self, captures: Vec<(Directive, Vec<char>)>)
        requires
            old(self).wf(),
        ensures
            final (self).wf(),
            final (self).user_agent == old(self).user_agent,
            final (self).prefixes@ == extend_trie(
                old(self).prefixes@,
                spec_emissions(caps_view(captures@), old(self).agent()),
            ),
    {
        if self.user_agent.is_some() {
            self.extend_prefixes_with_user_agent(captures);
        } else {
            self.extend_prefixes_without_user_agent(captures);
        }
    }

    /// Attuned ingestion: one pass retains candidates and watches for a
    /// group that names the agent, a second pass inserts the survivors.
    fn extend_prefixes_with_user_agent(&mut self, captures: Vec<(Directive, Vec<char>)>)
        requires
            old(self).wf(),
            old(self).user_agent is Some,
        ensures
            final (self).wf(),
            final (self).user_agent == old(self).user_agent,
            final (self).prefixes@ == extend_trie(
                old(self).prefixes@,
                spec_emissions(caps_view(captures@), Some(old(self).user_agent->0@)),
            ),
    {
        let ghost ua_seq = old(self).user_agent->0@;
        let ghost total = decode_all(caps_view(captures@));

        let mut caps = captures;
        let mut retained: Vec<(Match, Directive, Vec<char>)> = Vec::new();
        let mut precise = false;
        let mut state = Match::No;
        proof {
            assert(rets_view(retained@) + retained_from(total, ua_seq, Match::No) =~= retained_from(
                total,
                ua_seq,
                Match::No,
            ));
        }
        while caps.len() > 0
            invariant
                old(self).user_agent is Some,
                self == old(self),
                ua_seq == old(self).user_agent->0@,
                rets_view(retained@) + retained_from(decode_all(caps_view(caps@)), ua_seq, state)
                    == retained_from(total, ua_seq, Match::No),
                (precise || precise_from(decode_all(caps_view(caps@)), ua_seq)) == precise_from(
                    total,
                    ua_seq,
                ),
            decreases caps@.len(),
        {
            let ghost rem0 = decode_all(caps_view(caps@));
            let ghost caps0 = caps@;
            let ghost rets0 = retained@;
            let (d, val) = caps.remove(0);
            let ghost val0 = val@;
            proof {
                assert(caps_view(caps@) =~= caps_view(caps0).skip(1));
                assert(decode_all(caps_view(caps0).skip(1)) =~= rem0.skip(1));
                assert(rem0[0] == (d, spec_decode(val0)));
            }
            let val2 = decode(val);
            let ua_ref = self.user_agent.as_ref().unwrap();
            let (st2, hit, ret) = conform(state, ua_ref.as_slice(), d, val2);
            state = st2;
            if hit {
                precise = true;
            }
            match ret {
                Some(t) => {
                    retained.push(t);
                    proof {
                        assert(rets_view(retained@) =~= rets_view(rets0).push(
                            (t.0, t.1, t.2@),
                        ));
                    }
                },
                None => {},
            }
            proof {
                assert(decode_all(caps_view(caps@)) =~= rem0.skip(1));
                assert(rets_view(retained@) + retained_from(
                    decode_all(caps_view(caps@)),
                    ua_seq,
                    state,
                ) =~= retained_from(total, ua_seq, Match::No));
            }
        }
        proof {
            assert(decode_all(caps_view(caps@)) =~= Seq::<(Directive, Seq<char>)>::empty());
            assert(rets_view(retained@) =~= retained_from(total, ua_seq, Match::No));
            assert(precise == precise_from(total, ua_seq));
        }

        let ghost rets_total = rets_view(retained@);
        let mut rets = retained;
        proof {
            assert(self.prefixes@ == old(self).prefixes@);
        }
        while rets.len() > 0
            invariant
                self.user_agent == old(self).user_agent,
                self.prefixes.wf(),
                old(self).prefixes@.value is Some ==> self.prefixes@.value is Some,
                extend_trie(self.prefixes@, filter_weak_all(rets_view(rets@), precise))
                    == extend_trie(old(self).prefixes@, filter_weak_all(rets_total, precise)),
            decreases rets@.len(),
        {
            let ghost rem0 = rets_view(rets@);
            let ghost trie0 = self.prefixes@;
            let t = rets.remove(0);
            proof {
                assert(rets_view(rets@) =~= rem0.skip(1));
                assert(rem0[0] == (t.0, t.1, t.2@));
            }
            match filter_weak(t, precise) {
                Some((d2, v2)) => {
                    extend_prefix_trie(&mut self.prefixes, d2, v2.as_slice());
                    proof {
                        let rest = filter_weak_all(rem0.skip(1), precise);
                        let head = seq![(t.1, t.2@)];
                        assert(filter_weak_all(rem0, precise) == head + rest);
                        assert((head + rest)[0] == (t.1, t.2@));
                        assert((head + rest).skip(1) =~= rest);
                        assert(extend_trie(trie0, head + rest) == extend_trie(
                            self.prefixes@,
                            rest,
                        ));
                    }
                },
                None => {},
            }
        }
        proof {
            assert(filter_weak_all(rets_view(rets@), precise) =~= Seq::<
                (Directive, Seq<char>),
            >::empty());
        }
    }

    /// Unattuned ingestion: only `*` groups count, in one pass.
    fn extend_prefixes_without_user_agent(&mut self, captures: Vec<(Directive, Vec<char>)>)
        requires
            old(self).wf(),
            old(self).user_agent is None,
        ensures
            final (self).wf(),
            final (self).user_agent == old(self).user_agent,
            final (self).prefixes@ == extend_trie(
                old(self).prefixes@,
                spec_emissions(caps_view(captures@), None),
            ),
    {
        let ghost total = decode_all(caps_view(captures@));
        let mut caps = captures;
        let mut state = false;
        while caps.len() > 0
            invariant
                self.user_agent == old(self).user_agent,
                self.prefixes.wf(),
                old(self).prefixes@.value is Some ==> self.prefixes@.value is Some,
                extend_trie(self.prefixes@, unattuned_from(decode_all(caps_view(caps@)), state))
                    == extend_trie(old(self).prefixes@, unattuned_from(total, false)),
            decreases caps@.len(),
        {
            let ghost rem0 = decode_all(caps_view(caps@));
            let ghost caps0 = caps@;
            let ghost trie0 = self.prefixes@;
            let (d, val) = caps.remove(0);
            let ghost val0 = val@;
            proof {
                assert(caps_view(caps@) =~= caps_view(caps0).skip(1));
                assert(decode_all(caps_view(caps0).skip(1)) =~= rem0.skip(1));
                assert(rem0[0] == (d, spec_decode(val0)));
            }
            let val2 = decode(val);
            match d {
                Directive::UserAgent => {
                    state = crate::text::eq_str(val2.as_slice(), "*");
                },
                _ => {
                    if state {
                        extend_prefix_trie(&mut self.prefixes, d, val2.as_slice());
                        proof {
                            let rest = unattuned_from(rem0.skip(1), state);
                            let head = seq![(d, spec_decode(val0))];
                            assert(unattuned_from(rem0, state) == head + rest);
                            assert((head + rest)[0] == (d, spec_decode(val0)));
                            assert((head + rest).skip(1) =~= rest);
                            assert(extend_trie(trie0, head + rest) == extend_trie(
                                self.prefixes@,
                                rest,
                            ));
                        }
                    }
                },
            }
        }
        proof {
            assert(unattuned_from(decode_all(caps_view(caps@)), state) =~= Seq::<
                (Directive, Seq<char>),
            >::empty());
        }
    }

    /// Trims the internal data structure, saving a few bytes.
    pub fn trim(&mut self)
        ensures
            final (self).wf() == old(self).wf(),
            final (self).agent() == old(self).agent(),
            final (self).policy() == old(self).policy(),
    {
        self.prefixes.shrink();
    }

    /// Checks the permission defined for a specific URL path.
    pub fn check(&self, url: &str) -> (r: Permission)
        requires
            self.wf(),
        ensures
            self.policy().get(url@) == Some(r),
    {
        proof {
            lemma_lookup_total(self.prefixes@, url@);
        }
        let res = self.prefixes.get(url);
        res.unwrap()
    }
}

impl Default for SingleBot {
    fn default() -> (r: Self)
        ensures
            r.wf(),
            r.policy() == initial_policy(),
            r.agent() is None,
    {
        SingleBot::new(None)
    }
}

/// Parsing one text is deterministic: two engines with the same agent key
/// built from the same text answer every query alike.
pub proof fn lemma_parse_deterministic(
    a: SingleBot,
    b: SingleBot,
    text: Seq<char>,
    agent: Option<Seq<char>>,
    q: Seq<char>,
)
    requires
        a.policy() == extend_trie(initial_policy(), spec_emissions(spec_captures(text), agent)),
        b.policy() == extend_trie(initial_policy(), spec_emissions(spec_captures(text), agent)),
    ensures
        a.policy().get(q) == b.policy().get(q),
{
}

/// Stores one emitted rule in the trie: `allow` as `Allowed`, `disallow` as
/// `Denied`.
fn extend_prefix_trie(prefixes: &mut PrefixTrie<Permission>, d: Directive, val: &[char])
    requires
        old(prefixes).wf(),
    ensures
        final (prefixes).wf(),
        final (prefixes)@ == (match d {
            Directive::Allow => old(prefixes)@.insert(val@, Permission::Allowed),
            Directive::Disallow => old(prefixes)@.insert(val@, Permission::Denied),
            Directive::UserAgent => old(prefixes)@,
        }),
        old(prefixes)@.value is Some ==> final (prefixes)@.value is Some,
{
    match d {
        Directive::Allow => {
            let _ = prefixes.insert_chars(val, Permission::Allowed);
        },
        Directive::Disallow => {
            let _ = prefixes.insert_chars(val, Permission::Denied);
        },
        Directive::UserAgent => {},
    }
}

} // verus!
