use vstd::prelude::*;

verus! {

use crate::Permission;
use crate::selector::spec_emissions;
use crate::singlebot::{extend_trie, initial_policy, SingleBot};
use crate::tokenize::spec_captures;
use crate::trie::SpecTrie;
use vstd::string::StringExecFns;

/// Checks paths against one host's `robots.txt` on behalf of the agent
/// "nicebot".
#[derive(Debug)]
pub struct NiceBot {
    bot: SingleBot,
}

impl NiceBot {
    /// The engine always answers.
    pub closed spec fn wf(self) -> bool {
        self.bot.wf()
    }

    /// The pattern trie this engine answers from.
    pub closed spec fn policy(self) -> SpecTrie<Permission> {
        self.bot.policy()
    }

    /// Builds the engine from one robots text, attuned to "nicebot".
    pub fn from(robots_txt: &str) -> (r: NiceBot)
        ensures
            r.wf(),
            r.policy() == extend_trie(
                initial_policy(),
                spec_emissions(spec_captures(robots_txt@), Some("nicebot"@)),
            ),
    {
        let agent = String::from_str("nicebot");
        let mut bot = SingleBot::new(Some(agent));
        bot.add(robots_txt);
        NiceBot { bot }
    }

    /// Trims the internal data structure, saving a few bytes.
    pub fn trim(&mut self)
        ensures
            final (self).wf() == old(self).wf(),
            final (self).policy() == old(self).policy(),
    {
        self.bot.trim();
    }

    /// Checks the permission defined for a specific URL path.
    pub fn check(&self, url: &str) -> (r: Permission)
        requires
            self.wf(),
        ensures
            self.policy().get(url@) == Some(r),
    {
        self.bot.check(url)
    }
}

} // verus!
