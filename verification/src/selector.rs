use vstd::prelude::*;

verus! {

use crate::text::{contains_chars, contains_seq, eq_str, lower, to_lower};
use crate::tokenize::Directive;

// ---------------------------------------------------------------------------
// Pattern decoding
// ---------------------------------------------------------------------------

/// What percent-decoding makes of a pattern: `None` when the decoded bytes
/// are not valid UTF-8.  The result depends on the characters alone.
pub uninterp spec fn percent_decoded_of(s: Seq<char>) -> Option<Seq<char>>;

/// Relies on percent_encoding::percent_decode_str and
/// PercentDecode::decode_utf8: the decoding is a function of the input
/// characters alone.
#[verifier::external_body]
fn percent_decode_chars(v: &[char]) -> (r: Option<Vec<char>>)
    ensures
        match r {
            Some(d) => percent_decoded_of(v@) == Some(d@),
            None => percent_decoded_of(v@) is None,
        },
{
    let s: String = v.iter().collect();
    match percent_encoding::percent_decode_str(&s).decode_utf8() {
        Ok(cow) => Some(cow.chars().collect()),
        Err(_) => None,
    }
}

/// A trailing `$` becomes the end anchor `'\0'`; then the value is
/// percent-decoded, and kept as it was when decoding fails.
pub open spec fn spec_decode(v: Seq<char>) -> Seq<char> {
    let anchored = if v.len() > 0 && v.last() == '$' {
        v.drop_last().push('\0')
    } else {
        v
    };
    match percent_decoded_of(anchored) {
        Some(d) => d,
        None => anchored,
    }
}

/// Normalizes one captured value into the pattern the trie stores.
pub fn decode(val: Vec<char>) -> (r: Vec<char>)
    ensures
        r@ == spec_decode(val@),
{
    let mut v = val;
    let n = v.len();
    let ghost v0 = v@;
    if n > 0 && v[n - 1] == '$' {
        v.pop();
        v.push('\0');
        proof {
            assert(v@ =~= v0.drop_last().push('\0'));
        }
    }
    match percent_decode_chars(v.as_slice()) {
        Some(d) => d,
        None => v,
    }
}

// ---------------------------------------------------------------------------
// Group selection
// ---------------------------------------------------------------------------

/// Whether the group the selector currently walks applies to the configured
/// agent: the `*` group, the agent's own group, or neither.
#[derive(Clone, Copy, PartialEq, Eq, Structural, Debug)]
pub enum Match {
    Star,
    Yes,
    No,
}

/// The state a `user-agent` line moves the selector to.
pub open spec fn ua_state(val: Seq<char>, ua: Seq<char>) -> Match {
    if val == "*"@ {
        Match::Star
    } else if contains_seq(lower(val), ua) {
        Match::Yes
    } else {
        Match::No
    }
}

/// Whether a `user-agent` line names the configured agent, as a
/// case-insensitive substring.
pub open spec fn ua_hit(val: Seq<char>, ua: Seq<char>) -> bool {
    val != "*"@ && contains_seq(lower(val), ua)
}

/// The candidates the attuned first pass retains, each with the group state
/// it was retained under.
pub open spec fn retained_from(
    items: Seq<(Directive, Seq<char>)>,
    ua: Seq<char>,
    st: Match,
) -> Seq<(Match, Directive, Seq<char>)>
    decreases items.len(),
{
    if items.len() == 0 {
        Seq::empty()
    } else {
        let d = items[0].0;
        let val = items[0].1;
        match d {
            Directive::UserAgent => retained_from(items.skip(1), ua, ua_state(val, ua)),
            _ => {
                let rest = retained_from(items.skip(1), ua, st);
                if st is No {
                    rest
                } else {
                    seq![(st, d, val)] + rest
                }
            },
        }
    }
}

/// Whether any `user-agent` line in `items` names the agent.
pub open spec fn precise_from(items: Seq<(Directive, Seq<char>)>, ua: Seq<char>) -> bool
    decreases items.len(),
{
    if items.len() == 0 {
        false
    } else {
        (items[0].0 is UserAgent && ua_hit(items[0].1, ua)) || precise_from(items.skip(1), ua)
    }
}

/// The second pass: a candidate from the agent's own group always passes; one
/// from the `*` group passes only when no line anywhere named the agent.
pub open spec fn filter_weak_all(
    rs: Seq<(Match, Directive, Seq<char>)>,
    precise: bool,
) -> Seq<(Directive, Seq<char>)>
    decreases rs.len(),
{
    if rs.len() == 0 {
        Seq::empty()
    } else {
        let keep = rs[0].0 is Yes || (rs[0].0 is Star && !precise);
        let rest = filter_weak_all(rs.skip(1), precise);
        if keep {
            seq![(rs[0].1, rs[0].2)] + rest
        } else {
            rest
        }
    }
}

/// The single unattuned pass: only `*` groups count, and their rules are
/// emitted right away.
pub open spec fn unattuned_from(items: Seq<(Directive, Seq<char>)>, st: bool) -> Seq<
    (Directive, Seq<char>),
>
    decreases items.len(),
{
    if items.len() == 0 {
        Seq::empty()
    } else {
        let d = items[0].0;
        let val = items[0].1;
        match d {
            Directive::UserAgent => unattuned_from(items.skip(1), val == "*"@),
            _ => {
                let rest = unattuned_from(items.skip(1), st);
                if st {
                    seq![(d, val)] + rest
                } else {
                    rest
                }
            },
        }
    }
}

/// Every captured value, decoded.
pub open spec fn decode_all(items: Seq<(Directive, Seq<char>)>) -> Seq<(Directive, Seq<char>)> {
    items.map_values(|p: (Directive, Seq<char>)| (p.0, spec_decode(p.1)))
}

/// The `(directive, pattern)` pairs one tokenized text contributes to the
/// policy of an engine configured for `agent`.
pub open spec fn spec_emissions(
    caps: Seq<(Directive, Seq<char>)>,
    agent: Option<Seq<char>>,
) -> Seq<(Directive, Seq<char>)> {
    let dec = decode_all(caps);
    match agent {
        Some(ua) => filter_weak_all(retained_from(dec, ua, Match::No), precise_from(dec, ua)),
        None => unattuned_from(dec, false),
    }
}

/// One step of the attuned first pass: the next state, whether the line
/// named the agent, and the candidate retained, if any.
pub fn conform(state: Match, ua: &[char], d: Directive, val: Vec<char>) -> (r: (
    Match,
    bool,
    Option<(Match, Directive, Vec<char>)>,
))
    ensures
        d is UserAgent ==> r.0 == ua_state(val@, ua@) && r.1 == ua_hit(val@, ua@) && r.2 is None,
        !(d is UserAgent) ==> r.0 == state && r.1 == false && (match r.2 {
            Some(t) => !(state is No) && t == (state, d, val),
            None => state is No,
        }),
{
    match d {
        Directive::UserAgent => {
            if eq_str(val.as_slice(), "*") {
                (Match::Star, false, None)
            } else {
                let low = to_lower(val.as_slice());
                if contains_chars(low.as_slice(), ua) {
                    (Match::Yes, true, None)
                } else {
                    (Match::No, false, None)
                }
            }
        },
        _ => {
            if matches!(state, Match::No) {
                (state, false, None)
            } else {
                (state, false, Some((state, d, val)))
            }
        },
    }
}

/// One step of the second pass.
pub fn filter_weak(item: (Match, Directive, Vec<char>), precise: bool) -> (r: Option<
    (Directive, Vec<char>),
>)
    ensures
        match r {
            Some(p) => (item.0 is Yes || (item.0 is Star && !precise)) && p == (item.1, item.2),
            None => !(item.0 is Yes || (item.0 is Star && !precise)),
        },
{
    match item.0 {
        Match::Yes => Some((item.1, item.2)),
        Match::Star => {
            if !precise {
                Some((item.1, item.2))
            } else {
                None
            }
        },
        Match::No => None,
    }
}

} // verus!
