use vstd::prelude::*;

verus! {

use crate::text::{
    chars_of,
    contains_space,
    eq_str,
    find_char,
    find_from,
    has_space,
    lemma_find_char,
    lower,
    to_lower,
    trim,
    trimmed,
};

/// The directives a `robots.txt` policy is read from; every other key is
/// discarded.
#[derive(Clone, Copy, PartialEq, Eq, Structural, Debug)]
pub enum Directive {
    UserAgent,
    Allow,
    Disallow,
}

// ---------------------------------------------------------------------------
// One line
// ---------------------------------------------------------------------------

/// The line up to its first `#`, which starts a comment.
pub open spec fn spec_strip_comment(l: Seq<char>) -> Seq<char> {
    let i = find_char(l, '#');
    if i >= 0 {
        l.take(i)
    } else {
        l
    }
}

/// Splits a non-empty line at its first `:` into key and value.
pub open spec fn spec_parse_pair(l: Seq<char>) -> Option<(Seq<char>, Seq<char>)> {
    if l.len() == 0 {
        None
    } else {
        let i = find_char(l, ':');
        if i >= 0 {
            Some((l.take(i), l.skip(i + 1)))
        } else {
            None
        }
    }
}

/// The directive a lowercased, trimmed key names.
pub open spec fn key_directive(k: Seq<char>) -> Option<Directive> {
    if k == "user-agent"@ {
        Some(Directive::UserAgent)
    } else if k == "allow"@ {
        Some(Directive::Allow)
    } else if k == "disallow"@ {
        Some(Directive::Disallow)
    } else {
        None
    }
}

/// Trims both parts, lowercases the key, and keeps the pair only when the
/// key names a directive and the value carries no whitespace.
pub open spec fn spec_filter_and_normalize(op: Seq<char>, val: Seq<char>) -> Option<
    (Directive, Seq<char>),
> {
    let key = lower(trim(op));
    let v = trim(val);
    match key_directive(key) {
        None => None,
        Some(d) => if has_space(v) {
            None
        } else {
            Some((d, v))
        },
    }
}

/// What one raw line contributes: its directive and value, if any.
pub open spec fn spec_tokenize_line(l: Seq<char>) -> Option<(Directive, Seq<char>)> {
    match spec_parse_pair(spec_strip_comment(l)) {
        None => None,
        Some((op, val)) => spec_filter_and_normalize(op, val),
    }
}

/// The line up to its first `#`, which starts a comment.
pub fn strip_comment<'a>(line: &'a [char]) -> (r: &'a [char])
    ensures
        r@ == spec_strip_comment(line@),
{
    proof {
        lemma_find_char(line@, '#');
    }
    match find_from(line, 0, '#') {
        Some(i) => {
            let r = &line[0..i];
            proof {
                assert(line@.skip(0) =~= line@);
                assert(r@ =~= line@.take(i as int));
            }
            r
        },
        None => {
            proof {
                assert(line@.skip(0) =~= line@);
            }
            line
        },
    }
}

/// Splits a non-empty line at its first `:` into key and value.
pub fn parse_pair<'a>(line: &'a [char]) -> (r: Option<(&'a [char], &'a [char])>)
    ensures
        match r {
            Some(p) => spec_parse_pair(line@) == Some((p.0@, p.1@)),
            None => spec_parse_pair(line@) is None,
        },
{
    if line.len() == 0 {
        return None;
    }
    proof {
        assert(line@.skip(0) =~= line@);
    }
    match find_from(line, 0, ':') {
        Some(i) => {
            let op = &line[0..i];
            let val = &line[i + 1..line.len()];
            proof {
                assert(op@ =~= line@.take(i as int));
                assert(val@ =~= line@.skip(i + 1 as int));
            }
            Some((op, val))
        },
        None => None,
    }
}

/// Trims both parts, lowercases the key, and keeps the pair only when the
/// key names a directive and the value carries no whitespace.
pub fn filter_and_normalize(op: &[char], val: &[char]) -> (r: Option<(Directive, Vec<char>)>)
    ensures
        match r {
            Some(p) => spec_filter_and_normalize(op@, val@) == Some((p.0, p.1@)),
            None => spec_filter_and_normalize(op@, val@) is None,
        },
{
    let key = to_lower(trimmed(op));
    let d = if eq_str(key.as_slice(), "user-agent") {
        Directive::UserAgent
    } else if eq_str(key.as_slice(), "allow") {
        Directive::Allow
    } else if eq_str(key.as_slice(), "disallow") {
        Directive::Disallow
    } else {
        return None;
    };
    let v = trimmed(val);
    if contains_space(v) {
        return None;
    }
    let mut out: Vec<char> = Vec::new();
    out.extend_from_slice(v);
    proof {
        assert(out@ =~= trim(val@));
    }
    Some((d, out))
}

/// What one raw line contributes: its directive and value, if any.
pub fn tokenize_line(line: &[char]) -> (r: Option<(Directive, Vec<char>)>)
    ensures
        match r {
            Some(p) => spec_tokenize_line(line@) == Some((p.0, p.1@)),
            None => spec_tokenize_line(line@) is None,
        },
{
    let stripped = strip_comment(line);
    match parse_pair(stripped) {
        Some((op, val)) => filter_and_normalize(op, val),
        None => None,
    }
}

// ---------------------------------------------------------------------------
// A whole text
// ---------------------------------------------------------------------------

/// A line's final `'\r'` is part of its terminator, not of the line.
pub open spec fn strip_cr(l: Seq<char>) -> Seq<char> {
    if l.len() > 0 && l.last() == '\r' {
        l.drop_last()
    } else {
        l
    }
}

/// The lines of a text: split at `'\n'`, a `'\r'` before the split removed,
/// and no empty line after a final terminator.
pub open spec fn spec_lines(s: Seq<char>) -> Seq<Seq<char>>
    decreases s.len(),
{
    if s.len() == 0 {
        Seq::empty()
    } else {
        let i = find_char(s, '\n');
        if 0 <= i < s.len() {
            seq![strip_cr(s.take(i))] + spec_lines(s.skip(i + 1))
        } else {
            seq![s]
        }
    }
}

/// The `(directive, value)` pairs the given lines contribute, in order.
pub open spec fn captures_of_lines(ls: Seq<Seq<char>>) -> Seq<(Directive, Seq<char>)>
    decreases ls.len(),
{
    if ls.len() == 0 {
        Seq::empty()
    } else {
        match spec_tokenize_line(ls[0]) {
            Some(p) => seq![p] + captures_of_lines(ls.skip(1)),
            None => captures_of_lines(ls.skip(1)),
        }
    }
}

/// The `(directive, value)` pairs a raw text contributes, in order.
pub open spec fn spec_captures(s: Seq<char>) -> Seq<(Directive, Seq<char>)> {
    captures_of_lines(spec_lines(s))
}

/// The sequence of pairs a capture vector stands for.
pub open spec fn caps_view(v: Seq<(Directive, Vec<char>)>) -> Seq<(Directive, Seq<char>)> {
    Seq::new(v.len(), |i: int| (v[i].0, v[i].1@))
}

/// Tokenizes a whole text, line by line.
pub fn capture_chars(input: &[char]) -> (r: Vec<(Directive, Vec<char>)>)
    ensures
        caps_view(r@) == spec_captures(input@),
{
    let mut out: Vec<(Directive, Vec<char>)> = Vec::new();
    let mut pos: usize = 0;
    proof {
        assert(input@.skip(0) =~= input@);
        assert(caps_view(out@) + spec_captures(input@) =~= spec_captures(input@));
    }
    while pos < input.len()
        invariant
            pos <= input@.len(),
            caps_view(out@) + spec_captures(input@.skip(pos as int)) =~= spec_captures(input@),
        decreases input@.len() - pos,
    {
        let ghost rest = input@.skip(pos as int);
        let ghost out0 = out@;
        let (line_end, next_pos, had_nl) = match find_from(input, pos, '\n') {
            Some(j) => (j, j + 1, true),
            None => (input.len(), input.len(), false),
        };
        let line: &[char] = if had_nl && line_end > pos && input[line_end - 1] == '\r' {
            &input[pos..line_end - 1]
        } else {
            &input[pos..line_end]
        };
        proof {
            lemma_find_char(rest, '\n');
            let i = find_char(rest, '\n');
            if i >= 0 {
                assert(line_end == pos + i);
                assert(rest.take(i) =~= input@.subrange(pos as int, line_end as int));
                assert(line@ =~= strip_cr(rest.take(i)));
                assert(rest.skip(i + 1) =~= input@.skip(next_pos as int));
                assert(spec_lines(rest) == seq![line@] + spec_lines(
                    input@.skip(next_pos as int),
                ));
            } else {
                assert(line@ =~= rest);
                assert(spec_lines(rest) == seq![line@]);
                assert(input@.skip(next_pos as int) =~= Seq::<char>::empty());
                assert(spec_lines(rest) =~= seq![line@] + spec_lines(
                    input@.skip(next_pos as int),
                ));
            }
        }
        match tokenize_line(line) {
            Some(p) => {
                out.push(p);
            },
            None => {},
        }
        proof {
            let ls0 = spec_lines(rest);
            assert(ls0[0] == line@);
            assert(ls0.skip(1) =~= spec_lines(input@.skip(next_pos as int)));
            assert(caps_view(out@) =~= match spec_tokenize_line(line@) {
                Some(q) => caps_view(out0) + seq![q],
                None => caps_view(out0),
            });
            assert(caps_view(out@) + spec_captures(input@.skip(next_pos as int))
                =~= caps_view(out0) + spec_captures(rest));
        }
        pos = next_pos;
    }
    proof {
        assert(input@.skip(pos as int) =~= Seq::<char>::empty());
        assert(caps_view(out@) =~= spec_captures(input@));
    }
    out
}

/// Tokenizes a robots text given as a string.
pub fn capture_str(input: &str) -> (r: Vec<(Directive, Vec<char>)>)
    ensures
        caps_view(r@) == spec_captures(input@),
{
    let chars = chars_of(input);
    capture_chars(chars.as_slice())
}

} // verus!
