//! The input of a run: rule lines, one line of facts that starts with `=`
//! and one line of queries that starts with `?`.
//!
//! Before a line is looked at, what follows a `#` is cut off and blank space
//! is taken out. Facts and queries are upper-case letters; a letter given
//! twice counts once, at its first place.

use vstd::prelude::*;
use vstd::string::{StrSliceExecFns, StringExecFns};
use crate::token::{is_identifier, is_identifier_char, is_space, is_whitespace};
use crate::variables::{distinct, merge, holds_char};
use crate::engine::texts;

verus! {

/// What was read from the lines of an input.
#[derive(Debug, PartialEq, Eq)]
pub struct Input {
    pub rules: Vec<String>,
    pub facts: String,
    pub queries: String,
}

/// Why the lines are no input.
#[derive(Clone, Copy, Debug, PartialEq, Eq, Structural)]
pub enum InputError {
    MultipleFacts,
    MultipleQueries,
    NoFacts,
    NoQueries,
    InvalidFact(char),
    InvalidQuery(char),
}

/// The rules, facts and queries as plain text.
pub struct Sections {
    pub rules: Seq<Seq<char>>,
    pub facts: Option<Seq<char>>,
    pub queries: Option<Seq<char>>,
}

/// A line without its comment and without blank space.
pub open spec fn sanitized(line: Seq<char>) -> Seq<char>
    decreases line.len(),
{
    if line.len() == 0 || line[0] == '#' {
        Seq::empty()
    } else if is_space(line[0]) {
        sanitized(line.drop_first())
    } else {
        seq![line[0]] + sanitized(line.drop_first())
    }
}

/// The sections after one more sanitized line: an empty line changes
/// nothing, a line that starts with `=` or `?` gives the facts or the
/// queries, which may be given once only, and any other line is a rule.
pub open spec fn take_line(acc: Sections, line: Seq<char>) -> Result<Sections, InputError> {
    if line.len() == 0 {
        Ok(acc)
    } else if line[0] == '=' {
        if acc.facts is Some {
            Err(InputError::MultipleFacts)
        } else {
            Ok(Sections { facts: Some(line.drop_first()), ..acc })
        }
    } else if line[0] == '?' {
        if acc.queries is Some {
            Err(InputError::MultipleQueries)
        } else {
            Ok(Sections { queries: Some(line.drop_first()), ..acc })
        }
    } else {
        Ok(Sections { rules: acc.rules.push(line), ..acc })
    }
}

/// The sections of the lines, taken in order; the first line that gives
/// facts or queries a second time ends the reading.
pub open spec fn sections(lines: Seq<Seq<char>>) -> Result<Sections, InputError>
    decreases lines.len(),
{
    if lines.len() == 0 {
        Ok(Sections { rules: Seq::empty(), facts: None, queries: None })
    } else {
        match sections(lines.drop_last()) {
            Err(e) => Err(e),
            Ok(acc) => take_line(acc, sanitized(lines.last())),
        }
    }
}

/// The first character of `s` that is no upper-case letter.
pub open spec fn first_outside(s: Seq<char>) -> Option<char>
    decreases s.len(),
{
    if s.len() == 0 {
        None
    } else if !is_identifier_char(s[0]) {
        Some(s[0])
    } else {
        first_outside(s.drop_first())
    }
}

/// The input that the lines hold, or why they hold none. Facts are looked
/// at before queries.
pub open spec fn read(lines: Seq<Seq<char>>) -> Result<Sections, InputError> {
    match sections(lines) {
        Err(e) => Err(e),
        Ok(found) => match found.facts {
            None => Err(InputError::NoFacts),
            Some(facts) => match first_outside(facts) {
                Some(c) => Err(InputError::InvalidFact(c)),
                None => match found.queries {
                    None => Err(InputError::NoQueries),
                    Some(queries) => match first_outside(queries) {
                        Some(c) => Err(InputError::InvalidQuery(c)),
                        None => Ok(
                            Sections {
                                rules: found.rules,
                                facts: Some(distinct(facts)),
                                queries: Some(distinct(queries)),
                            },
                        ),
                    },
                },
            },
        },
    }
}

/// The rules as they are shown: each on a line of its own, set in by two
/// spaces.
pub open spec fn rule_lines(rules: Seq<Seq<char>>) -> Seq<char>
    decreases rules.len(),
{
    if rules.len() == 0 {
        Seq::empty()
    } else {
        rule_lines(rules.drop_last()) + "  "@ + rules.last() + "\n"@
    }
}

/// An input as it is shown: the rules under their heading, then the facts
/// and the queries, each on one line.
pub open spec fn shown(input: Sections) -> Seq<char> {
    "Rules:\n"@ + rule_lines(input.rules) + "Facts: "@ + input.facts.unwrap_or(Seq::empty()) + "\n"@
        + "Queries: "@ + input.queries.unwrap_or(Seq::empty()) + "\n"@
}

/// The text of a string that may be missing.
pub open spec fn text_of(s: Option<String>) -> Option<Seq<char>> {
    match s {
        Some(t) => Some(t@),
        None => None,
    }
}

/// `String::push`: the string with `c` added at its end.
#[verifier::external_body]
fn push_char(s: &mut String, c: char)
    ensures
        final(s)@ == old(s)@.push(c),
{
    s.push(c)
}

/// Cuts the comment off a line and takes the blank space out.
pub fn sanitize(line: &str) -> (r: String)
    ensures
        r@ == sanitized(line@),
{
    let n: usize = line.unicode_len();
    let mut out: String = String::new();
    let mut i: usize = 0;
    proof {
        assert(line@.skip(0) =~= line@);
        assert(out@ + sanitized(line@) =~= sanitized(line@));
    }
    while i < n
        invariant
            n == line@.len(),
            i <= n,
            out@ + sanitized(line@.skip(i as int)) == sanitized(line@),
        decreases n - i,
    {
        let c = line.get_char(i);
        proof {
            let rest = line@.skip(i as int);
            assert(rest[0] == c);
            assert(rest.drop_first() =~= line@.skip(i + 1));
            assert(out@ + (seq![c] + sanitized(rest.drop_first())) =~= out@.push(c) + sanitized(rest.drop_first()));
        }
        if c == '#' {
            proof {
                assert(out@ + Seq::<char>::empty() =~= out@);
            }
            return out;
        }
        if !is_whitespace(c) {
            push_char(&mut out, c);
        }
        i = i + 1;
    }
    proof {
        assert(out@ + Seq::<char>::empty() =~= out@);
    }
    out
}

/// The text behind the first character.
pub fn without_first(s: &str) -> (r: String)
    requires
        s@.len() > 0,
    ensures
        r@ == s@.drop_first(),
{
    let n: usize = s.unicode_len();
    let r = String::from_str(s.substring_char(1, n));
    proof {
        assert(s@.subrange(1, n as int) =~= s@.drop_first());
    }
    r
}

/// Finds the first character that is no upper-case letter.
pub fn first_invalid(s: &str) -> (r: Option<char>)
    ensures
        r == first_outside(s@),
{
    let n: usize = s.unicode_len();
    let mut i: usize = 0;
    proof {
        assert(s@.skip(0) =~= s@);
    }
    while i < n
        invariant
            n == s@.len(),
            i <= n,
            first_outside(s@.skip(i as int)) == first_outside(s@),
        decreases n - i,
    {
        let c = s.get_char(i);
        proof {
            assert(s@.skip(i as int)[0] == c);
            assert(s@.skip(i as int).drop_first() =~= s@.skip(i + 1));
        }
        if !is_identifier(c) {
            return Some(c);
        }
        i = i + 1;
    }
    None
}

/// The characters of `s`, each once, in the order of first occurrence.
pub fn dedup(s: &str) -> (r: String)
    ensures
        r@ == distinct(s@),
{
    let n: usize = s.unicode_len();
    let mut out: String = String::new();
    let mut seen: Vec<char> = Vec::new();
    let mut i: usize = 0;
    proof {
        assert(s@.skip(0) =~= s@);
    }
    while i < n
        invariant
            n == s@.len(),
            i <= n,
            out@ == seen@,
            merge(seen@, s@.skip(i as int)) == distinct(s@),
        decreases n - i,
    {
        let c = s.get_char(i);
        proof {
            assert(s@.skip(i as int)[0] == c);
            assert(s@.skip(i as int).drop_first() =~= s@.skip(i + 1));
        }
        if !holds_char(&seen, c) {
            seen.push(c);
            push_char(&mut out, c);
        }
        i = i + 1;
    }
    out
}

impl Input {
    /// The input as plain text.
    pub open spec fn view(&self) -> Sections {
        Sections { rules: texts(self.rules@), facts: Some(self.facts@), queries: Some(self.queries@) }
    }

    /// The input as text, for printing.
    pub fn to_text(&self) -> (s: String)
        ensures
            s@ == shown(self@),
    {
        let mut out = String::from_str("Rules:\n");
        let mut i: usize = 0;
        let ghost all = texts(self.rules@);
        proof {
            assert(all.take(0) =~= Seq::<Seq<char>>::empty());
            assert("Rules:\n"@ + Seq::<char>::empty() =~= "Rules:\n"@);
        }
        while i < self.rules.len()
            invariant
                i <= self.rules.len(),
                all == texts(self.rules@),
                out@ == "Rules:\n"@ + rule_lines(all.take(i as int)),
            decreases self.rules.len() - i,
        {
            proof {
                assert(all.take(i + 1).drop_last() =~= all.take(i as int));
                assert(all.take(i + 1).last() == self.rules@[i as int]@);
                let before = rule_lines(all.take(i as int));
                assert("Rules:\n"@ + (before + "  "@ + self.rules@[i as int]@ + "\n"@) =~= "Rules:\n"@ + before
                    + "  "@ + self.rules@[i as int]@ + "\n"@);
            }
            out.append("  ");
            out.append(self.rules[i].as_str());
            out.append("\n");
            i = i + 1;
        }
        proof {
            assert(all.take(self.rules.len() as int) =~= all);
        }
        out.append("Facts: ");
        out.append(self.facts.as_str());
        out.append("\n");
        out.append("Queries: ");
        out.append(self.queries.as_str());
        out.append("\n");
        out
    }

    /// Reads an input from its lines. The lines may come in any order; rules
    /// keep theirs. It fails where facts or queries are given twice, are
    /// missing, or hold anything but upper-case letters.
    pub fn try_from(lines: Vec<String>) -> (r: Result<Input, InputError>)
        ensures
            match r {
                Ok(input) => read(texts(lines@)) == Ok::<Sections, InputError>(input@),
                Err(e) => read(texts(lines@)) == Err::<Sections, InputError>(e),
            },
    {
        let mut rules: Vec<String> = Vec::new();
        let mut facts: Option<String> = None;
        let mut queries: Option<String> = None;
        let mut i: usize = 0;
        let ghost all = texts(lines@);
        proof {
            assert(all.take(0) =~= Seq::<Seq<char>>::empty());
            assert(texts(rules@) =~= Seq::<Seq<char>>::empty());
        }
        while i < lines.len()
            invariant
                i <= lines.len(),
                all == texts(lines@),
                sections(all.take(i as int)) == Ok::<Sections, InputError>(
                    Sections { rules: texts(rules@), facts: text_of(facts), queries: text_of(queries) },
                ),
            decreases lines.len() - i,
        {
            let line = sanitize(lines[i].as_str());
            let ghost before = texts(rules@);
            proof {
                assert(all.take(i + 1).drop_last() =~= all.take(i as int));
                assert(all.take(i + 1).last() == lines@[i as int]@);
            }
            if line.as_str().unicode_len() > 0 {
                let first = line.as_str().get_char(0);
                if first == '=' {
                    if facts.is_some() {
                        proof {
                            assert(all.take(lines.len() as int) =~= all);
                            lemma_sections_error(all, i + 1);
                        }
                        return Err(InputError::MultipleFacts);
                    }
                    facts = Some(without_first(line.as_str()));
                } else if first == '?' {
                    if queries.is_some() {
                        proof {
                            assert(all.take(lines.len() as int) =~= all);
                            lemma_sections_error(all, i + 1);
                        }
                        return Err(InputError::MultipleQueries);
                    }
                    queries = Some(without_first(line.as_str()));
                } else {
                    rules.push(line);
                    proof {
                        assert(texts(rules@) =~= before.push(sanitized(lines@[i as int]@)));
                    }
                }
            }
            i = i + 1;
        }
        proof {
            assert(all.take(lines.len() as int) =~= all);
        }
        let facts = match facts {
            None => { return Err(InputError::NoFacts); },
            Some(f) => f,
        };
        if let Some(c) = first_invalid(facts.as_str()) {
            return Err(InputError::InvalidFact(c));
        }
        let queries = match queries {
            None => { return Err(InputError::NoQueries); },
            Some(q) => q,
        };
        if let Some(c) = first_invalid(queries.as_str()) {
            return Err(InputError::InvalidQuery(c));
        }
        Ok(Input { rules, facts: dedup(facts.as_str()), queries: dedup(queries.as_str()) })
    }
}

/// Once the reading of the first `upto` lines has failed, the lines behind
/// them change nothing.
pub proof fn lemma_sections_error(lines: Seq<Seq<char>>, upto: int)
    requires
        0 <= upto <= lines.len(),
        sections(lines.take(upto)) is Err,
    ensures
        sections(lines) == sections(lines.take(upto)),
    decreases lines.len() - upto,
{
    if upto < lines.len() {
        assert(lines.take(upto + 1).drop_last() =~= lines.take(upto));
        lemma_sections_error(lines, upto + 1);
    } else {
        assert(lines.take(upto) =~= lines);
    }
}

impl InputError {
    /// The error in words.
    pub fn message(&self) -> (s: String)
        ensures
            s@ == match *self {
                InputError::MultipleFacts => "Multiple facts found in input file"@,
                InputError::MultipleQueries => "Multiple queries found in input file"@,
                InputError::NoFacts => "No facts in input file"@,
                InputError::NoQueries => "No queries in input file"@,
                InputError::InvalidFact(c) => "Invalid identifier in facts: '"@.push(c).push('\''),
                InputError::InvalidQuery(c) => "Invalid identifier in query: '"@.push(c).push('\''),
            },
    {
        match *self {
            InputError::MultipleFacts => String::from_str("Multiple facts found in input file"),
            InputError::MultipleQueries => String::from_str("Multiple queries found in input file"),
            InputError::NoFacts => String::from_str("No facts in input file"),
            InputError::NoQueries => String::from_str("No queries in input file"),
            InputError::InvalidFact(c) => {
                let mut s = String::from_str("Invalid identifier in facts: '");
                push_char(&mut s, c);
                push_char(&mut s, '\'');
                s
            },
            InputError::InvalidQuery(c) => {
                let mut s = String::from_str("Invalid identifier in query: '");
                push_char(&mut s, c);
                push_char(&mut s, '\'');
                s
            },
        }
    }
}

} // verus!
