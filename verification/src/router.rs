//! The router: an ordered list of rules, each a pattern and the name of a
//! source. The first rule whose pattern matches a key routes it.

use crate::captures::Captures;
use crate::request::Request;
use regex::Regex;
use vstd::prelude::*;
use vstd::string::*;

verus! {

/// Why a rule could not be made.
#[derive(Debug)]
pub enum Error {
    /// `Regex::new` did not accept the pattern; the text is what it said.
    InvalidPattern(String),
}

/// One capture group of a match: its name, if it has one, and the text it
/// matched, if it took part in the match.
pub type Group = (Option<String>, Option<String>);

pub type GroupView = (Option<Seq<char>>, Option<Seq<char>>);

/// Whether `Regex::new` accepts `pattern`.
pub uninterp spec fn regex_valid(pattern: Seq<char>) -> bool;

/// What `Regex::captures` finds of `pattern` in `key`: nothing where the
/// pattern is not accepted or does not match; else the capture groups in
/// the order of their opening parentheses, the whole match first.
pub uninterp spec fn regex_captures(pattern: Seq<char>, key: Seq<char>) -> Option<Seq<GroupView>>;

pub open spec fn group_view(g: Group) -> GroupView {
    (
        match g.0 {
            Some(name) => Some(name@),
            None => None,
        },
        match g.1 {
            Some(text) => Some(text@),
            None => None,
        },
    )
}

pub open spec fn groups_view(r: Option<Vec<Group>>) -> Option<Seq<GroupView>> {
    match r {
        Some(groups) => Some(groups@.map_values(|g: Group| group_view(g))),
        None => None,
    }
}

/// `Regex::new` compiles a pattern, or says in words why it cannot.
#[verifier::external_body]
pub(crate) fn check_pattern(pattern: &str) -> (r: Result<(), String>)
    ensures
        r is Ok <==> regex_valid(pattern@),
{
    Regex::new(pattern).map(|_| ()).map_err(|e| e.to_string())
}

/// `Regex::captures` on the pattern compiled by `Regex::new`: the groups of
/// the leftmost match, each with its name from `Regex::capture_names`.
#[verifier::external_body]
pub(crate) fn capture_groups(pattern: &str, key: &str) -> (r: Option<Vec<Group>>)
    ensures
        groups_view(r) == regex_captures(pattern@, key@),
{
    let re = Regex::new(pattern).ok()?;
    let caps = re.captures(key)?;
    Some(
        re.capture_names().zip(caps.iter()).map(
            |(n, m)| (n.map(String::from), m.map(|m| m.as_str().to_string())),
        ).collect(),
    )
}

/// The captures that the groups of a match give: each named group that
/// took part in the match lets its name stand for its text.
pub open spec fn captured(groups: Seq<GroupView>) -> Map<Seq<char>, Seq<char>>
    decreases groups.len(),
{
    if groups.len() == 0 {
        Map::empty()
    } else {
        let before = captured(groups.drop_last());
        match groups.last() {
            (Some(name), Some(text)) => before.insert(name, text),
            _ => before,
        }
    }
}

/// The captures of a request for `key` routed by a match with `groups`:
/// those of the groups, and `$key` for the key.
pub open spec fn routed_captures(groups: Seq<GroupView>, key: Seq<char>) -> Map<
    Seq<char>,
    Seq<char>,
> {
    captured(groups).insert("$key"@, key)
}

/// Whether `pattern` matches `key`.
pub open spec fn matches(pattern: Seq<char>, key: Seq<char>) -> bool {
    regex_captures(pattern, key) is Some
}

impl Request {
    /// The request for `key` if `pattern` matches it: its captures are the
    /// named groups of the match, and `$key`.
    pub fn match_regex(pattern: &str, key: &str) -> (r: Option<Self>)
        ensures
            match r {
                Some(request) => {
                    &&& matches(pattern@, key@)
                    &&& request@.key == key@
                    &&& request@.captures == routed_captures(
                        regex_captures(pattern@, key@)->0,
                        key@,
                    )
                    &&& request@.sources is None
                },
                None => !matches(pattern@, key@),
            },
    {
        let groups = match capture_groups(pattern, key) {
            Some(groups) => groups,
            None => {
                return None;
            },
        };
        let ghost all = groups@.map_values(|g: Group| group_view(g));
        let mut captures = Captures::new();
        let mut i: usize = 0;
        assert(all.take(0) == Seq::<GroupView>::empty());
        while i < groups.len()
            invariant
                i <= groups.len(),
                all == groups@.map_values(|g: Group| group_view(g)),
                captures@ == captured(all.take(i as int)),
            decreases groups.len() - i,
        {
            proof {
                assert(all.take(i + 1).drop_last() == all.take(i as int));
                assert(all.take(i + 1).last() == group_view(groups@[i as int]));
            }
            match (&groups[i].0, &groups[i].1) {
                (Some(name), Some(text)) => {
                    captures.insert(name.clone(), text.clone());
                },
                _ => {},
            }
            i += 1;
        }
        assert(all.take(groups.len() as int) == all);
        Some(Request::new(key).with_captures(captures))
    }
}

/// A pattern and the name of the source that keys matching it go to.
#[derive(Debug, Clone)]
pub struct Rule {
    pub pattern: String,
    pub source: String,
}

impl Rule {
    /// A rule, if `Regex::new` accepts the pattern; what it says against
    /// the pattern if not.
    pub fn new(pattern: &str, source: &str) -> (r: Result<Self, Error>)
        ensures
            r is Ok <==> regex_valid(pattern@),
            r matches Ok(rule) ==> rule.pattern@ == pattern@ && rule.source@ == source@,
    {
        match check_pattern(pattern) {
            Ok(()) => Ok(Self { pattern: pattern.to_owned(), source: source.to_owned() }),
            Err(reason) => Err(Error::InvalidPattern(reason)),
        }
    }

    /// The request for `key` if the pattern of this rule matches it.
    pub fn match_key(&self, key: &str) -> (r: Option<Request>)
        ensures
            match r {
                Some(request) => {
                    &&& matches(self.pattern@, key@)
                    &&& request@.key == key@
                    &&& request@.captures == routed_captures(
                        regex_captures(self.pattern@, key@)->0,
                        key@,
                    )
                    &&& request@.sources is None
                },
                None => !matches(self.pattern@, key@),
            },
    {
        Request::match_regex(self.pattern.as_str(), key)
    }

    pub fn source(&self) -> (s: &String)
        ensures
            s == self.source,
    {
        &self.source
    }
}

/// The rules, in the order they were added.
#[derive(Debug)]
pub struct Router {
    rules: Vec<Rule>,
}

/// The place of the first of `rules` from `i` on whose pattern matches
/// `key`; the number of rules if none does.
pub open spec fn first_match(rules: Seq<Rule>, key: Seq<char>, i: int) -> int
    decreases rules.len() - i,
{
    if 0 <= i < rules.len() {
        if matches(rules[i].pattern@, key) {
            i
        } else {
            first_match(rules, key, i + 1)
        }
    } else {
        rules.len() as int
    }
}

impl Router {
    /// The rules, in the order they were added.
    pub closed spec fn rules(&self) -> Seq<Rule> {
        self.rules@
    }

    /// A router without rules.
    pub fn new() -> (r: Self)
        ensures
            r.rules() == Seq::<Rule>::empty(),
    {
        Self { rules: Vec::new() }
    }

    /// The router with one more rule at the end. The pattern must be one
    /// that `Regex::new` accepts.
    pub fn route(self, pattern: &str, source: &str) -> (r: Self)
        requires
            regex_valid(pattern@),
        ensures
            r.rules().len() == self.rules().len() + 1,
            r.rules().drop_last() == self.rules(),
            r.rules().last().pattern@ == pattern@,
            r.rules().last().source@ == source@,
    {
        let mut rules = self.rules;
        match Rule::new(pattern, source) {
            Ok(rule) => {
                rules.push(rule);
                assert(rules@.drop_last() == self.rules@);
            },
            Err(_) => {
                assert(false);
            },
        }
        Self { rules }
    }

    /// The router with one more rule at the end, or what `Regex::new` says
    /// against the pattern where it does not accept it.
    pub fn try_route(self, pattern: &str, source: &str) -> (r: Result<Self, Error>)
        ensures
            r is Ok <==> regex_valid(pattern@),
            r matches Ok(router) ==> {
                &&& router.rules().len() == self.rules().len() + 1
                &&& router.rules().drop_last() == self.rules()
                &&& router.rules().last().pattern@ == pattern@
                &&& router.rules().last().source@ == source@
            },
    {
        match check_pattern(pattern) {
            Ok(()) => Ok(self.route(pattern, source)),
            Err(reason) => Err(Error::InvalidPattern(reason)),
        }
    }

    /// How many rules there are.
    pub fn len(&self) -> (n: usize)
        ensures
            n == self.rules().len(),
    {
        self.rules.len()
    }

    /// The first rule whose pattern matches `key`, with the request that
    /// the match gives; nothing if no pattern matches.
    pub fn rule(&self, key: &str) -> (r: Option<(Request, &Rule)>)
        ensures
            match r {
                Some((request, rule)) => {
                    let i = first_match(self.rules(), key@, 0);
                    &&& 0 <= i < self.rules().len()
                    &&& *rule == self.rules()[i]
                    &&& request@.key == key@
                    &&& request@.captures == routed_captures(
                        regex_captures(rule.pattern@, key@)->0,
                        key@,
                    )
                    &&& request@.sources is None
                },
                None => first_match(self.rules(), key@, 0) == self.rules().len(),
            },
    {
        let mut i: usize = 0;
        while i < self.rules.len()
            invariant
                i <= self.rules.len(),
                first_match(self.rules@, key@, 0) == first_match(self.rules@, key@, i as int),
            decreases self.rules.len() - i,
        {
            match self.rules[i].match_key(key) {
                Some(request) => {
                    return Some((request, &self.rules[i]));
                },
                None => {},
            }
            i += 1;
        }
        None
    }
}

/// The first match wins: the place that `first_match` gives is that of a
/// rule whose pattern matches the key, no rule before it matches, and where
/// it gives the number of rules no rule matches at all.
pub proof fn lemma_first_match_wins(rules: Seq<Rule>, key: Seq<char>, i: int)
    requires
        0 <= i <= rules.len(),
    ensures
        i <= first_match(rules, key, i) <= rules.len(),
        first_match(rules, key, i) < rules.len() ==> matches(
            rules[first_match(rules, key, i)].pattern@,
            key,
        ),
        forall|j: int| i <= j < first_match(rules, key, i) ==> !matches(
            (#[trigger] rules[j]).pattern@,
            key,
        ),
    decreases rules.len() - i,
{
    if i < rules.len() && !matches(rules[i].pattern@, key) {
        lemma_first_match_wins(rules, key, i + 1);
    }
}

} // verus!
