//! A source that asks other sources and merges their answers into one JSON
//! object.

use crate::captures::{str_equal, Captures};
use crate::request::{share, Request};
use crate::response::{MonitorConfig, Response};
use crate::source::file::{answer, stamp};
use crate::template::{replace_placeholders, replaced};
use crate::time::{Duration, Instant};
use serde_json::{Map as JsonMap, Value};
use vstd::prelude::*;
use vstd::string::*;

verus! {

/// What a rule hands to the source it asks.
#[derive(Debug, Clone)]
pub enum RuleArgs {
    /// The request as it came.
    Inherit,
    /// A request whose captures are these templates, filled from the
    /// captures of the request that came.
    Replace { args: Captures },
}

/// Where in the merged object the answer of one source goes.
#[derive(Debug, Clone)]
pub struct Rule {
    pub key: Vec<String>,
    pub source: String,
    pub args: RuleArgs,
}

impl Rule {
    pub fn new(key: Vec<String>, source: String, args: RuleArgs) -> (r: Self)
        ensures
            r.key == key,
            r.source == source,
            r.args == args,
    {
        Self { key, source, args }
    }
}

#[derive(Debug, Clone)]
pub struct Merge {
    pub monitor_config: MonitorConfig,
    pub format: String,
    pub rules: Vec<Rule>,
}

/// A field of a JSON object: its name and the JSON text of its value.
pub type Field = (String, String);

pub type FieldView = (Seq<char>, Seq<char>);

pub open spec fn field_views(fields: Seq<Field>) -> Seq<FieldView> {
    fields.map_values(|f: Field| (f.0@, f.1@))
}

/// The compact JSON text of the value that `serde_json::from_str` reads
/// from `text`; nothing where the text is no JSON.
pub uninterp spec fn json_normal(text: Seq<char>) -> Option<Seq<char>>;

/// The JSON text of the string `text`: quoted and escaped.
pub uninterp spec fn json_quoted(text: Seq<char>) -> Seq<char>;

/// The fields of the object that `serde_json::from_str` reads from `text`,
/// in the order the object holds them, each value as compact JSON text;
/// nothing where the text is no JSON object.
pub uninterp spec fn json_object_fields(text: Seq<char>) -> Option<Seq<FieldView>>;

/// The compact JSON text of the object made of `fields`, each value read
/// from its text, a later field replacing an earlier one of its name.
pub uninterp spec fn json_object_text(fields: Seq<FieldView>) -> Seq<char>;

/// `serde_json::from_str` reads a value and `serde_json::to_string` writes
/// it back as compact JSON.
#[verifier::external_body]
fn json_parse(text: &str) -> (r: Option<String>)
    ensures
        match r {
            Some(normal) => json_normal(text@) == Some(normal@),
            None => json_normal(text@) is None,
        },
{
    serde_json::from_str::<Value>(text).ok().map(|v| serde_json::to_string(&v).unwrap_or_default())
}

/// `serde_json::to_string` of `Value::String`: the text quoted and escaped.
#[verifier::external_body]
fn json_string(text: &str) -> (r: String)
    ensures
        r@ == json_quoted(text@),
{
    serde_json::to_string(&Value::String(text.to_string())).unwrap_or_default()
}

/// `serde_json::from_str` reads a value; of an object, the fields are
/// handed out as the map holds them, each value written by
/// `serde_json::to_string`.
#[verifier::external_body]
fn json_fields(text: &str) -> (r: Option<Vec<Field>>)
    ensures
        match r {
            Some(fields) => json_object_fields(text@) == Some(field_views(fields@)),
            None => json_object_fields(text@) is None,
        },
{
    match serde_json::from_str::<Value>(text) {
        Ok(Value::Object(m)) => Some(
            m.into_iter().map(|(k, v)| (k, serde_json::to_string(&v).unwrap_or_default())).collect(),
        ),
        _ => None,
    }
}

/// `serde_json::to_string` of the `serde_json::Map` collected from the
/// fields, each value read by `serde_json::from_str`.
#[verifier::external_body]
fn json_object(fields: &Vec<Field>) -> (r: String)
    ensures
        r@ == json_object_text(field_views(fields@)),
{
    let m: JsonMap<String, Value> = fields.iter().map(
        |(k, v)| (k.clone(), serde_json::from_str::<Value>(v).unwrap_or(Value::Null)),
    ).collect();
    serde_json::to_string(&m).unwrap_or_default()
}

/// The place of the first of `fields` from `i` on that is named `name`;
/// the number of fields if none is.
pub open spec fn first_named(fields: Seq<FieldView>, name: Seq<char>, i: int) -> int
    decreases fields.len() - i,
{
    if 0 <= i < fields.len() {
        if fields[i].0 == name {
            i
        } else {
            first_named(fields, name, i + 1)
        }
    } else {
        fields.len() as int
    }
}

/// The fields with `name` set to `text`: in place of the first field of
/// that name, or at the end where there is none.
pub open spec fn upsert(fields: Seq<FieldView>, name: Seq<char>, text: Seq<char>) -> Seq<
    FieldView,
> {
    let i = first_named(fields, name, 0);
    if i < fields.len() {
        fields.update(i, (name, text))
    } else {
        fields.push((name, text))
    }
}

/// The fields of an object after `value` has been set at `path` in it.
/// An empty path changes nothing. A path of one name sets the field of
/// that name. A longer path goes into the object at its first name, made
/// empty if there is no such field, and changes nothing if the field
/// there is no object.
pub open spec fn set_at(fields: Seq<FieldView>, path: Seq<Seq<char>>, value: Seq<char>) -> Seq<
    FieldView,
>
    decreases path.len(),
{
    if path.len() == 0 {
        fields
    } else if path.len() == 1 {
        upsert(fields, path[0], value)
    } else {
        let i = first_named(fields, path[0], 0);
        let inner = if i < fields.len() {
            json_object_fields(fields[i].1)
        } else {
            Some(Seq::empty())
        };
        match inner {
            Some(inner_fields) => upsert(
                fields,
                path[0],
                json_object_text(set_at(inner_fields, path.skip(1), value)),
            ),
            None => fields,
        }
    }
}

/// The JSON text that the answer of a source stands for: the value it
/// reads as where it is JSON, the string that it is where it is not.
pub open spec fn leaf(value: Seq<char>) -> Seq<char> {
    match json_normal(value) {
        Some(normal) => normal,
        None => json_quoted(value),
    }
}

/// What one rule brought: where it goes, and the answer if there was one.
#[derive(Debug, Clone)]
pub struct Answer {
    pub key: Vec<String>,
    pub value: Option<String>,
}

pub struct AnswerView {
    pub key: Seq<Seq<char>>,
    pub value: Option<Seq<char>>,
}

impl View for Answer {
    type V = AnswerView;

    open spec fn view(&self) -> AnswerView {
        AnswerView {
            key: crate::protocol::string_views(self.key@),
            value: match self.value {
                Some(v) => Some(v@),
                None => None,
            },
        }
    }
}

pub open spec fn answer_views(answers: Seq<Answer>) -> Seq<AnswerView> {
    answers.map_values(|a: Answer| a@)
}

/// The fields of the merged object after some answers, taken in order:
/// each answer that has a value is set at its key.
pub open spec fn merged(answers: Seq<AnswerView>) -> Seq<FieldView>
    decreases answers.len(),
{
    if answers.len() == 0 {
        Seq::empty()
    } else {
        let before = merged(answers.drop_last());
        match answers.last().value {
            Some(value) => set_at(before, answers.last().key, leaf(value)),
            None => before,
        }
    }
}

fn find_field(fields: &Vec<Field>, name: &str) -> (i: usize)
    ensures
        i == first_named(field_views(fields@), name@, 0),
{
    let mut i: usize = 0;
    while i < fields.len()
        invariant
            i <= fields.len(),
            first_named(field_views(fields@), name@, 0) == first_named(
                field_views(fields@),
                name@,
                i as int,
            ),
        decreases fields.len() - i,
    {
        if str_equal(fields[i].0.as_str(), name) {
            return i;
        }
        i += 1;
    }
    i
}

fn set_field(fields: &mut Vec<Field>, name: String, text: String)
    ensures
        field_views(final(fields)@) == upsert(field_views(old(fields)@), name@, text@),
{
    let i = find_field(fields, name.as_str());
    let ghost before = field_views(fields@);
    let ghost entry = (name@, text@);
    if i < fields.len() {
        fields.set(i, (name, text));
        assert(field_views(fields@) =~= before.update(i as int, entry));
    } else {
        fields.push((name, text));
        assert(field_views(fields@) =~= before.push(entry));
    }
}

/// Sets `value` at `path[from..]` in the object with `fields`.
fn set_nested_value(fields: &mut Vec<Field>, path: &Vec<String>, from: usize, value: String)
    requires
        from <= path.len(),
    ensures
        field_views(final(fields)@) == set_at(
            field_views(old(fields)@),
            crate::protocol::string_views(path@).skip(from as int),
            value@,
        ),
    decreases path.len() - from,
{
    let ghost names = crate::protocol::string_views(path@).skip(from as int);
    if from == path.len() {
        return ;
    }
    assert(names[0] == path@[from as int]@);
    if path.len() - from == 1 {
        set_field(fields, path[from].clone(), value);
        return ;
    }
    let i = find_field(fields, path[from].as_str());
    let inner = if i < fields.len() {
        assert(field_views(fields@)[i as int].1 == fields@[i as int].1@);
        json_fields(fields[i].1.as_str())
    } else {
        let empty: Vec<Field> = Vec::new();
        assert(field_views(empty@) == Seq::<FieldView>::empty());
        Some(empty)
    };
    match inner {
        Some(mut inner_fields) => {
            assert(names.skip(1) == crate::protocol::string_views(path@).skip(from + 1));
            set_nested_value(&mut inner_fields, path, from + 1, value);
            let text = json_object(&inner_fields);
            set_field(fields, path[from].clone(), text);
        },
        None => {},
    }
}

/// What to ask of one source for one rule.
#[derive(Debug, Clone)]
pub struct Child {
    /// Which of the rules this is for.
    pub rule: usize,
    /// The name of the source to ask.
    pub source: String,
    /// What to ask it.
    pub request: Request,
    /// Where in the merged object its answer goes.
    pub key: Vec<String>,
}

impl Child {
    /// What the source brought, with the place where it goes.
    pub fn answered(&self, value: Option<String>) -> (a: Answer)
        ensures
            a@ == (AnswerView {
                key: crate::protocol::string_views(self.key@),
                value: match value {
                    Some(v) => Some(v@),
                    None => None,
                },
            }),
    {
        Answer { key: crate::protocol::copy_strings(&self.key), value }
    }
}

/// The captures that a rule with replaced arguments hands on: each
/// argument, its template filled from the captures that came.
pub open spec fn replaced_args(
    args: Map<Seq<char>, Seq<char>>,
    captures: Map<Seq<char>, Seq<char>>,
) -> Map<Seq<char>, Seq<char>> {
    Map::new(
        |name: Seq<char>| args.contains_key(name),
        |name: Seq<char>| replaced(args[name], captures),
    )
}

/// The request that a rule hands to its source: the request as it came
/// where the rule inherits; else a request for the same key, with the same
/// registry, whose captures are the rule's arguments filled from the
/// captures that came, and `$key`.
pub open spec fn handed_on(rule: Rule, request: crate::request::RequestView) -> crate::request::RequestView {
    crate::request::RequestView {
        key: request.key,
        captures: match rule.args {
            RuleArgs::Inherit => request.captures,
            RuleArgs::Replace { args } => replaced_args(args@, request.captures).insert(
                "$key"@,
                request.key,
            ),
        },
        sources: request.sources,
    }
}

/// Whether `child` asks what its rule wants asked: the source of the rule,
/// with the request that the rule hands on, for the place that the rule
/// names.
pub open spec fn asks_for_rule(
    child: Child,
    rules: Seq<Rule>,
    request: crate::request::RequestView,
) -> bool {
    &&& child.rule < rules.len()
    &&& child.source@ == rules[child.rule as int].source@
    &&& crate::protocol::string_views(child.key@) == crate::protocol::string_views(
        rules[child.rule as int].key@,
    )
    &&& child.request@ == handed_on(rules[child.rule as int], request)
}

/// Whether `children` are whom a merge with `rules` asks for `request`:
/// one child for each rule whose source the registry of the request
/// names, in the order of the rules, and nobody else.
pub open spec fn asked(
    children: Seq<Child>,
    rules: Seq<Rule>,
    request: crate::request::RequestView,
) -> bool {
    &&& request.sources is None ==> children.len() == 0
    &&& forall|c: int|
        0 <= c < children.len() ==> {
            &&& asks_for_rule(#[trigger] children[c], rules, request)
            &&& request.sources is Some
            &&& request.sources->0@.contains_key(children[c].source@)
        }
    &&& forall|c: int, d: int|
        0 <= c < d < children.len() ==> (#[trigger] children[c]).rule < (#[trigger] children[d]).rule
    &&& forall|i: int|
        0 <= i < rules.len() && request.sources is Some && request.sources->0@.contains_key(
            #[trigger] rules[i].source@,
        ) ==> exists|c: int| 0 <= c < children.len() && (#[trigger] children[c]).rule == i
}

impl Merge {
    /// A merge without rules, in JSON, with the default times.
    pub fn new() -> (m: Self)
        ensures
            m.format@ == "json"@,
            m.rules@.len() == 0,
            m.monitor_config.ttl().total_nanos() == 5_000_000_000,
            m.monitor_config.expiry().total_nanos() == 30_000_000_000,
    {
        Self {
            monitor_config: MonitorConfig::default(),
            format: String::from_str("json"),
            rules: Vec::new(),
        }
    }

    pub fn with_format(self, format: &str) -> (m: Self)
        ensures
            m.format@ == format@,
            m.rules == self.rules,
            m.monitor_config == self.monitor_config,
    {
        Self { monitor_config: self.monitor_config, format: format.to_owned(), rules: self.rules }
    }

    pub fn with_rule(self, key: Vec<String>, source: String, args: RuleArgs) -> (m: Self)
        ensures
            m.rules@ == self.rules@.push(Rule { key, source, args }),
            m.format == self.format,
            m.monitor_config == self.monitor_config,
    {
        let mut rules = self.rules;
        rules.push(Rule::new(key, source, args));
        Self { monitor_config: self.monitor_config, format: self.format, rules }
    }

    pub fn with_ttl(self, ttl: Duration) -> (m: Self)
        ensures
            m.monitor_config.ttl() == ttl,
            m.monitor_config.expiry() == self.monitor_config.expiry(),
            m.format == self.format,
            m.rules == self.rules,
    {
        Self {
            monitor_config: self.monitor_config.with_ttl(ttl),
            format: self.format,
            rules: self.rules,
        }
    }

    pub fn with_expiry(self, expiry: Duration) -> (m: Self)
        ensures
            m.monitor_config.ttl() == self.monitor_config.ttl(),
            m.monitor_config.expiry() == expiry,
            m.format == self.format,
            m.rules == self.rules,
    {
        Self {
            monitor_config: self.monitor_config.with_expiry(expiry),
            format: self.format,
            rules: self.rules,
        }
    }

    pub fn ttl(&self) -> (ttl: Duration)
        ensures
            ttl == self.monitor_config.ttl(),
    {
        self.monitor_config.ttl()
    }

    pub fn expiry(&self) -> (expiry: Duration)
        ensures
            expiry == self.monitor_config.expiry(),
    {
        self.monitor_config.expiry()
    }

    /// The request that the rule at place `i` hands to its source: the
    /// request as it came where the rule inherits; else a request for the
    /// same key, with the same registry, whose captures are the rule's
    /// arguments filled from the captures that came, and `$key`.
    pub fn child_request(&self, i: usize, request: &Request) -> (r: Request)
        requires
            i < self.rules@.len(),
        ensures
            r@ == handed_on(self.rules@[i as int], request@),
    {
        match &self.rules[i].args {
            RuleArgs::Inherit => request.clone(),
            RuleArgs::Replace { args } => {
                let mut processed = Captures::new();
                let n = args.len();
                let mut k: usize = 0;
                while k < n
                    invariant
                        k <= n,
                        n == args.count(),
                        forall|name: Seq<char>|
                            processed@.contains_key(name) <==> exists|j: int|
                                0 <= j < k && #[trigger] args.name_at(j) == name,
                        forall|name: Seq<char>| #[trigger]
                            processed@.contains_key(name) ==> args@.contains_key(name)
                                && processed@[name] == replaced(args@[name], request@.captures),
                    decreases n - k,
                {
                    let (name, template) = args.entry(k);
                    let value = replace_placeholders(template.as_str(), request.captures());
                    let ghost before = processed@;
                    processed.insert(name.clone(), value);
                    proof {
                        assert forall|other: Seq<char>|
                            processed@.contains_key(other) <==> exists|j: int|
                                0 <= j < k + 1 && #[trigger] args.name_at(j) == other by {
                            if processed@.contains_key(other) {
                                if other == name@ {
                                    assert(args.name_at(k as int) == other);
                                } else {
                                    assert(before.contains_key(other));
                                    let j = choose|j: int|
                                        0 <= j < k && #[trigger] args.name_at(j) == other;
                                    assert(args.name_at(j) == other);
                                }
                            }
                            if exists|j: int| 0 <= j < k + 1 && #[trigger] args.name_at(j) == other {
                                let j = choose|j: int|
                                    0 <= j < k + 1 && #[trigger] args.name_at(j) == other;
                                if j < k {
                                    assert(before.contains_key(other));
                                }
                            }
                        }
                    }
                    k += 1;
                }
                proof {
                    args.lemma_names_at_places();
                    assert(processed@ =~= replaced_args(args@, request@.captures));
                }
                let child = Request::new(request.key()).with_captures(processed);
                match request.sources() {
                    Some(handle) => child.with_sources(share(handle)),
                    None => child,
                }
            },
        }
    }

    /// Whom to ask for `request`: for each rule whose source the registry
    /// of the request names, in the order of the rules, that source and
    /// the request the rule hands to it. Nobody where the request has no
    /// registry.
    pub fn children(&self, request: &Request) -> (out: Vec<Child>)
        ensures
            asked(out@, self.rules@, request@),
    {
        let mut out: Vec<Child> = Vec::new();
        let sources = match request.sources() {
            Some(sources) => sources,
            None => {
                return out;
            },
        };
        let mut i: usize = 0;
        while i < self.rules.len()
            invariant
                i <= self.rules@.len(),
                request@.sources == Some(**sources),
                forall|c: int|
                    0 <= c < out@.len() ==> {
                        &&& (#[trigger] out@[c]).rule < i
                        &&& asks_for_rule(out@[c], self.rules@, request@)
                        &&& request@.sources->0@.contains_key(out@[c].source@)
                    },
                forall|c: int, d: int|
                    0 <= c < d < out@.len() ==> (#[trigger] out@[c]).rule < (
                    #[trigger] out@[d]).rule,
                forall|k: int|
                    0 <= k < i && request@.sources->0@.contains_key(
                        #[trigger] self.rules@[k].source@,
                    ) ==> exists|c: int| 0 <= c < out@.len() && (#[trigger] out@[c]).rule == k,
            decreases self.rules@.len() - i,
        {
            if sources.get(self.rules[i].source.as_str()).is_some() {
                let child = Child {
                    rule: i,
                    source: self.rules[i].source.clone(),
                    request: self.child_request(i, request),
                    key: crate::protocol::copy_strings(&self.rules[i].key),
                };
                let ghost before = out@;
                out.push(child);
                proof {
                    assert forall|k: int|
                        0 <= k < i + 1 && request@.sources->0@.contains_key(
                            #[trigger] self.rules@[k].source@,
                        ) implies exists|c: int|
                        0 <= c < out@.len() && (#[trigger] out@[c]).rule == k by {
                        if k < i {
                            let c = choose|c: int|
                                0 <= c < before.len() && (#[trigger] before[c]).rule == k;
                            assert(out@[c].rule == k);
                        } else {
                            assert(out@[before.len() as int].rule == k);
                        }
                    }
                }
            }
            i += 1;
        }
        out
    }

    /// The answer of the merge. Without a registry there is no value.
    /// With one, the value is the JSON text of the object in which each
    /// answer that has a value is set at its key, in order: as the value
    /// it reads as where it is JSON, as a string where it is not.
    pub fn respond(&self, has_sources: bool, answers: &Vec<Answer>, now: Instant) -> (r: Response)
        ensures
            r@ == answer(
                self.monitor_config,
                if has_sources {
                    Some(json_object_text(merged(answer_views(answers@))))
                } else {
                    None
                },
                now,
            ),
    {
        if !has_sources {
            return stamp(&self.monitor_config, None, now);
        }
        let ghost all = answer_views(answers@);
        let mut fields: Vec<Field> = Vec::new();
        let mut i: usize = 0;
        assert(all.take(0) == Seq::<AnswerView>::empty());
        assert(field_views(fields@) == Seq::<FieldView>::empty());
        while i < answers.len()
            invariant
                i <= answers.len(),
                all == answer_views(answers@),
                field_views(fields@) == merged(all.take(i as int)),
            decreases answers.len() - i,
        {
            proof {
                assert(all.take(i + 1).drop_last() == all.take(i as int));
                assert(all.take(i + 1).last() == answers@[i as int]@);
            }
            match &answers[i].value {
                Some(value) => {
                    let text = match json_parse(value.as_str()) {
                        Some(normal) => normal,
                        None => json_string(value.as_str()),
                    };
                    assert(crate::protocol::string_views(answers@[i as int].key@).skip(0)
                        == crate::protocol::string_views(answers@[i as int].key@));
                    set_nested_value(&mut fields, &answers[i].key, 0, text);
                },
                None => {},
            }
            i += 1;
        }
        assert(all.take(answers.len() as int) == all);
        stamp(&self.monitor_config, Some(json_object(&fields)), now)
    }
}

} // verus!
