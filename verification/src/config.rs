//! The textlint configuration (`.textlintrc`): which rules are on, with what
//! options.

use vstd::prelude::*;

verus! {

/// A JSON value of the configuration. A number is kept as the `u64` it
/// denotes, where it denotes one.
#[derive(Debug)]
pub enum ConfigValue {
    Null,
    Bool(bool),
    Number(Option<u64>),
    String(String),
    Array(Vec<ConfigValue>),
    Object(Vec<(String, ConfigValue)>),
}

/// The value of the first entry of `entries` under `key`.
pub open spec fn lookup(entries: Seq<(String, ConfigValue)>, key: Seq<char>) -> Option<ConfigValue>
    decreases entries.len(),
{
    if entries.len() == 0 {
        None
    } else if entries[0].0@ == key {
        Some(entries[0].1)
    } else {
        lookup(entries.drop_first(), key)
    }
}

/// The value of the first entry of `entries` under `key`.
pub fn lookup_exec<'a>(entries: &'a Vec<(String, ConfigValue)>, key: &str) -> (r: Option<&'a ConfigValue>)
    ensures
        match r {
            Some(v) => lookup(entries@, key@) == Some(*v),
            None => lookup(entries@, key@) is None,
        },
{
    let mut k: usize = 0;
    assert(entries@.skip(0) =~= entries@);
    while k < entries.len()
        invariant
            k <= entries@.len(),
            lookup(entries@, key@) == lookup(entries@.skip(k as int), key@),
        decreases entries@.len() - k,
    {
        let ghost rest = entries@.skip(k as int);
        assert(rest[0] == entries@[k as int]);
        if crate::text::str_eq(entries[k].0.as_str(), key) {
            return Some(&entries[k].1);
        }
        assert(rest.drop_first() =~= entries@.skip(k + 1));
        k += 1;
    }
    assert(entries@.skip(k as int) =~= Seq::<(String, ConfigValue)>::empty());
    None
}

/// No key occurs twice among `entries`, as in a JSON object.
pub open spec fn distinct_keys(entries: Seq<(String, ConfigValue)>) -> bool {
    forall|i: int, j: int| 0 <= i < j < entries.len() ==> entries[i].0@ != entries[j].0@
}

/// Where no key occurs twice, `lookup` reads entries as a map: the value under
/// a key is that of the one entry with that key.
pub proof fn lemma_lookup_distinct(entries: Seq<(String, ConfigValue)>, i: int)
    requires
        distinct_keys(entries),
        0 <= i < entries.len(),
    ensures
        lookup(entries, entries[i].0@) == Some(entries[i].1),
    decreases entries.len(),
{
    if i > 0 {
        let rest = entries.drop_first();
        assert(entries[0].0@ != entries[i].0@);
        assert(rest[i - 1] == entries[i]);
        lemma_lookup_distinct(rest, i - 1);
    }
}

/// Every object within `v` holds each key once.
pub open spec fn value_wf(v: ConfigValue) -> bool
    decreases v,
{
    match v {
        ConfigValue::Array(a) => forall|i: int| 0 <= i < a@.len() ==> value_wf(#[trigger] a@[i]),
        ConfigValue::Object(o) => distinct_keys(o@) && forall|i: int|
            0 <= i < o@.len() ==> value_wf(#[trigger] o@[i].1),
        _ => true,
    }
}

/// The configuration: the `plugins` entry and the `rules` object.
#[derive(Debug)]
pub struct TextlintRc {
    pub plugins: ConfigValue,
    pub rules: Vec<(String, ConfigValue)>,
}

impl Default for TextlintRc {
    fn default() -> (r: Self)
        ensures
            r.plugins is Null,
            r.rules@.len() == 0,
            r.wf(),
    {
        TextlintRc { plugins: ConfigValue::Null, rules: Vec::new() }
    }
}

/// A rule is on when its entry is `true` or any value but `false` and `null`.
pub open spec fn rule_enabled_spec(rules: Seq<(String, ConfigValue)>, name: Seq<char>) -> bool {
    match lookup(rules, name) {
        None => false,
        Some(ConfigValue::Bool(b)) => b,
        Some(ConfigValue::Null) => false,
        Some(_) => true,
    }
}

/// A rule of a preset is on when the preset is `true`, or an object in which
/// the rule is not `false`, or any other value but `false`; a missing preset is off.
pub open spec fn preset_child_enabled_spec(rules: Seq<(String, ConfigValue)>, preset: Seq<char>, child: Seq<char>) -> bool {
    match lookup(rules, preset) {
        None => false,
        Some(ConfigValue::Bool(b)) => b,
        Some(ConfigValue::Object(obj)) => match lookup(obj@, child) {
            Some(ConfigValue::Bool(false)) => false,
            _ => true,
        },
        Some(_) => true,
    }
}

/// Option `key` of rule `child` of `preset`: `rules[preset][child][key]`.
pub open spec fn preset_child_option_spec(
    rules: Seq<(String, ConfigValue)>,
    preset: Seq<char>,
    child: Seq<char>,
    key: Seq<char>,
) -> Option<ConfigValue> {
    match lookup(rules, preset) {
        Some(ConfigValue::Object(obj)) => match lookup(obj@, child) {
            Some(ConfigValue::Object(opts)) => lookup(opts@, key),
            _ => None,
        },
        _ => None,
    }
}

/// The strings of `items`, in order; other values are passed over.
pub open spec fn strings_of(items: Seq<ConfigValue>) -> Seq<Seq<char>>
    decreases items.len(),
{
    if items.len() == 0 {
        seq![]
    } else {
        let rest = strings_of(items.drop_last());
        match items.last() {
            ConfigValue::String(s) => rest.push(s@),
            _ => rest,
        }
    }
}

/// The entries of `prh.rulePaths`: the strings of that array, where `prh` is an
/// object and `rulePaths` an array; none otherwise.
pub open spec fn prh_paths_spec(rules: Seq<(String, ConfigValue)>) -> Seq<Seq<char>> {
    match lookup(rules, "prh"@) {
        Some(ConfigValue::Object(o)) => match lookup(o@, "rulePaths"@) {
            Some(ConfigValue::Array(a)) => strings_of(a@),
            _ => seq![],
        },
        _ => seq![],
    }
}

/// Whether `p` is an absolute path.
pub uninterp spec fn path_is_absolute(p: Seq<char>) -> bool;

/// The path `p` under the directory `base`.
pub uninterp spec fn path_join(base: Seq<char>, p: Seq<char>) -> Seq<char>;

/// `std::path::Path::is_absolute` on `p`.
#[verifier::external_body]
fn is_absolute(p: &str) -> (r: bool)
    ensures
        r == path_is_absolute(p@),
{
    std::path::Path::new(p).is_absolute()
}

/// `std::path::Path::join` of `p` under `base`, read back as a string.
#[verifier::external_body]
fn join_path(base: &str, p: &str) -> (r: String)
    ensures
        r@ == path_join(base@, p@),
{
    std::path::Path::new(base).join(p).to_string_lossy().into_owned()
}

/// A rule path as read from `base`: itself where absolute, else under `base`.
pub open spec fn resolve_path(base: Seq<char>, p: Seq<char>) -> Seq<char> {
    if path_is_absolute(p) {
        p
    } else {
        path_join(base, p)
    }
}

impl ConfigValue {
    /// The number as a `u64`, where the value is one.
    pub fn as_u64(&self) -> (r: Option<u64>)
        ensures
            r == (match self {
                ConfigValue::Number(n) => *n,
                _ => None,
            }),
    {
        match self {
            ConfigValue::Number(n) => *n,
            _ => None,
        }
    }
}

impl TextlintRc {
    /// The rules object, and every object within it, holds each key once
    /// (as the JSON objects it is read from do).
    pub open spec fn wf(&self) -> bool {
        &&& distinct_keys(self.rules@)
        &&& forall|i: int| 0 <= i < self.rules@.len() ==> value_wf(#[trigger] self.rules@[i].1)
    }

    pub fn rule_enabled(&self, name: &str) -> (r: bool)
        requires
            self.wf(),
        ensures
            r == rule_enabled_spec(self.rules@, name@),
    {
        match lookup_exec(&self.rules, name) {
            None => false,
            Some(v) => match v {
                ConfigValue::Bool(b) => *b,
                ConfigValue::Null => false,
                _ => true,
            },
        }
    }

    pub fn preset_child_enabled(&self, preset: &str, child: &str) -> (r: bool)
        requires
            self.wf(),
        ensures
            r == preset_child_enabled_spec(self.rules@, preset@, child@),
    {
        let v = match lookup_exec(&self.rules, preset) {
            None => {
                return false;
            },
            Some(v) => v,
        };
        match v {
            ConfigValue::Bool(b) => *b,
            ConfigValue::Object(obj) => match lookup_exec(obj, child) {
                Some(ConfigValue::Bool(false)) => false,
                _ => true,
            },
            _ => true,
        }
    }

    pub fn preset_child_option(&self, preset: &str, child: &str, key: &str) -> (r: Option<&ConfigValue>)
        requires
            self.wf(),
        ensures
            match r {
                Some(v) => preset_child_option_spec(self.rules@, preset@, child@, key@) == Some(*v),
                None => preset_child_option_spec(self.rules@, preset@, child@, key@) is None,
            },
    {
        match lookup_exec(&self.rules, preset) {
            Some(ConfigValue::Object(obj)) => match lookup_exec(obj, child) {
                Some(ConfigValue::Object(opts)) => lookup_exec(opts, key),
                _ => None,
            },
            _ => None,
        }
    }

    /// The prh dictionary paths, each resolved against `base_dir`.
    pub fn prh_rule_paths(&self, base_dir: &str) -> (r: Vec<String>)
        requires
            self.wf(),
        ensures
            r@.len() == prh_paths_spec(self.rules@).len(),
            forall|k: int|
                0 <= k < r@.len() ==> (#[trigger] r@[k])@ == resolve_path(base_dir@, prh_paths_spec(self.rules@)[k]),
    {
        let prh = match lookup_exec(&self.rules, "prh") {
            Some(ConfigValue::Object(o)) => o,
            _ => {
                return Vec::new();
            },
        };
        let paths = match lookup_exec(prh, "rulePaths") {
            Some(ConfigValue::Array(a)) => a,
            _ => {
                return Vec::new();
            },
        };
        let ghost want = strings_of(paths@);
        let mut out: Vec<String> = Vec::new();
        let mut k: usize = 0;
        while k < paths.len()
            invariant
                k <= paths@.len(),
                want == strings_of(paths@),
                out@.len() == strings_of(paths@.take(k as int)).len(),
                forall|q: int|
                    0 <= q < out@.len() ==> (#[trigger] out@[q])@ == resolve_path(
                        base_dir@,
                        strings_of(paths@.take(k as int))[q],
                    ),
            decreases paths@.len() - k,
        {
            let ghost t = paths@.take(k + 1);
            assert(t.drop_last() =~= paths@.take(k as int));
            assert(t.last() == paths@[k as int]);
            match &paths[k] {
                ConfigValue::String(s) => {
                    let resolved = if is_absolute(s.as_str()) {
                        s.as_str().to_owned()
                    } else {
                        join_path(base_dir, s.as_str())
                    };
                    out.push(resolved);
                },
                _ => {},
            }
            k += 1;
        }
        assert(paths@.take(paths@.len() as int) =~= paths@);
        out
    }
}

} // verus!
