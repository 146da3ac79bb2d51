//! A YAML document tree and the lookups the config reader makes in it:
//! string keys of mappings, and scalar, sequence or mapping values, looking
//! through tags.
use vstd::prelude::*;
use crate::text::eq_str;

verus! {

/// A YAML value.
pub enum YamlValue {
    Null,
    Bool(bool),
    /// A number, with its value when it is a non-negative integer that fits in `u64`.
    Number(Option<u64>),
    String(String),
    Sequence(Vec<YamlValue>),
    /// The (key, value) entries of a mapping, in document order.
    Mapping(Vec<(YamlValue, YamlValue)>),
    /// A tagged value (the tag itself plays no part here).
    Tagged(Box<YamlValue>),
}

/// `v` with its tags removed.
pub open spec fn untagged(v: YamlValue) -> YamlValue
    decreases v,
{
    match v {
        YamlValue::Tagged(b) => untagged(*b),
        _ => v,
    }
}

/// The value of the first entry whose key is the string `key`.
pub open spec fn entry_value(entries: Seq<(YamlValue, YamlValue)>, key: Seq<char>) -> Option<YamlValue>
    decreases entries.len(),
{
    if entries.len() == 0 {
        None
    } else {
        match entries[0].0 {
            YamlValue::String(s) => if s@ == key {
                Some(entries[0].1)
            } else {
                entry_value(entries.drop_first(), key)
            },
            _ => entry_value(entries.drop_first(), key),
        }
    }
}

/// The value under the string key `key` when `v` is a mapping.
pub open spec fn yaml_get(v: YamlValue, key: Seq<char>) -> Option<YamlValue> {
    match untagged(v) {
        YamlValue::Mapping(m) => entry_value(m@, key),
        _ => None,
    }
}

/// `yaml_get` on an optional value.
pub open spec fn yaml_get_opt(v: Option<YamlValue>, key: Seq<char>) -> Option<YamlValue> {
    match v {
        Some(x) => yaml_get(x, key),
        None => None,
    }
}

/// The text of `v` when it is a string.
pub open spec fn yaml_str(v: Option<YamlValue>) -> Option<Seq<char>> {
    match v {
        Some(x) => match untagged(x) {
            YamlValue::String(s) => Some(s@),
            _ => None,
        },
        None => None,
    }
}

/// The value of `v` when it is a boolean.
pub open spec fn yaml_bool(v: Option<YamlValue>) -> Option<bool> {
    match v {
        Some(x) => match untagged(x) {
            YamlValue::Bool(b) => Some(b),
            _ => None,
        },
        None => None,
    }
}

/// The value of `v` when it is a non-negative integer fitting in `u64`.
pub open spec fn yaml_u64(v: Option<YamlValue>) -> Option<u64> {
    match v {
        Some(x) => match untagged(x) {
            YamlValue::Number(n) => n,
            _ => None,
        },
        None => None,
    }
}

/// The items of `v` when it is a sequence.
pub open spec fn yaml_seq(v: Option<YamlValue>) -> Option<Seq<YamlValue>> {
    match v {
        Some(x) => match untagged(x) {
            YamlValue::Sequence(items) => Some(items@),
            _ => None,
        },
        None => None,
    }
}

impl YamlValue {
    /// `self` with its tags removed.
    pub fn untag(&self) -> (r: &YamlValue)
        ensures
            *r == untagged(*self),
        decreases self,
    {
        match self {
            YamlValue::Tagged(b) => b.untag(),
            _ => self,
        }
    }

    /// The value under the string key `key` when `self` is a mapping.
    pub fn get(&self, key: &str) -> (r: Option<&YamlValue>)
        ensures
            r matches Some(x) ==> yaml_get(*self, key@) == Some(*x),
            r is None ==> yaml_get(*self, key@) is None,
    {
        match self.untag() {
            YamlValue::Mapping(m) => {
                let ghost whole = *self;
                assert(yaml_get(whole, key@) == entry_value(m@, key@));
                let mut i: usize = 0;
                assert(m@.skip(0) =~= m@);
                while i < m.len()
                    invariant
                        i <= m@.len(),
                        whole == *self,
                        yaml_get(whole, key@) == entry_value(m@, key@),
                        entry_value(m@, key@) == entry_value(m@.skip(i as int), key@),
                    decreases m@.len() - i,
                {
                    assert(m@.skip(i as int).drop_first() =~= m@.skip(i + 1));
                    assert(m@.skip(i as int)[0] == m@[i as int]);
                    match &m[i].0 {
                        YamlValue::String(s) => {
                            if eq_str(s.as_str(), key) {
                                assert(entry_value(m@.skip(i as int), key@) == Some(m@[i as int].1));
                                return Some(&m[i].1);
                            }
                        },
                        _ => {},
                    }
                    i = i + 1;
                }
                None
            },
            _ => None,
        }
    }

    /// The text of `self` when it is a string.
    pub fn as_str(&self) -> (r: Option<&String>)
        ensures
            r matches Some(s) ==> yaml_str(Some(*self)) == Some(s@),
            r is None ==> yaml_str(Some(*self)) is None,
    {
        match self.untag() {
            YamlValue::String(s) => Some(s),
            _ => None,
        }
    }

    /// The value of `self` when it is a boolean.
    pub fn as_bool(&self) -> (r: Option<bool>)
        ensures
            r == yaml_bool(Some(*self)),
    {
        match self.untag() {
            YamlValue::Bool(b) => Some(*b),
            _ => None,
        }
    }

    /// The value of `self` when it is a non-negative integer fitting in `u64`.
    pub fn as_u64(&self) -> (r: Option<u64>)
        ensures
            r == yaml_u64(Some(*self)),
    {
        match self.untag() {
            YamlValue::Number(n) => *n,
            _ => None,
        }
    }

    /// The items of `self` when it is a sequence.
    pub fn as_sequence(&self) -> (r: Option<&Vec<YamlValue>>)
        ensures
            r matches Some(items) ==> yaml_seq(Some(*self)) == Some(items@),
            r is None ==> yaml_seq(Some(*self)) is None,
    {
        match self.untag() {
            YamlValue::Sequence(items) => Some(items),
            _ => None,
        }
    }
}

/// The value an optional reference points to.
pub open spec fn deref_opt(v: Option<&YamlValue>) -> Option<YamlValue> {
    match v {
        Some(x) => Some(*x),
        None => None,
    }
}

/// The value under `key` in `v`, when `v` is present.
pub fn get_opt<'a>(v: Option<&'a YamlValue>, key: &str) -> (r: Option<&'a YamlValue>)
    ensures
        r matches Some(x) ==> yaml_get_opt(deref_opt(v), key@) == Some(*x),
        r is None ==> yaml_get_opt(deref_opt(v), key@) is None,
{
    match v {
        Some(x) => x.get(key),
        None => None,
    }
}

/// The text of `v` when present and a string.
pub fn str_opt<'a>(v: Option<&'a YamlValue>) -> (r: Option<&'a String>)
    ensures
        r matches Some(s) ==> yaml_str(deref_opt(v)) == Some(s@),
        r is None ==> yaml_str(deref_opt(v)) is None,
{
    match v {
        Some(x) => x.as_str(),
        None => None,
    }
}

/// The items of `v` when present and a sequence.
pub fn seq_opt<'a>(v: Option<&'a YamlValue>) -> (r: Option<&'a Vec<YamlValue>>)
    ensures
        r matches Some(items) ==> yaml_seq(deref_opt(v)) == Some(items@),
        r is None ==> yaml_seq(deref_opt(v)) is None,
{
    match v {
        Some(x) => x.as_sequence(),
        None => None,
    }
}

} // verus!
