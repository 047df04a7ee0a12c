//! The models.dev catalogue: providers, each with its models.
//!
//! The catalogue arrives as JSON objects keyed by id; here each object is a
//! vector of `(key, value)` entries with distinct keys, in no particular
//! order: whatever depends on order (the lists, ties among equal names) is
//! stated in terms of the entries' positions.
use vstd::prelude::*;

use crate::text::str_eq;

verus! {

/// The input and output modalities of a model.
#[derive(Debug, Clone)]
pub struct Modalities {
    pub input: Vec<String>,
    pub output: Vec<String>,
}

/// The prices of a model per million tokens, each written out as it is shown
/// (such as `$0.15`), or absent.
#[derive(Debug, Clone)]
pub struct Cost {
    pub input: Option<String>,
    pub output: Option<String>,
    pub reasoning: Option<String>,
    pub cache_read: Option<String>,
    pub cache_write: Option<String>,
    pub input_audio: Option<String>,
    pub output_audio: Option<String>,
}

/// The token limits of a model.
#[derive(Debug, Clone)]
pub struct Limit {
    pub context: Option<u64>,
    pub output: Option<u64>,
}

/// One model of a provider.
#[derive(Debug, Clone)]
pub struct Model {
    pub id: String,
    pub name: String,
    pub family: Option<String>,
    pub attachment: bool,
    pub reasoning: bool,
    pub tool_call: bool,
    pub temperature: bool,
    pub knowledge: Option<String>,
    pub release_date: Option<String>,
    pub last_updated: Option<String>,
    pub modalities: Modalities,
    pub open_weights: Option<bool>,
    pub cost: Option<Cost>,
    pub limit: Option<Limit>,
}

/// One provider, with its models keyed by model id.
#[derive(Debug)]
pub struct Provider {
    pub id: String,
    pub name: String,
    pub env: Vec<String>,
    pub npm: String,
    pub api: String,
    pub doc: String,
    pub models: Vec<(String, Model)>,
}

/// The whole catalogue: providers keyed by provider id.
pub type ApiData = Vec<(String, Provider)>;

/// No key occurs twice.
pub open spec fn keys_distinct<V>(entries: Seq<(String, V)>) -> bool {
    forall|i: int, j: int| 0 <= i < j < entries.len() ==> entries[i].0@ != entries[j].0@
}

/// Some entry has this key.
pub open spec fn has_key<V>(entries: Seq<(String, V)>, key: Seq<char>) -> bool {
    exists|i: int| 0 <= i < entries.len() && entries[i].0@ == key
}

/// The value stored under `key`, if any.
pub open spec fn value_for<V>(entries: Seq<(String, V)>, key: Seq<char>) -> Option<V> {
    if has_key(entries, key) {
        Some(entries[choose|i: int| 0 <= i < entries.len() && entries[i].0@ == key].1)
    } else {
        None
    }
}

/// The longest text that the fuzzy matcher accepts as a haystack.
pub open spec fn matcher_len_limit() -> nat {
    u32::MAX as nat
}

/// The text of an optional string, or the empty text.
pub open spec fn text_or_empty(s: Option<String>) -> Seq<char> {
    match s {
        Some(t) => t@,
        None => Seq::empty(),
    }
}

/// Every text that the search matches against, for this model of this provider,
/// fits the fuzzy matcher.
pub open spec fn model_fits_matcher(provider_name: Seq<char>, model_key: Seq<char>, model: Model) -> bool {
    &&& provider_name.len() + 1 + model.name@.len() <= matcher_len_limit()
    &&& model_key.len() <= matcher_len_limit()
    &&& text_or_empty(model.family).len() <= matcher_len_limit()
}

/// Keys are distinct among the providers and, in each provider, among its
/// models.
pub open spec fn catalogue_keys_distinct(data: Seq<(String, Provider)>) -> bool {
    &&& keys_distinct(data)
    &&& forall|i: int| 0 <= i < data.len() ==> keys_distinct(#[trigger] data[i].1.models@)
}

/// Keys are distinct at both levels, and every text that the search matches
/// against fits the fuzzy matcher.
pub open spec fn api_data_wf(data: Seq<(String, Provider)>) -> bool {
    &&& keys_distinct(data)
    &&& forall|i: int| 0 <= i < data.len() ==> {
        let p = #[trigger] data[i];
        &&& keys_distinct(p.1.models@)
        &&& p.0@.len() <= matcher_len_limit()
        &&& p.1.name@.len() <= matcher_len_limit()
        &&& forall|j: int| 0 <= j < p.1.models@.len() ==>
            model_fits_matcher(p.1.name@, #[trigger] p.1.models@[j].0@, p.1.models@[j].1)
    }
}

/// The value of the first entry with key `key`.
pub fn find_entry<'a, V>(entries: &'a Vec<(String, V)>, key: &str) -> (r: Option<&'a V>)
    ensures
        r is None <==> !has_key(entries@, key@),
        r matches Some(v) ==> exists|i: int|
            0 <= i < entries@.len() && entries@[i].0@ == key@ && *v == entries@[i].1
                && forall|k: int| 0 <= k < i ==> entries@[k].0@ != key@,
        keys_distinct(entries@) ==> match r {
            Some(v) => value_for(entries@, key@) == Some(*v),
            None => value_for(entries@, key@) is None,
        },
{
    let mut i: usize = 0;
    while i < entries.len()
        invariant
            i <= entries.len(),
            forall|k: int| 0 <= k < i ==> entries@[k].0@ != key@,
        decreases entries.len() - i,
    {
        if str_eq(entries[i].0.as_str(), key) {
            let ghost j = choose|j: int| 0 <= j < entries@.len() && entries@[j].0@ == key@;
            assert(entries@[i as int].0@ == key@);
            proof {
                if keys_distinct(entries@) {
                    if j != i {
                        if j < i {
                            assert(entries@[j].0@ != entries@[i as int].0@);
                        } else {
                            assert(entries@[i as int].0@ != entries@[j].0@);
                        }
                    }
                }
            }
            return Some(&entries[i].1);
        }
        i = i + 1;
    }
    None
}

/// Whether no key occurs twice.
pub fn keys_are_distinct<V>(entries: &Vec<(String, V)>) -> (r: bool)
    ensures
        r == keys_distinct(entries@),
{
    let n = entries.len();
    for i in 0..n
        invariant
            n == entries@.len(),
            forall|a: int, b: int| 0 <= a < b < n && a < i ==> entries@[a].0@ != entries@[b].0@,
    {
        for j in i + 1..n
            invariant
                n == entries@.len(),
                i < n,
                forall|a: int, b: int| 0 <= a < b < n && a < i ==> entries@[a].0@ != entries@[b].0@,
                forall|b: int| i < b < j ==> entries@[i as int].0@ != entries@[b].0@,
        {
            if str_eq(entries[i].0.as_str(), entries[j].0.as_str()) {
                return false;
            }
        }
    }
    true
}

/// Whether a text fits the fuzzy matcher.
fn fits(s: &str) -> (r: bool)
    ensures
        r == (s@.len() <= matcher_len_limit()),
{
    (s.unicode_len() as u64) <= (u32::MAX as u64)
}

/// Whether a model's texts fit the fuzzy matcher.
fn model_fits(provider_name: &str, model_key: &str, model: &Model) -> (r: bool)
    ensures
        r == model_fits_matcher(provider_name@, model_key@, *model),
{
    let a = provider_name.unicode_len() as u64;
    let b = model.name.as_str().unicode_len() as u64;
    let joined_fits = a < (u32::MAX as u64) && b <= (u32::MAX as u64) - 1 - a;
    let family_fits = match &model.family {
        Some(f) => fits(f.as_str()),
        None => true,
    };
    joined_fits && fits(model_key) && family_fits
}

/// Whether the catalogue is well formed (see `api_data_wf`).
pub fn api_data_fits(data: &ApiData) -> (r: bool)
    ensures
        r == api_data_wf(data@),
{
    if !keys_are_distinct(data) {
        return false;
    }
    let n = data.len();
    for i in 0..n
        invariant
            n == data@.len(),
            keys_distinct(data@),
            forall|k: int| 0 <= k < i ==> {
                let p = #[trigger] data@[k];
                &&& keys_distinct(p.1.models@)
                &&& p.0@.len() <= matcher_len_limit()
                &&& p.1.name@.len() <= matcher_len_limit()
                &&& forall|j: int| 0 <= j < p.1.models@.len() ==>
                    model_fits_matcher(p.1.name@, #[trigger] p.1.models@[j].0@, p.1.models@[j].1)
            },
    {
        let entry = &data[i];
        let provider = &entry.1;
        if !keys_are_distinct(&provider.models) || !fits(entry.0.as_str()) || !fits(provider.name.as_str()) {
            assert(!api_data_wf(data@)) by {
                assert(data@[i as int] == *entry);
            }
            return false;
        }
        for j in 0..provider.models.len()
            invariant
                n == data@.len(),
                i < n,
                data@[i as int] == *entry,
                *provider == entry.1,
                forall|k: int| 0 <= k < j ==>
                    model_fits_matcher(provider.name@, #[trigger] provider.models@[k].0@, provider.models@[k].1),
        {
            let me = &provider.models[j];
            if !model_fits(provider.name.as_str(), me.0.as_str(), &me.1) {
                assert(!api_data_wf(data@)) by {
                    assert(data@[i as int] == *entry);
                    assert(provider.models@[j as int] == *me);
                }
                return false;
            }
        }
        assert(data@[i as int] == *entry);
    }
    true
}

} // verus!
