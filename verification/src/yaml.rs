//! YAML documents as the library handles them: what a subscription profile
//! parses to, and what the generated core config is built as before
//! `serde_yaml` writes it out.

use vstd::prelude::*;

use crate::text::str_eq;

verus! {

/// A YAML value. Numbers are kept as the text `serde_yaml` prints for them,
/// which reads back to the same number.
#[derive(Debug)]
pub enum Yaml {
    Null,
    Bool(bool),
    Number(String),
    Text(String),
    Sequence(Vec<Yaml>),
    Mapping(Vec<(Yaml, Yaml)>),
    Tagged(String, Box<Yaml>),
}

/// The mathematical value of a `Yaml`.
pub enum YamlV {
    Null,
    Bool(bool),
    Number(Seq<char>),
    Text(Seq<char>),
    Sequence(Seq<YamlV>),
    Mapping(Seq<(YamlV, YamlV)>),
    Tagged(Seq<char>, Box<YamlV>),
}

pub open spec fn view_of(y: Yaml) -> YamlV
    decreases y,
{
    match y {
        Yaml::Null => YamlV::Null,
        Yaml::Bool(b) => YamlV::Bool(b),
        Yaml::Number(n) => YamlV::Number(n@),
        Yaml::Text(s) => YamlV::Text(s@),
        Yaml::Sequence(v) => YamlV::Sequence(
            Seq::new(
                v@.len(),
                |i: int|
                    if 0 <= i < v@.len() {
                        proof {
                            assert(decreases_to!(v => v@));
                            assert(decreases_to!(v@ => v@[i]));
                        }
                        view_of(v@[i])
                    } else {
                        YamlV::Null
                    },
            ),
        ),
        Yaml::Mapping(v) => YamlV::Mapping(
            Seq::new(
                v@.len(),
                |i: int|
                    if 0 <= i < v@.len() {
                        proof {
                            assert(decreases_to!(v => v@));
                            assert(decreases_to!(v@ => v@[i]));
                        }
                        (view_of(v@[i].0), view_of(v@[i].1))
                    } else {
                        (YamlV::Null, YamlV::Null)
                    },
            ),
        ),
        Yaml::Tagged(t, b) => YamlV::Tagged(t@, Box::new(view_of(*b))),
    }
}

impl View for Yaml {
    type V = YamlV;

    open spec fn view(&self) -> YamlV {
        view_of(*self)
    }
}

/// Views of a list of values.
pub open spec fn items_view(s: Seq<Yaml>) -> Seq<YamlV> {
    Seq::new(s.len(), |i: int| view_of(s[i]))
}

/// Views of a list of entries.
pub open spec fn pairs_view(s: Seq<(Yaml, Yaml)>) -> Seq<(YamlV, YamlV)> {
    Seq::new(s.len(), |i: int| (view_of(s[i].0), view_of(s[i].1)))
}

pub proof fn lemma_sequence_view(v: Vec<Yaml>)
    ensures
        view_of(Yaml::Sequence(v)) == YamlV::Sequence(items_view(v@)),
{
    assert(view_of(Yaml::Sequence(v))->Sequence_0 =~= items_view(v@));
}

pub proof fn lemma_mapping_view(v: Vec<(Yaml, Yaml)>)
    ensures
        view_of(Yaml::Mapping(v)) == YamlV::Mapping(pairs_view(v@)),
{
    assert(view_of(Yaml::Mapping(v))->Mapping_0 =~= pairs_view(v@));
}

/// A string scalar.
pub open spec fn text(s: Seq<char>) -> YamlV {
    YamlV::Text(s)
}

/// A mapping entry keyed by a string.
pub open spec fn entry(key: Seq<char>, value: YamlV) -> (YamlV, YamlV) {
    (YamlV::Text(key), value)
}

/// A sequence of string scalars.
pub open spec fn texts(items: Seq<Seq<char>>) -> YamlV {
    YamlV::Sequence(Seq::new(items.len(), |i: int| YamlV::Text(items[i])))
}

/// The value under any number of tags.
pub open spec fn untag(y: YamlV) -> YamlV
    decreases y,
{
    match y {
        YamlV::Tagged(_, inner) => untag(*inner),
        _ => y,
    }
}

/// The value stored under the string key `key` in a mapping.
pub open spec fn entry_for(m: Seq<(YamlV, YamlV)>, key: Seq<char>) -> Option<YamlV> {
    if exists|i: int|
        0 <= i < m.len() && (#[trigger] m[i]).0 == YamlV::Text(key) && forall|j: int|
            0 <= j < i ==> (#[trigger] m[j]).0 != YamlV::Text(key) {
        Some(
            m[choose|i: int|
                0 <= i < m.len() && (#[trigger] m[i]).0 == YamlV::Text(key) && forall|j: int|
                    0 <= j < i ==> (#[trigger] m[j]).0 != YamlV::Text(key)].1,
        )
    } else {
        None
    }
}

/// `Value::get(key)` for a string key: looks through tags into a mapping.
pub open spec fn get_key(y: YamlV, key: Seq<char>) -> Option<YamlV> {
    match untag(y) {
        YamlV::Mapping(m) => entry_for(m, key),
        _ => None,
    }
}

/// `Value::as_str`.
pub open spec fn as_text(y: YamlV) -> Option<Seq<char>> {
    match untag(y) {
        YamlV::Text(s) => Some(s),
        _ => None,
    }
}

/// `Value::as_sequence`.
pub open spec fn as_items(y: YamlV) -> Option<Seq<YamlV>> {
    match untag(y) {
        YamlV::Sequence(s) => Some(s),
        _ => None,
    }
}

/// Whether no two entries share a key.
pub open spec fn unique_keys(m: Seq<(YamlV, YamlV)>) -> bool {
    forall|i: int, j: int| 0 <= i < j < m.len() ==> (#[trigger] m[i]).0 != (#[trigger] m[j]).0
}

/// Whether every tag in `y` has a name. YAML has no syntax for an empty
/// tag, and `serde_yaml` refuses to build one.
pub open spec fn tags_named(y: YamlV) -> bool
    decreases y,
{
    match y {
        YamlV::Tagged(t, inner) => t.len() > 0 && tags_named(*inner),
        YamlV::Sequence(s) => items_named(s),
        YamlV::Mapping(m) => pairs_named(m),
        _ => true,
    }
}

/// Every item of `s` has only named tags.
pub open spec fn items_named(s: Seq<YamlV>) -> bool
    decreases s,
{
    if s.len() == 0 {
        true
    } else {
        proof {
            assert(decreases_to!(s => s[0]));
            assert(s.drop_first() =~= s.subrange(1, s.len() as int));
        }
        tags_named(s[0]) && items_named(s.drop_first())
    }
}

/// Every key and value of `m` has only named tags.
pub open spec fn pairs_named(m: Seq<(YamlV, YamlV)>) -> bool
    decreases m,
{
    if m.len() == 0 {
        true
    } else {
        proof {
            assert(decreases_to!(m => m[0]));
            assert(decreases_to!(m[0] => m[0].0));
            assert(decreases_to!(m[0] => m[0].1));
            assert(m.drop_first() =~= m.subrange(1, m.len() as int));
        }
        tags_named(m[0].0) && tags_named(m[0].1) && pairs_named(m.drop_first())
    }
}

/// Every value in `s` has only named tags.
pub open spec fn all_named(s: Seq<YamlV>) -> bool {
    forall|i: int| 0 <= i < s.len() ==> #[trigger] tags_named(s[i])
}

/// Both sides of a mapping entry have only named tags.
pub open spec fn entry_named(e: (YamlV, YamlV)) -> bool {
    tags_named(e.0) && tags_named(e.1)
}

pub proof fn lemma_items_named(s: Seq<YamlV>)
    ensures
        items_named(s) <==> forall|i: int| 0 <= i < s.len() ==> #[trigger] tags_named(s[i]),
    decreases s.len(),
{
    if s.len() > 0 {
        lemma_items_named(s.drop_first());
        if forall|i: int| 0 <= i < s.len() ==> #[trigger] tags_named(s[i]) {
            assert(tags_named(s[0]));
            assert forall|i: int| 0 <= i < s.drop_first().len() implies #[trigger] tags_named(
                s.drop_first()[i],
            ) by {
                assert(s.drop_first()[i] == s[i + 1]);
            }
        }
        if items_named(s) {
            assert forall|i: int| 0 <= i < s.len() implies #[trigger] tags_named(s[i]) by {
                if i > 0 {
                    assert(s[i] == s.drop_first()[i - 1]);
                }
            }
        }
    }
}

pub proof fn lemma_pairs_named(m: Seq<(YamlV, YamlV)>)
    ensures
        pairs_named(m) <==> forall|i: int| 0 <= i < m.len() ==> #[trigger] entry_named(m[i]),
    decreases m.len(),
{
    if m.len() > 0 {
        lemma_pairs_named(m.drop_first());
        if forall|i: int| 0 <= i < m.len() ==> #[trigger] entry_named(m[i]) {
            assert(entry_named(m[0]));
            assert forall|i: int| 0 <= i < m.drop_first().len() implies #[trigger] entry_named(
                m.drop_first()[i],
            ) by {
                assert(m.drop_first()[i] == m[i + 1]);
                assert(entry_named(m[i + 1]));
            }
        }
        if pairs_named(m) {
            assert forall|i: int| 0 <= i < m.len() implies #[trigger] entry_named(m[i]) by {
                if i > 0 {
                    assert(m[i] == m.drop_first()[i - 1]);
                    assert(entry_named(m.drop_first()[i - 1]));
                }
            }
        }
    }
}

/// A sequence of strings has no tags.
pub proof fn lemma_texts_named(items: Seq<Seq<char>>)
    ensures
        tags_named(texts(items)),
{
    let s = texts(items)->Sequence_0;
    lemma_items_named(s);
    assert forall|i: int| 0 <= i < s.len() implies #[trigger] tags_named(s[i]) by {
        assert(s[i] == YamlV::Text(items[i]));
    }
}

/// What is reached from a value with named tags has named tags too.
pub proof fn lemma_named_parts(y: YamlV)
    requires
        tags_named(y),
    ensures
        tags_named(untag(y)),
        forall|k: Seq<char>| #[trigger] get_key(y, k) is Some ==> tags_named(get_key(y, k)->0),
        as_items(y) matches Some(s) ==> forall|i: int| 0 <= i < s.len() ==> #[trigger] tags_named(s[i]),
    decreases y,
{
    match y {
        YamlV::Tagged(_, inner) => {
            lemma_named_parts(*inner);
        },
        _ => {},
    }
    let u = untag(y);
    match u {
        YamlV::Mapping(m) => {
            lemma_pairs_named(m);
            assert forall|k: Seq<char>| #[trigger] get_key(y, k) is Some implies tags_named(get_key(y, k)->0) by {
                if entry_for(m, k) is Some {
                    let i = choose|i: int|
                        0 <= i < m.len() && (#[trigger] m[i]).0 == YamlV::Text(k) && forall|j: int|
                            0 <= j < i ==> (#[trigger] m[j]).0 != YamlV::Text(k);
                    assert(entry_named(m[i]));
                }
            }
        },
        YamlV::Sequence(s) => {
            lemma_items_named(s);
        },
        _ => {},
    }
}

impl Yaml {
    /// A deep copy.
    pub fn deep_clone(&self) -> (r: Yaml)
        ensures
            r@ == self@,
        decreases self,
    {
        match self {
            Yaml::Null => Yaml::Null,
            Yaml::Bool(b) => Yaml::Bool(*b),
            Yaml::Number(n) => Yaml::Number(n.clone()),
            Yaml::Text(s) => Yaml::Text(s.clone()),
            Yaml::Sequence(v) => {
                let mut out: Vec<Yaml> = Vec::new();
                let mut i: usize = 0;
                while i < v.len()
                    invariant
                        *self == Yaml::Sequence(*v),
                        i <= v@.len(),
                        out@.len() == i,
                        forall|k: int| 0 <= k < i ==> view_of(#[trigger] out@[k]) == view_of(v@[k]),
                    decreases v@.len() - i,
                {
                    proof {
                        assert(decreases_to!(*self => self->Sequence_0));
                        assert(decreases_to!(*v => v@));
                        assert(decreases_to!(v@ => v@[i as int]));
                    }
                    out.push(v[i].deep_clone());
                    i = i + 1;
                }
                proof {
                    lemma_sequence_view(out);
                    lemma_sequence_view(*v);
                    assert(items_view(out@) =~= items_view(v@));
                }
                Yaml::Sequence(out)
            },
            Yaml::Mapping(v) => {
                let mut out: Vec<(Yaml, Yaml)> = Vec::new();
                let mut i: usize = 0;
                while i < v.len()
                    invariant
                        *self == Yaml::Mapping(*v),
                        i <= v@.len(),
                        out@.len() == i,
                        forall|k: int|
                            0 <= k < i ==> view_of((#[trigger] out@[k]).0) == view_of(v@[k].0)
                                && view_of(out@[k].1) == view_of(v@[k].1),
                    decreases v@.len() - i,
                {
                    proof {
                        assert(decreases_to!(*self => self->Mapping_0));
                        assert(decreases_to!(*v => v@));
                        assert(decreases_to!(v@ => v@[i as int]));
                        assert(decreases_to!(v@[i as int] => v@[i as int].0));
                        assert(decreases_to!(v@[i as int] => v@[i as int].1));
                    }
                    let k = v[i].0.deep_clone();
                    let x = v[i].1.deep_clone();
                    out.push((k, x));
                    i = i + 1;
                }
                proof {
                    lemma_mapping_view(out);
                    lemma_mapping_view(*v);
                    assert(pairs_view(out@) =~= pairs_view(v@));
                }
                Yaml::Mapping(out)
            },
            Yaml::Tagged(t, b) => {
                let inner = (**b).deep_clone();
                Yaml::Tagged(t.clone(), Box::new(inner))
            },
        }
    }

    /// Follows tags down to the value they carry.
    pub fn untagged(&self) -> (r: &Yaml)
        ensures
            r@ == untag(self@),
        decreases self,
    {
        match self {
            Yaml::Tagged(_, b) => (**b).untagged(),
            _ => self,
        }
    }

    /// `Value::get(key)` for a string key.
    pub fn get(&self, key: &str) -> (r: Option<&Yaml>)
        ensures
            match r {
                Some(v) => get_key(self@, key@) == Some(v@),
                None => get_key(self@, key@) is None,
            },
    {
        let u = self.untagged();
        match u {
            Yaml::Mapping(m) => {
                proof {
                    lemma_mapping_view(*m);
                }
                let ghost pv = pairs_view(m@);
                let mut i: usize = 0;
                while i < m.len()
                    invariant
                        i <= m@.len(),
                        pv == pairs_view(m@),
                        u@ == untag(self@),
                        u@ == YamlV::Mapping(pv),
                        forall|j: int| 0 <= j < i ==> (#[trigger] pv[j]).0 != YamlV::Text(key@),
                    decreases m@.len() - i,
                {
                    let found = match &m[i].0 {
                        Yaml::Text(s) => str_eq(s.as_str(), key),
                        _ => false,
                    };
                    assert(pv[i as int] == (view_of(m@[i as int].0), view_of(m@[i as int].1)));
                    if found {
                        proof {
                            assert(pv[i as int].0 == YamlV::Text(key@));
                            lemma_entry_for_first(pv, key@, i as int);
                        }
                        return Some(&m[i].1);
                    }
                    i = i + 1;
                }
                None
            },
            _ => None,
        }
    }

    /// `Value::as_str`.
    pub fn as_str(&self) -> (r: Option<&String>)
        ensures
            match r {
                Some(s) => as_text(self@) == Some(s@),
                None => as_text(self@) is None,
            },
    {
        match self.untagged() {
            Yaml::Text(s) => Some(s),
            _ => None,
        }
    }

    /// `Value::as_sequence`.
    pub fn as_sequence(&self) -> (r: Option<&Vec<Yaml>>)
        ensures
            match r {
                Some(v) => as_items(self@) == Some(items_view(v@)),
                None => as_items(self@) is None,
            },
    {
        match self.untagged() {
            Yaml::Sequence(v) => {
                proof {
                    lemma_sequence_view(*v);
                }
                Some(v)
            },
            _ => None,
        }
    }
}

/// Lookup finds the first entry with the key.
pub proof fn lemma_entry_for_first(m: Seq<(YamlV, YamlV)>, key: Seq<char>, i: int)
    requires
        0 <= i < m.len(),
        m[i].0 == YamlV::Text(key),
        forall|j: int| 0 <= j < i ==> (#[trigger] m[j]).0 != YamlV::Text(key),
    ensures
        entry_for(m, key) == Some(m[i].1),
{
    let k = choose|k: int|
        0 <= k < m.len() && (#[trigger] m[k]).0 == YamlV::Text(key) && forall|j: int|
            0 <= j < k ==> (#[trigger] m[j]).0 != YamlV::Text(key);
    if k < i {
        assert(m[k].0 != YamlV::Text(key));
    }
    if i < k {
        assert(m[i].0 != YamlV::Text(key));
    }
}

// ---------------------------------------------------------------- serde_yaml

#[verifier::external_type_specification]
#[verifier::external_body]
pub struct ExYamlValue(serde_yaml::Value);

/// What `serde_yaml::from_str::<serde_yaml::Value>` makes of a text, or the
/// text of its error.
pub uninterp spec fn yaml_parse(text: Seq<char>) -> Result<YamlV, Seq<char>>;

/// What `serde_yaml::to_string` writes for a document, or the text of its
/// error.
pub uninterp spec fn yaml_render(doc: YamlV) -> Result<Seq<char>, Seq<char>>;

/// Moves a parsed `serde_yaml::Value` into the library's representation,
/// variant for variant; numbers keep the text `serde_yaml` prints for them.
#[verifier::external_body]
fn from_serde_yaml(v: serde_yaml::Value) -> Yaml {
    match v {
        serde_yaml::Value::Null => Yaml::Null,
        serde_yaml::Value::Bool(b) => Yaml::Bool(b),
        serde_yaml::Value::Number(n) => Yaml::Number(n.to_string()),
        serde_yaml::Value::String(s) => Yaml::Text(s),
        serde_yaml::Value::Sequence(items) => Yaml::Sequence(items.into_iter().map(from_serde_yaml).collect()),
        serde_yaml::Value::Mapping(m) => Yaml::Mapping(m.into_iter().map(|(k, x)| (from_serde_yaml(k), from_serde_yaml(x))).collect()),
        serde_yaml::Value::Tagged(t) => Yaml::Tagged(t.tag.to_string(), Box::new(from_serde_yaml(t.value))),
    }
}

/// Moves a document into `serde_yaml::Value`, variant for variant. Every
/// tag must have a name: `Tag::new` panics on an empty one.
#[verifier::external_body]
fn to_serde_yaml(y: &Yaml) -> serde_yaml::Value
    requires
        tags_named(y@),
{
    match y {
        Yaml::Null => serde_yaml::Value::Null,
        Yaml::Bool(b) => serde_yaml::Value::Bool(*b),
        Yaml::Number(n) => to_serde_number(n),
        Yaml::Text(s) => serde_yaml::Value::String(s.clone()),
        Yaml::Sequence(items) => serde_yaml::Value::Sequence(items.iter().map(to_serde_yaml).collect()),
        Yaml::Mapping(m) => serde_yaml::Value::Mapping(m.iter().map(|(k, x)| (to_serde_yaml(k), to_serde_yaml(x))).collect()),
        Yaml::Tagged(t, x) => to_serde_tagged(t, x),
    }
}

/// A number read back from its text by `serde_yaml::Number`'s `FromStr`;
/// text it does not read stays a string.
#[verifier::external_body]
fn to_serde_number(n: &String) -> serde_yaml::Value {
    match n.parse::<serde_yaml::Number>() {
        Ok(x) => serde_yaml::Value::Number(x),
        Err(_) => serde_yaml::Value::String(n.clone()),
    }
}

/// A tagged value, its tag and content moved over. `Tag::new` asserts that
/// the tag is not empty, so an empty one is left out here.
#[verifier::external_body]
fn to_serde_tagged(t: &String, x: &Yaml) -> serde_yaml::Value
    requires
        t@.len() > 0,
        tags_named(x@),
{
    let tag = serde_yaml::value::Tag::new(t.clone());
    serde_yaml::Value::Tagged(Box::new(serde_yaml::value::TaggedValue { tag, value: to_serde_yaml(x) }))
}

/// `serde_yaml::from_str::<serde_yaml::Value>`. The YAML grammar is not
/// written out here: the result, or the error's text, is named by
/// `yaml_parse`. A tag comes over as `Tag`'s `Display` writes it, which is
/// `!` followed by the name, so no tag in the result is empty.
#[verifier::external_body]
pub fn parse_yaml(text: &str) -> (r: Result<Yaml, String>)
    ensures
        match r {
            Ok(y) => yaml_parse(text@) == Ok::<YamlV, Seq<char>>(y@) && tags_named(y@),
            Err(e) => yaml_parse(text@) == Err::<YamlV, Seq<char>>(e@),
        },
{
    match serde_yaml::from_str::<serde_yaml::Value>(text) {
        Ok(v) => Ok(from_serde_yaml(v)),
        Err(e) => Err(e.to_string()),
    }
}

/// `serde_yaml::to_string` of a document. The emitter's quoting and layout
/// are not written out here: the text, or the error's text, is named by
/// `yaml_render`. Every tag in the document must have a name, since
/// `serde_yaml` cannot hold an empty tag.
#[verifier::external_body]
pub fn render_yaml(doc: &Yaml) -> (r: Result<String, String>)
    requires
        tags_named(doc@),
    ensures
        match r {
            Ok(s) => yaml_render(doc@) == Ok::<Seq<char>, Seq<char>>(s@),
            Err(e) => yaml_render(doc@) == Err::<Seq<char>, Seq<char>>(e@),
        },
{
    serde_yaml::to_string(&to_serde_yaml(doc)).map_err(|e| e.to_string())
}

} // verus!
