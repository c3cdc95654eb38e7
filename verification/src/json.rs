//! JSON documents as the library handles them: the settings files, whose
//! layers are merged and pruned here, and the error bodies panels send.

use vstd::prelude::*;

use crate::text::{
    compare_str, lemma_lex_irreflexive, lemma_lex_total, lemma_lex_transitive, lex_lt, str_eq,
};

verus! {

/// A JSON value. Numbers are kept as the text `serde_json` prints for them;
/// an object's members are kept in ascending key order, as `serde_json`'s
/// map keeps them.
#[derive(Debug)]
pub enum Json {
    Null,
    Bool(bool),
    Number(String),
    Str(String),
    Array(Vec<Json>),
    Object(Vec<(String, Json)>),
}

/// The mathematical value of a `Json`.
pub enum JsonV {
    Null,
    Bool(bool),
    Number(Seq<char>),
    Str(Seq<char>),
    Array(Seq<JsonV>),
    Object(Seq<(Seq<char>, JsonV)>),
}

pub open spec fn jview(j: Json) -> JsonV
    decreases j,
{
    match j {
        Json::Null => JsonV::Null,
        Json::Bool(b) => JsonV::Bool(b),
        Json::Number(n) => JsonV::Number(n@),
        Json::Str(s) => JsonV::Str(s@),
        Json::Array(v) => JsonV::Array(
            Seq::new(
                v@.len(),
                |i: int|
                    if 0 <= i < v@.len() {
                        proof {
                            assert(decreases_to!(v => v@));
                            assert(decreases_to!(v@ => v@[i]));
                        }
                        jview(v@[i])
                    } else {
                        JsonV::Null
                    },
            ),
        ),
        Json::Object(v) => JsonV::Object(
            Seq::new(
                v@.len(),
                |i: int|
                    if 0 <= i < v@.len() {
                        proof {
                            assert(decreases_to!(v => v@));
                            assert(decreases_to!(v@ => v@[i]));
                        }
                        (v@[i].0@, jview(v@[i].1))
                    } else {
                        (Seq::empty(), JsonV::Null)
                    },
            ),
        ),
    }
}

impl View for Json {
    type V = JsonV;

    open spec fn view(&self) -> JsonV {
        jview(*self)
    }
}

pub open spec fn members_view(s: Seq<(String, Json)>) -> Seq<(Seq<char>, JsonV)> {
    Seq::new(s.len(), |i: int| (s[i].0@, jview(s[i].1)))
}

pub open spec fn elements_view(s: Seq<Json>) -> Seq<JsonV> {
    Seq::new(s.len(), |i: int| jview(s[i]))
}

pub proof fn lemma_object_view(v: Vec<(String, Json)>)
    ensures
        jview(Json::Object(v)) == JsonV::Object(members_view(v@)),
{
    assert(jview(Json::Object(v))->Object_0 =~= members_view(v@));
}

pub proof fn lemma_array_view(v: Vec<Json>)
    ensures
        jview(Json::Array(v)) == JsonV::Array(elements_view(v@)),
{
    assert(jview(Json::Array(v))->Array_0 =~= elements_view(v@));
}

/// The member stored under `key`: the first one with that key.
pub open spec fn member(m: Seq<(Seq<char>, JsonV)>, key: Seq<char>) -> Option<JsonV> {
    if exists|i: int|
        0 <= i < m.len() && (#[trigger] m[i]).0 == key && forall|j: int|
            0 <= j < i ==> (#[trigger] m[j]).0 != key {
        Some(
            m[choose|i: int|
                0 <= i < m.len() && (#[trigger] m[i]).0 == key && forall|j: int|
                    0 <= j < i ==> (#[trigger] m[j]).0 != key].1,
        )
    } else {
        None
    }
}

pub proof fn lemma_member_first(m: Seq<(Seq<char>, JsonV)>, key: Seq<char>, i: int)
    requires
        0 <= i < m.len(),
        m[i].0 == key,
        forall|j: int| 0 <= j < i ==> (#[trigger] m[j]).0 != key,
    ensures
        member(m, key) == Some(m[i].1),
{
    let k = choose|k: int|
        0 <= k < m.len() && (#[trigger] m[k]).0 == key && forall|j: int|
            0 <= j < k ==> (#[trigger] m[j]).0 != key;
    if k < i {
        assert(m[k].0 != key);
    }
    if i < k {
        assert(m[i].0 != key);
    }
}

pub proof fn lemma_member_none(m: Seq<(Seq<char>, JsonV)>, key: Seq<char>)
    requires
        forall|j: int| 0 <= j < m.len() ==> (#[trigger] m[j]).0 != key,
    ensures
        member(m, key) is None,
{
}

/// `Value::get(key)`: a member of an object; nothing for other values.
pub open spec fn jget(v: JsonV, key: Seq<char>) -> Option<JsonV> {
    match v {
        JsonV::Object(m) => member(m, key),
        _ => None,
    }
}

/// `Value::as_str`.
pub open spec fn jstr(v: JsonV) -> Option<Seq<char>> {
    match v {
        JsonV::Str(s) => Some(s),
        _ => None,
    }
}

impl Json {
    /// `Value::get(key)`.
    pub fn get(&self, key: &str) -> (r: Option<&Json>)
        ensures
            match r {
                Some(v) => jget(self@, key@) == Some(v@),
                None => jget(self@, key@) is None,
            },
    {
        match self {
            Json::Object(m) => {
                proof {
                    lemma_object_view(*m);
                }
                let ghost mv = members_view(m@);
                let mut i: usize = 0;
                while i < m.len()
                    invariant
                        i <= m@.len(),
                        mv == members_view(m@),
                        self@ == JsonV::Object(mv),
                        forall|j: int| 0 <= j < i ==> (#[trigger] mv[j]).0 != key@,
                    decreases m@.len() - i,
                {
                    assert(mv[i as int] == (m@[i as int].0@, jview(m@[i as int].1)));
                    if str_eq(m[i].0.as_str(), key) {
                        proof {
                            lemma_member_first(mv, key@, i as int);
                        }
                        return Some(&m[i].1);
                    }
                    i = i + 1;
                }
                None
            },
            _ => None,
        }
    }

    /// `Value::as_str`.
    pub fn as_str(&self) -> (r: Option<&String>)
        ensures
            match r {
                Some(s) => jstr(self@) == Some(s@),
                None => jstr(self@) is None,
            },
    {
        match self {
            Json::Str(s) => Some(s),
            _ => None,
        }
    }
}

// ---------------------------------------------------------------- layers

/// Every key of `m` is smaller than the next one: a sorted map's order, with
/// no key twice.
pub open spec fn keys_ascending(m: Seq<(Seq<char>, JsonV)>) -> bool {
    forall|i: int, j: int| 0 <= i < j < m.len() ==> lex_lt(#[trigger] m[i].0, #[trigger] m[j].0)
}

/// Every object in `v`, at any depth below other objects, keeps its keys in
/// ascending order, as `serde_json`'s map does.
pub open spec fn wf_json(v: JsonV) -> bool
    decreases v,
{
    match v {
        JsonV::Object(m) => keys_ascending(m) && wf_members(m),
        _ => true,
    }
}

/// Every member value of `m` is well formed.
pub open spec fn wf_members(m: Seq<(Seq<char>, JsonV)>) -> bool
    decreases m,
{
    if m.len() == 0 {
        true
    } else {
        proof {
            assert(decreases_to!(m => m[0]));
            assert(m.drop_first() =~= m.subrange(1, m.len() as int));
        }
        wf_json(m[0].1) && wf_members(m.drop_first())
    }
}

proof fn lemma_wf_members(m: Seq<(Seq<char>, JsonV)>)
    ensures
        wf_members(m) <==> forall|i: int| 0 <= i < m.len() ==> #[trigger] wf_json(m[i].1),
    decreases m.len(),
{
    if m.len() > 0 {
        lemma_wf_members(m.drop_first());
        assert(wf_members(m) == (wf_json(m[0].1) && wf_members(m.drop_first())));
        if forall|i: int| 0 <= i < m.len() ==> #[trigger] wf_json(m[i].1) {
            assert(wf_json(m[0].1));
            assert forall|i: int| 0 <= i < m.drop_first().len() implies #[trigger] wf_json(
                m.drop_first()[i].1,
            ) by {
                assert(m.drop_first()[i] == m[i + 1]);
            }
        }
        if wf_members(m) {
            assert forall|i: int| 0 <= i < m.len() implies #[trigger] wf_json(m[i].1) by {
                if i > 0 {
                    assert(m[i] == m.drop_first()[i - 1]);
                }
            }
        }
    }
}

/// What well-formedness of an object says of its members.
pub proof fn lemma_wf_object(m: Seq<(Seq<char>, JsonV)>)
    ensures
        wf_json(JsonV::Object(m)) <==> (keys_ascending(m) && forall|i: int|
            0 <= i < m.len() ==> #[trigger] wf_json(m[i].1)),
{
    lemma_wf_members(m);
}

/// Whether `v` is an object without members.
pub open spec fn empty_object(v: JsonV) -> bool {
    v matches JsonV::Object(m) && m.len() == 0
}

/// `m` with `v` written under `k` the way a sorted map writes it: after every
/// smaller key, in place of an equal one.
pub open spec fn put(m: Seq<(Seq<char>, JsonV)>, k: Seq<char>, v: JsonV) -> Seq<(Seq<char>, JsonV)>
    decreases m.len(),
{
    if m.len() == 0 {
        seq![(k, v)]
    } else if m[0].0 == k {
        seq![(k, v)] + m.drop_first()
    } else if lex_lt(m[0].0, k) {
        seq![m[0]] + put(m.drop_first(), k, v)
    } else {
        seq![(k, v)] + m
    }
}

/// `over` deep-merged into `base`: objects merge key by key, anything else
/// replaces what was there.
pub open spec fn merged(base: JsonV, over: JsonV) -> JsonV
    decreases over,
{
    match over {
        JsonV::Object(om) => match base {
            JsonV::Object(bm) => JsonV::Object(merged_members(bm, om)),
            _ => over,
        },
        _ => over,
    }
}

/// The members of `over` merged, in order, into the members of `base`.
pub open spec fn merged_members(bm: Seq<(Seq<char>, JsonV)>, om: Seq<(Seq<char>, JsonV)>) -> Seq<
    (Seq<char>, JsonV),
>
    decreases om,
{
    if om.len() == 0 {
        bm
    } else {
        proof {
            assert(decreases_to!(om => om[0]));
            assert(om.drop_first() =~= om.subrange(1, om.len() as int));
        }
        let k = om[0].0;
        let v = match member(bm, k) {
            Some(x) => merged(x, om[0].1),
            None => om[0].1,
        };
        merged_members(put(bm, k, v), om.drop_first())
    }
}

/// `value` without what it shares with `defaults`: members equal to the
/// default are dropped, nested objects are pruned in turn, and an object that
/// prunes down to nothing is dropped as well.
pub open spec fn pruned(value: JsonV, defaults: JsonV) -> JsonV
    decreases value,
{
    match value {
        JsonV::Object(m) => match defaults {
            JsonV::Object(dm) => JsonV::Object(pruned_members(m, dm)),
            _ => value,
        },
        _ => value,
    }
}

/// The members of `m` that differ from the defaults `dm`, pruned, in order.
pub open spec fn pruned_members(m: Seq<(Seq<char>, JsonV)>, dm: Seq<(Seq<char>, JsonV)>) -> Seq<
    (Seq<char>, JsonV),
>
    decreases m,
{
    if m.len() == 0 {
        Seq::empty()
    } else {
        proof {
            assert(decreases_to!(m => m[0]));
            assert(m.drop_first() =~= m.subrange(1, m.len() as int));
        }
        let rest = pruned_members(m.drop_first(), dm);
        let k = m[0].0;
        let x = m[0].1;
        match member(dm, k) {
            Some(dv) => if dv == x {
                rest
            } else if empty_object(pruned(x, dv)) {
                rest
            } else {
                seq![(k, pruned(x, dv))] + rest
            },
            None => seq![(k, x)] + rest,
        }
    }
}

/// Where `put` writes `k` in `m`: past the `p` smaller keys, over an equal one.
pub proof fn lemma_put_at(m: Seq<(Seq<char>, JsonV)>, k: Seq<char>, v: JsonV, p: int)
    requires
        0 <= p <= m.len(),
        forall|j: int| 0 <= j < p ==> lex_lt(#[trigger] m[j].0, k),
        p < m.len() ==> !lex_lt(m[p].0, k),
    ensures
        put(m, k, v) == if p < m.len() && m[p].0 == k {
            m.update(p, (k, v))
        } else {
            m.insert(p, (k, v))
        },
    decreases p,
{
    if p == 0 {
        if m.len() > 0 && m[0].0 == k {
            assert(seq![(k, v)] + m.drop_first() =~= m.update(0, (k, v)));
        } else if m.len() > 0 {
            assert(seq![(k, v)] + m =~= m.insert(0, (k, v)));
        } else {
            assert(seq![(k, v)] =~= m.insert(0, (k, v)));
        }
    } else {
        lemma_lex_irreflexive(k);
        assert(lex_lt(m[0].0, k));
        let t = m.drop_first();
        assert forall|j: int| 0 <= j < p - 1 implies lex_lt(#[trigger] t[j].0, k) by {
            assert(t[j] == m[j + 1]);
        }
        lemma_put_at(t, k, v, p - 1);
        if p < m.len() && m[p].0 == k {
            assert(seq![m[0]] + t.update(p - 1, (k, v)) =~= m.update(p, (k, v)));
        } else {
            assert(seq![m[0]] + t.insert(p - 1, (k, v)) =~= m.insert(p, (k, v)));
        }
    }
}

/// In ascending keys, the member under `k` is the one at `k`'s place, if any.
pub proof fn lemma_member_slot(m: Seq<(Seq<char>, JsonV)>, k: Seq<char>, p: int)
    requires
        keys_ascending(m),
        0 <= p <= m.len(),
        forall|j: int| 0 <= j < p ==> lex_lt(#[trigger] m[j].0, k),
        p < m.len() ==> !lex_lt(m[p].0, k),
    ensures
        member(m, k) == if p < m.len() && m[p].0 == k {
            Some(m[p].1)
        } else {
            None::<JsonV>
        },
{
    lemma_lex_irreflexive(k);
    assert forall|j: int| 0 <= j < p implies (#[trigger] m[j]).0 != k by {
        assert(lex_lt(m[j].0, k));
    }
    if p < m.len() && m[p].0 == k {
        lemma_member_first(m, k, p);
    } else {
        assert forall|j: int| 0 <= j < m.len() implies (#[trigger] m[j]).0 != k by {
            if j > p && m[j].0 == k {
                assert(lex_lt(m[p].0, m[j].0));
            }
        }
        lemma_member_none(m, k);
    }
}

/// Writing at the right place keeps the keys ascending and the values well
/// formed.
pub proof fn lemma_put_wf(m: Seq<(Seq<char>, JsonV)>, k: Seq<char>, v: JsonV, p: int)
    requires
        keys_ascending(m),
        forall|i: int| 0 <= i < m.len() ==> #[trigger] wf_json(m[i].1),
        wf_json(v),
        0 <= p <= m.len(),
        forall|j: int| 0 <= j < p ==> lex_lt(#[trigger] m[j].0, k),
        p < m.len() ==> !lex_lt(m[p].0, k),
    ensures
        keys_ascending(put(m, k, v)),
        forall|i: int| 0 <= i < put(m, k, v).len() ==> #[trigger] wf_json(put(m, k, v)[i].1),
{
    lemma_put_at(m, k, v, p);
    let r = put(m, k, v);
    if p < m.len() {
        lemma_lex_total(m[p].0, k);
    }
    if p < m.len() && m[p].0 == k {
        assert forall|i: int, j: int| 0 <= i < j < r.len() implies lex_lt(
            #[trigger] r[i].0,
            #[trigger] r[j].0,
        ) by {
            assert(r[i].0 == m[i].0);
            assert(r[j].0 == m[j].0);
        }
    } else {
        assert forall|i: int, j: int| 0 <= i < j < r.len() implies lex_lt(
            #[trigger] r[i].0,
            #[trigger] r[j].0,
        ) by {
            if j < p {
                assert(r[i] == m[i] && r[j] == m[j]);
            } else if j == p {
                assert(r[i] == m[i]);
            } else if i == p {
                assert(r[j] == m[j - 1]);
                if j - 1 > p {
                    assert(lex_lt(m[p].0, m[j - 1].0));
                    lemma_lex_transitive(k, m[p].0, m[j - 1].0);
                }
            } else if i < p {
                assert(r[i] == m[i] && r[j] == m[j - 1]);
                if i < j - 1 {
                } else {
                }
            } else {
                assert(r[i] == m[i - 1] && r[j] == m[j - 1]);
            }
        }
    }
}

/// The place of `k` among the members: past every smaller key.
fn slot(m: &Vec<(String, Json)>, k: &str) -> (p: usize)
    ensures
        p <= m@.len(),
        forall|j: int| 0 <= j < p ==> lex_lt(#[trigger] members_view(m@)[j].0, k@),
        p < m@.len() ==> !lex_lt(members_view(m@)[p as int].0, k@),
{
    let ghost mv = members_view(m@);
    let mut i: usize = 0;
    while i < m.len()
        invariant
            i <= m@.len(),
            mv == members_view(m@),
            forall|j: int| 0 <= j < i ==> lex_lt(#[trigger] mv[j].0, k@),
        decreases m@.len() - i,
    {
        assert(mv[i as int].0 == m@[i as int].0@);
        if compare_str(m[i].0.as_str(), k) >= 0 {
            return i;
        }
        i = i + 1;
    }
    i
}

impl Json {
    /// A copy of the whole value.
    pub fn deep_clone(&self) -> (r: Json)
        ensures
            r@ == self@,
        decreases self,
    {
        match self {
            Json::Null => Json::Null,
            Json::Bool(b) => Json::Bool(*b),
            Json::Number(n) => Json::Number(n.clone()),
            Json::Str(s) => Json::Str(s.clone()),
            Json::Array(v) => {
                let mut out: Vec<Json> = Vec::new();
                let mut i: usize = 0;
                while i < v.len()
                    invariant
                        *self == Json::Array(*v),
                        i <= v@.len(),
                        out@.len() == i,
                        forall|k: int| 0 <= k < i ==> jview(#[trigger] out@[k]) == jview(v@[k]),
                    decreases v@.len() - i,
                {
                    proof {
                        assert(decreases_to!(*self => self->Array_0));
                        assert(decreases_to!(*v => v@));
                        assert(decreases_to!(v@ => v@[i as int]));
                    }
                    out.push(v[i].deep_clone());
                    i = i + 1;
                }
                proof {
                    lemma_array_view(out);
                    lemma_array_view(*v);
                    assert(elements_view(out@) =~= elements_view(v@));
                }
                Json::Array(out)
            },
            Json::Object(v) => {
                let mut out: Vec<(String, Json)> = Vec::new();
                let mut i: usize = 0;
                while i < v.len()
                    invariant
                        *self == Json::Object(*v),
                        i <= v@.len(),
                        out@.len() == i,
                        forall|k: int|
                            0 <= k < i ==> (#[trigger] out@[k]).0@ == v@[k].0@ && jview(out@[k].1)
                                == jview(v@[k].1),
                    decreases v@.len() - i,
                {
                    proof {
                        assert(decreases_to!(*self => self->Object_0));
                        assert(decreases_to!(*v => v@));
                        assert(decreases_to!(v@ => v@[i as int]));
                        assert(decreases_to!(v@[i as int] => v@[i as int].1));
                    }
                    let x = v[i].1.deep_clone();
                    out.push((v[i].0.clone(), x));
                    i = i + 1;
                }
                proof {
                    lemma_object_view(out);
                    lemma_object_view(*v);
                    assert(members_view(out@) =~= members_view(v@));
                }
                Json::Object(out)
            },
        }
    }

    /// `==` on `serde_json::Value`: the same value, member for member.
    pub fn same(&self, other: &Json) -> (r: bool)
        ensures
            r == (self@ == other@),
        decreases self,
    {
        match (self, other) {
            (Json::Null, Json::Null) => true,
            (Json::Bool(a), Json::Bool(b)) => *a == *b,
            (Json::Number(a), Json::Number(b)) => str_eq(a.as_str(), b.as_str()),
            (Json::Str(a), Json::Str(b)) => str_eq(a.as_str(), b.as_str()),
            (Json::Array(a), Json::Array(b)) => {
                proof {
                    lemma_array_view(*a);
                    lemma_array_view(*b);
                }
                if a.len() != b.len() {
                    assert(elements_view(a@).len() != elements_view(b@).len());
                    return false;
                }
                let mut i: usize = 0;
                while i < a.len()
                    invariant
                        *self == Json::Array(*a),
                        self@ == JsonV::Array(elements_view(a@)),
                        other@ == JsonV::Array(elements_view(b@)),
                        a@.len() == b@.len(),
                        i <= a@.len(),
                        forall|k: int| 0 <= k < i ==> jview(#[trigger] a@[k]) == jview(b@[k]),
                    decreases a@.len() - i,
                {
                    proof {
                        assert(decreases_to!(*self => self->Array_0));
                        assert(decreases_to!(*a => a@));
                        assert(decreases_to!(a@ => a@[i as int]));
                    }
                    if !a[i].same(&b[i]) {
                        assert(elements_view(a@)[i as int] != elements_view(b@)[i as int]);
                        return false;
                    }
                    i = i + 1;
                }
                assert(elements_view(a@) =~= elements_view(b@));
                true
            },
            (Json::Object(a), Json::Object(b)) => {
                proof {
                    lemma_object_view(*a);
                    lemma_object_view(*b);
                }
                if a.len() != b.len() {
                    assert(members_view(a@).len() != members_view(b@).len());
                    return false;
                }
                let mut i: usize = 0;
                while i < a.len()
                    invariant
                        *self == Json::Object(*a),
                        self@ == JsonV::Object(members_view(a@)),
                        other@ == JsonV::Object(members_view(b@)),
                        a@.len() == b@.len(),
                        i <= a@.len(),
                        forall|k: int|
                            0 <= k < i ==> (#[trigger] a@[k]).0@ == b@[k].0@ && jview(a@[k].1)
                                == jview(b@[k].1),
                    decreases a@.len() - i,
                {
                    proof {
                        assert(decreases_to!(*self => self->Object_0));
                        assert(decreases_to!(*a => a@));
                        assert(decreases_to!(a@ => a@[i as int]));
                        assert(decreases_to!(a@[i as int] => a@[i as int].1));
                    }
                    if !str_eq(a[i].0.as_str(), b[i].0.as_str()) || !a[i].1.same(&b[i].1) {
                        assert(members_view(a@)[i as int] != members_view(b@)[i as int]);
                        return false;
                    }
                    i = i + 1;
                }
                assert(members_view(a@) =~= members_view(b@));
                true
            },
            (Json::Null, _) | (Json::Bool(_), _) | (Json::Number(_), _) | (Json::Str(_), _)
            | (Json::Array(_), _) | (Json::Object(_), _) => {
                proof {
                    match other {
                        Json::Array(b) => lemma_array_view(*b),
                        Json::Object(b) => lemma_object_view(*b),
                        _ => {},
                    }
                    match self {
                        Json::Array(a) => lemma_array_view(*a),
                        Json::Object(a) => lemma_object_view(*a),
                        _ => {},
                    }
                }
                false
            },
        }
    }
}

/// `over` merged into `base`, by value.
fn merged_value(base: Json, over: &Json) -> (r: Json)
    requires
        wf_json(base@),
        wf_json(over@),
    ensures
        r@ == merged(base@, over@),
        wf_json(r@),
    decreases over,
{
    match over {
        Json::Object(om) => match base {
            Json::Object(bm) => {
                proof {
                    lemma_object_view(bm);
                    lemma_object_view(*om);
                }
                let ghost bmv = members_view(bm@);
                let ghost omv = members_view(om@);
                proof {
                    assert(base@ == JsonV::Object(bmv));
                    lemma_wf_object(bmv);
                    lemma_wf_object(omv);
                    assert(omv.skip(0) =~= omv);
                }
                let mut acc = bm;
                let mut i: usize = 0;
                while i < om.len()
                    invariant
                        *over == Json::Object(*om),
                        omv == members_view(om@),
                        over@ == JsonV::Object(omv),
                        wf_json(over@),
                        i <= om@.len(),
                        keys_ascending(members_view(acc@)),
                        forall|j: int|
                            0 <= j < acc@.len() ==> #[trigger] wf_json(members_view(acc@)[j].1),
                        merged_members(members_view(acc@), omv.skip(i as int)) == merged_members(
                            bmv,
                            omv,
                        ),
                    decreases om@.len() - i,
                {
                    proof {
                        assert(decreases_to!(*over => over->Object_0));
                        assert(decreases_to!(*om => om@));
                        assert(decreases_to!(om@ => om@[i as int]));
                        assert(decreases_to!(om@[i as int] => om@[i as int].1));
                    }
                    let ghost av = members_view(acc@);
                    let ghost k = omv[i as int].0;
                    let ghost v = omv[i as int].1;
                    proof {
                        assert(omv.skip(i as int)[0] == omv[i as int]);
                        assert(omv.skip(i as int).drop_first() =~= omv.skip(i + 1));
                        lemma_wf_object(omv);
                        assert(wf_json(omv[i as int].1));
                        assert(k == om@[i as int].0@);
                        assert(v == jview(om@[i as int].1));
                    }
                    let p = slot(&acc, om[i].0.as_str());
                    proof {
                        lemma_member_slot(av, k, p as int);
                    }
                    if p < acc.len() && str_eq(acc[p].0.as_str(), om[i].0.as_str()) {
                        proof {
                            assert(av[p as int].0 == k);
                            assert(wf_json(av[p as int].1));
                        }
                        let (kk, old) = acc.remove(p);
                        let nv = merged_value(old, &om[i].1);
                        acc.insert(p, (kk, nv));
                        proof {
                            lemma_put_at(av, k, nv@, p as int);
                            lemma_put_wf(av, k, nv@, p as int);
                            assert(members_view(acc@) =~= av.update(p as int, (k, nv@)));
                        }
                    } else {
                        let nv = om[i].1.deep_clone();
                        acc.insert(p, (om[i].0.clone(), nv));
                        proof {
                            lemma_put_at(av, k, v, p as int);
                            lemma_put_wf(av, k, v, p as int);
                            assert(members_view(acc@) =~= av.insert(p as int, (k, v)));
                        }
                    }
                    i = i + 1;
                }
                proof {
                    assert(omv.skip(om@.len() as int) =~= Seq::<(Seq<char>, JsonV)>::empty());
                    lemma_object_view(acc);
                    lemma_wf_object(members_view(acc@));
                }
                Json::Object(acc)
            },
            _ => over.deep_clone(),
        },
        _ => over.deep_clone(),
    }
}

/// Deep-merge `over` into `base`; objects merge key-wise, everything else
/// replaces.
pub fn merge(base: &mut Json, over: Json)
    requires
        wf_json(old(base)@),
        wf_json(over@),
    ensures
        final(base)@ == merged(old(base)@, over@),
        wf_json(final(base)@),
{
    let mut b = Json::Null;
    std::mem::swap(&mut b, base);
    *base = merged_value(b, &over);
}

/// `value` pruned against `defaults`, from a borrowed value.
fn pruned_value(value: &Json, defaults: &Json) -> (r: Json)
    ensures
        r@ == pruned(value@, defaults@),
    decreases value,
{
    match value {
        Json::Object(m) => match defaults {
            Json::Object(dm) => {
                proof {
                    lemma_object_view(*m);
                    lemma_object_view(*dm);
                    assert(members_view(m@).skip(0) =~= members_view(m@));
                }
                let ghost mv = members_view(m@);
                let ghost dmv = members_view(dm@);
                let mut kept: Vec<(String, Json)> = Vec::new();
                let mut i: usize = 0;
                while i < m.len()
                    invariant
                        *value == Json::Object(*m),
                        mv == members_view(m@),
                        defaults@ == JsonV::Object(dmv),
                        i <= m@.len(),
                        pruned_members(mv, dmv) == members_view(kept@) + pruned_members(
                            mv.skip(i as int),
                            dmv,
                        ),
                    decreases m@.len() - i,
                {
                    proof {
                        assert(decreases_to!(*value => value->Object_0));
                        assert(decreases_to!(*m => m@));
                        assert(decreases_to!(m@ => m@[i as int]));
                        assert(decreases_to!(m@[i as int] => m@[i as int].1));
                        assert(mv.skip(i as int)[0] == mv[i as int]);
                        assert(mv.skip(i as int).drop_first() =~= mv.skip(i + 1));
                        assert(mv[i as int] == (m@[i as int].0@, jview(m@[i as int].1)));
                    }
                    let ghost before = members_view(kept@);
                    let ghost rest = pruned_members(mv.skip(i + 1), dmv);
                    match defaults.get(m[i].0.as_str()) {
                        Some(dv) => {
                            if dv.same(&m[i].1) {
                                assert(members_view(kept@) + rest =~= before + rest);
                            } else {
                                let p = pruned_value(&m[i].1, dv);
                                let empty = match &p {
                                    Json::Object(pm) => pm.len() == 0,
                                    _ => false,
                                };
                                proof {
                                    if p is Object {
                                        lemma_object_view(p->Object_0);
                                    }
                                }
                                if !empty {
                                    kept.push((m[i].0.clone(), p));
                                    proof {
                                        assert(members_view(kept@) =~= before.push(
                                            (mv[i as int].0, pruned(mv[i as int].1, dv@)),
                                        ));
                                        assert(members_view(kept@) + rest =~= before + (seq![
                                            (mv[i as int].0, pruned(mv[i as int].1, dv@)),
                                        ] + rest));
                                    }
                                }
                            }
                        },
                        None => {
                            let x = m[i].1.deep_clone();
                            kept.push((m[i].0.clone(), x));
                            proof {
                                assert(members_view(kept@) =~= before.push(mv[i as int]));
                                assert(members_view(kept@) + rest =~= before + (seq![mv[i as int]]
                                    + rest));
                            }
                        },
                    }
                    i = i + 1;
                }
                proof {
                    assert(mv.skip(m@.len() as int) =~= Seq::<(Seq<char>, JsonV)>::empty());
                    assert(members_view(kept@) + Seq::<(Seq<char>, JsonV)>::empty()
                        =~= members_view(kept@));
                    lemma_object_view(kept);
                }
                Json::Object(kept)
            },
            _ => value.deep_clone(),
        },
        _ => value.deep_clone(),
    }
}

/// Inverse of [`merge`]: drop every value identical to the declarative
/// layer, so defaults keep applying to settings the user never changed.
pub fn prune(value: Json, defaults: &Json) -> (r: Json)
    ensures
        r@ == pruned(value@, defaults@),
        wf_json(value@) ==> wf_json(r@),
{
    proof {
        if wf_json(value@) {
            lemma_pruned_wf(value@, defaults@);
        }
    }
    pruned_value(&value, defaults)
}

/// What the settings are made of when loading: `defaults.json` (or nothing)
/// with `config.json`, when there is one, merged over it.
pub open spec fn layered_view(defaults: Option<JsonV>, user: Option<JsonV>) -> JsonV {
    let base = match defaults {
        Some(d) => d,
        None => JsonV::Object(Seq::empty()),
    };
    match user {
        Some(u) => merged(base, u),
        None => base,
    }
}

/// The document the settings are read from: the declarative layer, with
/// what the user changed merged over it.
pub fn layered(defaults: Option<Json>, user: Option<Json>) -> (r: Json)
    requires
        defaults matches Some(d) ==> wf_json(d@),
        user matches Some(u) ==> wf_json(u@),
    ensures
        r@ == layered_view(
            match defaults {
                Some(d) => Some(d@),
                None => None,
            },
            match user {
                Some(u) => Some(u@),
                None => None,
            },
        ),
        wf_json(r@),
{
    let mut merged_doc = match defaults {
        Some(d) => d,
        None => {
            let empty: Vec<(String, Json)> = Vec::new();
            proof {
                lemma_object_view(empty);
                assert(members_view(empty@) =~= Seq::empty());
                lemma_wf_object(Seq::empty());
            }
            Json::Object(empty)
        },
    };
    match user {
        Some(u) => merge(&mut merged_doc, u),
        None => {},
    }
    merged_doc
}

/// What saving writes to `config.json`: the settings pruned against the
/// declarative layer, or all of them when there is none.
pub fn to_save(full: Json, defaults: &Option<Json>) -> (r: Json)
    ensures
        r@ == pruned(
            full@,
            match defaults {
                Some(d) => d@,
                None => JsonV::Object(Seq::empty()),
            },
        ),
        wf_json(full@) ==> wf_json(r@),
{
    match defaults {
        Some(d) => prune(full, d),
        None => {
            let none: Vec<(String, Json)> = Vec::new();
            proof {
                lemma_object_view(none);
                assert(members_view(none@) =~= Seq::empty());
            }
            prune(full, &Json::Object(none))
        },
    }
}

// ---------------------------------------------------------------- laws

/// In ascending keys, the member at a key is the one stored under it.
pub proof fn lemma_member_at(m: Seq<(Seq<char>, JsonV)>, i: int)
    requires
        keys_ascending(m),
        0 <= i < m.len(),
    ensures
        member(m, m[i].0) == Some(m[i].1),
{
    lemma_lex_irreflexive(m[i].0);
    assert forall|j: int| 0 <= j < i implies (#[trigger] m[j]).0 != m[i].0 by {
        assert(lex_lt(m[j].0, m[i].0));
    }
    lemma_member_first(m, m[i].0, i);
}

/// Past a first member with another key, lookup goes on in the rest.
pub proof fn lemma_member_rest(m: Seq<(Seq<char>, JsonV)>, k: Seq<char>)
    requires
        m.len() > 0,
        m[0].0 != k,
    ensures
        member(m, k) == member(m.drop_first(), k),
{
    let t = m.drop_first();
    if exists|i: int| 0 <= i < t.len() && (#[trigger] t[i]).0 == k {
        let i = choose|i: int| 0 <= i < t.len() && (#[trigger] t[i]).0 == k;
        let f = choose|f: int|
            0 <= f <= i && (#[trigger] t[f]).0 == k && forall|j: int| 0 <= j < f ==> (#[trigger] t[j]).0 != k;
        assert(exists|f: int|
            0 <= f <= i && (#[trigger] t[f]).0 == k && forall|j: int| 0 <= j < f ==> (#[trigger] t[j]).0 != k) by {
            lemma_first_key(t, k, i);
        }
        lemma_member_first(t, k, f);
        assert forall|j: int| 0 <= j < f + 1 implies (#[trigger] m[j]).0 != k by {
            if j > 0 {
                assert(m[j] == t[j - 1]);
            }
        }
        assert(m[f + 1] == t[f]);
        lemma_member_first(m, k, f + 1);
    } else {
        assert forall|j: int| 0 <= j < m.len() implies (#[trigger] m[j]).0 != k by {
            if j > 0 {
                assert(m[j] == t[j - 1]);
            }
        }
        lemma_member_none(m, k);
        lemma_member_none(t, k);
    }
}

/// Where a key occurs at all, it has a first occurrence.
proof fn lemma_first_key(t: Seq<(Seq<char>, JsonV)>, k: Seq<char>, i: int)
    requires
        0 <= i < t.len(),
        t[i].0 == k,
    ensures
        exists|f: int|
            0 <= f <= i && (#[trigger] t[f]).0 == k && forall|j: int| 0 <= j < f ==> (#[trigger] t[j]).0 != k,
    decreases i,
{
    if exists|j: int| 0 <= j < i && (#[trigger] t[j]).0 == k {
        let j = choose|j: int| 0 <= j < i && (#[trigger] t[j]).0 == k;
        lemma_first_key(t, k, j);
    } else {
        assert(forall|j: int| 0 <= j < i ==> (#[trigger] t[j]).0 != k);
    }
}

/// Two maps with ascending keys and the same members are the same sequence.
pub proof fn lemma_same_members(a: Seq<(Seq<char>, JsonV)>, b: Seq<(Seq<char>, JsonV)>)
    requires
        keys_ascending(a),
        keys_ascending(b),
        forall|k: Seq<char>| #[trigger] member(a, k) == member(b, k),
    ensures
        a == b,
    decreases a.len() + b.len(),
{
    if a.len() == 0 && b.len() == 0 {
        assert(a =~= b);
    } else if a.len() == 0 {
        lemma_member_at(b, 0);
        lemma_member_none(a, b[0].0);
        assert(member(a, b[0].0) == member(b, b[0].0));
    } else if b.len() == 0 {
        lemma_member_at(a, 0);
        lemma_member_none(b, a[0].0);
        assert(member(a, a[0].0) == member(b, a[0].0));
    } else {
        let ka = a[0].0;
        let kb = b[0].0;
        lemma_member_at(a, 0);
        lemma_member_at(b, 0);
        assert(member(a, ka) == member(b, ka));
        assert(member(a, kb) == member(b, kb));
        lemma_lex_total(ka, kb);
        if ka != kb {
            // the smaller first key would have to occur in the other map, below its first key
            if lex_lt(ka, kb) {
                assert forall|j: int| 0 <= j < b.len() implies (#[trigger] b[j]).0 != ka by {
                    lemma_lex_irreflexive(ka);
                    if j > 0 {
                        assert(lex_lt(b[0].0, b[j].0));
                        if b[j].0 == ka {
                            lemma_lex_transitive(ka, kb, ka);
                        }
                    }
                }
                lemma_member_none(b, ka);
            } else {
                assert forall|j: int| 0 <= j < a.len() implies (#[trigger] a[j]).0 != kb by {
                    lemma_lex_irreflexive(kb);
                    if j > 0 {
                        assert(lex_lt(a[0].0, a[j].0));
                        if a[j].0 == kb {
                            lemma_lex_transitive(kb, ka, kb);
                        }
                    }
                }
                lemma_member_none(a, kb);
            }
        }
        assert(a[0] == b[0]);
        let ta = a.drop_first();
        let tb = b.drop_first();
        assert forall|k: Seq<char>| #[trigger] member(ta, k) == member(tb, k) by {
            if k == ka {
                lemma_lex_irreflexive(ka);
                assert forall|j: int| 0 <= j < ta.len() implies (#[trigger] ta[j]).0 != k by {
                    assert(ta[j] == a[j + 1]);
                    assert(lex_lt(a[0].0, a[j + 1].0));
                }
                assert forall|j: int| 0 <= j < tb.len() implies (#[trigger] tb[j]).0 != k by {
                    assert(tb[j] == b[j + 1]);
                    assert(lex_lt(b[0].0, b[j + 1].0));
                }
                lemma_member_none(ta, k);
                lemma_member_none(tb, k);
            } else {
                lemma_member_rest(a, k);
                lemma_member_rest(b, k);
                assert(member(a, k) == member(b, k));
            }
        }
        assert(keys_ascending(ta)) by {
            assert forall|i: int, j: int| 0 <= i < j < ta.len() implies lex_lt(
                #[trigger] ta[i].0,
                #[trigger] ta[j].0,
            ) by {
                assert(ta[i] == a[i + 1] && ta[j] == a[j + 1]);
            }
        }
        assert(keys_ascending(tb)) by {
            assert forall|i: int, j: int| 0 <= i < j < tb.len() implies lex_lt(
                #[trigger] tb[i].0,
                #[trigger] tb[j].0,
            ) by {
                assert(tb[i] == b[i + 1] && tb[j] == b[j + 1]);
            }
        }
        lemma_same_members(ta, tb);
        assert(a =~= seq![a[0]] + ta);
        assert(b =~= seq![b[0]] + tb);
    }
}

/// How many leading keys of `m` are smaller than `k`.
pub open spec fn place(m: Seq<(Seq<char>, JsonV)>, k: Seq<char>) -> int
    decreases m.len(),
{
    if m.len() == 0 || !lex_lt(m[0].0, k) {
        0
    } else {
        1 + place(m.drop_first(), k)
    }
}

pub proof fn lemma_place(m: Seq<(Seq<char>, JsonV)>, k: Seq<char>)
    ensures
        0 <= place(m, k) <= m.len(),
        forall|j: int| 0 <= j < place(m, k) ==> lex_lt(#[trigger] m[j].0, k),
        place(m, k) < m.len() ==> !lex_lt(m[place(m, k)].0, k),
    decreases m.len(),
{
    if m.len() > 0 && lex_lt(m[0].0, k) {
        let t = m.drop_first();
        lemma_place(t, k);
        assert forall|j: int| 0 <= j < place(m, k) implies lex_lt(#[trigger] m[j].0, k) by {
            if j > 0 {
                assert(m[j] == t[j - 1]);
            }
        }
    }
}

/// `put` keeps the keys ascending.
pub proof fn lemma_put_keys(m: Seq<(Seq<char>, JsonV)>, k: Seq<char>, v: JsonV)
    requires
        keys_ascending(m),
    ensures
        keys_ascending(put(m, k, v)),
{
    lemma_place(m, k);
    let p = place(m, k);
    lemma_put_at(m, k, v, p);
    let r = put(m, k, v);
    if p < m.len() {
        lemma_lex_total(m[p].0, k);
    }
    if !(p < m.len() && m[p].0 == k) {
        assert forall|i: int, j: int| 0 <= i < j < r.len() implies lex_lt(
            #[trigger] r[i].0,
            #[trigger] r[j].0,
        ) by {
            if j < p {
                assert(r[i] == m[i] && r[j] == m[j]);
            } else if j == p {
                assert(r[i] == m[i]);
            } else if i == p {
                assert(r[j] == m[j - 1]);
                if j - 1 > p {
                    assert(lex_lt(m[p].0, m[j - 1].0));
                    lemma_lex_transitive(k, m[p].0, m[j - 1].0);
                }
            } else if i < p {
                assert(r[i] == m[i] && r[j] == m[j - 1]);
            } else {
                assert(r[i] == m[i - 1] && r[j] == m[j - 1]);
            }
        }
    } else {
        assert forall|i: int, j: int| 0 <= i < j < r.len() implies lex_lt(
            #[trigger] r[i].0,
            #[trigger] r[j].0,
        ) by {
            assert(r[i].0 == m[i].0);
            assert(r[j].0 == m[j].0);
        }
    }
}

/// After `put`, `k` holds `v` and every other key what it held.
pub proof fn lemma_put_member(m: Seq<(Seq<char>, JsonV)>, k: Seq<char>, v: JsonV, q: Seq<char>)
    requires
        keys_ascending(m),
    ensures
        member(put(m, k, v), q) == if q == k {
            Some(v)
        } else {
            member(m, q)
        },
{
    lemma_place(m, k);
    let p = place(m, k);
    lemma_put_at(m, k, v, p);
    lemma_put_keys(m, k, v);
    let r = put(m, k, v);
    let found = p < m.len() && m[p].0 == k;
    assert(r[p] == (k, v));
    if q == k {
        lemma_member_at(r, p);
    } else if exists|i: int| 0 <= i < m.len() && (#[trigger] m[i]).0 == q {
        let i = choose|i: int| 0 <= i < m.len() && (#[trigger] m[i]).0 == q;
        lemma_member_at(m, i);
        if found {
            assert(i != p);
            assert(r[i] == m[i]);
            lemma_member_at(r, i);
        } else if i < p {
            assert(r[i] == m[i]);
            lemma_member_at(r, i);
        } else {
            assert(r[i + 1] == m[i]);
            lemma_member_at(r, i + 1);
        }
    } else {
        lemma_member_none(m, q);
        assert forall|j: int| 0 <= j < r.len() implies (#[trigger] r[j]).0 != q by {
            if j == p {
            } else if found || j < p {
                assert(r[j] == m[j]);
            } else {
                assert(r[j] == m[j - 1]);
            }
        }
        lemma_member_none(r, q);
    }
}

/// What a key holds after the members of `om` were merged into `bm`.
pub proof fn lemma_merged_members(
    bm: Seq<(Seq<char>, JsonV)>,
    om: Seq<(Seq<char>, JsonV)>,
    k: Seq<char>,
)
    requires
        keys_ascending(bm),
        keys_ascending(om),
    ensures
        keys_ascending(merged_members(bm, om)),
        member(merged_members(bm, om), k) == match member(om, k) {
            Some(x) => Some(
                match member(bm, k) {
                    Some(y) => merged(y, x),
                    None => x,
                },
            ),
            None => member(bm, k),
        },
    decreases om.len(),
{
    if om.len() == 0 {
        lemma_member_none(om, k);
    } else {
        let k0 = om[0].0;
        let v0 = match member(bm, k0) {
            Some(x) => merged(x, om[0].1),
            None => om[0].1,
        };
        let b2 = put(bm, k0, v0);
        let t = om.drop_first();
        assert(merged_members(bm, om) == merged_members(b2, t));
        lemma_put_keys(bm, k0, v0);
        assert(keys_ascending(t)) by {
            assert forall|i: int, j: int| 0 <= i < j < t.len() implies lex_lt(
                #[trigger] t[i].0,
                #[trigger] t[j].0,
            ) by {
                assert(t[i] == om[i + 1] && t[j] == om[j + 1]);
            }
        }
        lemma_merged_members(b2, t, k);
        lemma_put_member(bm, k0, v0, k);
        if k == k0 {
            lemma_member_at(om, 0);
            lemma_lex_irreflexive(k0);
            assert forall|j: int| 0 <= j < t.len() implies (#[trigger] t[j]).0 != k by {
                assert(t[j] == om[j + 1]);
                assert(lex_lt(om[0].0, om[j + 1].0));
            }
            lemma_member_none(t, k);
        } else {
            lemma_member_rest(om, k);
        }
    }
}

/// What a key holds after pruning: nothing where the default is equal or the
/// pruned value is an empty object, the pruned value otherwise.
#[verifier::spinoff_prover]
#[verifier::rlimit(40)]
pub proof fn lemma_pruned_members(
    m: Seq<(Seq<char>, JsonV)>,
    dm: Seq<(Seq<char>, JsonV)>,
    k: Seq<char>,
)
    requires
        keys_ascending(m),
    ensures
        keys_ascending(pruned_members(m, dm)),
        forall|i: int|
            0 <= i < pruned_members(m, dm).len() ==> exists|j: int|
                0 <= j < m.len() && (#[trigger] m[j]).0 == (#[trigger] pruned_members(m, dm)[i]).0,
        member(pruned_members(m, dm), k) == match member(m, k) {
            Some(x) => match member(dm, k) {
                Some(dv) => if dv == x || empty_object(pruned(x, dv)) {
                    None
                } else {
                    Some(pruned(x, dv))
                },
                None => Some(x),
            },
            None => None::<JsonV>,
        },
    decreases m.len(),
{
    let p = pruned_members(m, dm);
    if m.len() == 0 {
        lemma_member_none(m, k);
        lemma_member_none(p, k);
    } else {
        let t = m.drop_first();
        let rest = pruned_members(t, dm);
        assert(keys_ascending(t)) by {
            assert forall|i: int, j: int| 0 <= i < j < t.len() implies lex_lt(
                #[trigger] t[i].0,
                #[trigger] t[j].0,
            ) by {
                assert(t[i] == m[i + 1] && t[j] == m[j + 1]);
            }
        }
        lemma_pruned_members(t, dm, k);
        let k0 = m[0].0;
        let x0 = m[0].1;
        // every key of `rest` is a key of `t`, so larger than `k0`
        assert forall|i: int| 0 <= i < rest.len() implies lex_lt(k0, (#[trigger] rest[i]).0) by {
            let j = choose|j: int| 0 <= j < t.len() && (#[trigger] t[j]).0 == rest[i].0;
            assert(t[j] == m[j + 1]);
            assert(lex_lt(m[0].0, m[j + 1].0));
        }
        let kept = match member(dm, k0) {
            Some(dv) => !(dv == x0 || empty_object(pruned(x0, dv))),
            None => true,
        };
        let head = match member(dm, k0) {
            Some(dv) => (k0, pruned(x0, dv)),
            None => (k0, x0),
        };
        if kept {
            assert(p == seq![head] + rest);
        } else {
            assert(p == rest);
        }
        assert(keys_ascending(p)) by {
            assert forall|i: int, j: int| 0 <= i < j < p.len() implies lex_lt(
                #[trigger] p[i].0,
                #[trigger] p[j].0,
            ) by {
                if kept {
                    if i == 0 {
                        assert(p[j] == rest[j - 1]);
                    } else {
                        assert(p[i] == rest[i - 1] && p[j] == rest[j - 1]);
                    }
                }
            }
        }
        assert forall|i: int| 0 <= i < p.len() implies exists|j: int|
            0 <= j < m.len() && (#[trigger] m[j]).0 == (#[trigger] p[i]).0 by {
            if kept && i == 0 {
                assert(m[0].0 == p[0].0);
            } else {
                let r = if kept {
                    i - 1
                } else {
                    i
                };
                assert(p[i] == rest[r]);
                let j = choose|j: int| 0 <= j < t.len() && (#[trigger] t[j]).0 == rest[r].0;
                assert(m[j + 1] == t[j]);
            }
        }
        lemma_lex_irreflexive(k0);
        if k == k0 {
            lemma_member_at(m, 0);
            assert forall|j: int| 0 <= j < t.len() implies (#[trigger] t[j]).0 != k by {
                assert(t[j] == m[j + 1]);
                assert(lex_lt(m[0].0, m[j + 1].0));
            }
            lemma_member_none(t, k);
            assert forall|j: int| 0 <= j < rest.len() implies (#[trigger] rest[j]).0 != k by {
                assert(lex_lt(k0, rest[j].0));
            }
            lemma_member_none(rest, k);
            if kept {
                lemma_member_first(p, k, 0);
            }
        } else {
            lemma_member_rest(m, k);
            if kept {
                lemma_member_rest(p, k);
                assert(p.drop_first() =~= rest);
            }
        }
    }
}

/// `pruned` against no defaults keeps everything.
pub proof fn lemma_pruned_nothing(m: Seq<(Seq<char>, JsonV)>)
    ensures
        pruned_members(m, Seq::empty()) == m,
    decreases m.len(),
{
    if m.len() > 0 {
        lemma_pruned_nothing(m.drop_first());
        lemma_member_none(Seq::<(Seq<char>, JsonV)>::empty(), m[0].0);
        assert(seq![m[0]] + m.drop_first() =~= m);
    }
}

/// Without a defaults file everything is written: pruning against an empty
/// object gives the value back unchanged.
pub proof fn law_prune_against_nothing(value: JsonV)
    ensures
        pruned(value, JsonV::Object(Seq::empty())) == value,
{
    if value is Object {
        lemma_pruned_nothing(value->Object_0);
    }
}

/// A setting the user's file holds wins over the declarative default, merged
/// into it where both are objects; a setting the user's file lacks keeps its
/// default.
pub proof fn law_user_wins(defaults: JsonV, user: JsonV, key: Seq<char>)
    requires
        defaults is Object,
        user is Object,
        wf_json(defaults),
        wf_json(user),
    ensures
        jget(merged(defaults, user), key) == match jget(user, key) {
            Some(x) => Some(
                match jget(defaults, key) {
                    Some(y) => merged(y, x),
                    None => x,
                },
            ),
            None => jget(defaults, key),
        },
{
    lemma_merged_members(defaults->Object_0, user->Object_0, key);
}

/// Saving writes only what differs: no setting written out equals the
/// declarative default under the same key.
pub proof fn law_saves_only_differences(full: JsonV, defaults: JsonV, key: Seq<char>)
    requires
        full is Object,
        defaults is Object,
        wf_json(full),
    ensures
        jget(pruned(full, defaults), key) matches Some(written) ==> (jget(defaults, key) matches Some(d)
            ==> d != jget(full, key)->0),
{
    lemma_wf_object(full->Object_0);
    lemma_pruned_members(full->Object_0, defaults->Object_0, key);
}

/// Pruning keeps a document well formed.
pub proof fn lemma_pruned_wf(value: JsonV, defaults: JsonV)
    requires
        wf_json(value),
    ensures
        wf_json(pruned(value, defaults)),
    decreases value, 1int,
{
    match value {
        JsonV::Object(m) => match defaults {
            JsonV::Object(dm) => {
                lemma_wf_object(m);
                lemma_pruned_members(m, dm, Seq::empty());
                lemma_pruned_members_wf(m, dm);
                lemma_wf_object(pruned_members(m, dm));
            },
            _ => {},
        },
        _ => {},
    }
}

/// The pruned members of well formed members are well formed.
proof fn lemma_pruned_members_wf(m: Seq<(Seq<char>, JsonV)>, dm: Seq<(Seq<char>, JsonV)>)
    requires
        wf_members(m),
    ensures
        wf_members(pruned_members(m, dm)),
    decreases m, 0int,
{
    if m.len() > 0 {
        assert(decreases_to!(m => m[0]));
        assert(decreases_to!(m[0] => m[0].1));
        assert(m.drop_first() =~= m.subrange(1, m.len() as int));
        let rest = pruned_members(m.drop_first(), dm);
        lemma_pruned_members_wf(m.drop_first(), dm);
        let k = m[0].0;
        let x = m[0].1;
        match member(dm, k) {
            Some(dv) => {
                lemma_pruned_wf(x, dv);
                let head = seq![(k, pruned(x, dv))] + rest;
                assert(head.drop_first() =~= rest);
                assert(head[0] == (k, pruned(x, dv)));
            },
            None => {
                let head = seq![(k, x)] + rest;
                assert(head.drop_first() =~= rest);
                assert(head[0] == (k, x));
            },
        }
    }
}

/// Every key the defaults set is also set in `m`.
pub open spec fn keys_cover(m: Seq<(Seq<char>, JsonV)>, dm: Seq<(Seq<char>, JsonV)>) -> bool {
    forall|k: Seq<char>| (#[trigger] member(dm, k)) is Some ==> member(m, k) is Some
}

/// Whether `value`, saved against `defaults`, comes back whole when loaded
/// over them: wherever both are objects the value sets every key the
/// defaults set, and no empty object stands where the default is not an
/// object.
pub open spec fn restorable(value: JsonV, defaults: JsonV) -> bool
    decreases value,
{
    match value {
        JsonV::Object(m) => match defaults {
            JsonV::Object(dm) => keys_cover(m, dm) && restorable_members(m, dm),
            _ => true,
        },
        _ => true,
    }
}

/// `restorable`, member by member.
pub open spec fn restorable_members(m: Seq<(Seq<char>, JsonV)>, dm: Seq<(Seq<char>, JsonV)>) -> bool
    decreases m,
{
    if m.len() == 0 {
        true
    } else {
        proof {
            assert(decreases_to!(m => m[0]));
            assert(m.drop_first() =~= m.subrange(1, m.len() as int));
        }
        (match member(dm, m[0].0) {
            Some(dv) => dv == m[0].1 || (restorable(m[0].1, dv) && !(empty_object(m[0].1)
                && !(dv is Object))),
            None => true,
        }) && restorable_members(m.drop_first(), dm)
    }
}

proof fn lemma_restorable_members(m: Seq<(Seq<char>, JsonV)>, dm: Seq<(Seq<char>, JsonV)>, i: int)
    requires
        restorable_members(m, dm),
        0 <= i < m.len(),
    ensures
        match member(dm, m[i].0) {
            Some(dv) => dv == m[i].1 || (restorable(m[i].1, dv) && !(empty_object(m[i].1)
                && !(dv is Object))),
            None => true,
        },
    decreases i,
{
    if i > 0 {
        lemma_restorable_members(m.drop_first(), dm, i - 1);
        assert(m.drop_first()[i - 1] == m[i]);
    }
}

/// A member found under a key is one of the members.
proof fn lemma_member_found(m: Seq<(Seq<char>, JsonV)>, k: Seq<char>)
    requires
        member(m, k) is Some,
    ensures
        exists|j: int| 0 <= j < m.len() && (#[trigger] m[j]) == (k, member(m, k)->0),
{
    let j = choose|i: int|
        0 <= i < m.len() && (#[trigger] m[i]).0 == k && forall|j: int|
            0 <= j < i ==> (#[trigger] m[j]).0 != k;
    assert(m[j] == (k, member(m, k)->0));
}

/// Saving writes only what differs from the defaults, and loading merges
/// the defaults back underneath: the settings come back as they were, for
/// every value that `restorable` admits.
pub proof fn law_save_then_load(full: JsonV, defaults: JsonV)
    requires
        wf_json(full),
        wf_json(defaults),
        restorable(full, defaults),
    ensures
        merged(defaults, pruned(full, defaults)) == full,
    decreases full,
{
    match full {
        JsonV::Object(m) => match defaults {
            JsonV::Object(dm) => {
                let p = pruned_members(m, dm);
                let r = merged_members(dm, p);
                lemma_wf_object(m);
                lemma_wf_object(dm);
                lemma_pruned_members(m, dm, Seq::empty());
                lemma_merged_members(dm, p, Seq::empty());
                assert forall|k: Seq<char>| #[trigger] member(r, k) == member(m, k) by {
                    lemma_pruned_members(m, dm, k);
                    lemma_merged_members(dm, p, k);
                    if member(m, k) is Some {
                        lemma_member_found(m, k);
                        let i = choose|j: int| 0 <= j < m.len() && (#[trigger] m[j]) == (k, member(m, k)->0);
                        let x = m[i].1;
                        assert(wf_json(x));
                        lemma_restorable_members(m, dm, i);
                        if member(dm, k) is Some {
                            let dv = member(dm, k)->0;
                            lemma_member_found(dm, k);
                            let j = choose|j: int| 0 <= j < dm.len() && (#[trigger] dm[j]) == (k, dv);
                            assert(wf_json(dm[j].1));
                            if dv != x {
                                assert(decreases_to!(m => m[i]));
                                assert(decreases_to!(m[i] => m[i].1));
                                law_save_then_load(x, dv);
                                if empty_object(pruned(x, dv)) {
                                    if x is Object && dv is Object {
                                        assert(merged_members(dv->Object_0, Seq::empty())
                                            == dv->Object_0);
                                        assert(pruned(x, dv) == JsonV::Object(Seq::empty()));
                                        assert(merged(dv, pruned(x, dv)) == dv);
                                    }
                                }
                            }
                        }
                    } else {
                        if member(dm, k) is Some {
                            assert(keys_cover(m, dm));
                        }
                    }
                }
                lemma_same_members(r, m);
            },
            _ => {},
        },
        _ => {},
    }
}

// ---------------------------------------------------------------- serde_json

#[verifier::external_type_specification]
#[verifier::external_body]
pub struct ExJsonValue(serde_json::Value);

/// What `serde_json::from_str::<serde_json::Value>` makes of a text, or
/// `None` when it refuses it.
pub uninterp spec fn json_parse(text: Seq<char>) -> Option<JsonV>;

/// Moves a parsed `serde_json::Value` into the library's representation,
/// variant for variant; numbers keep the text `serde_json` prints for them
/// and object members keep the map's order.
#[verifier::external_body]
fn from_serde_json(v: serde_json::Value) -> Json {
    match v {
        serde_json::Value::Null => Json::Null,
        serde_json::Value::Bool(b) => Json::Bool(b),
        serde_json::Value::Number(n) => Json::Number(n.to_string()),
        serde_json::Value::String(s) => Json::Str(s),
        serde_json::Value::Array(items) => Json::Array(items.into_iter().map(from_serde_json).collect()),
        serde_json::Value::Object(m) => Json::Object(m.into_iter().map(|(k, x)| (k, from_serde_json(x))).collect()),
    }
}

/// `serde_json::from_str::<serde_json::Value>(text).ok()`. The JSON grammar
/// is not written out here: the result is named by `json_parse`. Its objects
/// are `serde_json::Map`s, which without the `preserve_order` feature are
/// `BTreeMap`s: keys ascending, each once.
#[verifier::external_body]
pub fn parse_json(text: &str) -> (r: Option<Json>)
    ensures
        match r {
            Some(j) => json_parse(text@) == Some(j@) && wf_json(j@),
            None => json_parse(text@) is None,
        },
{
    match serde_json::from_str::<serde_json::Value>(text) {
        Ok(v) => Some(from_serde_json(v)),
        Err(_) => None,
    }
}

} // verus!
