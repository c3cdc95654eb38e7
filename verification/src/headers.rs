//! Extra request headers of a subscription: a map from name to value kept in
//! ascending name order, and its `Key: value` text form used by the editor.

use vstd::prelude::*;
use vstd::string::StringExecFns;

use crate::text::{
    chars_of, compare_str, find_char, index_of_char, lemma_lex_irreflexive, lemma_lex_total,
    lemma_lex_transitive, lex_lt, lines, lines_of, str_eq, trim, trimmed,
};

verus! {

/// Names strictly ascending.
pub open spec fn sorted(p: Seq<(Seq<char>, Seq<char>)>) -> bool {
    forall|i: int, j: int| 0 <= i < j < p.len() ==> lex_lt(#[trigger] p[i].0, #[trigger] p[j].0)
}

/// The value stored under `k`.
pub open spec fn lookup(p: Seq<(Seq<char>, Seq<char>)>, k: Seq<char>) -> Option<Seq<char>> {
    if exists|i: int| 0 <= i < p.len() && (#[trigger] p[i]).0 == k {
        Some(p[choose|i: int| 0 <= i < p.len() && (#[trigger] p[i]).0 == k].1)
    } else {
        None
    }
}

pub proof fn lemma_lookup_at(p: Seq<(Seq<char>, Seq<char>)>, i: int)
    requires
        sorted(p),
        0 <= i < p.len(),
    ensures
        lookup(p, p[i].0) == Some(p[i].1),
{
    let k = p[i].0;
    assert(0 <= i < p.len() && p[i].0 == k);
    let j = choose|j: int| 0 <= j < p.len() && (#[trigger] p[j]).0 == k;
    lemma_lex_irreflexive(k);
    if j < i {
        assert(lex_lt(p[j].0, p[i].0));
    }
    if i < j {
        assert(lex_lt(p[i].0, p[j].0));
    }
}

/// Request headers, by name. `BTreeMap<String, String>` in spirit: every
/// name once, iterated in ascending order.
#[derive(Debug)]
pub struct Headers {
    entries: Vec<(String, String)>,
}

impl View for Headers {
    type V = Seq<(Seq<char>, Seq<char>)>;

    closed spec fn view(&self) -> Seq<(Seq<char>, Seq<char>)> {
        self.entries@.map_values(|e: (String, String)| (e.0@, e.1@))
    }
}

impl Clone for Headers {
    fn clone(&self) -> (r: Self)
        ensures
            r@ == self@,
    {
        proof {
            use_type_invariant(self);
        }
        let mut entries: Vec<(String, String)> = Vec::new();
        for i in 0..self.entries.len()
            invariant
                entries@ == self.entries@.take(i as int),
        {
            let e = &self.entries[i];
            entries.push((e.0.clone(), e.1.clone()));
            assert(self.entries@.take(i + 1) =~= self.entries@.take(i as int).push(
                self.entries@[i as int],
            ));
        }
        assert(self.entries@.take(self.entries@.len() as int) =~= self.entries@);
        let r = Headers { entries };
        r
    }
}

impl Headers {
    #[verifier::type_invariant]
    spec fn inv(self) -> bool {
        sorted(self@)
    }

    pub fn new() -> (r: Self)
        ensures
            r@.len() == 0,
            sorted(r@),
    {
        let r = Headers { entries: Vec::new() };
        assert(r@ =~= Seq::<(Seq<char>, Seq<char>)>::empty());
        r
    }

    pub fn len(&self) -> (n: usize)
        ensures
            n == self@.len(),
    {
        self.entries.len()
    }

    /// The value stored under `key`.
    pub fn get(&self, key: &str) -> (r: Option<&String>)
        ensures
            match r {
                Some(v) => lookup(self@, key@) == Some(v@),
                None => lookup(self@, key@) is None,
            },
    {
        proof {
            use_type_invariant(self);
        }
        let mut i: usize = 0;
        while i < self.entries.len()
            invariant
                i <= self@.len(),
                self@.len() == self.entries@.len(),
                sorted(self@),
                forall|j: int| 0 <= j < i ==> (#[trigger] self@[j]).0 != key@,
            decreases self@.len() - i,
        {
            if str_eq(self.entries[i].0.as_str(), key) {
                proof {
                    assert(self@[i as int] == (self.entries@[i as int].0@, self.entries@[i as int].1@));
                    lemma_lookup_at(self@, i as int);
                }
                return Some(&self.entries[i].1);
            }
            assert(self@[i as int].0 == self.entries@[i as int].0@);
            i = i + 1;
        }
        None
    }

    /// The `(name, value)` pairs in ascending name order.
    pub fn entries(&self) -> (r: Vec<(String, String)>)
        ensures
            sorted(self@),
            r@.len() == self@.len(),
            forall|i: int|
                0 <= i < r@.len() ==> (#[trigger] r@[i]).0@ == self@[i].0 && r@[i].1@
                    == self@[i].1,
    {
        let mut r: Vec<(String, String)> = Vec::new();
        for i in 0..self.entries.len()
            invariant
                r@.len() == i,
                self@.len() == self.entries@.len(),
                forall|k: int|
                    0 <= k < i ==> (#[trigger] r@[k]).0@ == self@[k].0 && r@[k].1@ == self@[k].1,
        {
            let e = &self.entries[i];
            r.push((e.0.clone(), e.1.clone()));
        }
        proof {
            use_type_invariant(self);
        }
        r
    }

    /// Stores `value` under `key`, replacing what was there.
    pub fn insert(&mut self, key: String, value: String)
        ensures
            forall|k: Seq<char>|
                #![trigger lookup(final(self)@, k)]
                lookup(final(self)@, k) == if k == key@ {
                    Some(value@)
                } else {
                    lookup(old(self)@, k)
                },
            sorted(final(self)@),
    {
        proof {
            use_type_invariant(&*self);
        }
        let ghost old_view = self@;
        let n = self.entries.len();
        let mut p: usize = 0;
        while p < n && compare_str(self.entries[p].0.as_str(), key.as_str()) < 0
            invariant
                p <= n == self.entries@.len() == old_view.len(),
                self@ == old_view,
                forall|j: int| 0 <= j < p ==> lex_lt(#[trigger] old_view[j].0, key@),
            decreases n - p,
        {
            assert(old_view[p as int].0 == self.entries@[p as int].0@);
            p = p + 1;
        }
        let replace = p < n && str_eq(self.entries[p].0.as_str(), key.as_str());
        proof {
            if p < n {
                assert(old_view[p as int].0 == self.entries@[p as int].0@);
            }
        }
        let ghost kv = key@;
        let ghost vv = value@;
        let mut entries = Vec::new();
        std::mem::swap(&mut entries, &mut self.entries);
        if replace {
            entries.set(p, (key, value));
        } else {
            entries.insert(p, (key, value));
        }
        let ghost new_view = entries@.map_values(|e: (String, String)| (e.0@, e.1@));
        proof {
            if replace {
                assert(new_view =~= old_view.update(p as int, (kv, vv)));
            } else {
                assert(new_view =~= old_view.insert(p as int, (kv, vv)));
            }
            lemma_insert_sorted(old_view, new_view, p as int, kv, vv, replace);
        }
        self.entries = entries;
        proof {
            assert(self@ == new_view);
            use_type_invariant(&*self);
        }
    }
}

/// Where `insert` puts a name: after every smaller name, replacing an equal one.
proof fn lemma_insert_sorted(
    old_view: Seq<(Seq<char>, Seq<char>)>,
    nv: Seq<(Seq<char>, Seq<char>)>,
    p: int,
    k: Seq<char>,
    v: Seq<char>,
    replace: bool,
)
    requires
        sorted(old_view),
        0 <= p <= old_view.len(),
        forall|j: int| 0 <= j < p ==> lex_lt(#[trigger] old_view[j].0, k),
        p < old_view.len() ==> !lex_lt(old_view[p].0, k),
        replace == (p < old_view.len() && old_view[p].0 == k),
        nv == if replace {
            old_view.update(p, (k, v))
        } else {
            old_view.insert(p, (k, v))
        },
    ensures
        sorted(nv),
        forall|q: Seq<char>|
            #![trigger lookup(nv, q)]
            lookup(nv, q) == if q == k {
                Some(v)
            } else {
                lookup(old_view, q)
            },
{
    if p < old_view.len() && !replace {
        lemma_lex_total(old_view[p].0, k);
    }
    // every name from p on is above k, except the replaced one
    assert forall|j: int| p < j < old_view.len() implies lex_lt(k, #[trigger] old_view[j].0) by {
        if replace {
        } else {
            lemma_lex_total(old_view[p].0, k);
            lemma_lex_transitive(k, old_view[p].0, old_view[j].0);
        }
        if replace {
            assert(lex_lt(old_view[p].0, old_view[j].0));
        }
    }
    if p < old_view.len() && !replace {
        lemma_lex_total(old_view[p].0, k);
    }
    assert(sorted(nv)) by {
        assert forall|i: int, j: int| 0 <= i < j < nv.len() implies lex_lt(
            #[trigger] nv[i].0,
            #[trigger] nv[j].0,
        ) by {
            if replace {
                if i == p {
                } else if j == p {
                } else {
                }
            } else {
                if j < p {
                    assert(nv[i] == old_view[i] && nv[j] == old_view[j]);
                } else if j == p {
                    assert(nv[i] == old_view[i]);
                } else if i == p {
                    assert(nv[j] == old_view[j - 1]);
                } else if i < p {
                    assert(nv[i] == old_view[i] && nv[j] == old_view[j - 1]);
                    lemma_lex_transitive(old_view[i].0, k, old_view[j - 1].0);
                } else {
                    assert(nv[i] == old_view[i - 1] && nv[j] == old_view[j - 1]);
                }
            }
        }
    }
    assert forall|q: Seq<char>| #![trigger lookup(nv, q)] lookup(nv, q) == if q == k {
        Some(v)
    } else {
        lookup(old_view, q)
    } by {
        if q == k {
            assert(nv[p] == (k, v));
            lemma_lookup_at(nv, p);
        } else {
            if exists|i: int| 0 <= i < old_view.len() && (#[trigger] old_view[i]).0 == q {
                let i = choose|i: int| 0 <= i < old_view.len() && (#[trigger] old_view[i]).0 == q;
                lemma_lookup_at(old_view, i);
                if replace {
                    assert(i != p);
                    assert(nv[i] == old_view[i]);
                    lemma_lookup_at(nv, i);
                } else if i < p {
                    assert(nv[i] == old_view[i]);
                    lemma_lookup_at(nv, i);
                } else {
                    assert(nv[i + 1] == old_view[i]);
                    lemma_lookup_at(nv, i + 1);
                }
            } else {
                assert forall|i: int| 0 <= i < nv.len() implies (#[trigger] nv[i]).0 != q by {
                    if replace {
                        if i != p {
                            assert(nv[i] == old_view[i]);
                        }
                    } else if i < p {
                        assert(nv[i] == old_view[i]);
                    } else if i > p {
                        assert(nv[i] == old_view[i - 1]);
                    }
                }
            }
        }
    }
}

// ---------------------------------------------------------------- text form

/// What one editor line contributes: a non-blank line that does not start
/// with `#`, split at its first `:`, both sides trimmed; lines without a `:`
/// or with an empty name contribute nothing.
pub open spec fn header_line(line: Seq<char>) -> Option<(Seq<char>, Seq<char>)> {
    let t = trimmed(line);
    if t.len() == 0 || t[0] == '#' {
        None
    } else {
        match find_char(t, ':') {
            Some(i) => {
                let key = trimmed(t.subrange(0, i));
                if key.len() == 0 {
                    None
                } else {
                    Some((key, trimmed(t.subrange(i + 1, t.len() as int))))
                }
            },
            None => None,
        }
    }
}

/// The value the last line naming `k` gives it.
pub open spec fn parsed_value(lines: Seq<Seq<char>>, k: Seq<char>) -> Option<Seq<char>>
    decreases lines.len(),
{
    if lines.len() == 0 {
        None
    } else {
        match header_line(lines.last()) {
            Some(kv) => if kv.0 == k {
                Some(kv.1)
            } else {
                parsed_value(lines.drop_last(), k)
            },
            None => parsed_value(lines.drop_last(), k),
        }
    }
}

/// One editor line, parsed.
pub fn parse_header_line(line: &str) -> (r: Option<(String, String)>)
    ensures
        match r {
            Some(kv) => header_line(line@) == Some((kv.0@, kv.1@)),
            None => header_line(line@) is None,
        },
{
    let t = trim(line);
    let tv = chars_of(t.as_str());
    if tv.len() == 0 || tv[0] == '#' {
        return None;
    }
    match index_of_char(&tv, ':') {
        Some(i) => {
            let key = trim(t.as_str().substring_char(0, i));
            if key.as_str().unicode_len() == 0 {
                return None;
            }
            let value = trim(t.as_str().substring_char(i + 1, tv.len()));
            Some((key, value))
        },
        None => None,
    }
}

/// `Key: value` per line, `{hwid}` substituted at request time. Later lines
/// win over earlier ones naming the same key.
pub fn parse_headers(text: &str) -> (r: Headers)
    ensures
        forall|k: Seq<char>|
            #![trigger lookup(r@, k)]
            lookup(r@, k) == parsed_value(lines_of(text@), k),
        sorted(r@),
{
    let ls = lines(text);
    let ghost all = lines_of(text@);
    let mut headers = Headers::new();
    let mut i: usize = 0;
    while i < ls.len()
        invariant
            i <= ls@.len() == all.len(),
            forall|j: int| 0 <= j < ls@.len() ==> #[trigger] ls@[j]@ == all[j],
            forall|k: Seq<char>|
                #![trigger lookup(headers@, k)]
                lookup(headers@, k) == parsed_value(all.take(i as int), k),
        decreases ls@.len() - i,
    {
        let ghost before = headers@;
        proof {
            assert(all.take(i + 1).drop_last() =~= all.take(i as int));
            assert(all.take(i + 1).last() == ls@[i as int]@);
        }
        match parse_header_line(ls[i].as_str()) {
            Some(kv) => {
                headers.insert(kv.0, kv.1);
            },
            None => {},
        }
        proof {
            assert forall|k: Seq<char>| #![trigger lookup(headers@, k)] lookup(headers@, k)
                == parsed_value(all.take(i + 1), k) by {
                assert(lookup(before, k) == parsed_value(all.take(i as int), k));
            }
        }
        i = i + 1;
    }
    assert(all.take(ls@.len() as int) =~= all);
    proof {
        use_type_invariant(&headers);
    }
    headers
}

/// `k: v` lines joined by `\n`, in name order.
pub open spec fn headers_text(p: Seq<(Seq<char>, Seq<char>)>) -> Seq<char>
    decreases p.len(),
{
    if p.len() == 0 {
        Seq::empty()
    } else if p.len() == 1 {
        p[0].0 + ": "@ + p[0].1
    } else {
        headers_text(p.drop_last()) + "\n"@ + p.last().0 + ": "@ + p.last().1
    }
}

pub fn format_headers(headers: &Headers) -> (r: String)
    ensures
        r@ == headers_text(headers@),
        sorted(headers@),
{
    let es = headers.entries();
    let mut out = String::new();
    let mut i: usize = 0;
    while i < es.len()
        invariant
            i <= es@.len() == headers@.len(),
            forall|k: int|
                0 <= k < es@.len() ==> (#[trigger] es@[k]).0@ == headers@[k].0 && es@[k].1@
                    == headers@[k].1,
            out@ == headers_text(headers@.take(i as int)),
        decreases es@.len() - i,
    {
        if i > 0 {
            out.append("\n");
        }
        out.append(es[i].0.as_str());
        out.append(": ");
        out.append(es[i].1.as_str());
        proof {
            let t = headers@.take(i + 1);
            assert(t.drop_last() =~= headers@.take(i as int));
            if i == 0 {
                assert(out@ =~= headers_text(t));
            } else {
                assert(out@ =~= headers_text(t));
            }
        }
        i = i + 1;
    }
    assert(headers@.take(es@.len() as int) =~= headers@);
    out
}

} // verus!
