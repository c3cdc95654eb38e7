//! Character-level text handling shared by the rule writer, the header
//! parsers and the path builders: whitespace trimming with Rust's notion of
//! whitespace, substring search, decimal numbers and line splitting.

use vstd::prelude::*;
use vstd::string::StringExecFns;

verus! {

/// Unicode `White_Space`, the property `char::is_whitespace` tests.
pub open spec fn is_ws(c: char) -> bool {
    let u = c as int;
    ||| 0x09 <= u <= 0x0d
    ||| u == 0x20
    ||| u == 0x85
    ||| u == 0xa0
    ||| u == 0x1680
    ||| 0x2000 <= u <= 0x200a
    ||| u == 0x2028
    ||| u == 0x2029
    ||| u == 0x202f
    ||| u == 0x205f
    ||| u == 0x3000
}

pub fn is_whitespace(c: char) -> (b: bool)
    ensures
        b == is_ws(c),
{
    let u = char_code(c);
    (0x09 <= u && u <= 0x0d) || u == 0x20 || u == 0x85 || u == 0xa0 || u == 0x1680 || (0x2000
        <= u && u <= 0x200a) || u == 0x2028 || u == 0x2029 || u == 0x202f || u == 0x205f || u
        == 0x3000
}

/// `s` without its leading whitespace.
pub open spec fn trim_front(s: Seq<char>) -> Seq<char>
    decreases s.len(),
{
    if s.len() > 0 && is_ws(s[0]) {
        trim_front(s.drop_first())
    } else {
        s
    }
}

/// `s` without its trailing whitespace.
pub open spec fn trim_back(s: Seq<char>) -> Seq<char>
    decreases s.len(),
{
    if s.len() > 0 && is_ws(s.last()) {
        trim_back(s.drop_last())
    } else {
        s
    }
}

/// What `str::trim` leaves of `s`.
pub open spec fn trimmed(s: Seq<char>) -> Seq<char> {
    trim_back(trim_front(s))
}

/// Whether `s` is empty or whitespace only.
pub open spec fn blank(s: Seq<char>) -> bool {
    trimmed(s).len() == 0
}

proof fn lemma_trim_front_shape(s: Seq<char>)
    ensures
        trim_front(s).len() == 0 || !is_ws(trim_front(s)[0]),
    decreases s.len(),
{
    if s.len() > 0 && is_ws(s[0]) {
        lemma_trim_front_shape(s.drop_first());
    }
}

proof fn lemma_trim_back_shape(t: Seq<char>)
    ensures
        trim_back(t) == t.take(trim_back(t).len() as int),
        trim_back(t).len() <= t.len(),
        trim_back(t).len() == 0 || !is_ws(trim_back(t).last()),
    decreases t.len(),
{
    if t.len() > 0 && is_ws(t.last()) {
        lemma_trim_back_shape(t.drop_last());
        assert(t.drop_last().take(trim_back(t).len() as int) =~= t.take(trim_back(t).len() as int));
    } else {
        assert(t.take(t.len() as int) =~= t);
    }
}

/// Trimming what is already trimmed changes nothing.
pub proof fn lemma_trimmed_idempotent(s: Seq<char>)
    ensures
        trimmed(trimmed(s)) == trimmed(s),
{
    let t = trim_front(s);
    let u = trim_back(t);
    lemma_trim_front_shape(s);
    lemma_trim_back_shape(t);
    if u.len() > 0 {
        assert(u[0] == t[0]);
        assert(trim_front(u) == u);
        assert(trim_back(u) == u);
    } else {
        assert(trim_front(u) == u);
        assert(trim_back(u) == u);
    }
}

pub proof fn lemma_trim_front_at(s: Seq<char>, i: int)
    requires
        0 <= i <= s.len(),
        forall|k: int| 0 <= k < i ==> is_ws(#[trigger] s[k]),
        i == s.len() || !is_ws(s[i]),
    ensures
        trim_front(s) == s.subrange(i, s.len() as int),
    decreases i,
{
    if i == 0 {
        assert(s.subrange(0, s.len() as int) =~= s);
    } else {
        assert(is_ws(s[0]));
        let t = s.drop_first();
        assert forall|k: int| 0 <= k < i - 1 implies is_ws(#[trigger] t[k]) by {
            assert(t[k] == s[k + 1]);
        }
        lemma_trim_front_at(t, i - 1);
        assert(t.subrange(i - 1, t.len() as int) =~= s.subrange(i, s.len() as int));
    }
}

pub proof fn lemma_trim_back_at(s: Seq<char>, j: int)
    requires
        0 <= j <= s.len(),
        forall|k: int| j <= k < s.len() ==> is_ws(#[trigger] s[k]),
        j == 0 || !is_ws(s[j - 1]),
    ensures
        trim_back(s) == s.subrange(0, j),
    decreases s.len() - j,
{
    if j == s.len() {
        assert(s.subrange(0, j) =~= s);
    } else {
        assert(is_ws(s.last()));
        let t = s.drop_last();
        assert forall|k: int| j <= k < t.len() implies is_ws(#[trigger] t[k]) by {
            assert(t[k] == s[k]);
        }
        lemma_trim_back_at(t, j);
        assert(t.subrange(0, j) =~= s.subrange(0, j));
    }
}

/// The characters of `s`, in order.
pub fn chars_of(s: &str) -> (v: Vec<char>)
    ensures
        v@ == s@,
{
    let mut v: Vec<char> = Vec::new();
    for c in it: s.chars()
        invariant
            it.seq() == s@,
            v@ == it.seq().take(it.index() as int),
    {
        v.push(c);
    }
    assert(v@ =~= s@);
    v
}

/// Bounds `(start, end)` of the trimmed part of `v`.
pub fn trim_bounds(v: &Vec<char>) -> (r: (usize, usize))
    ensures
        r.0 <= r.1 <= v@.len(),
        trimmed(v@) == v@.subrange(r.0 as int, r.1 as int),
{
    let n = v.len();
    let mut i: usize = 0;
    while i < n && is_whitespace(v[i])
        invariant
            i <= n == v@.len(),
            forall|k: int| 0 <= k < i ==> is_ws(#[trigger] v@[k]),
        decreases n - i,
    {
        i = i + 1;
    }
    proof {
        lemma_trim_front_at(v@, i as int);
    }
    let ghost front = v@.subrange(i as int, n as int);
    let mut j: usize = n;
    while j > i && is_whitespace(v[j - 1])
        invariant
            i <= j <= n == v@.len(),
            forall|k: int| j <= k < n ==> is_ws(#[trigger] v@[k]),
        decreases j,
    {
        j = j - 1;
    }
    proof {
        assert forall|k: int| j - i <= k < front.len() implies is_ws(#[trigger] front[k]) by {
            assert(front[k] == v@[k + i]);
        }
        if j > i {
            assert(front[j - i - 1] == v@[j - 1]);
        }
        lemma_trim_back_at(front, j - i);
        assert(front.subrange(0, j - i) =~= v@.subrange(i as int, j as int));
    }
    (i, j)
}

/// `str::trim`, as an owned string.
pub fn trim(s: &str) -> (r: String)
    ensures
        r@ == trimmed(s@),
{
    let v = chars_of(s);
    let (i, j) = trim_bounds(&v);
    s.substring_char(i, j).to_owned()
}

/// Whether `str::trim` leaves nothing of `s`.
pub fn is_blank(s: &str) -> (b: bool)
    ensures
        b == blank(s@),
{
    let v = chars_of(s);
    let (i, j) = trim_bounds(&v);
    i == j
}

/// Appends `c` to `s`: `String::push`.
#[verifier::external_body]
pub fn push_char(s: &mut String, c: char)
    ensures
        final(s)@ == old(s)@.push(c),
{
    s.push(c);
}

/// A new string holding exactly the given characters.
pub fn string_of(v: &[char]) -> (s: String)
    ensures
        s@ == v@,
{
    let mut s = String::new();
    let mut i: usize = 0;
    while i < v.len()
        invariant
            i <= v@.len(),
            s@ == v@.take(i as int),
        decreases v@.len() - i,
    {
        push_char(&mut s, v[i]);
        assert(v@.take(i + 1) =~= v@.take(i as int).push(v@[i as int]));
        i = i + 1;
    }
    assert(v@.take(v@.len() as int) =~= v@);
    s
}

/// Whether `needle` occurs in `hay` at position `i`.
pub open spec fn occurs_at(hay: Seq<char>, needle: Seq<char>, i: int) -> bool {
    0 <= i && i + needle.len() <= hay.len() && hay.subrange(i, i + needle.len()) == needle
}

/// `str::contains` with a string pattern.
pub open spec fn contains(hay: Seq<char>, needle: Seq<char>) -> bool {
    exists|i: int| occurs_at(hay, needle, i)
}

pub fn contains_str(hay: &str, needle: &str) -> (b: bool)
    ensures
        b == contains(hay@, needle@),
{
    let h = chars_of(hay);
    let n = chars_of(needle);
    if n.len() > h.len() {
        proof {
            assert forall|i: int| !occurs_at(h@, n@, i) by {}
        }
        return false;
    }
    if n.len() == 0 {
        assert(h@.subrange(0, 0) =~= n@);
        assert(occurs_at(h@, n@, 0));
        return true;
    }
    let last = h.len() - n.len();
    let mut i: usize = 0;
    while i <= last
        invariant
            last == h@.len() - n@.len(),
            i <= last + 1,
            last < h@.len(),
            h@ == hay@,
            n@ == needle@,
            forall|k: int| 0 <= k < i ==> !occurs_at(h@, n@, k),
        decreases last + 1 - i,
    {
        let mut j: usize = 0;
        let mut same = true;
        while j < n.len()
            invariant
                i <= last,
                last == h@.len() - n@.len(),
                n@.len() <= h@.len(),
                i + n@.len() <= h@.len(),
                h@.len() == h.len(),
                j <= n@.len(),
                same == (forall|k: int| 0 <= k < j ==> h@[i + k] == n@[k]),
            decreases n@.len() - j,
        {
            if h[i + j] != n[j] {
                same = false;
            }
            j = j + 1;
        }
        if same {
            assert(h@.subrange(i as int, i + n@.len()) =~= n@);
            assert(occurs_at(h@, n@, i as int));
            return true;
        }
        assert(!occurs_at(h@, n@, i as int)) by {
            if occurs_at(h@, n@, i as int) {
                assert forall|k: int| 0 <= k < n@.len() implies h@[i + k] == n@[k] by {
                    assert(h@.subrange(i as int, i + n@.len())[k] == h@[i + k]);
                }
            }
        }
        i = i + 1;
    }
    proof {
        assert forall|k: int| !occurs_at(h@, n@, k) by {
            if 0 <= k && k < i {
            }
        }
    }
    false
}

/// The lowercase mapping of `s`, as `str::to_lowercase` computes it.
pub uninterp spec fn lowercase(s: Seq<char>) -> Seq<char>;

/// `c` with an ASCII capital letter turned into its small letter.
pub open spec fn ascii_lower(c: char) -> char {
    if 'A' <= c <= 'Z' {
        ((c as u32) + 32) as char
    } else {
        c
    }
}

/// Whether every character of `s` is ASCII.
pub open spec fn all_ascii(s: Seq<char>) -> bool {
    forall|i: int| 0 <= i < s.len() ==> (#[trigger] s[i] as u32) < 128
}

/// `str::to_lowercase`. The Unicode case tables it applies are not written
/// out here: its result is named by `lowercase`. Of ASCII text only what the
/// tables give ASCII is claimed: `A`-`Z` become `a`-`z`, and every other
/// ASCII character stays as it is.
#[verifier::external_body]
pub fn to_lowercase(s: &str) -> (r: String)
    ensures
        r@ == lowercase(s@),
        all_ascii(s@) ==> r@ == Seq::new(s@.len(), |i: int| ascii_lower(s@[i])),
{
    s.to_lowercase()
}

/// The ASCII digit for `d < 10`.
pub open spec fn digit_char(d: nat) -> char {
    ('0' as u32 + d) as char
}

/// Decimal notation of `n`, without sign or leading zeros.
pub open spec fn decimal(n: nat) -> Seq<char>
    decreases n,
{
    if n < 10 {
        seq![digit_char(n)]
    } else {
        decimal(n / 10).push(digit_char(n % 10))
    }
}

/// Appends the decimal notation of `n` to `out`.
pub fn push_decimal(out: &mut String, n: u64)
    ensures
        final(out)@ == old(out)@ + decimal(n as nat),
    decreases n,
{
    if n >= 10 {
        push_decimal(out, n / 10);
    }
    let d = (n % 10) as u32;
    let c = char_from_digit(d);
    push_char(out, c);
    proof {
        if n >= 10 {
            assert(old(out)@ + decimal(n as nat) =~= old(out)@ + decimal((n / 10) as nat) + seq![
                c,
            ]);
        } else {
            assert(decimal(n as nat) =~= seq![c]);
        }
    }
}

fn char_from_digit(d: u32) -> (c: char)
    requires
        d < 10,
    ensures
        c == digit_char(d as nat),
{
    if d == 0 {
        '0'
    } else if d == 1 {
        '1'
    } else if d == 2 {
        '2'
    } else if d == 3 {
        '3'
    } else if d == 4 {
        '4'
    } else if d == 5 {
        '5'
    } else if d == 6 {
        '6'
    } else if d == 7 {
        '7'
    } else if d == 8 {
        '8'
    } else {
        '9'
    }
}

/// Whether `c` is `'0'..='9'`.
pub open spec fn is_digit(c: char) -> bool {
    '0' as u32 <= c as u32 <= '9' as u32
}

/// Decimal notation reads back as the number it writes: every character is
/// a digit, their value is `n`, and there is no leading zero except for 0
/// itself.
pub proof fn law_decimal(n: nat)
    ensures
        all_digits(decimal(n)),
        digits_value(decimal(n)) == n,
        decimal(n).len() >= 1,
        decimal(n)[0] == '0' ==> n == 0,
    decreases n,
{
    let d = digit_char(n % 10);
    assert(d as u32 == '0' as u32 + n % 10);
    if n < 10 {
        assert(decimal(n) == seq![d]);
        assert(decimal(n).drop_last() =~= Seq::<char>::empty());
        assert(decimal(n).last() == d);
        assert(digits_value(decimal(n)) == digits_value(Seq::<char>::empty()) * 10 + ((d as u32) - ('0' as u32)) as nat);
    } else {
        law_decimal(n / 10);
        let s = decimal(n / 10);
        assert(decimal(n) == s.push(d));
        assert(decimal(n).drop_last() =~= s);
        assert(decimal(n)[0] == s[0]);
        assert(decimal(n).last() == d);
        assert(digits_value(decimal(n)) == digits_value(s) * 10 + ((d as u32) - ('0' as u32)) as nat);
        assert(n == (n / 10) * 10 + n % 10);
        assert forall|k: int| 0 <= k < decimal(n).len() implies is_digit(#[trigger] decimal(n)[k]) by {
            if k < s.len() {
                assert(decimal(n)[k] == s[k]);
            }
        }
    }
}

/// Value of the ASCII digits `s`, most significant first.
pub open spec fn digits_value(s: Seq<char>) -> nat
    decreases s.len(),
{
    if s.len() == 0 {
        0
    } else {
        digits_value(s.drop_last()) * 10 + ((s.last() as u32) - ('0' as u32)) as nat
    }
}

pub open spec fn all_digits(s: Seq<char>) -> bool {
    forall|k: int| 0 <= k < s.len() ==> is_digit(#[trigger] s[k])
}

/// What `str::parse::<u64>` accepts: an optional `+`, then one or more ASCII
/// digits whose value fits in a `u64`.
pub open spec fn parse_u64_spec(s: Seq<char>) -> Option<u64> {
    let body = if s.len() > 0 && s[0] == '+' { s.drop_first() } else { s };
    if body.len() > 0 && all_digits(body) && digits_value(body) <= u64::MAX {
        Some(digits_value(body) as u64)
    } else {
        None
    }
}

/// What `str::parse::<i64>` accepts: an optional sign, then one or more ASCII
/// digits whose signed value fits in an `i64`.
pub open spec fn parse_i64_spec(s: Seq<char>) -> Option<i64> {
    let neg = s.len() > 0 && s[0] == '-';
    let body = if s.len() > 0 && (s[0] == '+' || s[0] == '-') { s.drop_first() } else { s };
    if body.len() > 0 && all_digits(body) {
        let v: int = if neg { -(digits_value(body) as int) } else { digits_value(body) as int };
        if i64::MIN <= v <= i64::MAX {
            Some(v as i64)
        } else {
            None
        }
    } else {
        None
    }
}

/// Reads the digits `v[from..]`; `None` when one is not a digit or the value
/// passes `limit`.
fn digits_up_to(v: &Vec<char>, from: usize, limit: u64) -> (r: Option<u64>)
    requires
        from <= v@.len(),
    ensures
        ({
            let body = v@.subrange(from as int, v@.len() as int);
            match r {
                Some(x) => all_digits(body) && digits_value(body) == x && x <= limit,
                None => !all_digits(body) || digits_value(body) > limit,
            }
        }),
{
    let ghost body = v@.subrange(from as int, v@.len() as int);
    let mut acc: u64 = 0;
    let mut i: usize = from;
    while i < v.len()
        invariant
            from <= i <= v@.len(),
            body == v@.subrange(from as int, v@.len() as int),
            all_digits(body.take(i - from)),
            digits_value(body.take(i - from)) == acc,
            acc <= limit,
        decreases v@.len() - i,
    {
        let c = v[i];
        let ghost pre = body.take(i - from);
        let ghost next = body.take(i + 1 - from);
        assert(next.drop_last() =~= pre);
        assert(next.last() == c);
        if !(48 <= (c as u32) && (c as u32) <= 57) {
            proof {
                assert(body[i - from] == c);
                lemma_not_all_digits(body, i - from);
            }
            return None;
        }
        let d = (c as u32 - '0' as u32) as u64;
        if d > limit {
            proof {
                assert(digits_value(next) == acc * 10 + d);
                lemma_digits_value_grows(body, i + 1 - from);
            }
            return None;
        }
        if acc > (limit - d) / 10 {
            proof {
                assert(digits_value(next) == acc * 10 + d);
                assert(acc * 10 + d > limit) by (nonlinear_arith)
                    requires
                        acc > (limit - d) / 10,
                        d <= limit,
                ;
                lemma_digits_value_grows(body, i + 1 - from);
            }
            return None;
        }
        assert(acc * 10 + d <= limit) by (nonlinear_arith)
            requires
                acc <= (limit - d) / 10,
                d <= limit,
        ;
        acc = acc * 10 + d;
        assert(all_digits(next)) by {
            assert forall|k: int| 0 <= k < next.len() implies is_digit(#[trigger] next[k]) by {
                if k < next.len() - 1 {
                    assert(next[k] == pre[k]);
                }
            }
        }
        i = i + 1;
    }
    assert(body.take(v@.len() - from) =~= body);
    Some(acc)
}

proof fn lemma_not_all_digits(body: Seq<char>, k: int)
    requires
        0 <= k < body.len(),
        !is_digit(body[k]),
    ensures
        !all_digits(body),
{
}

/// Extending a digit string never lowers its value.
proof fn lemma_digits_value_grows(body: Seq<char>, n: int)
    requires
        0 <= n <= body.len(),
        all_digits(body.take(n)) ==> true,
    ensures
        all_digits(body) ==> digits_value(body.take(n)) <= digits_value(body),
    decreases body.len() - n,
{
    if n < body.len() && all_digits(body) {
        lemma_digits_value_grows(body, n + 1);
        let t = body.take(n + 1);
        assert(t.drop_last() =~= body.take(n));
        assert(is_digit(body[n]));
        assert(t.last() == body[n]);
    } else if n == body.len() {
        assert(body.take(n) =~= body);
    }
}

/// `s.parse::<u64>()`, as an `Option`.
pub fn parse_u64(s: &str) -> (r: Option<u64>)
    ensures
        r == parse_u64_spec(s@),
{
    let v = chars_of(s);
    let from: usize = if v.len() > 0 && v[0] == '+' { 1 } else { 0 };
    if from == v.len() {
        return None;
    }
    let r = digits_up_to(&v, from, u64::MAX);
    proof {
        let body = if s@.len() > 0 && s@[0] == '+' { s@.drop_first() } else { s@ };
        assert(body =~= v@.subrange(from as int, v@.len() as int));
    }
    r
}

/// `s.parse::<i64>()`, as an `Option`.
pub fn parse_i64(s: &str) -> (r: Option<i64>)
    ensures
        r == parse_i64_spec(s@),
{
    let v = chars_of(s);
    let neg = v.len() > 0 && v[0] == '-';
    let from: usize = if v.len() > 0 && (v[0] == '+' || v[0] == '-') { 1 } else { 0 };
    if from == v.len() {
        return None;
    }
    let limit: u64 = if neg { 9223372036854775808 } else { 9223372036854775807 };
    let r = digits_up_to(&v, from, limit);
    proof {
        let body = if s@.len() > 0 && (s@[0] == '+' || s@[0] == '-') { s@.drop_first() } else { s@ };
        assert(body =~= v@.subrange(from as int, v@.len() as int));
    }
    match r {
        None => None,
        Some(x) => {
            if neg {
                if x == 9223372036854775808 {
                    Some(i64::MIN)
                } else {
                    Some(-(x as i64))
                }
            } else {
                Some(x as i64)
            }
        },
    }
}

/// `a == b` on string slices.
pub fn str_eq(a: &str, b: &str) -> (r: bool)
    ensures
        r == (a@ == b@),
{
    let x = chars_of(a);
    let y = chars_of(b);
    if x.len() != y.len() {
        return false;
    }
    let mut i: usize = 0;
    while i < x.len()
        invariant
            x@.len() == y@.len(),
            x@ == a@,
            y@ == b@,
            i <= x@.len(),
            forall|k: int| 0 <= k < i ==> x@[k] == y@[k],
        decreases x@.len() - i,
    {
        if x[i] != y[i] {
            assert(x@[i as int] != y@[i as int]);
            return false;
        }
        i = i + 1;
    }
    assert(x@ =~= y@);
    true
}

/// The order `String`'s `Ord` gives: lexicographic over the characters,
/// which is the order of their UTF-8 bytes.
pub open spec fn lex_lt(a: Seq<char>, b: Seq<char>) -> bool
    decreases a.len(),
{
    if a.len() == 0 {
        b.len() > 0
    } else if b.len() == 0 {
        false
    } else if a[0] != b[0] {
        (a[0] as int) < (b[0] as int)
    } else {
        lex_lt(a.drop_first(), b.drop_first())
    }
}

pub proof fn lemma_lex_irreflexive(a: Seq<char>)
    ensures
        !lex_lt(a, a),
    decreases a.len(),
{
    if a.len() > 0 {
        lemma_lex_irreflexive(a.drop_first());
    }
}

pub proof fn lemma_lex_total(a: Seq<char>, b: Seq<char>)
    ensures
        a == b || lex_lt(a, b) || lex_lt(b, a),
    decreases a.len(),
{
    if a.len() > 0 && b.len() > 0 && a[0] == b[0] {
        lemma_lex_total(a.drop_first(), b.drop_first());
        if a.drop_first() == b.drop_first() {
            assert(a =~= seq![a[0]] + a.drop_first());
            assert(b =~= seq![b[0]] + b.drop_first());
        }
    } else if a.len() == 0 && b.len() == 0 {
        assert(a =~= b);
    } else if a.len() > 0 && b.len() > 0 {
        assert((a[0] as int) != (b[0] as int));
    }
}

pub proof fn lemma_lex_asymmetric(a: Seq<char>, b: Seq<char>)
    ensures
        lex_lt(a, b) ==> !lex_lt(b, a),
    decreases a.len(),
{
    if a.len() > 0 && b.len() > 0 && a[0] == b[0] {
        lemma_lex_asymmetric(a.drop_first(), b.drop_first());
    }
}

pub proof fn lemma_lex_transitive(a: Seq<char>, b: Seq<char>, c: Seq<char>)
    requires
        lex_lt(a, b),
        lex_lt(b, c),
    ensures
        lex_lt(a, c),
    decreases a.len(),
{
    if a.len() > 0 && b.len() > 0 && c.len() > 0 && a[0] == b[0] && b[0] == c[0] {
        lemma_lex_transitive(a.drop_first(), b.drop_first(), c.drop_first());
    }
}

/// The code point of `c`.
pub fn char_code(c: char) -> (u: u32)
    ensures
        u as int == c as int,
{
    c as u32
}

/// Three-way comparison of two strings: negative, zero or positive.
pub fn compare_str(a: &str, b: &str) -> (r: i8)
    ensures
        r < 0 <==> lex_lt(a@, b@),
        r == 0 <==> a@ == b@,
        r > 0 <==> lex_lt(b@, a@),
{
    let x = chars_of(a);
    let y = chars_of(b);
    let mut i: usize = 0;
    while i < x.len() && i < y.len() && x[i] == y[i]
        invariant
            i <= x@.len(),
            i <= y@.len(),
            x@.take(i as int) == y@.take(i as int),
        decreases x@.len() - i,
    {
        assert(x@.take(i + 1) =~= x@.take(i as int).push(x@[i as int]));
        assert(y@.take(i + 1) =~= y@.take(i as int).push(y@[i as int]));
        i = i + 1;
    }
    proof {
        lemma_lex_skip(x@, y@, i as int);
        lemma_lex_skip(y@, x@, i as int);
        lemma_lex_asymmetric(x@, y@);
        lemma_lex_irreflexive(x@);
    }
    if i == x.len() && i == y.len() {
        assert(x@ =~= x@.take(i as int));
        assert(y@ =~= y@.take(i as int));
        0
    } else if i == x.len() {
        proof {
            if x@ == y@ {
                assert(x@.len() == y@.len());
            }
        }
        -1
    } else if i == y.len() {
        1
    } else if char_code(x[i]) < char_code(y[i]) {
        -1
    } else {
        1
    }
}

/// Two strings that agree on their first `i` characters compare as their
/// remainders do.
pub proof fn lemma_lex_skip(a: Seq<char>, b: Seq<char>, i: int)
    requires
        0 <= i <= a.len(),
        i <= b.len(),
        a.take(i) == b.take(i),
    ensures
        lex_lt(a, b) == lex_lt(a.skip(i), b.skip(i)),
    decreases i,
{
    if i > 0 {
        assert(a[0] == a.take(i)[0]);
        assert(b[0] == b.take(i)[0]);
        assert(a.drop_first().take(i - 1) =~= a.take(i).drop_first());
        assert(b.drop_first().take(i - 1) =~= b.take(i).drop_first());
        lemma_lex_skip(a.drop_first(), b.drop_first(), i - 1);
        assert(a.drop_first().skip(i - 1) =~= a.skip(i));
        assert(b.drop_first().skip(i - 1) =~= b.skip(i));
    } else {
        assert(a.skip(0) =~= a);
        assert(b.skip(0) =~= b);
    }
}

/// Index of the first `c` in `s`.
pub open spec fn find_char(s: Seq<char>, c: char) -> Option<int> {
    if exists|i: int| 0 <= i < s.len() && s[i] == c && forall|j: int| 0 <= j < i ==> s[j] != c {
        Some(choose|i: int| 0 <= i < s.len() && s[i] == c && forall|j: int| 0 <= j < i ==> s[j] != c)
    } else {
        None
    }
}

pub proof fn lemma_find_char_at(s: Seq<char>, c: char, i: int)
    requires
        0 <= i < s.len(),
        s[i] == c,
        forall|j: int| 0 <= j < i ==> s[j] != c,
    ensures
        find_char(s, c) == Some(i),
{
    let k = choose|k: int| 0 <= k < s.len() && s[k] == c && forall|j: int| 0 <= j < k ==> s[j] != c;
    if k < i {
        assert(s[k] != c);
    }
    if i < k {
        assert(s[i] != c);
    }
}

/// Position of the first `c` in `v`.
pub fn index_of_char(v: &Vec<char>, c: char) -> (r: Option<usize>)
    ensures
        match r {
            Some(i) => find_char(v@, c) == Some(i as int),
            None => find_char(v@, c) is None,
        },
{
    let mut i: usize = 0;
    while i < v.len()
        invariant
            i <= v@.len(),
            forall|j: int| 0 <= j < i ==> v@[j] != c,
        decreases v@.len() - i,
    {
        if v[i] == c {
            proof {
                lemma_find_char_at(v@, c, i as int);
            }
            return Some(i);
        }
        i = i + 1;
    }
    None
}

/// `s` without one trailing carriage return.
pub open spec fn strip_cr(s: Seq<char>) -> Seq<char> {
    if s.len() > 0 && s.last() == '\r' {
        s.drop_last()
    } else {
        s
    }
}

/// What `str::lines` yields: the pieces between `\n`s, each without a `\r`
/// right before its `\n`; a final `\n` does not start another line.
pub open spec fn lines_of(s: Seq<char>) -> Seq<Seq<char>>
    decreases s.len(),
{
    if s.len() == 0 {
        Seq::empty()
    } else if exists|i: int|
        0 <= i < s.len() && s[i] == '\n' && forall|j: int| 0 <= j < i ==> s[j] != '\n' {
        let i = choose|i: int|
            0 <= i < s.len() && s[i] == '\n' && forall|j: int| 0 <= j < i ==> s[j] != '\n';
        seq![strip_cr(s.subrange(0, i))] + lines_of(s.subrange(i + 1, s.len() as int))
    } else {
        seq![s]
    }
}

/// One step of `lines_of`: the line that starts at `start` ends at `end`.
pub proof fn lemma_lines_step(s: Seq<char>, start: int, end: int)
    requires
        0 <= start < end <= s.len() || 0 <= start == end < s.len(),
        forall|j: int| start <= j < end ==> s[j] != '\n',
        end == s.len() || s[end] == '\n',
        start < s.len(),
    ensures
        lines_of(s.subrange(start, s.len() as int)) == seq![
            if end < s.len() {
                strip_cr(s.subrange(start, end))
            } else {
                s.subrange(start, end)
            },
        ] + lines_of(s.subrange(if end < s.len() { end + 1 } else { end }, s.len() as int)),
{
    let rest = s.subrange(start, s.len() as int);
    assert(rest.subrange(0, end - start) =~= s.subrange(start, end));
    if end < s.len() {
        assert forall|j: int| 0 <= j < end - start implies rest[j] != '\n' by {
            assert(rest[j] == s[start + j]);
        }
        assert(rest[end - start] == '\n');
        assert(0 <= end - start < rest.len() && rest[end - start] == '\n' && forall|j: int|
            0 <= j < end - start ==> rest[j] != '\n');
        let k = choose|k: int|
            0 <= k < rest.len() && rest[k] == '\n' && forall|j: int| 0 <= j < k ==> rest[j] != '\n';
        if k < end - start {
            assert(rest[k] != '\n');
        }
        if end - start < k {
            assert(rest[end - start] != '\n');
        }
        assert(rest.subrange(end - start + 1, rest.len() as int) =~= s.subrange(
            end + 1,
            s.len() as int,
        ));
    } else {
        assert forall|j: int| 0 <= j < rest.len() implies rest[j] != '\n' by {
            assert(rest[j] == s[start + j]);
        }
        assert(rest.subrange(0, end - start) =~= rest);
        assert(s.subrange(end, s.len() as int) =~= Seq::<char>::empty());
        assert(lines_of(Seq::<char>::empty()) =~= Seq::<Seq<char>>::empty());
        assert(seq![rest] + Seq::<Seq<char>>::empty() =~= seq![rest]);
    }
}

/// `str::lines`, collected.
pub fn lines(s: &str) -> (r: Vec<String>)
    ensures
        r@.len() == lines_of(s@).len(),
        forall|i: int| 0 <= i < r@.len() ==> #[trigger] r@[i]@ == lines_of(s@)[i],
{
    let v = chars_of(s);
    let mut out: Vec<String> = Vec::new();
    let mut start: usize = 0;
    let ghost mut done: Seq<Seq<char>> = Seq::empty();
    assert(v@.subrange(0, v@.len() as int) =~= v@);
    while start < v.len()
        invariant
            start <= v@.len(),
            v@ == s@,
            out@.len() == done.len(),
            forall|i: int| 0 <= i < out@.len() ==> #[trigger] out@[i]@ == done[i],
            done + lines_of(v@.subrange(start as int, v@.len() as int)) == lines_of(s@),
        decreases v@.len() - start,
    {
        let mut end: usize = start;
        while end < v.len() && v[end] != '\n'
            invariant
                start <= end <= v@.len(),
                forall|j: int| start <= j < end ==> v@[j] != '\n',
            decreases v@.len() - end,
        {
            end = end + 1;
        }
        let piece_end = if end < v.len() && end > start && v[end - 1] == '\r' {
            end - 1
        } else {
            end
        };
        let piece = s.substring_char(start, piece_end).to_owned();
        let next = if end < v.len() { end + 1 } else { end };
        proof {
            if end < v@.len() {
                assert(piece@ =~= strip_cr(v@.subrange(start as int, end as int)));
            } else {
                assert(piece@ =~= v@.subrange(start as int, end as int));
            }
            lemma_lines_step(v@, start as int, end as int);
            let old_done = done;
            done = done.push(piece@);
            assert(old_done + lines_of(v@.subrange(start as int, v@.len() as int)) =~= done
                + lines_of(v@.subrange(next as int, v@.len() as int)));
        }
        out.push(piece);
        start = next;
    }
    proof {
        assert(v@.subrange(start as int, v@.len() as int) =~= Seq::<char>::empty());
        assert(done + Seq::<Seq<char>>::empty() =~= done);
    }
    out
}
/// The pieces of `s` between the `c`s: `str::split` with a `char` pattern.
pub open spec fn split_on(s: Seq<char>, c: char) -> Seq<Seq<char>>
    decreases s.len(),
{
    if exists|i: int| 0 <= i < s.len() && s[i] == c && forall|j: int| 0 <= j < i ==> s[j] != c {
        let i = choose|i: int| 0 <= i < s.len() && s[i] == c && forall|j: int| 0 <= j < i ==> s[j] != c;
        seq![s.subrange(0, i)] + split_on(s.subrange(i + 1, s.len() as int), c)
    } else {
        seq![s]
    }
}

/// `s.split(c)`, collected.
#[verifier::spinoff_prover]
#[verifier::rlimit(40)]
pub fn split_char(s: &str, c: char) -> (r: Vec<String>)
    ensures
        r@.len() == split_on(s@, c).len(),
        forall|i: int| 0 <= i < r@.len() ==> #[trigger] r@[i]@ == split_on(s@, c)[i],
{
    let v = chars_of(s);
    let mut out: Vec<String> = Vec::new();
    let mut start: usize = 0;
    let ghost mut done: Seq<Seq<char>> = Seq::empty();
    assert(v@.subrange(0, v@.len() as int) =~= v@);
    loop
        invariant
            start <= v@.len(),
            v@ == s@,
            out@.len() == done.len(),
            forall|i: int| 0 <= i < out@.len() ==> #[trigger] out@[i]@ == done[i],
            done + split_on(v@.subrange(start as int, v@.len() as int), c) == split_on(s@, c),
        decreases v@.len() - start,
    {
        let ghost rest = v@.subrange(start as int, v@.len() as int);
        let mut end: usize = start;
        while end < v.len() && v[end] != c
            invariant
                start <= end <= v@.len(),
                forall|j: int| start <= j < end ==> v@[j] != c,
            decreases v@.len() - end,
        {
            end = end + 1;
        }
        let piece = s.substring_char(start, end).to_owned();
        proof {
            assert(piece@ =~= rest.subrange(0, end - start));
            assert forall|j: int| 0 <= j < end - start implies rest[j] != c by {
                assert(rest[j] == v@[start + j]);
            }
        }
        out.push(piece);
        if end == v.len() {
            proof {
                assert(!(exists|i: int|
                    0 <= i < rest.len() && rest[i] == c && forall|j: int| 0 <= j < i ==> rest[j] != c));
                assert(rest.subrange(0, end - start) =~= rest);
                done = done.push(piece@);
            }
            return out;
        }
        proof {
            assert(rest[end - start] == c);
            assert(0 <= end - start < rest.len() && rest[end - start] == c && forall|j: int|
                0 <= j < end - start ==> rest[j] != c);
            let k = choose|k: int|
                0 <= k < rest.len() && rest[k] == c && forall|j: int| 0 <= j < k ==> rest[j] != c;
            if k < end - start {
                assert(rest[k] != c);
            }
            if end - start < k {
                assert(rest[end - start] != c);
            }
            assert(rest.subrange(end - start + 1, rest.len() as int) =~= v@.subrange(
                end + 1,
                v@.len() as int,
            ));
            let old_done = done;
            done = done.push(piece@);
            assert(old_done + split_on(rest, c) =~= done + split_on(
                v@.subrange(end + 1, v@.len() as int),
                c,
            ));
        }
        start = end + 1;
    }
}

/// The first `n` characters of `s` (all of it when shorter).
pub fn first_chars(s: &str, n: usize) -> (r: String)
    ensures
        r@ == s@.take(if s@.len() < n { s@.len() as int } else { n as int }),
{
    let len = s.unicode_len();
    let end = if len < n { len } else { n };
    s.substring_char(0, end).to_owned()
}

/// Whether `pat` occurs at `i` and nowhere before it.
pub open spec fn first_occurrence(s: Seq<char>, pat: Seq<char>, i: int) -> bool {
    occurs_at(s, pat, i) && forall|j: int| 0 <= j < i ==> !occurs_at(s, pat, j)
}

/// `str::replace` with a non-empty pattern: every occurrence, scanning left
/// to right without overlaps, becomes `rep`.
pub open spec fn replaced(s: Seq<char>, pat: Seq<char>, rep: Seq<char>) -> Seq<char>
    decreases s.len(),
{
    if pat.len() > 0 && exists|i: int| first_occurrence(s, pat, i) {
        let i = choose|i: int| first_occurrence(s, pat, i);
        s.subrange(0, i) + rep + replaced(s.subrange(i + pat.len(), s.len() as int), pat, rep)
    } else {
        s
    }
}

pub proof fn lemma_first_occurrence_unique(s: Seq<char>, pat: Seq<char>, i: int, k: int)
    requires
        first_occurrence(s, pat, i),
        first_occurrence(s, pat, k),
    ensures
        i == k,
{
    if i < k {
        assert(!occurs_at(s, pat, i));
    }
    if k < i {
        assert(!occurs_at(s, pat, k));
    }
}

/// `s.replace(pat, rep)` for a non-empty `pat`.
pub fn replace_all(s: &str, pat: &str, rep: &str) -> (r: String)
    requires
        pat@.len() > 0,
    ensures
        r@ == replaced(s@, pat@, rep@),
{
    let v = chars_of(s);
    let p = chars_of(pat);
    let mut out = String::new();
    let mut start: usize = 0;
    let mut i: usize = 0;
    let ghost mut done: Seq<char> = Seq::empty();
    assert(v@.subrange(0, v@.len() as int) =~= v@);
    while i < v.len()
        invariant
            start <= i <= v@.len(),
            v@ == s@,
            p@ == pat@,
            p@.len() > 0,
            out@ == done,
            forall|j: int| start <= j < i ==> !occurs_at(v@, p@, j),
            done + replaced(v@.subrange(start as int, v@.len() as int), p@, rep@) == replaced(
                s@,
                p@,
                rep@,
            ),
        decreases v@.len() - i,
    {
        let mut here = p.len() <= v.len() - i;
        if here {
            let mut j: usize = 0;
            while j < p.len()
                invariant
                    i + p@.len() <= v@.len(),
                    v@.len() == v.len(),
                    j <= p@.len(),
                    here == (forall|k: int| 0 <= k < j ==> v@[i + k] == p@[k]),
                decreases p@.len() - j,
            {
                if v[i + j] != p[j] {
                    here = false;
                }
                j = j + 1;
            }
            if here {
                assert(v@.subrange(i as int, i + p@.len()) =~= p@);
            } else {
                assert(!occurs_at(v@, p@, i as int)) by {
                    if occurs_at(v@, p@, i as int) {
                        assert forall|k: int| 0 <= k < p@.len() implies v@[i + k] == p@[k] by {
                            assert(v@.subrange(i as int, i + p@.len())[k] == v@[i + k]);
                        }
                    }
                }
            }
        }
        if here {
            let ghost rest = v@.subrange(start as int, v@.len() as int);
            proof {
                assert(occurs_at(rest, p@, i - start)) by {
                    assert(rest.subrange(i - start, i - start + p@.len()) =~= v@.subrange(
                        i as int,
                        i + p@.len(),
                    ));
                }
                assert forall|j: int| 0 <= j < i - start implies !occurs_at(rest, p@, j) by {
                    assert(!occurs_at(v@, p@, start + j));
                    if occurs_at(rest, p@, j) {
                        assert(rest.subrange(j, j + p@.len()) =~= v@.subrange(
                            start + j,
                            start + j + p@.len(),
                        ));
                    }
                }
                assert(first_occurrence(rest, p@, i - start));
                let k = choose|k: int| first_occurrence(rest, p@, k);
                lemma_first_occurrence_unique(rest, p@, i - start, k);
                assert(rest.subrange(i - start + p@.len(), rest.len() as int) =~= v@.subrange(
                    i + p@.len(),
                    v@.len() as int,
                ));
                assert(rest.subrange(0, i - start) =~= v@.subrange(start as int, i as int));
            }
            let piece = s.substring_char(start, i);
            out.append(piece);
            out.append(rep);
            proof {
                let old_done = done;
                done = done + v@.subrange(start as int, i as int) + rep@;
                assert(out@ =~= done);
                assert(old_done + replaced(rest, p@, rep@) =~= done + replaced(
                    v@.subrange(i + p@.len(), v@.len() as int),
                    p@,
                    rep@,
                ));
            }
            i = i + p.len();
            start = i;
        } else {
            i = i + 1;
        }
    }
    let ghost rest = v@.subrange(start as int, v@.len() as int);
    proof {
        assert forall|j: int| !first_occurrence(rest, p@, j) by {
            if first_occurrence(rest, p@, j) {
                assert(rest.subrange(j, j + p@.len()) =~= v@.subrange(start + j, start + j + p@.len()));
                assert(!occurs_at(v@, p@, start + j));
            }
        }
    }
    let piece = s.substring_char(start, v.len());
    out.append(piece);
    proof {
        assert(out@ =~= done + rest);
    }
    out
}

} // verus!
