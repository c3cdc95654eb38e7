//! What the client of the mihomo external controller computes: the values
//! the controller reports, the paths it is asked for, the framing of its
//! streamed lines, and the byte counts the pages show. The HTTP requests
//! themselves are made by the caller.

use std::collections::HashMap;

use vstd::prelude::*;
use vstd::string::StringExecFns;
use vstd::string::StringSliceAdditionalSpecFns;
use vstd::utf8::{decode_utf8, encode_utf8, valid_utf8};

use crate::json::{jget, jstr, Json};
use crate::text::{
    blank, decimal, digit_char, is_blank, push_decimal, str_eq, trim, trimmed,
};

verus! {

pub struct DelaySample {
    pub delay: u32,
}

impl Clone for DelaySample {
    fn clone(&self) -> (r: Self)
        ensures
            r == *self,
    {
        DelaySample { delay: self.delay }
    }
}

pub struct ProxyInfo {
    pub name: String,
    pub kind: String,
    pub now: Option<String>,
    pub all: Vec<String>,
    pub history: Vec<DelaySample>,
    pub udp: bool,
}

impl Clone for ProxyInfo {
    fn clone(&self) -> (r: Self)
        ensures
            r.name == self.name,
            r.kind == self.kind,
            r.now == self.now,
            r.all@ == self.all@,
            r.history@ == self.history@,
            r.udp == self.udp,
    {
        let mut history: Vec<DelaySample> = Vec::new();
        let mut i: usize = 0;
        while i < self.history.len()
            invariant
                i <= self.history@.len(),
                history@ == self.history@.take(i as int),
            decreases self.history@.len() - i,
        {
            history.push(self.history[i].clone());
            assert(self.history@.take(i + 1) =~= self.history@.take(i as int).push(self.history@[i as int]));
            i = i + 1;
        }
        assert(self.history@.take(self.history@.len() as int) =~= self.history@);
        ProxyInfo {
            name: self.name.clone(),
            kind: self.kind.clone(),
            now: match &self.now {
                Some(n) => Some(n.clone()),
                None => None,
            },
            all: crate::config::clone_strings(&self.all),
            history,
            udp: self.udp,
        }
    }
}

/// The kinds the core reports for proxy groups.
pub open spec fn group_kind(kind: Seq<char>) -> bool {
    ||| kind == "Selector"@
    ||| kind == "URLTest"@
    ||| kind == "Fallback"@
    ||| kind == "LoadBalance"@
    ||| kind == "Relay"@
}

/// The latest latency sample, where there is one and it is not zero: the core
/// records an unreachable node as a delay of 0.
pub open spec fn latest_delay(history: Seq<DelaySample>) -> Option<u32> {
    if history.len() == 0 || history.last().delay == 0 {
        None
    } else {
        Some(history.last().delay)
    }
}

/// A proxy is a group exactly when the core reports it as a `Selector`,
/// `URLTest`, `Fallback`, `LoadBalance` or `Relay`; its latency is its last
/// sample, and a last sample of 0 (unreachable) or no sample means none.
pub proof fn law_proxy_kind_and_delay(kind: Seq<char>, history: Seq<DelaySample>)
    ensures
        group_kind(kind) <==> (kind == "Selector"@ || kind == "URLTest"@ || kind == "Fallback"@
            || kind == "LoadBalance"@ || kind == "Relay"@),
        history.len() == 0 ==> latest_delay(history) is None,
        history.len() > 0 ==> (latest_delay(history) is None <==> history.last().delay == 0),
        history.len() > 0 && history.last().delay != 0 ==> latest_delay(history) == Some(
            history.last().delay,
        ),
{
}

impl ProxyInfo {
    pub fn last_delay(&self) -> (r: Option<u32>)
        ensures
            r == latest_delay(self.history@),
    {
        if self.history.len() == 0 {
            return None;
        }
        let d = self.history[self.history.len() - 1].delay;
        if d > 0 {
            Some(d)
        } else {
            None
        }
    }

    pub fn is_group(&self) -> (b: bool)
        ensures
            b == group_kind(self.kind@),
    {
        let k = self.kind.as_str();
        str_eq(k, "Selector") || str_eq(k, "URLTest") || str_eq(k, "Fallback") || str_eq(
            k,
            "LoadBalance",
        ) || str_eq(k, "Relay")
    }
}

pub struct ProxiesResponse {
    pub proxies: HashMap<String, ProxyInfo>,
}

#[derive(Clone, Copy)]
pub struct Traffic {
    pub up: u64,
    pub down: u64,
}

pub struct LogLine {
    pub level: String,
    pub payload: String,
}

impl Clone for LogLine {
    fn clone(&self) -> (r: Self)
        ensures
            r.level@ == self.level@,
            r.payload@ == self.payload@,
    {
        LogLine { level: self.level.clone(), payload: self.payload.clone() }
    }
}

// ---------------------------------------------------------------- byte counts

/// 2^53: below it an `f64` holds every integer exactly.
pub open spec fn exact_limit() -> nat {
    9007199254740992
}

/// How many binary digits of `b` an `f64` has no room for.
pub open spec fn excess(b: nat) -> nat
    decreases b,
{
    if b < exact_limit() {
        0
    } else {
        1 + excess(b / 2)
    }
}

pub open spec fn two_to(k: nat) -> nat
    decreases k,
{
    if k == 0 {
        1
    } else {
        2 * two_to((k - 1) as nat)
    }
}

/// `n / d` rounded to the nearest integer, a tie going to the even one.
pub open spec fn round_half_even(n: nat, d: nat) -> nat {
    let q = n / d;
    let r = n % d;
    if 2 * r > d || (2 * r == d && q % 2 == 1) {
        q + 1
    } else {
        q
    }
}

/// The value `b as f64` holds: `b` rounded to 53 significant bits, a tie
/// going to the even one.
pub open spec fn as_double(b: nat) -> nat {
    round_half_even(b, two_to(excess(b))) * two_to(excess(b))
}

/// 1024 to the power `u`, for the units in use.
pub open spec fn kib(u: nat) -> nat {
    if u == 0 {
        1
    } else if u == 1 {
        1024
    } else if u == 2 {
        1048576
    } else if u == 3 {
        1073741824
    } else {
        1099511627776
    }
}

/// The largest unit, up to TiB, that `v` reaches.
pub open spec fn unit_of(v: nat) -> nat {
    if v >= kib(4) {
        4
    } else if v >= kib(3) {
        3
    } else if v >= kib(2) {
        2
    } else if v >= kib(1) {
        1
    } else {
        0
    }
}

pub open spec fn unit_name(u: nat) -> Seq<char> {
    if u == 0 {
        "B"@
    } else if u == 1 {
        "KiB"@
    } else if u == 2 {
        "MiB"@
    } else if u == 3 {
        "GiB"@
    } else {
        "TiB"@
    }
}

/// A byte count in binary units: whole bytes below 1 KiB, otherwise the
/// value in the largest unit it reaches (up to TiB), to one decimal place,
/// rounded as `{:.1}` rounds the `f64` it is computed in.
pub open spec fn bytes_text(b: nat) -> Seq<char> {
    let v = as_double(b);
    let u = unit_of(v);
    if u == 0 {
        decimal(b) + " B"@
    } else {
        let t = round_half_even(v * 10, kib(u));
        decimal(t / 10) + "."@ + seq![digit_char(t % 10)] + " "@ + unit_name(u)
    }
}

/// `b as f64`, as an integer.
fn double_value(b: u64) -> (f: u128)
    ensures
        f == as_double(b as nat),
        f <= 36893488147419103232,
{
    let x: u128 = b as u128;
    let mut q: u128 = x;
    let mut d: u128 = 1;
    let ghost mut k: nat = 0;
    while q >= 9007199254740992
        invariant
            d == two_to(k),
            1 <= d,
            d == 1 || d * 4503599627370496 <= x,
            q == x / d,
            x == b,
            excess(b as nat) == k + excess(q as nat),
        decreases q,
    {
        proof {
            vstd::arithmetic::div_mod::lemma_fundamental_div_mod(x as int, d as int);
            assert(d * 9007199254740992 <= x) by (nonlinear_arith)
                requires
                    x == d * (x / d) + x % d,
                    x % d >= 0,
                    x / d >= 9007199254740992,
                    d >= 1,
            ;
            vstd::arithmetic::div_mod::lemma_div_denominator(x as int, d as int, 2);
        }
        q = q / 2;
        d = d * 2;
        proof {
            k = k + 1;
        }
    }
    assert(d <= 4096) by (nonlinear_arith)
        requires
            d == 1 || d * 4503599627370496 <= x,
            x < 18446744073709551616,
    ;
    let r = x % d;
    let up = 2 * r > d || (2 * r == d && q % 2 == 1);
    let q2 = if up {
        q + 1
    } else {
        q
    };
    assert(q2 * d <= 36893488147419103232) by (nonlinear_arith)
        requires
            q2 <= 9007199254740992,
            d <= 4096,
    ;
    q2 * d
}

/// Appends `s` to `out`.
fn push_str(out: &mut String, s: &str)
    ensures
        final(out)@ == old(out)@ + s@,
{
    out.append(s);
}

pub fn format_bytes(bytes: u64) -> (s: String)
    ensures
        s@ == bytes_text(bytes as nat),
{
    let f = double_value(bytes);
    let mut unit: usize = 0;
    let mut scale: u128 = 1;
    while unit < 4 && f >= scale * 1024
        invariant
            unit <= 4,
            scale == kib(unit as nat),
            unit > 0 ==> f >= kib(unit as nat),
        decreases 4 - unit,
    {
        scale = scale * 1024;
        unit = unit + 1;
    }
    assert(unit as nat == unit_of(f as nat));
    let mut out = String::new();
    if unit == 0 {
        push_decimal(&mut out, bytes);
        push_str(&mut out, " B");
        proof {
            reveal_strlit(" B");
        }
        return out;
    }
    let n = f * 10;
    let q = n / scale;
    let r = n % scale;
    let t = if 2 * r > scale || (2 * r == scale && q % 2 == 1) {
        q + 1
    } else {
        q
    };
    assert(t / 10 < 18446744073709551616) by (nonlinear_arith)
        requires
            q == n / scale,
            scale >= 1024,
            n <= 368934881474191032320,
            t <= q + 1,
    ;
    push_decimal(&mut out, (t / 10) as u64);
    push_str(&mut out, ".");
    push_decimal(&mut out, (t % 10) as u64);
    push_str(&mut out, " ");
    if unit == 1 {
        push_str(&mut out, "KiB");
    } else if unit == 2 {
        push_str(&mut out, "MiB");
    } else if unit == 3 {
        push_str(&mut out, "GiB");
    } else {
        push_str(&mut out, "TiB");
    }
    proof {
        reveal_strlit(".");
        reveal_strlit(" ");
        reveal_strlit("KiB");
        reveal_strlit("MiB");
        reveal_strlit("GiB");
        reveal_strlit("TiB");
        assert(decimal((t % 10) as nat) == seq![digit_char((t % 10) as nat)]);
    }
    out
}


// ---------------------------------------------------------------- requests

/// Bytes `urlencoding` leaves as they are: ASCII letters, digits and `-._~`.
pub open spec fn url_safe(b: u8) -> bool {
    ||| 48 <= b <= 57
    ||| 65 <= b <= 90
    ||| 97 <= b <= 122
    ||| b == 45
    ||| b == 46
    ||| b == 95
    ||| b == 126
}

/// An uppercase hexadecimal digit.
pub open spec fn hex_digit(n: nat) -> char {
    if n < 10 {
        (48 + n) as char
    } else {
        (55 + n) as char
    }
}

/// Percent-encoding: every byte but the safe ones becomes `%` and two
/// uppercase hexadecimal digits.
pub open spec fn percent_encoded(bytes: Seq<u8>) -> Seq<char>
    decreases bytes.len(),
{
    if bytes.len() == 0 {
        Seq::empty()
    } else {
        let b = bytes[0];
        (if url_safe(b) {
            seq![b as char]
        } else {
            seq!['%', hex_digit((b / 16) as nat), hex_digit((b % 16) as nat)]
        }) + percent_encoded(bytes.drop_first())
    }
}

/// A query or path component: the UTF-8 bytes of `s`, percent-encoded.
pub open spec fn encoded(s: Seq<char>) -> Seq<char> {
    percent_encoded(encode_utf8(s))
}

/// `urlencoding::encode`: every byte of the UTF-8 text other than ASCII
/// letters, digits and `-._~` becomes `%` and two uppercase hexadecimal
/// digits; the contract says exactly that.
#[verifier::external_body]
fn url_encode(s: &str) -> (r: String)
    ensures
        r@ == percent_encoded(s.spec_bytes()),
{
    urlencoding::encode(s).into_owned()
}

/// `s` without any trailing `c`.
pub open spec fn strip_trailing(s: Seq<char>, c: char) -> Seq<char>
    decreases s.len(),
{
    if s.len() > 0 && s.last() == c {
        strip_trailing(s.drop_last(), c)
    } else {
        s
    }
}

/// The controller's base URL as requests are built on it: without trailing
/// slashes.
pub fn controller_base(base_url: &str) -> (r: String)
    ensures
        r@ == strip_trailing(base_url@, '/'),
{
    let v = crate::text::chars_of(base_url);
    let mut j: usize = v.len();
    proof {
        assert(v@.take(j as int) =~= v@);
    }
    while j > 0 && v[j - 1] == '/'
        invariant
            j <= v@.len(),
            v@ == base_url@,
            strip_trailing(v@.take(j as int), '/') == strip_trailing(base_url@, '/'),
        decreases j,
    {
        assert(v@.take(j as int).drop_last() =~= v@.take(j - 1));
        j = j - 1;
    }
    assert(strip_trailing(v@.take(j as int), '/') == v@.take(j as int));
    base_url.substring_char(0, j).to_owned()
}

/// Where a node is picked inside a group.
pub open spec fn select_path_text(group: Seq<char>) -> Seq<char> {
    "/proxies/"@ + encoded(group)
}

pub fn select_path(group: &str) -> (r: String)
    ensures
        r@ == select_path_text(group@),
{
    let mut out = String::from_str("/proxies/");
    let e = url_encode(group);
    push_str(&mut out, e.as_str());
    proof {
        reveal_strlit("/proxies/");
    }
    out
}

/// Where every member of a group is timed in one request.
pub open spec fn delay_path_text(group: Seq<char>, test_url: Seq<char>, timeout_ms: nat) -> Seq<
    char,
> {
    "/group/"@ + encoded(group) + "/delay?timeout="@ + decimal(timeout_ms) + "&url="@ + encoded(
        test_url,
    )
}

pub fn group_delay_path(group: &str, test_url: &str, timeout_ms: u32) -> (r: String)
    ensures
        r@ == delay_path_text(group@, test_url@, timeout_ms as nat),
{
    let mut out = String::from_str("/group/");
    let g = url_encode(group);
    push_str(&mut out, g.as_str());
    push_str(&mut out, "/delay?timeout=");
    push_decimal(&mut out, timeout_ms as u64);
    push_str(&mut out, "&url=");
    let u = url_encode(test_url);
    push_str(&mut out, u.as_str());
    proof {
        reveal_strlit("/group/");
        reveal_strlit("/delay?timeout=");
        reveal_strlit("&url=");
    }
    out
}

/// Where the log stream of a level is read.
pub open spec fn logs_path_text(level: Seq<char>) -> Seq<char> {
    "/logs?level="@ + encoded(level)
}

pub fn logs_path(level: &str) -> (r: String)
    ensures
        r@ == logs_path_text(level@),
{
    let mut out = String::from_str("/logs?level=");
    let e = url_encode(level);
    push_str(&mut out, e.as_str());
    proof {
        reveal_strlit("/logs?level=");
    }
    out
}

/// The version `/version` reports, or `unknown` when it names none.
pub open spec fn version_of(body: crate::json::JsonV) -> Seq<char> {
    match jget(body, "version"@) {
        Some(v) => match jstr(v) {
            Some(s) => s,
            None => "unknown"@,
        },
        None => "unknown"@,
    }
}

pub fn version_text(body: &Json) -> (r: String)
    ensures
        r@ == version_of(body@),
{
    let found = body.get("version");
    match found {
        Some(v) => match v.as_str() {
            Some(s) => s.clone(),
            None => String::from_str("unknown"),
        },
        None => String::from_str("unknown"),
    }
}


// ---------------------------------------------------------------- streams

/// Where the first `b` stands in `s`.
pub open spec fn find_byte(s: Seq<u8>, b: u8) -> Option<int> {
    if exists|i: int| 0 <= i < s.len() && s[i] == b && forall|j: int| 0 <= j < i ==> s[j] != b {
        Some(choose|i: int| 0 <= i < s.len() && s[i] == b && forall|j: int| 0 <= j < i ==> s[j] != b)
    } else {
        None
    }
}

proof fn lemma_find_byte_at(s: Seq<u8>, b: u8, i: int)
    requires
        0 <= i < s.len(),
        s[i] == b,
        forall|j: int| 0 <= j < i ==> s[j] != b,
    ensures
        find_byte(s, b) == Some(i),
{
    let k = choose|k: int| 0 <= k < s.len() && s[k] == b && forall|j: int| 0 <= j < k ==> s[j] != b;
    if k < i {
        assert(s[k] != b);
    }
    if i < k {
        assert(s[i] != b);
    }
}

/// The complete lines in `data`, each with its newline.
pub open spec fn split_lines(data: Seq<u8>) -> Seq<Seq<u8>>
    decreases data.len(),
{
    match find_byte(data, 10) {
        Some(i) => if 0 <= i < data.len() {
            seq![data.take(i + 1)] + split_lines(data.skip(i + 1))
        } else {
            Seq::empty()
        },
        None => Seq::empty(),
    }
}

/// What follows the last newline in `data`.
pub open spec fn leftover(data: Seq<u8>) -> Seq<u8>
    decreases data.len(),
{
    match find_byte(data, 10) {
        Some(i) => if 0 <= i < data.len() {
            leftover(data.skip(i + 1))
        } else {
            data
        },
        None => data,
    }
}

/// What `String::from_utf8_lossy` makes of `bytes`.
pub uninterp spec fn lossy_text(bytes: Seq<u8>) -> Seq<char>;

/// `String::from_utf8_lossy(bytes).into_owned()`. Valid UTF-8 decodes as it
/// is; the replacement of invalid sequences by U+FFFD is not written out
/// here: the result is named by `lossy_text`.
#[verifier::external_body]
fn utf8_lossy(bytes: &[u8]) -> (r: String)
    ensures
        r@ == lossy_text(bytes@),
        valid_utf8(bytes@) ==> r@ == decode_utf8(bytes@),
{
    String::from_utf8_lossy(bytes).into_owned()
}

/// The lines handed on: each trimmed, the blank ones dropped.
pub open spec fn shown_lines(lines: Seq<Seq<u8>>) -> Seq<Seq<char>>
    decreases lines.len(),
{
    if lines.len() == 0 {
        Seq::empty()
    } else {
        let t = trimmed(lossy_text(lines[0]));
        (if t.len() == 0 {
            Seq::<Seq<char>>::empty()
        } else {
            seq![t]
        }) + shown_lines(lines.drop_first())
    }
}

/// Past this many bytes without a newline, the partial line is dropped.
pub open spec fn line_limit() -> nat {
    1048576
}

/// What stays buffered after `data` was split.
pub open spec fn kept_after(data: Seq<u8>) -> Seq<u8> {
    if leftover(data).len() > line_limit() {
        Seq::empty()
    } else {
        leftover(data)
    }
}

proof fn lemma_find_byte_found(s: Seq<u8>, b: u8)
    requires
        find_byte(s, b) is Some,
    ensures
        0 <= find_byte(s, b)->0 < s.len(),
        s[find_byte(s, b)->0] == b,
        forall|j: int| 0 <= j < find_byte(s, b)->0 ==> s[j] != b,
{
}

/// Splitting `x + y` splits `x`, then what is left of `x` with `y`.
proof fn lemma_split_concat(x: Seq<u8>, y: Seq<u8>)
    ensures
        split_lines(x + y) == split_lines(x) + split_lines(leftover(x) + y),
        leftover(x + y) == leftover(leftover(x) + y),
    decreases x.len(),
{
    match find_byte(x, 10) {
        None => {
            assert(split_lines(x) =~= Seq::<Seq<u8>>::empty());
            assert(split_lines(x) + split_lines(leftover(x) + y) =~= split_lines(x + y));
        },
        Some(i) => {
            lemma_find_byte_found(x, 10);
            let xy = x + y;
            assert forall|j: int| 0 <= j < i implies xy[j] != 10 by {
                assert(xy[j] == x[j]);
            }
            assert(xy[i] == x[i]);
            lemma_find_byte_at(xy, 10, i);
            let rest = x.skip(i + 1);
            assert(xy.take(i + 1) =~= x.take(i + 1));
            assert(xy.skip(i + 1) =~= rest + y);
            lemma_split_concat(rest, y);
            assert(split_lines(x) == seq![x.take(i + 1)] + split_lines(rest));
            assert(leftover(x) == leftover(rest));
            assert(split_lines(xy) == seq![x.take(i + 1)] + split_lines(rest + y));
            assert(seq![x.take(i + 1)] + (split_lines(rest) + split_lines(leftover(rest) + y))
                =~= (seq![x.take(i + 1)] + split_lines(rest)) + split_lines(leftover(rest) + y));
        },
    }
}

/// The shown lines of two runs of lines are those of each, one after the other.
proof fn lemma_shown_concat(a: Seq<Seq<u8>>, b: Seq<Seq<u8>>)
    ensures
        shown_lines(a + b) == shown_lines(a) + shown_lines(b),
    decreases a.len(),
{
    if a.len() == 0 {
        assert(a + b =~= b);
        assert(shown_lines(a) + shown_lines(b) =~= shown_lines(b));
    } else {
        assert((a + b)[0] == a[0]);
        assert((a + b).drop_first() =~= a.drop_first() + b);
        lemma_shown_concat(a.drop_first(), b);
        let t = trimmed(lossy_text(a[0]));
        let head = if t.len() == 0 {
            Seq::<Seq<char>>::empty()
        } else {
            seq![t]
        };
        assert(head + (shown_lines(a.drop_first()) + shown_lines(b)) =~= (head + shown_lines(
            a.drop_first(),
        )) + shown_lines(b));
    }
}

/// A line cut across chunks comes out whole: feeding a body in two pieces
/// hands on the same lines, and keeps the same rest, as feeding it at once,
/// as long as no unfinished line outgrows the limit in between.
pub proof fn law_chunks_do_not_matter(x: Seq<u8>, y: Seq<u8>)
    requires
        leftover(x).len() <= line_limit(),
    ensures
        shown_lines(split_lines(x)) + shown_lines(split_lines(kept_after(x) + y)) == shown_lines(
            split_lines(x + y),
        ),
        kept_after(kept_after(x) + y) == kept_after(x + y),
{
    lemma_split_concat(x, y);
    lemma_shown_concat(split_lines(x), split_lines(leftover(x) + y));
}

/// Frames a chunked HTTP body into lines, as the controller's `/traffic`
/// and `/logs` streams send them.
pub struct LineBuffer {
    buffer: Vec<u8>,
}

impl View for LineBuffer {
    type V = Seq<u8>;

    closed spec fn view(&self) -> Seq<u8> {
        self.buffer@
    }
}

impl LineBuffer {
    pub fn new() -> (b: LineBuffer)
        ensures
            b@ == Seq::<u8>::empty(),
    {
        LineBuffer { buffer: Vec::new() }
    }

    /// Takes the next chunk of the body and gives back the complete,
    /// non-blank lines it finishes, trimmed.
    pub fn feed(&mut self, chunk: &[u8]) -> (lines: Vec<String>)
        ensures
            lines@.len() == shown_lines(split_lines(old(self)@ + chunk@)).len(),
            forall|i: int|
                0 <= i < lines@.len() ==> #[trigger] lines@[i]@ == shown_lines(
                    split_lines(old(self)@ + chunk@),
                )[i],
            final(self)@ == kept_after(old(self)@ + chunk@),
            final(self)@.len() <= line_limit(),
    {
        let mut data: Vec<u8> = Vec::new();
        std::mem::swap(&mut data, &mut self.buffer);
        let mut c: usize = 0;
        let ghost start_data = data@;
        while c < chunk.len()
            invariant
                c <= chunk@.len(),
                data@ == start_data + chunk@.take(c as int),
            decreases chunk@.len() - c,
        {
            data.push(chunk[c]);
            assert(chunk@.take(c + 1) =~= chunk@.take(c as int).push(chunk@[c as int]));
            c = c + 1;
        }
        assert(chunk@.take(chunk@.len() as int) =~= chunk@);
        let ghost all = data@;
        let mut out: Vec<String> = Vec::new();
        let mut start: usize = 0;
        let mut i: usize = 0;
        proof {
            assert(all.skip(0) =~= all);
            assert(out@.map_values(|s: String| s@) =~= Seq::<Seq<char>>::empty());
        }
        while i < data.len()
            invariant
                data@ == all,
                start <= i <= all.len(),
                forall|j: int| start <= j < i ==> all[j] != 10,
                shown_lines(split_lines(all)) == out@.map_values(|s: String| s@) + shown_lines(
                    split_lines(all.skip(start as int)),
                ),
                leftover(all) == leftover(all.skip(start as int)),
            decreases all.len() - i,
        {
            if data[i] == 10 {
                let ghost rest = all.skip(start as int);
                proof {
                    assert forall|j: int| 0 <= j < i - start implies rest[j] != 10 by {
                        assert(rest[j] == all[start + j]);
                    }
                    lemma_find_byte_at(rest, 10, i - start);
                    assert(rest.skip(i - start + 1) =~= all.skip(i + 1));
                    assert(rest.take(i - start + 1) =~= all.subrange(start as int, i + 1));
                }
                let mut seg: Vec<u8> = Vec::new();
                let mut k: usize = start;
                while k <= i
                    invariant
                        start <= k <= i + 1,
                        i < all.len(),
                        all.len() <= usize::MAX,
                        data@ == all,
                        seg@ == all.subrange(start as int, k as int),
                    decreases i + 1 - k,
                {
                    seg.push(data[k]);
                    assert(all.subrange(start as int, k + 1) =~= all.subrange(start as int, k as int).push(
                        all[k as int],
                    ));
                    k = k + 1;
                }
                let text = utf8_lossy(seg.as_slice());
                let line = trim(text.as_str());
                let ghost before = out@.map_values(|s: String| s@);
                let ghost segs = split_lines(rest);
                proof {
                    assert(segs == seq![all.subrange(start as int, i + 1)] + split_lines(
                        all.skip(i + 1),
                    ));
                    assert(segs[0] == all.subrange(start as int, i + 1));
                    assert(segs.drop_first() =~= split_lines(all.skip(i + 1)));
                }
                if !is_blank(line.as_str()) {
                    out.push(line);
                    proof {
                        assert(out@.map_values(|s: String| s@) =~= before.push(
                            trimmed(lossy_text(segs[0])),
                        ));
                        assert(trimmed(trimmed(lossy_text(segs[0]))) == trimmed(lossy_text(segs[0])))
                            by {
                            crate::text::lemma_trimmed_idempotent(lossy_text(segs[0]));
                        }
                        assert(before.push(trimmed(lossy_text(segs[0]))) + shown_lines(
                            split_lines(all.skip(i + 1)),
                        ) =~= before + (seq![trimmed(lossy_text(segs[0]))] + shown_lines(
                            split_lines(all.skip(i + 1)),
                        )));
                    }
                } else {
                    proof {
                        crate::text::lemma_trimmed_idempotent(lossy_text(segs[0]));
                        assert(Seq::<Seq<char>>::empty() + shown_lines(split_lines(all.skip(i + 1)))
                            =~= shown_lines(split_lines(all.skip(i + 1))));
                    }
                }
                start = i + 1;
            }
            i = i + 1;
        }
        let ghost rest = all.skip(start as int);
        proof {
            assert forall|j: int| 0 <= j < rest.len() implies rest[j] != 10 by {
                assert(rest[j] == all[start + j]);
            }
            assert(find_byte(rest, 10) is None);
            assert(out@.map_values(|s: String| s@) + Seq::<Seq<char>>::empty() =~= out@.map_values(
                |s: String| s@,
            ));
        }
        let mut kept: Vec<u8> = Vec::new();
        if data.len() - start <= 1048576 {
            let mut k: usize = start;
            while k < data.len()
                invariant
                    start <= k <= all.len(),
                    data@ == all,
                    kept@ == all.subrange(start as int, k as int),
                decreases all.len() - k,
            {
                kept.push(data[k]);
                assert(all.subrange(start as int, k + 1) =~= all.subrange(start as int, k as int).push(
                    all[k as int],
                ));
                k = k + 1;
            }
            assert(kept@ =~= rest);
        }
        self.buffer = kept;
        assert forall|i: int| 0 <= i < out@.len() implies #[trigger] out@[i]@ == shown_lines(
            split_lines(all),
        )[i] by {
            assert(out@.map_values(|s: String| s@)[i] == out@[i]@);
        }
        out
    }
}

} // verus!
