//! What the pages show, apart from drawing it: the latency badges and group
//! order of the node picker, the traffic history of the dashboard, the log
//! buffer and its filter, the status line of a subscription, and the raw
//! rule blocks of the routing page.

use vstd::prelude::*;
use vstd::string::StringExecFns;

use crate::api::{bytes_text, format_bytes, group_kind, LogLine, ProxyInfo};
use crate::config::{opt_view, rule_kind, all_match_kinds, sat_add, sat_sub, MatchKind, Subscription};
use crate::text::{
    contains, contains_str, decimal, digits_value, is_blank, is_digit, lines, lines_of, lowercase,
    push_decimal, str_eq, to_lowercase, trim, trimmed,
};

verus! {

/// Filtering one element more adds it when it passes.
pub proof fn lemma_filter_take<A>(s: Seq<A>, i: int, pred: spec_fn(A) -> bool)
    requires
        0 <= i < s.len(),
    ensures
        s.take(i + 1).filter(pred) == if pred(s[i]) {
            s.take(i).filter(pred).push(s[i])
        } else {
            s.take(i).filter(pred)
        },
{
    reveal(Seq::filter);
    assert(s.take(i + 1).drop_last() =~= s.take(i));
    assert(s.take(i + 1).last() == s[i]);
}

// ---------------------------------------------------------------- node picker

/// The text and style class of a latency: green below 200 ms, amber below
/// 600 ms, red above, a dash when there is no sample.
pub open spec fn badge(delay: Option<u32>) -> (Seq<char>, Seq<char>) {
    match delay {
        Some(ms) => (
            decimal(ms as nat) + " ms"@,
            if ms < 200 {
                "success"@
            } else if ms < 600 {
                "warning"@
            } else {
                "error"@
            },
        ),
        None => ("—"@, "dim-label"@),
    }
}

/// A latency reads `<ms> ms` and is green (`success`) below 200 ms, amber
/// (`warning`) from 200 up to 600 ms and red (`error`) from 600 ms; no sample
/// shows a dash, dimmed.
pub proof fn law_badge(delay: Option<u32>)
    ensures
        delay matches Some(ms) ==> badge(delay).0 == decimal(ms as nat) + " ms"@,
        delay matches Some(ms) ==> (badge(delay).1 == "success"@ <==> ms < 200),
        delay matches Some(ms) ==> (badge(delay).1 == "warning"@ <==> 200 <= ms < 600),
        delay matches Some(ms) ==> (badge(delay).1 == "error"@ <==> 600 <= ms),
        delay is None ==> badge(delay) == ("—"@, "dim-label"@),
{
    reveal_strlit("success");
    reveal_strlit("warning");
    reveal_strlit("error");
    assert("success"@[0] != "warning"@[0]);
    assert("success"@[0] != "error"@[0]);
    assert("warning"@[0] != "error"@[0]);
}

pub fn delay_badge(delay: Option<u32>) -> (r: (String, String))
    ensures
        (r.0@, r.1@) == badge(delay),
{
    match delay {
        Some(ms) => {
            let mut text = String::new();
            push_decimal(&mut text, ms as u64);
            text.append(" ms");
            let class = if ms < 200 {
                String::from_str("success")
            } else if ms < 600 {
                String::from_str("warning")
            } else {
                String::from_str("error")
            };
            (text, class)
        },
        None => (String::from_str("—"), String::from_str("dim-label")),
    }
}

/// Where a group stands among the configured ones: its place in `configured`,
/// or past all of them.
pub open spec fn rank(configured: Seq<Seq<char>>, name: Seq<char>) -> nat
    decreases configured.len(),
{
    if configured.len() == 0 {
        0
    } else if configured[0] == name {
        0
    } else {
        1 + rank(configured.drop_first(), name)
    }
}

/// Whether the picker lists a proxy: a group with members.
pub open spec fn is_listed() -> spec_fn(ProxyInfo) -> bool {
    |p: ProxyInfo| group_kind(p.kind@) && p.all@.len() > 0
}

/// Whether a name has rank `r`.
pub open spec fn has_rank(configured: Seq<Seq<char>>, r: nat) -> spec_fn(Seq<char>) -> bool {
    |n: Seq<char>| rank(configured, n) == r
}

/// The groups the picker lists, by name.
pub open spec fn listed(infos: Seq<ProxyInfo>) -> Seq<Seq<char>> {
    infos.filter(is_listed()).map_values(|p: ProxyInfo| p.name@)
}

/// Names of rank `r` and above, rank by rank, each rank in the order given.
pub open spec fn by_rank(names: Seq<Seq<char>>, configured: Seq<Seq<char>>, r: nat) -> Seq<Seq<char>>
    decreases configured.len() + 1 - r,
{
    if r > configured.len() {
        Seq::empty()
    } else {
        names.filter(has_rank(configured, r)) + by_rank(names, configured, r + 1)
    }
}

fn rank_of(configured: &Vec<String>, name: &str) -> (r: usize)
    ensures
        r as nat == rank(configured@.map_values(|s: String| s@), name@),
        r <= configured@.len(),
{
    let ghost cv = configured@.map_values(|s: String| s@);
    let mut i: usize = 0;
    proof {
        assert(cv.skip(0) =~= cv);
    }
    while i < configured.len()
        invariant
            i <= configured@.len(),
            cv == configured@.map_values(|s: String| s@),
            rank(cv, name@) == i + rank(cv.skip(i as int), name@),
        decreases configured@.len() - i,
    {
        assert(cv.skip(i as int)[0] == configured@[i as int]@);
        assert(cv.skip(i as int).drop_first() =~= cv.skip(i + 1));
        if str_eq(configured[i].as_str(), name) {
            return i;
        }
        i = i + 1;
    }
    i
}

/// The groups the node picker shows, in order: those of our configured
/// groups first, as they are generated, then the others as the core listed
/// them (`infos` holds the core's proxies in the order they were read).
pub fn group_order(infos: &Vec<ProxyInfo>, configured: &Vec<String>) -> (r: Vec<String>)
    ensures
        r@.map_values(|s: String| s@) == by_rank(
            listed(infos@),
            configured@.map_values(|s: String| s@),
            0,
        ),
{
    let ghost cv = configured@.map_values(|s: String| s@);
    // the listed groups, with their ranks
    let mut names: Vec<String> = Vec::new();
    let mut ranks: Vec<usize> = Vec::new();
    let mut i: usize = 0;
    let ghost pred = is_listed();
    proof {
        reveal(Seq::filter);
        assert(infos@.take(0).filter(pred) =~= Seq::<ProxyInfo>::empty());
    }
    while i < infos.len()
        invariant
            i <= infos@.len(),
            cv == configured@.map_values(|s: String| s@),
            names@.len() == ranks@.len(),
            names@.map_values(|s: String| s@) == infos@.take(i as int).filter(is_listed()).map_values(
                |p: ProxyInfo| p.name@,
            ),
            forall|j: int|
                0 <= j < ranks@.len() ==> #[trigger] ranks@[j] as nat == rank(cv, names@[j]@),
            forall|j: int| 0 <= j < ranks@.len() ==> #[trigger] ranks@[j] <= configured@.len(),
        decreases infos@.len() - i,
    {
        let p = &infos[i];
        proof {
            lemma_filter_take(infos@, i as int, is_listed());
            assert(is_listed()(infos@[i as int]) == (group_kind(p.kind@) && p.all@.len() > 0));
        }
        if p.is_group() && p.all.len() > 0 {
            let rk = rank_of(configured, p.name.as_str());
            let ghost old_names = names@.map_values(|s: String| s@);
            let nm = p.name.clone();
            assert(nm@ == p.name@);
            names.push(nm);
            ranks.push(rk);
            proof {
                assert(names@.map_values(|s: String| s@) =~= old_names.push(p.name@));
                assert(infos@.take(i as int).filter(is_listed()).push(infos@[i as int]).map_values(
                    |p: ProxyInfo| p.name@,
                ) =~= infos@.take(i as int).filter(is_listed()).map_values(|p: ProxyInfo| p.name@).push(
                    p.name@,
                ));
                assert(names@.map_values(|s: String| s@) =~= infos@.take(i + 1).filter(
                    is_listed(),
                ).map_values(|p: ProxyInfo| p.name@));
            }
        } else {
            assert(infos@.take(i + 1).filter(is_listed()) == infos@.take(i as int).filter(is_listed()));
        }
        i = i + 1;
    }
    assert(infos@.take(infos@.len() as int) =~= infos@);
    let ghost nv = names@.map_values(|s: String| s@);
    assert(nv == listed(infos@));
    // rank by rank
    let mut out: Vec<String> = Vec::new();
    let mut r: usize = 0;
    let mut done = false;
    proof {
        assert(out@.map_values(|s: String| s@) + by_rank(nv, cv, 0) =~= by_rank(nv, cv, 0));
    }
    while !done
        invariant
            r <= configured@.len(),
            done ==> r == configured@.len(),
            cv == configured@.map_values(|s: String| s@),
            nv == names@.map_values(|s: String| s@),
            names@.len() == ranks@.len(),
            forall|j: int|
                0 <= j < ranks@.len() ==> #[trigger] ranks@[j] as nat == rank(cv, names@[j]@),
            out@.map_values(|s: String| s@) + by_rank(nv, cv, (if done { r + 1 } else { r as int }) as nat)
                == by_rank(nv, cv, 0),
        decreases configured@.len() - r + (if done { 0int } else { 1int }),
    {
        let ghost before = out@.map_values(|s: String| s@);
        let ghost rp = has_rank(cv, r as nat);
        let mut j: usize = 0;
        proof {
            reveal(Seq::filter);
            assert(nv.take(0).filter(rp) =~= Seq::<Seq<char>>::empty());
            assert(before + Seq::<Seq<char>>::empty() =~= before);
        }
        while j < names.len()
            invariant
                j <= names@.len() == ranks@.len(),
                nv == names@.map_values(|s: String| s@),
                forall|k: int|
                    0 <= k < ranks@.len() ==> #[trigger] ranks@[k] as nat == rank(cv, names@[k]@),
                rp == has_rank(cv, r as nat),
                out@.map_values(|s: String| s@) == before + nv.take(j as int).filter(rp),
            decreases names@.len() - j,
        {
            proof {
                lemma_filter_take(nv, j as int, rp);
                assert(nv[j as int] == names@[j as int]@);
                assert(rp(nv[j as int]) == (rank(cv, nv[j as int]) == r as nat));
            }
            if ranks[j] == r {
                let ghost old_out = out@.map_values(|s: String| s@);
                let nm = names[j].clone();
                assert(nm@ == nv[j as int]);
                out.push(nm);
                assert(out@.map_values(|s: String| s@) =~= old_out.push(nv[j as int]));
                assert(out@.map_values(|s: String| s@) =~= before + nv.take(j as int).filter(rp).push(
                    nv[j as int],
                ));
            } else {
                assert(nv.take(j + 1).filter(rp) == nv.take(j as int).filter(rp));
            }
            j = j + 1;
        }
        proof {
            assert(nv.take(nv.len() as int) =~= nv);
            assert(by_rank(nv, cv, r as nat) == nv.filter(rp) + by_rank(nv, cv, r as nat + 1));
            assert(before + nv.filter(rp) + by_rank(nv, cv, r as nat + 1) =~= before + (nv.filter(rp)
                + by_rank(nv, cv, r as nat + 1)));
        }
        if r == configured.len() {
            done = true;
        } else {
            r = r + 1;
        }
    }
    proof {
        assert(by_rank(nv, cv, (r + 1) as nat) =~= Seq::<Seq<char>>::empty());
        assert(out@.map_values(|s: String| s@) + Seq::<Seq<char>>::empty() =~= out@.map_values(
            |s: String| s@,
        ));
    }
    out
}

// ---------------------------------------------------------------- routing page

/// The match kinds the destination-rule editor offers, by their rule names.
pub fn kind_labels() -> (r: Vec<String>)
    ensures
        r@.len() == all_match_kinds().len(),
        forall|i: int| 0 <= i < r@.len() ==> #[trigger] r@[i]@ == rule_kind(all_match_kinds()[i]),
{
    let kinds = MatchKind::all();
    let mut out: Vec<String> = Vec::new();
    let mut i: usize = 0;
    while i < 8
        invariant
            i <= 8,
            kinds@ == all_match_kinds(),
            out@.len() == i,
            forall|j: int| 0 <= j < i ==> #[trigger] out@[j]@ == rule_kind(all_match_kinds()[j]),
        decreases 8 - i,
    {
        out.push(String::from_str(kinds[i].as_rule_kind()));
        i = i + 1;
    }
    out
}

/// The lines of a raw rule block, trimmed, without the blank ones.
pub open spec fn rule_lines(ls: Seq<Seq<char>>) -> Seq<Seq<char>>
    decreases ls.len(),
{
    if ls.len() == 0 {
        Seq::empty()
    } else {
        rule_lines(ls.drop_last()) + if trimmed(ls.last()).len() == 0 {
            Seq::<Seq<char>>::empty()
        } else {
            seq![trimmed(ls.last())]
        }
    }
}

/// What the raw rule editor saves of its text: every line trimmed, blank ones
/// dropped.
#[verifier::rlimit(40)]
pub fn raw_rules(text: &str) -> (r: Vec<String>)
    ensures
        r@.map_values(|s: String| s@) == rule_lines(lines_of(text@)),
{
    let ls = lines(text);
    let ghost all = lines_of(text@);
    let mut out: Vec<String> = Vec::new();
    let mut i: usize = 0;
    proof {
        assert(all.take(0) =~= Seq::<Seq<char>>::empty());
        assert(out@.map_values(|s: String| s@) =~= Seq::<Seq<char>>::empty());
    }
    while i < ls.len()
        invariant
            i <= ls@.len() == all.len(),
            forall|j: int| 0 <= j < ls@.len() ==> #[trigger] ls@[j]@ == all[j],
            out@.map_values(|s: String| s@) == rule_lines(all.take(i as int)),
        decreases ls@.len() - i,
    {
        let t = trim(ls[i].as_str());
        let ghost before = out@.map_values(|s: String| s@);
        proof {
            assert(all.take(i + 1).drop_last() =~= all.take(i as int));
            assert(all.take(i + 1).last() == all[i as int]);
        }
        if !is_blank(t.as_str()) {
            out.push(t);
            proof {
                crate::text::lemma_trimmed_idempotent(all[i as int]);
                assert(out@.map_values(|s: String| s@) =~= before + seq![trimmed(all[i as int])]);
            }
        } else {
            proof {
                crate::text::lemma_trimmed_idempotent(all[i as int]);
                assert(before + Seq::<Seq<char>>::empty() =~= before);
            }
        }
        i = i + 1;
    }
    assert(all.take(all.len() as int) =~= all);
    out
}


// ---------------------------------------------------------------- dashboard

/// How many traffic samples the graph keeps: two minutes at one a second.
pub open spec fn history_len() -> nat {
    120
}

/// The last `history_len()` of `all`.
pub open spec fn window(all: Seq<(u64, u64)>) -> Seq<(u64, u64)> {
    if all.len() > history_len() {
        all.skip(all.len() - history_len())
    } else {
        all
    }
}

/// The samples after one more arrives: the oldest goes when the graph is full.
pub open spec fn with_sample(samples: Seq<(u64, u64)>, s: (u64, u64)) -> Seq<(u64, u64)> {
    if samples.len() == history_len() {
        samples.drop_first().push(s)
    } else {
        samples.push(s)
    }
}

/// The traffic graph's samples `(up, down)` in bytes per second, oldest
/// first, and the totals since the stream started.
pub struct TrafficHistory {
    samples: Vec<(u64, u64)>,
    total_up: u64,
    total_down: u64,
}

impl View for TrafficHistory {
    type V = (Seq<(u64, u64)>, u64, u64);

    closed spec fn view(&self) -> (Seq<(u64, u64)>, u64, u64) {
        (self.samples@, self.total_up, self.total_down)
    }
}

impl TrafficHistory {
    #[verifier::type_invariant]
    spec fn keeps_window(self) -> bool {
        self.samples@.len() <= history_len()
    }

    pub fn new() -> (h: TrafficHistory)
        ensures
            h@ == (Seq::<(u64, u64)>::empty(), 0u64, 0u64),
    {
        TrafficHistory { samples: Vec::new(), total_up: 0, total_down: 0 }
    }

    pub fn push(&mut self, up: u64, down: u64)
        requires
            old(self)@.1 + up <= u64::MAX,
            old(self)@.2 + down <= u64::MAX,
        ensures
            final(self)@.0 == with_sample(old(self)@.0, (up, down)),
            final(self)@.1 == old(self)@.1 + up,
            final(self)@.2 == old(self)@.2 + down,
            final(self)@.0.len() <= history_len(),
    {
        proof {
            use_type_invariant(&*self);
        }
        let mut samples: Vec<(u64, u64)> = Vec::new();
        std::mem::swap(&mut samples, &mut self.samples);
        if samples.len() == 120 {
            samples.remove(0);
        }
        samples.push((up, down));
        assert(samples@ =~= with_sample(old(self)@.0, (up, down)));
        self.samples = samples;
        self.total_up = self.total_up + up;
        self.total_down = self.total_down + down;
    }

    pub fn reset(&mut self)
        ensures
            final(self)@ == (Seq::<(u64, u64)>::empty(), 0u64, 0u64),
    {
        self.samples = Vec::new();
        self.total_up = 0;
        self.total_down = 0;
    }

    pub fn samples(&self) -> (r: &Vec<(u64, u64)>)
        ensures
            r@ == self@.0,
            r@.len() <= history_len(),
    {
        proof {
            use_type_invariant(self);
        }
        &self.samples
    }

    pub fn total_up(&self) -> (r: u64)
        ensures
            r == self@.1,
    {
        self.total_up
    }

    pub fn total_down(&self) -> (r: u64)
        ensures
            r == self@.2,
    {
        self.total_down
    }
}

/// The graph always holds the last samples of everything that arrived:
/// adding one to the window of what came so far gives the window of what came
/// with it.
pub proof fn law_history_is_a_window(all: Seq<(u64, u64)>, s: (u64, u64))
    ensures
        with_sample(window(all), s) == window(all.push(s)),
{
    if all.len() >= history_len() {
        assert(with_sample(window(all), s) =~= window(all.push(s)));
    } else {
        assert(with_sample(window(all), s) =~= window(all.push(s)));
    }
}

// ---------------------------------------------------------------- logs

/// How many log lines the page keeps.
pub open spec fn log_capacity() -> nat {
    2000
}

/// Whether a line passes the filter (lowercase already): an empty filter
/// passes everything; otherwise the payload or the level must contain it,
/// in lowercase.
pub open spec fn passes(filter: Seq<char>, line: LogLine) -> bool {
    filter.len() == 0 || contains(lowercase(line.payload@), filter) || contains(
        lowercase(line.level@),
        filter,
    )
}

/// An empty filter shows every line; any other shows the lines whose
/// payload or level, lowercased, contains it.
pub proof fn law_log_filter(filter: Seq<char>, line: LogLine)
    ensures
        filter.len() == 0 ==> passes(filter, line),
        filter.len() > 0 ==> (passes(filter, line) <==> (contains(lowercase(line.payload@), filter)
            || contains(lowercase(line.level@), filter))),
{
}

/// How a line is shown: `[level] payload`.
pub open spec fn entry_text(line: LogLine) -> Seq<char> {
    "["@ + line.level@ + "] "@ + line.payload@
}

/// The shown lines of `lines` that pass the filter.
pub open spec fn shown_entries(lines: Seq<LogLine>, filter: Seq<char>) -> Seq<Seq<char>>
    decreases lines.len(),
{
    if lines.len() == 0 {
        Seq::empty()
    } else {
        shown_entries(lines.drop_last(), filter) + if passes(filter, lines.last()) {
            seq![entry_text(lines.last())]
        } else {
            Seq::<Seq<char>>::empty()
        }
    }
}

/// `[level] payload` for one line.
pub fn entry_line(line: &LogLine) -> (r: String)
    ensures
        r@ == entry_text(*line),
{
    let mut s = String::from_str("[");
    s.append(line.level.as_str());
    s.append("] ");
    s.append(line.payload.as_str());
    proof {
        reveal_strlit("[");
        reveal_strlit("] ");
    }
    s
}

/// The log page's lines, oldest first, and its filter.
pub struct LogView {
    lines: Vec<LogLine>,
    filter: String,
}

impl View for LogView {
    type V = (Seq<LogLine>, Seq<char>);

    closed spec fn view(&self) -> (Seq<LogLine>, Seq<char>) {
        (self.lines@, self.filter@)
    }
}

impl LogView {
    #[verifier::type_invariant]
    spec fn bounded(self) -> bool {
        self.lines@.len() <= log_capacity()
    }

    pub fn new() -> (v: LogView)
        ensures
            v@ == (Seq::<LogLine>::empty(), Seq::<char>::empty()),
    {
        LogView { lines: Vec::new(), filter: String::new() }
    }

    /// Keeps `line`, dropping the oldest when the page is full.
    pub fn push(&mut self, line: LogLine)
        ensures
            final(self)@.0 == if old(self)@.0.len() == log_capacity() {
                old(self)@.0.drop_first().push(line)
            } else {
                old(self)@.0.push(line)
            },
            final(self)@.1 == old(self)@.1,
            final(self)@.0.len() <= log_capacity(),
    {
        proof {
            use_type_invariant(&*self);
        }
        let mut lines: Vec<LogLine> = Vec::new();
        std::mem::swap(&mut lines, &mut self.lines);
        if lines.len() == 2000 {
            lines.remove(0);
        }
        lines.push(line);
        self.lines = lines;
    }

    /// Drops every kept line; the filter stays.
    pub fn clear(&mut self)
        ensures
            final(self)@ == (Seq::<LogLine>::empty(), old(self)@.1),
    {
        self.lines = Vec::new();
    }

    /// The filter as typed; it is kept in lowercase.
    pub fn set_filter(&mut self, text: &str)
        ensures
            final(self)@ == (old(self)@.0, lowercase(text@)),
    {
        proof {
            use_type_invariant(&*self);
        }
        self.filter = to_lowercase(text);
    }

    pub fn matches(&self, line: &LogLine) -> (b: bool)
        ensures
            b == passes(self@.1, *line),
    {
        if self.filter.as_str().unicode_len() == 0 {
            return true;
        }
        let payload = to_lowercase(line.payload.as_str());
        let level = to_lowercase(line.level.as_str());
        contains_str(payload.as_str(), self.filter.as_str()) || contains_str(
            level.as_str(),
            self.filter.as_str(),
        )
    }

    /// Every kept line that passes the filter, one per line.
    pub fn render(&self) -> (r: String)
        ensures
            r@ == crate::corectl::joined_lines(shown_entries(self@.0, self@.1)),
    {
        let mut out = String::new();
        let ghost all = self.lines@;
        let mut count: usize = 0;
        let mut i: usize = 0;
        let ghost f = self.filter@;
        while i < self.lines.len()
            invariant
                i <= all.len(),
                all == self.lines@,
                f == self@.1,
                self@.0 == all,
                out@ == crate::corectl::joined_lines(shown_entries(all.take(i as int), f)),
                count == shown_entries(all.take(i as int), f).len(),
                count <= i,
            decreases all.len() - i,
        {
            let ghost before = shown_entries(all.take(i as int), f);
            proof {
                assert(all.take(i + 1).drop_last() =~= all.take(i as int));
                assert(all.take(i + 1).last() == all[i as int]);
            }
            if self.matches(&self.lines[i]) {
                let e = entry_line(&self.lines[i]);
                if count > 0 {
                    out.append("\n");
                }
                out.append(e.as_str());
                proof {
                    reveal_strlit("\n");
                    let now = before + seq![entry_text(all[i as int])];
                    assert(now.drop_last() =~= before);
                    assert(now.last() == entry_text(all[i as int]));
                    if before.len() == 0 {
                        assert(crate::corectl::joined_lines(now) == now[0]);
                    }
                }
                count = count + 1;
            } else {
                assert(before + Seq::<Seq<char>>::empty() =~= before);
            }
            i = i + 1;
        }
        assert(all.take(all.len() as int) =~= all);
        out
    }
}


// ---------------------------------------------------------------- subscriptions page

/// The UTC calendar date `YYYY-MM-DD` of a unix time, as chrono writes it, or
/// `None` outside the range chrono can represent.
pub uninterp spec fn utc_date(secs: i64) -> Option<Seq<char>>;

/// The proleptic Gregorian date `(year, month, day)` that lies `days` days
/// after 1970-01-01 (before it, for negative `days`), counted in 400-year
/// eras of 146097 days that start on March 1st.
pub open spec fn civil_from_days(days: int) -> (int, int, int) {
    let z = days + 719468;
    let era = z / 146097;
    let doe = z - era * 146097;
    let yoe = (doe - doe / 1460 + doe / 36524 - doe / 146096) / 365;
    let doy = doe - (365 * yoe + yoe / 4 - yoe / 100);
    let mp = (5 * doy + 2) / 153;
    let d = doy - (153 * mp + 2) / 5 + 1;
    let m = if mp < 10 {
        mp + 3
    } else {
        mp - 9
    };
    (yoe + era * 400 + if m <= 2 {
        1int
    } else {
        0int
    }, m, d)
}

/// The last `width` decimal digits of `n`, with leading zeros.
pub open spec fn padded(n: nat, width: nat) -> Seq<char>
    decreases width,
{
    if width == 0 {
        Seq::empty()
    } else {
        padded(n / 10, (width - 1) as nat).push(crate::text::digit_char(n % 10))
    }
}

/// `YYYY-MM-DD` of the UTC day a unix time falls on.
pub open spec fn civil_date_text(secs: i64) -> Seq<char> {
    let (y, m, d) = civil_from_days((secs as int) / 86400);
    padded(y as nat, 4) + "-"@ + padded(m as nat, 2) + "-"@ + padded(d as nat, 2)
}

/// Unix times from the start of year 1 to the end of year 9999 (UTC), where
/// `%Y` writes exactly four digits.
pub open spec fn utc_four_digit_year(secs: i64) -> bool {
    -62135596800 <= secs <= 253402300799
}

/// `DateTime::from_timestamp(secs, 0)` formatted with `%Y-%m-%d`. The result
/// is named by `utc_date`; for the years 1 to 9999 it is the calendar date
/// `civil_date_text` computes, four digits of year, two of month and two of
/// day. Outside those years chrono writes a sign and more digits, or has no
/// date; that is left to the name.
#[verifier::external_body]
fn utc_date_text(secs: i64) -> (r: Option<String>)
    ensures
        opt_view(r) == utc_date(secs),
        utc_four_digit_year(secs) ==> opt_view(r) == Some(civil_date_text(secs)),
{
    match chrono::DateTime::from_timestamp(secs, 0) {
        Some(dt) => Some(dt.format("%Y-%m-%d").to_string()),
        None => None,
    }
}

/// Whether the two characters of `t` from `at` are digits whose value lies
/// in `lo..=hi`.
pub open spec fn two_digits_within(t: Seq<char>, at: int, lo: nat, hi: nat) -> bool {
    &&& is_digit(t[at])
    &&& is_digit(t[at + 1])
    &&& lo <= digits_value(t.subrange(at, at + 2)) <= hi
}

/// The text `%Y-%m-%d %H:%M` writes for a year from 0 to 9999: four digits,
/// `-`, a month 01-12, `-`, a day 01-31, a space, an hour 00-23, `:` and a
/// minute 00-59.
pub open spec fn local_time_shape(t: Seq<char>) -> bool {
    &&& t.len() == 16
    &&& is_digit(t[0]) && is_digit(t[1]) && is_digit(t[2]) && is_digit(t[3])
    &&& t[4] == '-'
    &&& two_digits_within(t, 5, 1, 12)
    &&& t[7] == '-'
    &&& two_digits_within(t, 8, 1, 31)
    &&& t[10] == ' '
    &&& two_digits_within(t, 11, 0, 23)
    &&& t[13] == ':'
    &&& two_digits_within(t, 14, 0, 59)
}

/// Unix times whose local date falls in the years 1 to 9999 in every time
/// zone: from a day after the start of year 1 to a day before the end of
/// year 9999 (UTC). A zone is less than a day away from UTC.
pub open spec fn four_digit_year(secs: i64) -> bool {
    -62135510400 <= secs <= 253402214399
}

/// `DateTime::from_timestamp(secs, 0)` in the machine's time zone, formatted
/// with `%Y-%m-%d %H:%M`. The digits depend on the time zone, so what is
/// claimed is what holds in every zone: there is a text exactly when
/// `from_timestamp` accepts `secs`, as for `utc_date_text`, which makes the
/// same call; it holds the `:` the format writes between hours and minutes;
/// and for a time whose local year has four digits in any zone it has the
/// format's shape. Which date and hour it shows is not claimed.
#[verifier::external_body]
fn local_time_text(secs: i64) -> (r: Option<String>)
    ensures
        (r is Some) == (utc_date(secs) is Some),
        r matches Some(t) ==> contains(t@, ":"@),
        r is None ==> !four_digit_year(secs),
        r matches Some(t) ==> (four_digit_year(secs) ==> local_time_shape(t@)),
{
    match chrono::DateTime::from_timestamp(secs, 0) {
        Some(dt) => {
            let local: chrono::DateTime<chrono::Local> = dt.into();
            Some(local.format("%Y-%m-%d %H:%M").to_string())
        },
        None => None,
    }
}

/// How an expiry reads: its UTC date; 0 or less means the panel reported
/// no expiry.
pub open spec fn expiry_text(secs: i64) -> Seq<char> {
    if secs <= 0 {
        "no expiry"@
    } else {
        match utc_date(secs) {
            Some(d) => d,
            None => "unknown"@,
        }
    }
}

/// `1789000000` → `2026-09-10`; 0 means the panel reported no expiry.
pub fn format_expiry(unix_seconds: i64) -> (r: String)
    ensures
        r@ == expiry_text(unix_seconds),
        0 < unix_seconds <= 253402300799 ==> r@ == civil_date_text(unix_seconds),
{
    if unix_seconds <= 0 {
        return String::from_str("no expiry");
    }
    match utc_date_text(unix_seconds) {
        Some(d) => d,
        None => String::from_str("unknown"),
    }
}

/// A local time as the pages show it, `YYYY-MM-DD HH:MM`, or `never` when
/// there is none to show. The time is written in the machine's time zone, so
/// of a time that exists its shape is pinned down, not its digits.
pub fn format_timestamp(unix_seconds: i64) -> (r: String)
    ensures
        utc_date(unix_seconds) is None ==> r@ == "never"@,
        utc_date(unix_seconds) is Some ==> contains(r@, ":"@),
        four_digit_year(unix_seconds) ==> local_time_shape(r@),
{
    match local_time_text(unix_seconds) {
        Some(t) => t,
        None => String::from_str("never"),
    }
}

/// Parts joined by ` · `.
pub open spec fn dotted(parts: Seq<Seq<char>>) -> Seq<char>
    decreases parts.len(),
{
    if parts.len() == 0 {
        Seq::empty()
    } else if parts.len() == 1 {
        parts[0]
    } else {
        dotted(parts.drop_last()) + " · "@ + parts.last()
    }
}

/// The pieces of a subscription's status line, when it has no error.
pub open spec fn status_parts(sub: Subscription, updated: Seq<char>) -> Seq<Seq<char>> {
    let nodes = if sub.node_count > 0 {
        seq![decimal(sub.node_count as nat) + " nodes"@]
    } else {
        Seq::empty()
    };
    let usage = match sub.user_info {
        Some(info) => (if info.total > 0 {
            seq![
                bytes_text(sat_add(info.upload, info.download) as nat) + " of "@ + bytes_text(
                    info.total as nat,
                ) + " used, "@ + bytes_text(
                    sat_sub(info.total, sat_add(info.upload, info.download)) as nat,
                ) + " left"@,
            ]
        } else {
            Seq::<Seq<char>>::empty()
        }) + (if info.expire > 0 {
            seq!["expires "@ + expiry_text(info.expire)]
        } else {
            Seq::<Seq<char>>::empty()
        }),
        None => Seq::empty(),
    };
    let when = match sub.last_updated {
        Some(_) => seq!["updated "@ + updated],
        None => seq!["never updated"@],
    };
    nodes + usage + when
}

/// A subscription's status line: its last error, or what it holds, how much
/// traffic is left, when it expires and when it was updated (`updated` is
/// how the time of the last update reads).
pub open spec fn status_text(sub: Subscription, updated: Seq<char>) -> Seq<char> {
    match sub.last_error {
        Some(err) => "⚠ "@ + err@,
        None => dotted(status_parts(sub, updated)),
    }
}

fn push_part(parts: &mut Vec<String>, part: String)
    ensures
        final(parts)@.map_values(|s: String| s@) == old(parts)@.map_values(|s: String| s@).push(
            part@,
        ),
{
    parts.push(part);
    assert(final(parts)@.map_values(|s: String| s@) =~= old(parts)@.map_values(|s: String| s@).push(part@));
}

/// The status line, with the time of the last update already written out.
pub fn status_line_with(sub: &Subscription, updated: &str) -> (r: String)
    ensures
        r@ == status_text(*sub, updated@),
{
    match &sub.last_error {
        Some(err) => {
            let mut s = String::from_str("⚠ ");
            s.append(err.as_str());
            return s;
        },
        None => {},
    }
    let mut parts: Vec<String> = Vec::new();
    if sub.node_count > 0 {
        let mut p = String::new();
        push_decimal(&mut p, sub.node_count as u64);
        p.append(" nodes");
        push_part(&mut parts, p);
    }
    match sub.user_info {
        Some(info) => {
            if info.total > 0 {
                let mut p = format_bytes(info.used());
                p.append(" of ");
                let t = format_bytes(info.total);
                p.append(t.as_str());
                p.append(" used, ");
                let left = format_bytes(info.remaining());
                p.append(left.as_str());
                p.append(" left");
                push_part(&mut parts, p);
            }
            if info.expire > 0 {
                let mut p = String::from_str("expires ");
                let e = format_expiry(info.expire);
                p.append(e.as_str());
                push_part(&mut parts, p);
            }
        },
        None => {},
    }
    match sub.last_updated {
        Some(_) => {
            let mut p = String::from_str("updated ");
            p.append(updated);
            push_part(&mut parts, p);
        },
        None => push_part(&mut parts, String::from_str("never updated")),
    }
    let ghost pv = parts@.map_values(|s: String| s@);
    proof {
        assert(pv =~= status_parts(*sub, updated@));
    }
    let mut out = String::new();
    let mut i: usize = 0;
    proof {
        assert(pv.take(0) =~= Seq::<Seq<char>>::empty());
    }
    while i < parts.len()
        invariant
            i <= parts@.len(),
            pv == parts@.map_values(|s: String| s@),
            out@ == dotted(pv.take(i as int)),
        decreases parts@.len() - i,
    {
        if i > 0 {
            out.append(" · ");
        }
        out.append(parts[i].as_str());
        proof {
            reveal_strlit(" · ");
            let t = pv.take(i + 1);
            assert(t.drop_last() =~= pv.take(i as int));
            assert(t.last() == parts@[i as int]@);
        }
        i = i + 1;
    }
    assert(pv.take(pv.len() as int) =~= pv);
    out
}

/// A subscription's status line as the subscriptions page shows it; the time
/// of the last update is written in the machine's time zone.
pub fn status_line(sub: &Subscription) -> (r: String)
    ensures
        exists|updated: Seq<char>| r@ == status_text(*sub, updated),
{
    let updated = match sub.last_updated {
        Some(ts) => format_timestamp(ts),
        None => String::new(),
    };
    status_line_with(sub, updated.as_str())
}


// ---------------------------------------------------------------- dashboard texts

/// The title and subtitle of the core's status row.
pub open spec fn status_row_text(status: crate::corectl::CoreStatus, version: Option<Seq<char>>) -> (
    Seq<char>,
    Seq<char>,
) {
    match status {
        crate::corectl::CoreStatus::Running => (
            "Running"@,
            match version {
                Some(v) => "mihomo "@ + v + ", started by MihomoManifold"@,
                None => "started by MihomoManifold"@,
            },
        ),
        crate::corectl::CoreStatus::Adopted => (
            "Running (external)"@,
            "A core was already listening on the controller port; it was adopted."@,
        ),
        crate::corectl::CoreStatus::Stopped => ("Stopped"@, "The proxy core is not running"@),
        crate::corectl::CoreStatus::Failed(err) => ("Failed to start"@, err@),
    }
}

pub fn status_row(status: &crate::corectl::CoreStatus, version: &Option<String>) -> (r: (String, String))
    ensures
        (r.0@, r.1@) == status_row_text(*status, opt_view(*version)),
{
    match status {
        crate::corectl::CoreStatus::Running => {
            let sub = match version {
                Some(v) => {
                    let mut s = String::from_str("mihomo ");
                    s.append(v.as_str());
                    s.append(", started by MihomoManifold");
                    s
                },
                None => String::from_str("started by MihomoManifold"),
            };
            (String::from_str("Running"), sub)
        },
        crate::corectl::CoreStatus::Adopted => (
            String::from_str("Running (external)"),
            String::from_str("A core was already listening on the controller port; it was adopted."),
        ),
        crate::corectl::CoreStatus::Stopped => (
            String::from_str("Stopped"),
            String::from_str("The proxy core is not running"),
        ),
        crate::corectl::CoreStatus::Failed(err) => (String::from_str("Failed to start"), err.clone()),
    }
}

/// `1 rule`, `2 rules`: a count with its noun, plural unless it is one.
pub open spec fn counted(n: nat, noun: Seq<char>) -> Seq<char> {
    decimal(n) + " "@ + noun + if n == 1 {
        Seq::<char>::empty()
    } else {
        "s"@
    }
}

/// A count reads as the number, a space and the noun, which takes an `s`
/// for every count but one.
pub proof fn law_counted(n: nat, noun: Seq<char>)
    ensures
        counted(n, noun).subrange(0, decimal(n).len() as int) == decimal(n),
        n == 1 ==> counted(n, noun) == decimal(n) + " "@ + noun,
        n != 1 ==> counted(n, noun) == decimal(n) + " "@ + noun + "s"@,
{
    if n == 1 {
        assert(decimal(n) + " "@ + noun + Seq::<char>::empty() =~= decimal(n) + " "@ + noun);
    }
    assert(counted(n, noun).subrange(0, decimal(n).len() as int) =~= decimal(n));
}

fn push_counted(out: &mut String, n: usize, noun: &str)
    ensures
        final(out)@ == old(out)@ + counted(n as nat, noun@),
{
    push_decimal(out, n as u64);
    out.append(" ");
    out.append(noun);
    if n != 1 {
        out.append("s");
    }
    proof {
        reveal_strlit(" ");
        reveal_strlit("s");
    }
}

/// The dashboard's routing line: what the tunnel or port carries, and how
/// many destination and application rules there are.
pub open spec fn routing_summary_text(cfg: crate::config::AppConfig) -> Seq<char> {
    (if cfg.core.tun_enabled {
        "stack "@ + cfg.core.tun_stack@
    } else {
        "port "@ + decimal(cfg.core.mixed_port as nat)
    }) + " · "@ + counted(cfg.routing.domain_rules@.len(), "rule"@) + " · "@ + counted(
        cfg.routing.app_rules@.len(),
        "app rule"@,
    )
}

pub fn routing_summary(cfg: &crate::config::AppConfig) -> (r: String)
    ensures
        r@ == routing_summary_text(*cfg),
{
    let mut out = if cfg.core.tun_enabled {
        let mut s = String::from_str("stack ");
        s.append(cfg.core.tun_stack.as_str());
        s
    } else {
        let mut s = String::from_str("port ");
        push_decimal(&mut s, cfg.core.mixed_port as u64);
        s
    };
    out.append(" · ");
    push_counted(&mut out, cfg.routing.domain_rules.len(), "rule");
    out.append(" · ");
    push_counted(&mut out, cfg.routing.app_rules.len(), "app rule");
    out
}

/// The dashboard's active-subscription line: its name and node count, or
/// `none`.
pub open spec fn active_line_text(cfg: crate::config::AppConfig) -> Seq<char> {
    match crate::config::active_index(cfg.subscriptions@, opt_view(cfg.active_subscription)) {
        Some(i) => cfg.subscriptions@[i].name@ + " — "@ + decimal(
            cfg.subscriptions@[i].node_count as nat,
        ) + " nodes"@,
        None => "none"@,
    }
}

pub fn active_line(cfg: &crate::config::AppConfig) -> (r: String)
    ensures
        r@ == active_line_text(*cfg),
{
    match cfg.active() {
        Some(sub) => {
            let mut s = sub.name.clone();
            s.append(" — ");
            push_decimal(&mut s, sub.node_count as u64);
            s.append(" nodes");
            s
        },
        None => String::from_str("none"),
    }
}

/// The proxy address the dashboard shows in proxy-only mode.
pub open spec fn proxy_address_text(port: u16, published: bool) -> Seq<char> {
    "127.0.0.1:"@ + decimal(port as nat) + " (HTTP and SOCKS)"@ + if published {
        ", published to the desktop"@
    } else {
        Seq::<char>::empty()
    }
}

pub fn proxy_address(port: u16, published: bool) -> (r: String)
    ensures
        r@ == proxy_address_text(port, published),
{
    let mut s = String::from_str("127.0.0.1:");
    push_decimal(&mut s, port as u64);
    s.append(" (HTTP and SOCKS)");
    if published {
        s.append(", published to the desktop");
    }
    s
}

// ---------------------------------------------------------------- graph, tray, pickers

/// The larger of a sample's two directions.
pub open spec fn sample_peak(s: (u64, u64)) -> u64 {
    if s.0 >= s.1 {
        s.0
    } else {
        s.1
    }
}

/// The largest rate among the samples, and never below 1 KiB/s, so an idle
/// graph is not scaled up to noise.
pub open spec fn graph_peak_of(samples: Seq<(u64, u64)>) -> u64
    decreases samples.len(),
{
    if samples.len() == 0 {
        1024
    } else {
        let rest = graph_peak_of(samples.drop_last());
        if sample_peak(samples.last()) > rest {
            sample_peak(samples.last())
        } else {
            rest
        }
    }
}

/// The graph's scale is the largest rate of any sample in either direction,
/// and never below 1 KiB/s: no sample exceeds it, and it is 1024 or some
/// sample's rate.
pub proof fn law_graph_peak(samples: Seq<(u64, u64)>)
    ensures
        graph_peak_of(samples) >= 1024,
        forall|i: int|
            0 <= i < samples.len() ==> (#[trigger] samples[i]).0 <= graph_peak_of(samples)
                && samples[i].1 <= graph_peak_of(samples),
        graph_peak_of(samples) == 1024 || exists|i: int|
            0 <= i < samples.len() && (graph_peak_of(samples) == (#[trigger] samples[i]).0
                || graph_peak_of(samples) == samples[i].1),
    decreases samples.len(),
{
    if samples.len() > 0 {
        let rest = samples.drop_last();
        law_graph_peak(rest);
        assert forall|i: int| 0 <= i < samples.len() implies (#[trigger] samples[i]).0 <= graph_peak_of(
            samples,
        ) && samples[i].1 <= graph_peak_of(samples) by {
            if i < rest.len() {
                assert(samples[i] == rest[i]);
            }
        }
        if graph_peak_of(samples) != 1024 {
            if graph_peak_of(samples) == graph_peak_of(rest) {
                let i = choose|i: int|
                    0 <= i < rest.len() && (graph_peak_of(rest) == (#[trigger] rest[i]).0
                        || graph_peak_of(rest) == rest[i].1);
                assert(samples[i] == rest[i]);
            } else {
                assert(samples[samples.len() - 1] == samples.last());
            }
        }
    }
}

pub fn graph_peak(samples: &Vec<(u64, u64)>) -> (r: u64)
    ensures
        r == graph_peak_of(samples@),
{
    let mut peak: u64 = 1024;
    let mut i: usize = 0;
    while i < samples.len()
        invariant
            i <= samples@.len(),
            peak == graph_peak_of(samples@.take(i as int)),
        decreases samples@.len() - i,
    {
        proof {
            assert(samples@.take(i + 1).drop_last() =~= samples@.take(i as int));
            assert(samples@.take(i + 1).last() == samples@[i as int]);
        }
        let (up, down) = samples[i];
        let m = if up >= down {
            up
        } else {
            down
        };
        if m > peak {
            peak = m;
        }
        i = i + 1;
    }
    assert(samples@.take(samples@.len() as int) =~= samples@);
    peak
}

/// The caption of the traffic graph: `peak <rate>/s`.
pub fn peak_caption(samples: &Vec<(u64, u64)>) -> (r: String)
    ensures
        r@ == "peak "@ + bytes_text(graph_peak_of(samples@) as nat) + "/s"@,
{
    let mut s = String::from_str("peak ");
    let b = format_bytes(graph_peak(samples));
    s.append(b.as_str());
    s.append("/s");
    s
}

/// What the tray menu asks of the window.
#[derive(Clone, Copy, PartialEq, Eq, Structural, Debug)]
pub enum TrayCommand {
    Show,
    ToggleCore,
    Quit,
}

/// The tray icon: a VPN icon while the core runs, offline otherwise.
pub fn tray_icon_name(running: bool) -> (r: String)
    ensures
        r@ == if running {
            "network-vpn-symbolic"@
        } else {
            "network-offline-symbolic"@
        },
{
    if running {
        String::from_str("network-vpn-symbolic")
    } else {
        String::from_str("network-offline-symbolic")
    }
}

/// The tray tooltip's description.
pub fn tray_description(running: bool) -> (r: String)
    ensures
        r@ == if running {
            "Core is running"@
        } else {
            "Core is stopped"@
        },
{
    if running {
        String::from_str("Core is running")
    } else {
        String::from_str("Core is stopped")
    }
}

/// The target chosen in a dropdown of `targets`: the one at `index`, or
/// `DIRECT` when the index is past them.
pub fn selected_target(targets: &Vec<crate::config::Target>, index: u32) -> (r: crate::config::Target)
    ensures
        r == if (index as int) < targets@.len() {
            targets@[index as int]
        } else {
            crate::config::Target::Direct
        },
{
    let i = index as usize;
    if i < targets.len() {
        targets[i].clone()
    } else {
        crate::config::Target::Direct
    }
}


// ---------------------------------------------------------------- application picker

/// An installed application, as `(display name, process name)`, with the
/// lowercase name it is sorted by.
pub open spec fn app_key(a: (Seq<char>, Seq<char>)) -> Seq<char> {
    lowercase(a.0)
}

/// `x` placed into `sorted` after every entry whose key is not larger.
pub open spec fn placed(sorted: Seq<(Seq<char>, Seq<char>)>, x: (Seq<char>, Seq<char>)) -> Seq<
    (Seq<char>, Seq<char>),
>
    decreases sorted.len(),
{
    if sorted.len() == 0 {
        seq![x]
    } else if crate::text::lex_lt(app_key(x), app_key(sorted.last())) {
        placed(sorted.drop_last(), x).push(sorted.last())
    } else {
        sorted.push(x)
    }
}

/// The applications sorted by lowercase name, stably: equal names keep their
/// order.
pub open spec fn by_name(apps: Seq<(Seq<char>, Seq<char>)>) -> Seq<(Seq<char>, Seq<char>)>
    decreases apps.len(),
{
    if apps.len() == 0 {
        Seq::empty()
    } else {
        placed(by_name(apps.drop_last()), apps.last())
    }
}

/// Runs of entries with the same process name, cut down to their first.
pub open spec fn first_of_runs(apps: Seq<(Seq<char>, Seq<char>)>) -> Seq<(Seq<char>, Seq<char>)>
    decreases apps.len(),
{
    if apps.len() == 0 {
        Seq::empty()
    } else {
        let kept = first_of_runs(apps.drop_last());
        if kept.len() > 0 && kept.last().1 == apps.last().1 {
            kept
        } else {
            kept.push(apps.last())
        }
    }
}

/// `placed`, as an insertion at the place after the not-larger keys.
proof fn lemma_placed_at(sorted: Seq<(Seq<char>, Seq<char>)>, x: (Seq<char>, Seq<char>), p: int)
    requires
        0 <= p <= sorted.len(),
        forall|j: int| p <= j < sorted.len() ==> crate::text::lex_lt(app_key(x), #[trigger] app_key(sorted[j])),
        p > 0 ==> !crate::text::lex_lt(app_key(x), app_key(sorted[p - 1])),
    ensures
        placed(sorted, x) == sorted.insert(p, x),
    decreases sorted.len(),
{
    if sorted.len() == 0 {
        assert(seq![x] =~= sorted.insert(0, x));
    } else if p == sorted.len() {
        assert(sorted.push(x) =~= sorted.insert(p, x));
    } else {
        let t = sorted.drop_last();
        assert(crate::text::lex_lt(app_key(x), app_key(sorted.last())));
        assert forall|j: int| p <= j < t.len() implies crate::text::lex_lt(app_key(x), #[trigger] app_key(t[j])) by {
            assert(t[j] == sorted[j]);
        }
        if p > 0 {
            assert(t[p - 1] == sorted[p - 1]);
        }
        lemma_placed_at(t, x, p);
        assert(t.insert(p, x).push(sorted.last()) =~= sorted.insert(p, x));
    }
}

/// The applications the app-rule editor offers: sorted by lowercase name,
/// and where neighbours run the same process, only the first of them.
pub fn app_choices(apps: &Vec<(String, String)>) -> (r: Vec<(String, String)>)
    ensures
        r@.map_values(|a: (String, String)| (a.0@, a.1@)) == first_of_runs(
            by_name(apps@.map_values(|a: (String, String)| (a.0@, a.1@))),
        ),
{
    let ghost av = apps@.map_values(|a: (String, String)| (a.0@, a.1@));
    // insertion sort, keeping each entry's lowercase key beside it
    let mut sorted: Vec<(String, String, String)> = Vec::new();
    let mut i: usize = 0;
    proof {
        assert(av.take(0) =~= Seq::<(Seq<char>, Seq<char>)>::empty());
    }
    while i < apps.len()
        invariant
            i <= apps@.len(),
            av == apps@.map_values(|a: (String, String)| (a.0@, a.1@)),
            sorted@.map_values(|e: (String, String, String)| (e.1@, e.2@)) == by_name(av.take(i as int)),
            forall|j: int| 0 <= j < sorted@.len() ==> (#[trigger] sorted@[j]).0@ == lowercase(sorted@[j].1@),
        decreases apps@.len() - i,
    {
        let ghost sv = sorted@.map_values(|e: (String, String, String)| (e.1@, e.2@));
        let ghost x = av[i as int];
        let key = to_lowercase(apps[i].0.as_str());
        let mut p: usize = sorted.len();
        while p > 0 && crate::text::compare_str(sorted[p - 1].0.as_str(), key.as_str()) > 0
            invariant
                p <= sorted@.len(),
                sv == sorted@.map_values(|e: (String, String, String)| (e.1@, e.2@)),
                key@ == app_key(x),
                forall|j: int| 0 <= j < sorted@.len() ==> (#[trigger] sorted@[j]).0@ == lowercase(sorted@[j].1@),
                forall|j: int| p <= j < sv.len() ==> crate::text::lex_lt(app_key(x), #[trigger] app_key(sv[j])),
            decreases p,
        {
            assert(sv[p - 1] == (sorted@[p - 1].1@, sorted@[p - 1].2@));
            p = p - 1;
        }
        proof {
            if p > 0 {
                assert(sv[p - 1] == (sorted@[p - 1].1@, sorted@[p - 1].2@));
            }
            assert(x == (apps@[i as int].0@, apps@[i as int].1@));
            lemma_placed_at(sv, x, p as int);
            assert(av.take(i + 1).drop_last() =~= av.take(i as int));
            assert(av.take(i + 1).last() == x);
        }
        let entry = (key, apps[i].0.clone(), apps[i].1.clone());
        sorted.insert(p, entry);
        proof {
            assert(sorted@.map_values(|e: (String, String, String)| (e.1@, e.2@)) =~= sv.insert(p as int, x));
        }
        i = i + 1;
    }
    assert(av.take(av.len() as int) =~= av);
    let ghost sv = sorted@.map_values(|e: (String, String, String)| (e.1@, e.2@));
    // keep the first of each run of one process
    let mut out: Vec<(String, String)> = Vec::new();
    let mut k: usize = 0;
    proof {
        assert(sv.take(0) =~= Seq::<(Seq<char>, Seq<char>)>::empty());
        assert(out@.map_values(|a: (String, String)| (a.0@, a.1@)) =~= Seq::<(Seq<char>, Seq<char>)>::empty());
    }
    while k < sorted.len()
        invariant
            k <= sorted@.len(),
            sv == sorted@.map_values(|e: (String, String, String)| (e.1@, e.2@)),
            out@.map_values(|a: (String, String)| (a.0@, a.1@)) == first_of_runs(sv.take(k as int)),
        decreases sorted@.len() - k,
    {
        let ghost ov = out@.map_values(|a: (String, String)| (a.0@, a.1@));
        proof {
            assert(sv.take(k + 1).drop_last() =~= sv.take(k as int));
            assert(sv.take(k + 1).last() == sv[k as int]);
            assert(sv[k as int] == (sorted@[k as int].1@, sorted@[k as int].2@));
            if out@.len() > 0 {
                assert(ov.last() == (out@[out@.len() - 1].0@, out@[out@.len() - 1].1@));
            }
        }
        let same = out.len() > 0 && str_eq(out[out.len() - 1].1.as_str(), sorted[k].2.as_str());
        if !same {
            let e = (sorted[k].1.clone(), sorted[k].2.clone());
            out.push(e);
            proof {
                assert(out@.map_values(|a: (String, String)| (a.0@, a.1@)) =~= ov.push(sv[k as int]));
            }
        }
        k = k + 1;
    }
    assert(sv.take(sv.len() as int) =~= sv);
    out
}

} // verus!
