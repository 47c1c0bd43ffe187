use vstd::prelude::*;
use vstd::string::*;
use std::time::{Duration, SystemTime, UNIX_EPOCH};
use crate::order::{
    chars_le, lemma_chars_le_antisymmetric, lemma_chars_le_total,
    lemma_chars_le_transitive, name_le,
};

verus! {

/// A point in time, as a whole second counted from the Unix epoch
/// (negative before it) plus the nanoseconds past that second.
#[derive(Debug, Clone, Copy, PartialEq, Eq, PartialOrd, Ord, Hash, Structural)]
pub struct Timestamp {
    pub secs: i128,
    pub nanos: u32,
}

/// Nanoseconds in one second: the bound of `Timestamp::nanos`.
pub const NANOS_PER_SEC: u32 = 1_000_000_000;

/// One entry of the high-score board.
#[derive(Debug, Clone, PartialEq, Eq, PartialOrd, Ord, Hash)]
pub struct Score {
    pub name: String,
    pub points: u32,
    pub timestamp: Timestamp,
}

/// What a `Score` holds, as mathematical values.
pub struct ScoreView {
    pub name: Seq<char>,
    pub points: u32,
    pub timestamp: Timestamp,
}

impl View for Score {
    type V = ScoreView;

    open spec fn view(&self) -> ScoreView {
        ScoreView { name: self.name@, points: self.points, timestamp: self.timestamp }
    }
}

/// The high-score board.
#[derive(Debug, Clone, PartialEq, Eq, PartialOrd, Ord, Hash)]
pub struct ScoreBoard {
    pub scores: Vec<Score>,
}

impl View for ScoreBoard {
    type V = Seq<ScoreView>;

    open spec fn view(&self) -> Seq<ScoreView> {
        self.scores@.map_values(|s: Score| s@)
    }
}

/// The instant a timestamp stands for, in nanoseconds since the Unix epoch.
pub open spec fn instant_nanos(t: Timestamp) -> int {
    t.secs * 1_000_000_000 + t.nanos
}

/// Chronological order of timestamps.
pub open spec fn timestamp_le(a: Timestamp, b: Timestamp) -> bool {
    a.secs < b.secs || (a.secs == b.secs && a.nanos <= b.nanos)
}

/// The order of timestamps is the order of the instants they stand for.
pub proof fn lemma_timestamp_le_is_chronological(a: Timestamp, b: Timestamp)
    requires
        a.nanos < NANOS_PER_SEC,
        b.nanos < NANOS_PER_SEC,
    ensures
        timestamp_le(a, b) <==> instant_nanos(a) <= instant_nanos(b),
{
    if a.secs < b.secs {
        assert(a.secs * 1_000_000_000 + 1_000_000_000 <= b.secs * 1_000_000_000) by (nonlinear_arith)
            requires a.secs < b.secs;
    } else if a.secs > b.secs {
        assert(b.secs * 1_000_000_000 + 1_000_000_000 <= a.secs * 1_000_000_000) by (nonlinear_arith)
            requires b.secs < a.secs;
    }
}

/// The order of scores: by name, then by points, then by timestamp, the
/// fields taken in the order in which `Score` declares them.
pub open spec fn score_le(a: ScoreView, b: ScoreView) -> bool {
    if a.name != b.name {
        chars_le(a.name, b.name)
    } else if a.points != b.points {
        a.points < b.points
    } else {
        timestamp_le(a.timestamp, b.timestamp)
    }
}

/// The greatest score of a non-empty sequence; among equal ones, the last.
pub open spec fn best_of(s: Seq<ScoreView>) -> ScoreView
    recommends
        s.len() > 0,
    decreases s.len(),
{
    if s.len() <= 1 {
        s[0]
    } else {
        let m = best_of(s.drop_last());
        if score_le(m, s.last()) {
            s.last()
        } else {
            m
        }
    }
}

/// The score that `best` reports for an empty board: "Anonymous" with no
/// points, at any valid timestamp.
pub open spec fn is_placeholder(r: ScoreView) -> bool {
    &&& r.name == "Anonymous"@
    &&& r.points == 0
    &&& r.timestamp.nanos < NANOS_PER_SEC
}

/// Points of the best score of a board, 0 for an empty board.
pub open spec fn best_points(s: Seq<ScoreView>) -> u32 {
    if s.len() == 0 {
        0
    } else {
        best_of(s).points
    }
}

/// The order of scores is reflexive.
pub proof fn lemma_score_le_reflexive(a: ScoreView)
    ensures
        score_le(a, a),
{
}

/// Any two scores are ordered one way or the other.
pub proof fn lemma_score_le_total(a: ScoreView, b: ScoreView)
    ensures
        score_le(a, b) || score_le(b, a),
{
    lemma_chars_le_total(a.name, b.name);
}

/// Two scores ordered both ways are equal.
pub proof fn lemma_score_le_antisymmetric(a: ScoreView, b: ScoreView)
    requires
        score_le(a, b),
        score_le(b, a),
    ensures
        a == b,
{
    if a.name != b.name {
        lemma_chars_le_antisymmetric(a.name, b.name);
    }
}

/// The order of scores is transitive.
pub proof fn lemma_score_le_transitive(a: ScoreView, b: ScoreView, c: ScoreView)
    requires
        score_le(a, b),
        score_le(b, c),
    ensures
        score_le(a, c),
{
    if a.name != b.name && b.name != c.name {
        lemma_chars_le_transitive(a.name, b.name, c.name);
        if a.name == c.name {
            lemma_chars_le_antisymmetric(a.name, b.name);
        }
    }
}

/// `best_of` picks an element of the sequence that is at least every
/// element of it.
pub proof fn lemma_best_of_is_greatest(s: Seq<ScoreView>)
    requires
        s.len() > 0,
    ensures
        s.contains(best_of(s)),
        forall|i: int| 0 <= i < s.len() ==> score_le(#[trigger] s[i], best_of(s)),
    decreases s.len(),
{
    if s.len() == 1 {
        lemma_score_le_reflexive(s[0]);
        assert(s[0] == s[0]);
    } else {
        let p = s.drop_last();
        lemma_best_of_is_greatest(p);
        let m = best_of(p);
        lemma_score_le_total(m, s.last());
        lemma_score_le_reflexive(s.last());
        assert forall|i: int| 0 <= i < s.len() implies score_le(#[trigger] s[i], best_of(s)) by {
            if i < s.len() - 1 {
                assert(s[i] == p[i]);
                if score_le(m, s.last()) {
                    lemma_score_le_transitive(s[i], m, s.last());
                }
            }
        }
        if !score_le(m, s.last()) {
            let k = choose|k: int| 0 <= k < p.len() && p[k] == m;
            assert(s[k] == m);
        } else {
            assert(s[s.len() - 1] == s.last());
        }
    }
}

/// The greatest element is unique: an element of `s` that is at least every
/// element of `s` is `best_of(s)`.
pub proof fn lemma_best_of_unique(s: Seq<ScoreView>, x: ScoreView)
    requires
        s.contains(x),
        forall|i: int| 0 <= i < s.len() ==> score_le(#[trigger] s[i], x),
    ensures
        x == best_of(s),
{
    lemma_best_of_is_greatest(s);
    let k = choose|k: int| 0 <= k < s.len() && s[k] == x;
    let j = choose|j: int| 0 <= j < s.len() && s[j] == best_of(s);
    assert(score_le(s[k], best_of(s)));
    assert(score_le(s[j], x));
    lemma_score_le_antisymmetric(x, best_of(s));
}

/// The best score depends only on which scores are on the board, not on the
/// order in which they were recorded.
pub proof fn lemma_best_of_order_free(s: Seq<ScoreView>, t: Seq<ScoreView>)
    requires
        s.len() > 0,
        forall|x: ScoreView| s.contains(x) <==> t.contains(x),
    ensures
        best_of(s) == best_of(t),
{
    lemma_best_of_is_greatest(s);
    let b = best_of(s);
    assert(t.contains(b));
    assert forall|i: int| 0 <= i < t.len() implies score_le(#[trigger] t[i], b) by {
        assert(t.contains(t[i]));
        assert(s.contains(t[i]));
        let k = choose|k: int| 0 <= k < s.len() && s[k] == t[i];
        assert(score_le(s[k], b));
    }
    lemma_best_of_unique(t, b);
}

/// Adding a score never lowers the best one: the best of the longer board is
/// at least the old best and at least the added score, and is one of the two.
pub proof fn lemma_record_keeps_best(s: Seq<ScoreView>, x: ScoreView)
    ensures
        score_le(x, best_of(s.push(x))),
        s.len() > 0 ==> score_le(best_of(s), best_of(s.push(x))),
        s.len() > 0 ==> best_of(s.push(x)) == x || best_of(s.push(x)) == best_of(s),
        s.len() == 0 ==> best_of(s.push(x)) == x,
{
    let t = s.push(x);
    assert(t.drop_last() =~= s);
    lemma_score_le_reflexive(x);
    if s.len() > 0 {
        lemma_score_le_total(best_of(s), x);
        lemma_score_le_reflexive(best_of(s));
    }
}

/// A score whose name sorts at or after every name already on the board
/// shows its points (or more) as the high score once it is added. The
/// high score is the greatest entry by name first, so a score filed under
/// an earlier name may stay hidden behind a later one.
pub proof fn lemma_saved_score_shown(s: Seq<ScoreView>, x: ScoreView)
    requires
        forall|i: int| 0 <= i < s.len() ==> chars_le(#[trigger] s[i].name, x.name),
    ensures
        best_points(s.push(x)) >= x.points,
{
    let t = s.push(x);
    lemma_best_of_is_greatest(t);
    let b = best_of(t);
    assert(score_le(t[t.len() - 1], b));
    assert(t[t.len() - 1] == x);
    let k = choose|k: int| 0 <= k < t.len() && t[k] == b;
    if b.name != x.name {
        assert(chars_le(x.name, b.name));
        if k < s.len() {
            assert(t[k] == s[k]);
            assert(chars_le(b.name, x.name));
            lemma_chars_le_antisymmetric(x.name, b.name);
        }
    }
}

/// The type of the system clock, held opaque.
#[verifier::external_type_specification]
#[verifier::external_body]
pub struct ExSystemTime(SystemTime);

/// Reads the system clock through `SystemTime::now`. Nothing is promised
/// of the value: it depends on the machine and the moment.
#[verifier::external_body]
fn clock_now() -> SystemTime {
    SystemTime::now()
}

/// `SystemTime::duration_since(UNIX_EPOCH)`: `Ok` with the time elapsed
/// since the Unix epoch, or, where `t` lies before the epoch, `Err` with how
/// far before it (`SystemTimeError::duration` of the call's error). Which
/// times lie before the epoch is left unsaid: it is a fact of the clock.
#[verifier::external_body]
fn offset_from_epoch(t: &SystemTime) -> Result<Duration, Duration> {
    match t.duration_since(UNIX_EPOCH) {
        Ok(d) => Ok(d),
        Err(e) => Err(e.duration()),
    }
}

/// `Duration::as_secs`: the whole seconds of a duration. Nothing is stated
/// of the result: a `Duration` is opaque here, and it only ever comes from
/// the clock.
#[verifier::external_body]
fn whole_secs(d: &Duration) -> u64 {
    d.as_secs()
}

/// `Duration::subsec_nanos`: the nanoseconds past the whole seconds, which
/// its documentation puts below one billion.
#[verifier::external_body]
fn subsec_nanos(d: &Duration) -> (r: u32)
    ensures
        r < NANOS_PER_SEC,
{
    d.subsec_nanos()
}

impl Timestamp {
    /// The timestamp lying `secs` seconds and `nanos` nanoseconds after the
    /// Unix epoch (`after`) or before it.
    pub fn from_epoch_offset(after: bool, secs: u64, nanos: u32) -> (r: Timestamp)
        requires
            nanos < NANOS_PER_SEC,
        ensures
            r.nanos < NANOS_PER_SEC,
            instant_nanos(r) == (if after {
                secs * 1_000_000_000 + nanos
            } else {
                -(secs * 1_000_000_000 + nanos)
            }),
            r == (if after {
                Timestamp { secs: secs as i128, nanos }
            } else if nanos == 0 {
                Timestamp { secs: (-(secs as int)) as i128, nanos: 0 }
            } else {
                Timestamp { secs: (-(secs as int) - 1) as i128, nanos: (NANOS_PER_SEC - nanos) as u32 }
            }),
    {
        let whole = secs as i128;
        if after {
            Timestamp { secs: whole, nanos }
        } else if nanos == 0 {
            Timestamp { secs: -whole, nanos: 0 }
        } else {
            Timestamp { secs: -whole - 1, nanos: NANOS_PER_SEC - nanos }
        }
    }

    /// The current time, read from the system clock.
    pub fn now() -> (r: Timestamp)
        ensures
            r.nanos < NANOS_PER_SEC,
    {
        match offset_from_epoch(&clock_now()) {
            Ok(d) => Timestamp::from_epoch_offset(true, whole_secs(&d), subsec_nanos(&d)),
            Err(d) => Timestamp::from_epoch_offset(false, whole_secs(&d), subsec_nanos(&d)),
        }
    }
}

impl Score {
    /// A copy of this score, field by field.
    fn duplicate(&self) -> (r: Score)
        ensures
            r@ == self@,
    {
        Score { name: self.name.clone(), points: self.points, timestamp: self.timestamp }
    }
}

impl Default for Score {
    /// "Anonymous", with no points, stamped with the current time.
    fn default() -> (r: Self)
        ensures
            is_placeholder(r@),
    {
        Score { name: String::from_str("Anonymous"), points: 0, timestamp: Timestamp::now() }
    }
}

impl Default for ScoreBoard {
    /// An empty board.
    fn default() -> (r: Self)
        ensures
            r@.len() == 0,
    {
        ScoreBoard { scores: Vec::new() }
    }
}

impl ScoreBoard {
    /// The greatest score of the board in the order of `Score` (by name
    /// first), or `Score::default()` when the board is empty.
    pub fn best(&self) -> (r: Score)
        ensures
            self@.len() == 0 ==> is_placeholder(r@),
            self@.len() > 0 ==> r@ == best_of(self@),
            self@.len() > 0 ==> self@.contains(r@),
            forall|i: int| 0 <= i < self@.len() ==> score_le(#[trigger] self@[i], r@),
    {
        let n = self.scores.len();
        if n == 0 {
            return Score::default();
        }
        let mut k: usize = 0;
        let mut i: usize = 1;
        assert(self@.take(1) =~= seq![self@[0]]);
        while i < n
            invariant
                n == self.scores@.len(),
                n == self@.len(),
                1 <= i <= n,
                k < i,
                best_of(self@.take(i as int)) == self@[k as int],
            decreases n - i,
        {
            let ghost prefix = self@.take(i as int + 1);
            assert(prefix.drop_last() =~= self@.take(i as int));
            assert(prefix.last() == self@[i as int]);
            let cur = &self.scores[i];
            let top = &self.scores[k];
            let le = if top.name == cur.name {
                if top.points == cur.points {
                    top.timestamp.secs < cur.timestamp.secs || (top.timestamp.secs
                        == cur.timestamp.secs && top.timestamp.nanos <= cur.timestamp.nanos)
                } else {
                    top.points < cur.points
                }
            } else {
                name_le(&top.name, &cur.name)
            };
            assert(le == score_le(self@[k as int], self@[i as int]));
            if le {
                k = i;
            }
            i = i + 1;
        }
        assert(self@.take(n as int) =~= self@);
        proof {
            lemma_best_of_is_greatest(self@);
        }
        self.scores[k].duplicate()
    }

    /// Adds `score` to the end of the board.
    pub fn record(&mut self, score: Score)
        ensures
            final(self)@ == old(self)@.push(score@),
    {
        self.scores.push(score);
        proof {
            assert(final(self)@ =~= old(self)@.push(score@));
        }
    }
}

} // verus!
