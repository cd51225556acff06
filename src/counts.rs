//! Match counts bucketed by second, minute, hour, day, ISO week, month and year.
use vstd::prelude::*;
use crate::time::{valid_time, minute_floor, hour_floor, day_floor, week_floor, month_floor, year_floor, minute_start, hour_start, day_start, week_start, month_start, year_start};

verus! {

/// Keys strictly increase along the series.
pub open spec fn sorted_keys(s: Seq<(i64, u64)>) -> bool {
    forall|i: int, j: int| 0 <= i < j < s.len() ==> s[i].0 < s[j].0
}

/// Insert `key` into a sorted series, or update its count, with `f` giving the
/// new count from the old one (`None` when the key is new).
pub open spec fn upserted(s: Seq<(i64, u64)>, key: i64, f: spec_fn(Option<u64>) -> u64) -> Seq<(i64, u64)>
    decreases s.len(),
{
    if s.len() == 0 {
        seq![(key, f(None))]
    } else if s[0].0 == key {
        seq![(key, f(Some(s[0].1)))] + s.drop_first()
    } else if s[0].0 > key {
        seq![(key, f(None))] + s
    } else {
        seq![s[0]] + upserted(s.drop_first(), key, f)
    }
}

/// One more match, saturating at the largest count.
pub open spec fn bump_count(c: Option<u64>) -> u64 {
    match c {
        Some(n) => if n == u64::MAX { n } else { (n + 1) as u64 },
        None => 1,
    }
}

pub open spec fn bumped(s: Seq<(i64, u64)>, key: i64) -> Seq<(i64, u64)> {
    upserted(s, key, |c: Option<u64>| bump_count(c))
}

pub open spec fn assigned(s: Seq<(i64, u64)>, key: i64, value: u64) -> Seq<(i64, u64)> {
    upserted(s, key, |c: Option<u64>| value)
}

/// The series built by assigning each pair in turn, later pairs winning.
pub open spec fn loaded(pairs: Seq<(i64, u64)>) -> Seq<(i64, u64)> {
    pairs.fold_left(Seq::<(i64, u64)>::empty(), |acc: Seq<(i64, u64)>, p: (i64, u64)| assigned(acc, p.0, p.1))
}

/// Length of the leading run of entries older than `horizon`.
pub open spec fn below(s: Seq<(i64, u64)>, horizon: int) -> nat
    decreases s.len(),
{
    if s.len() > 0 && s[0].0 < horizon {
        1 + below(s.drop_first(), horizon)
    } else {
        0
    }
}

/// Drop entries older than `horizon`, then the oldest ones beyond `cap`.
pub open spec fn trimmed(s: Seq<(i64, u64)>, horizon: int, cap: nat) -> Seq<(i64, u64)> {
    let start = if below(s, horizon) >= s.len() - cap { below(s, horizon) as int } else { s.len() - cap };
    s.subrange(start, s.len() as int)
}

/// Sum of the counts of a series.
pub open spec fn total(s: Seq<(i64, u64)>) -> int
    decreases s.len(),
{
    if s.len() == 0 {
        0
    } else {
        s[0].1 + total(s.drop_first())
    }
}

pub open spec fn has_key(s: Seq<(i64, u64)>, key: int) -> bool {
    exists|i: int| 0 <= i < s.len() && s[i].0 == key
}

proof fn lemma_upserted_split(s: Seq<(i64, u64)>, key: i64, f: spec_fn(Option<u64>) -> u64, i: int)
    requires
        0 <= i <= s.len(),
        forall|j: int| 0 <= j < i ==> s[j].0 < key,
    ensures
        upserted(s, key, f) == s.subrange(0, i) + upserted(s.subrange(i, s.len() as int), key, f),
    decreases i,
{
    if i == 0 {
        assert(s.subrange(0, 0) + upserted(s.subrange(0, s.len() as int), key, f) =~= upserted(s, key, f)) by {
            assert(s.subrange(0, s.len() as int) =~= s);
        }
    } else {
        let t = s.drop_first();
        lemma_upserted_split(t, key, f, i - 1);
        assert(t.subrange(i - 1, t.len() as int) =~= s.subrange(i, s.len() as int));
        assert(seq![s[0]] + t.subrange(0, i - 1) =~= s.subrange(0, i));
        assert(upserted(s, key, f) == seq![s[0]] + upserted(t, key, f));
        assert((seq![s[0]] + t.subrange(0, i - 1)) + upserted(t.subrange(i - 1, t.len() as int), key, f)
            =~= seq![s[0]] + (t.subrange(0, i - 1) + upserted(t.subrange(i - 1, t.len() as int), key, f)));
    }
}

/// Where the key lands: an insertion before the first larger key, or an
/// update of the equal key.
proof fn lemma_upserted_at(s: Seq<(i64, u64)>, key: i64, f: spec_fn(Option<u64>) -> u64, i: int)
    requires
        0 <= i <= s.len(),
        forall|j: int| 0 <= j < i ==> s[j].0 < key,
        i < s.len() ==> s[i].0 >= key,
    ensures
        (i < s.len() && s[i].0 == key) ==> upserted(s, key, f) == s.update(i, (key, f(Some(s[i].1)))),
        !(i < s.len() && s[i].0 == key) ==> upserted(s, key, f) == s.insert(i, (key, f(None))),
{
    lemma_upserted_split(s, key, f, i);
    let rest = s.subrange(i, s.len() as int);
    if i < s.len() && s[i].0 == key {
        assert(rest.drop_first() =~= s.subrange(i + 1, s.len() as int));
        assert(s.subrange(0, i) + (seq![(key, f(Some(s[i].1)))] + rest.drop_first()) =~= s.update(i, (key, f(Some(s[i].1)))));
    } else {
        assert(s.subrange(0, i) + (seq![(key, f(None))] + rest) =~= s.insert(i, (key, f(None))));
    }
}

proof fn lemma_below_run(s: Seq<(i64, u64)>, horizon: int, d: int)
    requires
        0 <= d <= s.len(),
        forall|j: int| 0 <= j < d ==> s[j].0 < horizon,
        d < s.len() ==> s[d].0 >= horizon,
    ensures
        below(s, horizon) == d,
    decreases d,
{
    if d > 0 {
        lemma_below_run(s.drop_first(), horizon, d - 1);
    }
}

/// The counts of one granularity, keyed by truncated timestamp.
pub struct CountSeries {
    entries: Vec<(i64, u64)>,
}

impl View for CountSeries {
    type V = Seq<(i64, u64)>;

    closed spec fn view(&self) -> Seq<(i64, u64)> {
        self.entries@
    }
}

impl CountSeries {
    pub fn new() -> (r: CountSeries)
        ensures
            r@ == Seq::<(i64, u64)>::empty(),
    {
        CountSeries { entries: Vec::new() }
    }

    /// The (timestamp, count) pairs, oldest first.
    pub fn entries(&self) -> (r: &Vec<(i64, u64)>)
        ensures
            r@ == self@,
    {
        &self.entries
    }

    fn copy(&self) -> (r: CountSeries)
        ensures
            r@ == self@,
    {
        let mut entries: Vec<(i64, u64)> = Vec::new();
        let mut i: usize = 0;
        while i < self.entries.len()
            invariant
                i <= self@.len(),
                entries@ == self@.subrange(0, i as int),
            decreases self@.len() - i,
        {
            entries.push(self.entries[i]);
            i = i + 1;
        }
        assert(entries@ =~= self@);
        CountSeries { entries }
    }

    pub fn len(&self) -> (r: usize)
        ensures
            r == self@.len(),
    {
        self.entries.len()
    }

    /// The count recorded under `key`, if any.
    pub fn get(&self, key: i64) -> (r: Option<u64>)
        ensures
            r is Some <==> has_key(self@, key as int),
            r matches Some(c) ==> exists|i: int| 0 <= i < self@.len() && self@[i] == (key, c),
    {
        let mut i: usize = 0;
        while i < self.entries.len()
            invariant
                i <= self@.len(),
                forall|j: int| 0 <= j < i ==> self@[j].0 != key,
            decreases self@.len() - i,
        {
            if self.entries[i].0 == key {
                return Some(self.entries[i].1);
            }
            i = i + 1;
        }
        None
    }

    /// Index of the first entry whose key is not below `key`.
    fn position(&self, key: i64) -> (i: usize)
        ensures
            i <= self@.len(),
            forall|j: int| 0 <= j < i ==> self@[j].0 < key,
            i < self@.len() ==> self@[i as int].0 >= key,
    {
        let mut i: usize = 0;
        while i < self.entries.len() && self.entries[i].0 < key
            invariant
                i <= self@.len(),
                forall|j: int| 0 <= j < i ==> self@[j].0 < key,
            decreases self@.len() - i,
        {
            i = i + 1;
        }
        i
    }

    /// One more match in bucket `key`, then drop buckets older than
    /// `horizon` and the oldest beyond `cap`.
    pub fn record(&mut self, key: i64, horizon: i64, cap: usize)
        requires
            sorted_keys(old(self)@),
        ensures
            final(self)@ == trimmed(bumped(old(self)@, key), horizon as int, cap as nat),
            sorted_keys(final(self)@),
    {
        self.bump(key);
        self.trim(horizon, cap);
    }

    fn bump(&mut self, key: i64)
        requires
            sorted_keys(old(self)@),
        ensures
            final(self)@ == bumped(old(self)@, key),
            sorted_keys(final(self)@),
    {
        let i = self.position(key);
        let ghost s = self@;
        proof {
            lemma_upserted_at(s, key, |c: Option<u64>| bump_count(c), i as int);
        }
        if i < self.entries.len() && self.entries[i].0 == key {
            let c = self.entries[i].1;
            self.entries.set(i, (key, c.saturating_add(1)));
        } else {
            self.entries.insert(i, (key, 1));
        }
    }

    /// Set the count under `key`, keeping the keys sorted.
    pub fn assign(&mut self, key: i64, value: u64)
        requires
            sorted_keys(old(self)@),
        ensures
            final(self)@ == assigned(old(self)@, key, value),
            sorted_keys(final(self)@),
    {
        let i = self.position(key);
        let ghost s = self@;
        proof {
            lemma_upserted_at(s, key, |c: Option<u64>| value, i as int);
        }
        if i < self.entries.len() && self.entries[i].0 == key {
            self.entries.set(i, (key, value));
        } else {
            self.entries.insert(i, (key, value));
        }
    }

    fn trim(&mut self, horizon: i64, cap: usize)
        requires
            sorted_keys(old(self)@),
        ensures
            final(self)@ == trimmed(old(self)@, horizon as int, cap as nat),
            sorted_keys(final(self)@),
    {
        let ghost s = self@;
        let mut d: usize = 0;
        while d < self.entries.len() && self.entries[d].0 < horizon
            invariant
                self@ == s,
                d <= s.len(),
                forall|j: int| 0 <= j < d ==> s[j].0 < horizon,
            decreases s.len() - d,
        {
            d = d + 1;
        }
        proof {
            lemma_below_run(s, horizon as int, d as int);
        }
        let len = self.entries.len();
        let start: usize = if len >= cap && d < len - cap { len - cap } else { d };
        let tail = self.entries.split_off(start);
        self.entries = tail;
    }

    /// Build a series from stored pairs; a later pair wins over an earlier one
    /// with the same key.
    pub fn from_pairs(pairs: &Vec<(i64, u64)>) -> (r: CountSeries)
        ensures
            r@ == loaded(pairs@),
            sorted_keys(r@),
    {
        let mut r = CountSeries::new();
        let mut i: usize = 0;
        while i < pairs.len()
            invariant
                i <= pairs@.len(),
                r@ == loaded(pairs@.subrange(0, i as int)),
                sorted_keys(r@),
            decreases pairs@.len() - i,
        {
            proof {
                assert(pairs@.subrange(0, i + 1).drop_last() =~= pairs@.subrange(0, i as int));
            }
            r.assign(pairs[i].0, pairs[i].1);
            i = i + 1;
        }
        assert(pairs@.subrange(0, pairs@.len() as int) =~= pairs@);
        r
    }
}


#[derive(Clone, Copy, PartialEq, Eq, Structural, Debug)]
pub enum Granularity {
    Second,
    Minute,
    Hour,
    Day,
    Week,
    Month,
    Year,
}

impl Granularity {
    /// Most buckets kept.
    pub open spec fn retention(self) -> nat {
        match self {
            Granularity::Second => 3600,
            Granularity::Minute => 1440,
            Granularity::Hour => 168,
            Granularity::Day => 28,
            Granularity::Week => 52,
            Granularity::Month => 48,
            Granularity::Year => 10,
        }
    }

    /// Length in seconds of one bucket, taken as 31 days for a month and
    /// 365 days for a year when computing the horizon.
    pub open spec fn span(self) -> int {
        match self {
            Granularity::Second => 1,
            Granularity::Minute => 60,
            Granularity::Hour => 3600,
            Granularity::Day => 86400,
            Granularity::Week => 604800,
            Granularity::Month => 2678400,
            Granularity::Year => 31536000,
        }
    }

    /// The bucket key of instant `t`.
    pub open spec fn truncate(self, t: int) -> int {
        match self {
            Granularity::Second => t,
            Granularity::Minute => minute_start(t),
            Granularity::Hour => hour_start(t),
            Granularity::Day => day_start(t),
            Granularity::Week => week_start(t),
            Granularity::Month => month_start(t),
            Granularity::Year => year_start(t),
        }
    }

    /// Buckets older than this, seen at `now`, are removed.
    pub open spec fn horizon(self, now: int) -> int {
        now - self.retention() * self.span()
    }

    pub fn cap(self) -> (r: usize)
        ensures
            r == self.retention(),
    {
        match self {
            Granularity::Second => 3600,
            Granularity::Minute => 1440,
            Granularity::Hour => 168,
            Granularity::Day => 28,
            Granularity::Week => 52,
            Granularity::Month => 48,
            Granularity::Year => 10,
        }
    }

    pub fn horizon_at(self, now: i64) -> (r: i64)
        requires
            valid_time(now as int),
        ensures
            r == self.horizon(now as int),
    {
        match self {
            Granularity::Second => now - 3600,
            Granularity::Minute => now - 1440 * 60,
            Granularity::Hour => now - 168 * 3600,
            Granularity::Day => now - 28 * 86400,
            Granularity::Week => now - 52 * 604800,
            Granularity::Month => now - 48 * 31 * 86400,
            Granularity::Year => now - 10 * 365 * 86400,
        }
    }

    pub fn key_at(self, now: i64) -> (r: i64)
        requires
            valid_time(now as int),
        ensures
            r == self.truncate(now as int),
            r <= now,
            now - r < 31622400,
    {
        match self {
            Granularity::Second => now,
            Granularity::Minute => minute_floor(now),
            Granularity::Hour => hour_floor(now),
            Granularity::Day => day_floor(now),
            Granularity::Week => week_floor(now),
            Granularity::Month => month_floor(now),
            Granularity::Year => year_floor(now),
        }
    }
}

/// The series `s` after one more match at `now`: bump the bucket, then trim.
pub open spec fn recorded(s: Seq<(i64, u64)>, g: Granularity, now: int) -> Seq<(i64, u64)> {
    trimmed(bumped(s, g.truncate(now) as i64), g.horizon(now), g.retention())
}

/// Counts of monitor matches bucketed by the seven granularities.
pub struct EventCounts {
    seconds: CountSeries,
    minutes: CountSeries,
    hours: CountSeries,
    days: CountSeries,
    weeks: CountSeries,
    months: CountSeries,
    years: CountSeries,
}

impl EventCounts {
    pub closed spec fn series(&self, g: Granularity) -> Seq<(i64, u64)> {
        match g {
            Granularity::Second => self.seconds@,
            Granularity::Minute => self.minutes@,
            Granularity::Hour => self.hours@,
            Granularity::Day => self.days@,
            Granularity::Week => self.weeks@,
            Granularity::Month => self.months@,
            Granularity::Year => self.years@,
        }
    }

    pub open spec fn wf(&self) -> bool {
        forall|g: Granularity| sorted_keys(#[trigger] self.series(g))
    }

    pub fn new() -> (r: EventCounts)
        ensures
            r.wf(),
            forall|g: Granularity| #[trigger] r.series(g) == Seq::<(i64, u64)>::empty(),
    {
        EventCounts {
            seconds: CountSeries::new(),
            minutes: CountSeries::new(),
            hours: CountSeries::new(),
            days: CountSeries::new(),
            weeks: CountSeries::new(),
            months: CountSeries::new(),
            years: CountSeries::new(),
        }
    }

    fn series_mut(&mut self, g: Granularity) -> (r: &mut CountSeries)
        ensures
            r@ == old(self).series(g),
            forall|h: Granularity| h != g ==> #[trigger] final(self).series(h) == old(self).series(h),
            final(self).series(g) == final(r)@,
    {
        match g {
            Granularity::Second => &mut self.seconds,
            Granularity::Minute => &mut self.minutes,
            Granularity::Hour => &mut self.hours,
            Granularity::Day => &mut self.days,
            Granularity::Week => &mut self.weeks,
            Granularity::Month => &mut self.months,
            Granularity::Year => &mut self.years,
        }
    }

    /// The series of one granularity.
    pub fn series_of(&self, g: Granularity) -> (r: &CountSeries)
        ensures
            r@ == self.series(g),
    {
        match g {
            Granularity::Second => &self.seconds,
            Granularity::Minute => &self.minutes,
            Granularity::Hour => &self.hours,
            Granularity::Day => &self.days,
            Granularity::Week => &self.weeks,
            Granularity::Month => &self.months,
            Granularity::Year => &self.years,
        }
    }

    fn record(&mut self, g: Granularity, now: i64)
        requires
            old(self).wf(),
            valid_time(now as int),
        ensures
            final(self).wf(),
            final(self).series(g) == recorded(old(self).series(g), g, now as int),
            forall|h: Granularity| h != g ==> #[trigger] final(self).series(h) == old(self).series(h),
    {
        let key = g.key_at(now);
        let horizon = g.horizon_at(now);
        let cap = g.cap();
        let ghost before = *self;
        let s = self.series_mut(g);
        s.record(key, horizon, cap);
        assert forall|h: Granularity| sorted_keys(#[trigger] self.series(h)) by {
            if h != g {
                assert(sorted_keys(before.series(h)));
            }
        }
    }

    /// One more match at `now`: every granularity's bucket is bumped, then
    /// entries beyond the horizon or the retention cap are dropped.
    pub fn increment(&mut self, now: i64)
        requires
            old(self).wf(),
            valid_time(now as int),
        ensures
            final(self).wf(),
            forall|g: Granularity| #[trigger] final(self).series(g) == recorded(old(self).series(g), g, now as int),
    {
        let ghost before = *self;
        self.record(Granularity::Second, now);
        self.record(Granularity::Minute, now);
        self.record(Granularity::Hour, now);
        self.record(Granularity::Day, now);
        self.record(Granularity::Week, now);
        self.record(Granularity::Month, now);
        self.record(Granularity::Year, now);
        assert forall|g: Granularity| #[trigger] self.series(g) == recorded(before.series(g), g, now as int) by {
            match g {
                Granularity::Second => {},
                Granularity::Minute => {},
                Granularity::Hour => {},
                Granularity::Day => {},
                Granularity::Week => {},
                Granularity::Month => {},
                Granularity::Year => {},
            }
        }
    }

    /// Replace one granularity's series by the stored pairs.
    pub fn load_series(&mut self, g: Granularity, pairs: &Vec<(i64, u64)>)
        requires
            old(self).wf(),
        ensures
            final(self).wf(),
            final(self).series(g) == loaded(pairs@),
            forall|h: Granularity| h != g ==> #[trigger] final(self).series(h) == old(self).series(h),
    {
        let ghost before = *self;
        let fresh = CountSeries::from_pairs(pairs);
        let s = self.series_mut(g);
        *s = fresh;
        assert forall|h: Granularity| sorted_keys(#[trigger] self.series(h)) by {
            if h != g {
                assert(sorted_keys(before.series(h)));
            }
        }
    }

    /// A well-formed copy: each series rebuilt from its pairs.
    pub fn rebuilt(&self) -> (r: EventCounts)
        ensures
            r.wf(),
            forall|g: Granularity| #[trigger] r.series(g) == loaded(self.series(g)),
    {
        let mut r = EventCounts::new();
        r.load_series(Granularity::Second, self.seconds.entries());
        r.load_series(Granularity::Minute, self.minutes.entries());
        r.load_series(Granularity::Hour, self.hours.entries());
        r.load_series(Granularity::Day, self.days.entries());
        r.load_series(Granularity::Week, self.weeks.entries());
        r.load_series(Granularity::Month, self.months.entries());
        r.load_series(Granularity::Year, self.years.entries());
        assert forall|g: Granularity| #[trigger] r.series(g) == loaded(self.series(g)) by {
            match g {
                Granularity::Second => {},
                Granularity::Minute => {},
                Granularity::Hour => {},
                Granularity::Day => {},
                Granularity::Week => {},
                Granularity::Month => {},
                Granularity::Year => {},
            }
        }
        r
    }

    /// A copy holding the same series.
    pub fn duplicate(&self) -> (r: EventCounts)
        ensures
            forall|g: Granularity| #[trigger] r.series(g) == self.series(g),
    {
        EventCounts {
            seconds: self.seconds.copy(),
            minutes: self.minutes.copy(),
            hours: self.hours.copy(),
            days: self.days.copy(),
            weeks: self.weeks.copy(),
            months: self.months.copy(),
            years: self.years.copy(),
        }
    }
}

/// The seven series of a counts value, by granularity.
pub open spec fn counts_view(c: EventCounts) -> Map<Granularity, Seq<(i64, u64)>> {
    Map::new(|g: Granularity| true, |g: Granularity| c.series(g))
}

/// The counts after one more match at `now`.
pub open spec fn counts_recorded(c: Map<Granularity, Seq<(i64, u64)>>, now: int) -> Map<Granularity, Seq<(i64, u64)>> {
    Map::new(|g: Granularity| true, |g: Granularity| recorded(c[g], g, now))
}

/// Loading a sorted series gives it back unchanged.
pub proof fn lemma_loaded_sorted(s: Seq<(i64, u64)>)
    requires
        sorted_keys(s),
    ensures
        loaded(s) == s,
    decreases s.len(),
{
    if s.len() > 0 {
        let t = s.drop_last();
        assert(sorted_keys(t));
        lemma_loaded_sorted(t);
        let k = s.last();
        assert(loaded(s) == assigned(loaded(t), k.0, k.1));
        lemma_upserted_at(t, k.0, |c: Option<u64>| k.1, t.len() as int);
        assert(t.insert(t.len() as int, (k.0, k.1)) =~= s);
    } else {
        assert(loaded(s) == Seq::<(i64, u64)>::empty());
        assert(s =~= Seq::<(i64, u64)>::empty());
    }
}

/// After any increment, no granularity holds more buckets than it retains.
pub proof fn lemma_retention_bounded(s: Seq<(i64, u64)>, g: Granularity, now: int)
    ensures
        recorded(s, g, now).len() <= g.retention(),
{
    let b = bumped(s, g.truncate(now) as i64);
    lemma_below_le(b, g.horizon(now));
}

proof fn lemma_below_le(s: Seq<(i64, u64)>, horizon: int)
    ensures
        below(s, horizon) <= s.len(),
    decreases s.len(),
{
    if s.len() > 0 {
        lemma_below_le(s.drop_first(), horizon);
    }
}

/// Two increments whose instants share a bucket leave, in an empty series,
/// exactly that bucket with count 2 (a bucket starts at most a year before
/// its instants, as every truncation does).
pub proof fn lemma_same_bucket_twice(g: Granularity, t1: int, t2: int)
    requires
        t1 <= t2,
        g.truncate(t1) == g.truncate(t2),
        g.truncate(t2) <= t2,
        t2 - g.truncate(t2) < 31622400,
        i64::MIN <= g.truncate(t2) <= i64::MAX,
    ensures
        recorded(recorded(Seq::empty(), g, t1), g, t2) == seq![(g.truncate(t2) as i64, 2u64)],
{
    let key = g.truncate(t2) as i64;
    let f = |c: Option<u64>| bump_count(c);
    let e = Seq::<(i64, u64)>::empty();
    lemma_upserted_at(e, key, f, 0);
    let b1 = bumped(e, key);
    assert(b1 =~= seq![(key, 1u64)]);
    assert(below(b1, g.horizon(t1)) == 0) by {
        assert(b1[0].0 >= g.horizon(t1));
        assert(below(b1, g.horizon(t1)) == 0);
    }
    assert(trimmed(b1, g.horizon(t1), g.retention()) =~= b1);
    lemma_upserted_at(b1, key, f, 0);
    let b2 = bumped(b1, key);
    assert(b2 =~= seq![(key, 2u64)]);
    assert(below(b2, g.horizon(t2)) == 0) by {
        assert(b2[0].0 >= g.horizon(t2));
    }
    assert(trimmed(b2, g.horizon(t2), g.retention()) =~= b2);
}

/// The series after matches at each of `times` in turn.
pub open spec fn recorded_all(s: Seq<(i64, u64)>, g: Granularity, times: Seq<int>) -> Seq<(i64, u64)>
    decreases times.len(),
{
    if times.len() == 0 {
        s
    } else {
        recorded(recorded_all(s, g, times.drop_last()), g, times.last())
    }
}

proof fn lemma_total_push(s: Seq<(i64, u64)>, x: (i64, u64))
    ensures
        total(s.push(x)) == total(s) + x.1,
    decreases s.len(),
{
    if s.len() > 0 {
        assert(s.push(x).drop_first() =~= s.drop_first().push(x));
        assert(s.push(x)[0] == s[0]);
        lemma_total_push(s.drop_first(), x);
    } else {
        assert(s.push(x).drop_first() =~= Seq::<(i64, u64)>::empty());
        assert(s.push(x)[0] == x);
        assert(total(Seq::<(i64, u64)>::empty()) == 0);
    }
}

/// Strictly increasing keys within [lo, hi] number at most hi - lo + 1.
proof fn lemma_sorted_span(s: Seq<(i64, u64)>, lo: int, hi: int)
    requires
        sorted_keys(s),
        lo <= hi + 1,
        forall|j: int| 0 <= j < s.len() ==> lo <= #[trigger] s[j].0 <= hi,
    ensures
        s.len() <= hi - lo + 1,
    decreases s.len(),
{
    if s.len() == 1 {
        assert(lo <= s[0].0 <= hi);
    }
    if s.len() > 1 {
        assert(lo <= s[0].0 <= hi);
        let t = s.drop_first();
        assert forall|j: int| 0 <= j < t.len() implies lo + 1 <= #[trigger] t[j].0 <= hi by {
            assert(t[j] == s[j + 1]);
            assert(s[0].0 < s[j + 1].0);
        }
        lemma_sorted_span(t, lo + 1, hi);
    }
}

proof fn lemma_seconds_window(times: Seq<int>)
    requires
        times.len() < u64::MAX,
        forall|i: int| 0 <= i < times.len() ==> valid_time(#[trigger] times[i]),
        forall|i: int, j: int| 0 <= i <= j < times.len() ==> times[i] <= times[j],
        times.len() > 0 ==> times.last() - times[0] < 3600,
    ensures
        ({
            let s = recorded_all(Seq::empty(), Granularity::Second, times);
            &&& sorted_keys(s)
            &&& times.len() == 0 ==> s.len() == 0
            &&& forall|j: int| 0 <= j < s.len() ==> times[0] <= #[trigger] s[j].0 <= times.last()
            &&& forall|j: int| 0 <= j < s.len() ==> (#[trigger] s[j]).1 <= times.len()
            &&& total(s) == times.len()
        }),
    decreases times.len(),
{
    if times.len() > 0 {
        let init = times.drop_last();
        assert forall|i: int, j: int| 0 <= i <= j < init.len() implies init[i] <= init[j] by {
            assert(init[i] == times[i] && init[j] == times[j]);
        }
        assert forall|i: int| 0 <= i < init.len() implies valid_time(#[trigger] init[i]) by {
            assert(init[i] == times[i]);
        }
        if init.len() > 0 {
            assert(init.last() == times[init.len() - 1]);
            assert(init[0] == times[0]);
        }
        lemma_seconds_window(init);
        let s = recorded_all(Seq::empty(), Granularity::Second, init);
        let t = times.last();
        assert(valid_time(times[times.len() - 1]));
        let key = t as i64;
        assert(Granularity::Second.truncate(t) as i64 == key);
        let f = |c: Option<u64>| bump_count(c);
        let n = s.len() as int;
        let upd = n > 0 && s[n - 1].0 == key;
        let i: int = if upd { n - 1 } else { n };
        assert forall|j: int| 0 <= j < i implies s[j].0 < key by {
            if init.len() > 0 {
                assert(s[j].0 <= init.last());
                assert(init.last() == times[init.len() - 1]);
                assert(times[init.len() - 1] <= times[times.len() - 1]);
                if !upd && j < n - 1 {
                    assert(s[j].0 < s[n - 1].0);
                }
                if upd {
                    assert(s[j].0 < s[n - 1].0);
                }
            }
        }
        lemma_upserted_at(s, key, f, i);
        let b = bumped(s, key);
        if upd {
            let c = s[n - 1].1;
            assert(c <= init.len());
            assert(b == s.update(n - 1, (key, (c + 1) as u64)));
            assert(s =~= s.drop_last().push(s[n - 1]));
            assert(b =~= s.drop_last().push((key, (c + 1) as u64)));
            lemma_total_push(s.drop_last(), s[n - 1]);
            lemma_total_push(s.drop_last(), (key, (c + 1) as u64));
        } else {
            assert(b == s.insert(n, (key, 1u64)));
            assert(b =~= s.push((key, 1u64)));
            lemma_total_push(s, (key, 1u64));
        }
        assert(total(b) == times.len());
        assert forall|j: int| 0 <= j < b.len() implies times[0] <= #[trigger] b[j].0 <= t by {
            if j < n && !(upd && j == n - 1) {
                assert(b[j] == s[j]);
                if init.len() > 0 {
                    assert(init[0] == times[0]);
                    assert(s[j].0 <= init.last());
                    assert(init.last() == times[init.len() - 1]);
                    assert(times[init.len() - 1] <= times[times.len() - 1]);
                }
            } else {
                assert(times[0] <= times[times.len() - 1]);
            }
        }
        assert(sorted_keys(b)) by {
            assert forall|a: int, c: int| 0 <= a < c < b.len() implies b[a].0 < b[c].0 by {
                if c == i {
                    assert(b[c].0 == key);
                    if a < n { assert(b[a] == s[a]); }
                } else {
                    assert(b[a].0 == s[a].0 && b[c].0 == s[c].0);
                }
            }
        }
        lemma_sorted_span(b, times[0], t);
        assert(b.len() <= 3600);
        assert(b.len() > 0);
        assert(b[0].0 >= Granularity::Second.horizon(t));
        assert(below(b, Granularity::Second.horizon(t)) == 0);
        assert(trimmed(b, Granularity::Second.horizon(t), Granularity::Second.retention()) =~= b);
        assert(recorded_all(Seq::empty(), Granularity::Second, times) == b);
        assert forall|j: int| 0 <= j < b.len() implies (#[trigger] b[j]).1 <= times.len() by {
            if j < n && !(upd && j == n - 1) {
                assert(b[j] == s[j]);
            }
        }
    }
}

/// Matches registered within one retention window of the seconds series,
/// at non-decreasing instants, are all counted there: its counts sum to
/// their number.
pub proof fn lemma_seconds_total(times: Seq<int>)
    requires
        times.len() < u64::MAX,
        forall|i: int| 0 <= i < times.len() ==> valid_time(#[trigger] times[i]),
        forall|i: int, j: int| 0 <= i <= j < times.len() ==> times[i] <= times[j],
        times.len() > 0 ==> times.last() - times[0] < 3600,
    ensures
        total(recorded_all(Seq::empty(), Granularity::Second, times)) == times.len(),
{
    lemma_seconds_window(times);
}

/// Sum of the counts whose key lies after `lo`.
pub open spec fn sum_after(s: Seq<(i64, u64)>, lo: int) -> int
    decreases s.len(),
{
    if s.len() == 0 {
        0
    } else {
        (if s[0].0 > lo { s[0].1 as int } else { 0 }) + sum_after(s.drop_first(), lo)
    }
}

proof fn lemma_sum_after_push(s: Seq<(i64, u64)>, x: (i64, u64), lo: int)
    ensures
        sum_after(s.push(x), lo) == sum_after(s, lo) + if x.0 > lo { x.1 as int } else { 0 },
    decreases s.len(),
{
    if s.len() > 0 {
        assert(s.push(x).drop_first() =~= s.drop_first().push(x));
        assert(s.push(x)[0] == s[0]);
        lemma_sum_after_push(s.drop_first(), x, lo);
    } else {
        assert(s.push(x).drop_first() =~= Seq::<(i64, u64)>::empty());
        assert(s.push(x)[0] == x);
        assert(sum_after(Seq::<(i64, u64)>::empty(), lo) == 0);
    }
}

/// Dropping leading entries at or before `lo` leaves the sum unchanged.
proof fn lemma_sum_after_suffix(s: Seq<(i64, u64)>, lo: int, start: int)
    requires
        0 <= start <= s.len(),
        forall|j: int| 0 <= j < start ==> (#[trigger] s[j]).0 <= lo,
    ensures
        sum_after(s.subrange(start, s.len() as int), lo) == sum_after(s, lo),
    decreases start,
{
    if start == 0 {
        assert(s.subrange(0, s.len() as int) =~= s);
    } else {
        let t = s.drop_first();
        assert forall|j: int| 0 <= j < start - 1 implies (#[trigger] t[j]).0 <= lo by {
            assert(t[j] == s[j + 1]);
        }
        lemma_sum_after_suffix(t, lo, start - 1);
        assert(t.subrange(start - 1, t.len() as int) =~= s.subrange(start, s.len() as int));
    }
}

proof fn lemma_below_prefix(s: Seq<(i64, u64)>, horizon: int)
    ensures
        below(s, horizon) <= s.len(),
        forall|j: int| 0 <= j < below(s, horizon) ==> (#[trigger] s[j]).0 < horizon,
        below(s, horizon) < s.len() ==> s[below(s, horizon) as int].0 >= horizon,
    decreases s.len(),
{
    if s.len() > 0 && s[0].0 < horizon {
        let t = s.drop_first();
        lemma_below_prefix(t, horizon);
        assert forall|j: int| 0 <= j < below(s, horizon) implies (#[trigger] s[j]).0 < horizon by {
            if j > 0 {
                assert(s[j] == t[j - 1]);
            }
        }
        if below(s, horizon) < s.len() {
            assert(s[below(s, horizon) as int] == t[below(t, horizon) as int]);
        }
    }
}

/// One match at `now`, with no bucket later than `now`, adds exactly one
/// to the seconds counts inside the retention window ending at `now`.
pub proof fn lemma_seconds_window_sum(s: Seq<(i64, u64)>, now: int)
    requires
        sorted_keys(s),
        valid_time(now),
        forall|j: int| 0 <= j < s.len() ==> (#[trigger] s[j]).0 <= now,
        forall|j: int| 0 <= j < s.len() && (#[trigger] s[j]).0 == now ==> s[j].1 < u64::MAX,
    ensures
        sum_after(recorded(s, Granularity::Second, now), now - 3600) == sum_after(s, now - 3600) + 1,
{
    let lo = now - 3600;
    let key = now as i64;
    assert(Granularity::Second.truncate(now) as i64 == key);
    let f = |c: Option<u64>| bump_count(c);
    let n = s.len() as int;
    let upd = n > 0 && s[n - 1].0 == key;
    let i: int = if upd { n - 1 } else { n };
    assert forall|j: int| 0 <= j < i implies s[j].0 < key by {
        if j < n - 1 {
            assert(s[j].0 < s[n - 1].0);
        }
    }
    lemma_upserted_at(s, key, f, i);
    let b = bumped(s, key);
    if upd {
        let c = s[n - 1].1;
        assert(b == s.update(n - 1, (key, (c + 1) as u64)));
        assert(s =~= s.drop_last().push(s[n - 1]));
        assert(b =~= s.drop_last().push((key, (c + 1) as u64)));
        lemma_sum_after_push(s.drop_last(), s[n - 1], lo);
        lemma_sum_after_push(s.drop_last(), (key, (c + 1) as u64), lo);
    } else {
        assert(b =~= s.push((key, 1u64)));
        lemma_sum_after_push(s, (key, 1u64), lo);
    }
    assert(sorted_keys(b)) by {
        assert forall|a: int, c: int| 0 <= a < c < b.len() implies b[a].0 < b[c].0 by {
            if c == i {
                if a < n { assert(b[a] == s[a]); }
            } else {
                assert(b[a].0 == s[a].0 && b[c].0 == s[c].0);
            }
        }
    }
    assert forall|j: int| 0 <= j < b.len() implies (#[trigger] b[j]).0 <= now by {
        if j < n && !(upd && j == n - 1) {
            assert(b[j] == s[j]);
        }
    }
    let h = Granularity::Second.horizon(now);
    assert(h == lo);
    lemma_below_prefix(b, h);
    let d = below(b, h) as int;
    let len = b.len() as int;
    let start = if d >= len - 3600 { d } else { len - 3600 };
    assert(trimmed(b, h, Granularity::Second.retention()) == b.subrange(start, len));
    assert forall|j: int| 0 <= j < start implies (#[trigger] b[j]).0 <= lo by {
        if j >= d {
            // More than the cap remain at or after the horizon: they fill
            // every second from the horizon to `now`, so the first is the horizon.
            assert(start == len - 3600);
            let rest = b.subrange(d + 1, len);
            assert(sorted_keys(rest));
            assert forall|k: int| 0 <= k < rest.len() implies b[d].0 + 1 <= #[trigger] rest[k].0 <= now by {
                assert(rest[k] == b[d + 1 + k]);
            }
            lemma_sorted_span(rest, b[d].0 + 1, now);
            assert(b[d].0 >= h);
            assert(b[d].0 == lo);
            if j > d {
                assert(b[d].0 < b[j].0);
                assert(false);
            }
        }
    }
    lemma_sum_after_suffix(b, lo, start);
}

} // verus!
