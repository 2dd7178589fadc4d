//! The time of one author, day by day.
use vstd::prelude::*;

verus! {

/// The time credited to one day.
#[derive(Clone, Debug, PartialEq, Eq)]
pub struct DayTime {
    /// The day, as the text of its date.
    pub day: String,
    /// The time credited to the day, in seconds.
    pub seconds: u128,
}

/// The time credited to each day, each day once.
#[derive(Clone, Debug, PartialEq, Eq)]
pub struct Breakdown {
    pub entries: Vec<DayTime>,
}

/// Whether one of the entries is for `day`.
pub open spec fn holds_day(entries: Seq<DayTime>, day: Seq<char>) -> bool {
    exists|i: int| 0 <= i < entries.len() && (#[trigger] entries[i]).day@ == day
}

/// The place of an entry for `day`.
pub open spec fn place_of(entries: Seq<DayTime>, day: Seq<char>) -> int {
    choose|i: int| 0 <= i < entries.len() && (#[trigger] entries[i]).day@ == day
}

/// Whether no two entries are for the same day.
pub open spec fn days_distinct(entries: Seq<DayTime>) -> bool {
    forall|i: int, j: int|
        0 <= i < j < entries.len() ==> (#[trigger] entries[i]).day@ != (#[trigger] entries[j]).day@
}

/// The sum of the times of the entries, in seconds.
pub open spec fn total_of(entries: Seq<DayTime>) -> int
    decreases entries.len(),
{
    if entries.len() == 0 {
        0
    } else {
        total_of(entries.drop_last()) + entries.last().seconds
    }
}

impl View for Breakdown {
    type V = Map<Seq<char>, int>;

    /// The seconds credited to each day that has an entry.
    open spec fn view(&self) -> Map<Seq<char>, int> {
        Map::new(
            |day: Seq<char>| holds_day(self.entries@, day),
            |day: Seq<char>| self.entries@[place_of(self.entries@, day)].seconds as int,
        )
    }
}

/// Changing the time of one entry changes the total by the difference.
pub proof fn lemma_total_of_update(entries: Seq<DayTime>, i: int, entry: DayTime)
    requires
        0 <= i < entries.len(),
    ensures
        total_of(entries.update(i, entry)) == total_of(entries) - entries[i].seconds + entry.seconds,
    decreases entries.len(),
{
    let changed = entries.update(i, entry);
    if i == entries.len() - 1 {
        assert(changed.drop_last() =~= entries.drop_last());
    } else {
        lemma_total_of_update(entries.drop_last(), i, entry);
        assert(changed.drop_last() =~= entries.drop_last().update(i, entry));
    }
}

/// No entry holds more than the total.
pub proof fn lemma_total_of_bounds(entries: Seq<DayTime>, i: int)
    requires
        0 <= i < entries.len(),
    ensures
        entries[i].seconds <= total_of(entries),
        0 <= total_of(entries),
    decreases entries.len(),
{
    let front = entries.drop_last();
    if i < front.len() {
        lemma_total_of_bounds(front, i);
    } else if front.len() > 0 {
        lemma_total_of_bounds(front, 0);
    } else {
        assert(total_of(front) == 0);
    }
}

/// The first entries sum to no more than all of them.
pub proof fn lemma_total_of_grows(entries: Seq<DayTime>, n: int)
    requires
        0 <= n <= entries.len(),
    ensures
        0 <= total_of(entries.subrange(0, n)) <= total_of(entries),
    decreases entries.len(),
{
    if entries.len() == 0 {
        assert(entries.subrange(0, n) =~= entries);
    } else if n == entries.len() {
        assert(entries.subrange(0, n) =~= entries);
        lemma_total_of_grows(entries.drop_last(), n - 1);
        assert(entries.drop_last().subrange(0, n - 1) =~= entries.drop_last());
    } else {
        lemma_total_of_grows(entries.drop_last(), n);
        assert(entries.drop_last().subrange(0, n) =~= entries.subrange(0, n));
    }
}

impl Breakdown {
    /// Whether every day has at most one entry.
    pub open spec fn well_formed(&self) -> bool {
        days_distinct(self.entries@)
    }

    /// The sum of the times of all days, in seconds.
    pub open spec fn total(&self) -> int {
        total_of(self.entries@)
    }

    /// The seconds credited to `day`: 0 where it has no entry.
    pub open spec fn time_on(&self, day: Seq<char>) -> int {
        if self@.dom().contains(day) {
            self@[day]
        } else {
            0
        }
    }

    /// Whether every day has at most one entry.
    pub fn check(&self) -> (valid: bool)
        ensures
            valid == self.well_formed(),
    {
        let n = self.entries.len();
        let mut j: usize = 0;
        while j < n
            invariant
                j <= n,
                n == self.entries@.len(),
                forall|a: int, b: int|
                    0 <= a < b < j ==> (#[trigger] self.entries@[a]).day@ != (#[trigger] self.entries@[b]).day@,
            decreases n - j,
        {
            let mut i: usize = 0;
            while i < j
                invariant
                    i <= j < n,
                    n == self.entries@.len(),
                    forall|a: int| 0 <= a < i ==> (#[trigger] self.entries@[a]).day@ != self.entries@[j as int].day@,
                decreases j - i,
            {
                if self.entries[i].day == self.entries[j].day {
                    return false;
                }
                i = i + 1;
            }
            j = j + 1;
        }
        true
    }

    /// The sum of the times of all days, in seconds, where it fits in 128
    /// bits.
    pub fn sum(&self) -> (total: Option<u128>)
        ensures
            match total {
                Some(t) => t == self.total(),
                None => self.total() > u128::MAX,
            },
    {
        let mut total: u128 = 0;
        let mut i: usize = 0;
        proof {
            assert(self.entries@.subrange(0, 0) =~= Seq::<DayTime>::empty());
        }
        while i < self.entries.len()
            invariant
                i <= self.entries.len(),
                total == total_of(self.entries@.subrange(0, i as int)),
            decreases self.entries.len() - i,
        {
            proof {
                let part = self.entries@.subrange(0, i + 1);
                assert(part.drop_last() =~= self.entries@.subrange(0, i as int));
                assert(part.last() == self.entries@[i as int]);
                lemma_total_of_grows(self.entries@, i + 1);
            }
            match total.checked_add(self.entries[i].seconds) {
                Some(t) => {
                    total = t;
                },
                None => {
                    return None;
                },
            }
            i = i + 1;
        }
        proof {
            assert(self.entries@.subrange(0, i as int) =~= self.entries@);
        }
        Some(total)
    }

    /// A breakdown without any day.
    pub fn new() -> (breakdown: Breakdown)
        ensures
            breakdown.well_formed(),
            breakdown@ == Map::<Seq<char>, int>::empty(),
            breakdown.total() == 0,
    {
        let breakdown = Breakdown { entries: Vec::new() };
        proof {
            assert(breakdown@ =~= Map::<Seq<char>, int>::empty());
        }
        breakdown
    }

    /// The number of days that have an entry.
    pub fn len(&self) -> (count: usize)
        requires
            self.well_formed(),
        ensures
            count == self@.dom().len(),
            self@.dom().finite(),
    {
        proof {
            lemma_days_counted(self.entries@);
            assert(self@.dom() =~= days_of(self.entries@));
        }
        self.entries.len()
    }

    /// The time credited to `day`, if it has an entry.
    pub fn get(&self, day: &String) -> (seconds: Option<u128>)
        requires
            self.well_formed(),
        ensures
            match seconds {
                Some(s) => self@.dom().contains(day@) && self@[day@] == s,
                None => !self@.dom().contains(day@),
            },
    {
        let mut i: usize = 0;
        while i < self.entries.len()
            invariant
                i <= self.entries.len(),
                self.well_formed(),
                forall|k: int| 0 <= k < i ==> (#[trigger] self.entries@[k]).day@ != day@,
            decreases self.entries.len() - i,
        {
            if self.entries[i].day == *day {
                proof {
                    lemma_view_of_distinct(self.entries@);
                    assert(self.entries@[i as int].day@ == day@);
                }
                return Some(self.entries[i].seconds);
            }
            i = i + 1;
        }
        None
    }

    /// Credits `seconds` more to the day of the entry at `place`.
    pub fn credit_at(&mut self, place: usize, seconds: u128)
        requires
            old(self).well_formed(),
            place < old(self).entries@.len(),
            old(self).total() + seconds <= u128::MAX,
        ensures
            final(self).well_formed(),
            final(self)@ == old(self)@.insert(
                old(self).entries@[place as int].day@,
                old(self).time_on(old(self).entries@[place as int].day@) + seconds,
            ),
            final(self).total() == old(self).total() + seconds,
            final(self).entries@.len() == old(self).entries@.len(),
            final(self).entries@[place as int].day@ == old(self).entries@[place as int].day@,
    {
        let ghost before = self.entries@;
        let ghost day = before[place as int].day@;
        proof {
            lemma_total_of_bounds(before, place as int);
        }
        let sum: u128 = self.entries[place].seconds + seconds;
        self.entries[place].seconds = sum;
        proof {
            let after = self.entries@;
            assert(after =~= before.update(place as int, after[place as int]));
            lemma_total_of_update(before, place as int, after[place as int]);
            assert forall|a: int| 0 <= a < after.len() implies (#[trigger] after[a]).day@ == before[a].day@ by {}
            assert(days_distinct(after)) by {
                assert forall|a: int, b: int| 0 <= a < b < after.len() implies (#[trigger] after[a]).day@ != (
                #[trigger] after[b]).day@ by {
                    assert(before[a].day@ != before[b].day@);
                }
            }
            lemma_view_of_distinct(before);
            lemma_view_of_distinct(after);
            assert(holds_day(before, day));
            assert(self@ =~= old(self)@.insert(day, old(self).time_on(day) + seconds)) by {
                assert forall|d: Seq<char>| holds_day(after, d) <==> holds_day(before, d) by {
                    if holds_day(after, d) {
                        let a = place_of(after, d);
                        assert(before[a].day@ == d);
                    }
                    if holds_day(before, d) {
                        let a = place_of(before, d);
                        assert(after[a].day@ == d);
                    }
                }
                assert forall|d: Seq<char>| holds_day(after, d) implies after[place_of(after, d)].seconds == (if d
                    == day {
                    before[place as int].seconds + seconds
                } else {
                    before[place_of(before, d)].seconds as int
                }) by {
                    let a = place_of(after, d);
                    assert(before[a].day@ == d);
                    assert(place_of(before, d) == a);
                }
                assert(place_of(before, day) == place);
            }
        }
    }

    /// Credits `seconds` more to `day`, which gets an entry if it has none,
    /// and gives the place of the entry.
    pub fn credit(&mut self, day: &String, seconds: u128) -> (place: usize)
        requires
            old(self).well_formed(),
            old(self).total() + seconds <= u128::MAX,
        ensures
            final(self).well_formed(),
            final(self)@ == old(self)@.insert(day@, old(self).time_on(day@) + seconds),
            final(self).total() == old(self).total() + seconds,
            place < final(self).entries@.len(),
            final(self).entries@[place as int].day@ == day@,
    {
        let ghost before = self.entries@;
        let mut i: usize = 0;
        while i < self.entries.len() && self.entries[i].day != *day
            invariant
                i <= self.entries.len(),
                self.entries@ == before,
                forall|k: int| 0 <= k < i ==> (#[trigger] before[k]).day@ != day@,
            decreases self.entries.len() - i,
        {
            i = i + 1;
        }
        if i < self.entries.len() {
            self.credit_at(i, seconds);
            return i;
        }
        self.entries.push(DayTime { day: day.clone(), seconds });
        proof {
            let after = self.entries@;
            assert(after.drop_last() =~= before);
            assert(days_distinct(after));
            lemma_view_of_distinct(before);
            lemma_view_of_distinct(after);
            assert(!holds_day(before, day@));
            assert(self@ =~= old(self)@.insert(day@, old(self).time_on(day@) + seconds)) by {
                assert(after[after.len() - 1].day@ == day@);
                assert forall|d: Seq<char>| holds_day(after, d) <==> (d == day@ || holds_day(before, d)) by {
                    if holds_day(after, d) {
                        let a = place_of(after, d);
                        if a < before.len() {
                            assert(before[a].day@ == d);
                        }
                    }
                    if holds_day(before, d) {
                        let a = place_of(before, d);
                        assert(after[a].day@ == d);
                    }
                }
                assert forall|d: Seq<char>| holds_day(before, d) implies after[place_of(after, d)].seconds
                    == before[place_of(before, d)].seconds by {
                    let a = place_of(before, d);
                    assert(after[a].day@ == d);
                    assert(place_of(after, d) == a);
                }
                assert(place_of(after, day@) == after.len() - 1);
            }
        }
        i
    }
}

/// The days that have an entry.
pub open spec fn days_of(entries: Seq<DayTime>) -> Set<Seq<char>> {
    Set::new(|day: Seq<char>| holds_day(entries, day))
}

/// Where the days are distinct, the place of a day is the place of its one
/// entry.
pub proof fn lemma_view_of_distinct(entries: Seq<DayTime>)
    requires
        days_distinct(entries),
    ensures
        forall|i: int| 0 <= i < entries.len() ==> place_of(entries, (#[trigger] entries[i]).day@) == i,
{
    assert forall|i: int| 0 <= i < entries.len() implies place_of(entries, (#[trigger] entries[i]).day@) == i by {
        let p = place_of(entries, entries[i].day@);
        assert(0 <= p < entries.len() && entries[p].day@ == entries[i].day@);
        if p < i {
            assert(entries[p].day@ != entries[i].day@);
        } else if i < p {
            assert(entries[i].day@ != entries[p].day@);
        }
    }
}

/// Where the days are distinct, there are as many days as entries.
pub proof fn lemma_days_counted(entries: Seq<DayTime>)
    requires
        days_distinct(entries),
    ensures
        days_of(entries).finite(),
        days_of(entries).len() == entries.len(),
    decreases entries.len(),
{
    if entries.len() == 0 {
        assert(days_of(entries) =~= Set::<Seq<char>>::empty());
    } else {
        let front = entries.drop_last();
        let day = entries.last().day@;
        assert(days_distinct(front)) by {
            assert forall|i: int, j: int| 0 <= i < j < front.len() implies (#[trigger] front[i]).day@ != (
            #[trigger] front[j]).day@ by {
                assert(entries[i].day@ != entries[j].day@);
            }
        }
        lemma_days_counted(front);
        assert(!holds_day(front, day)) by {
            if holds_day(front, day) {
                let a = place_of(front, day);
                assert(entries[a].day@ != entries[entries.len() - 1].day@);
            }
        }
        assert(days_of(entries) =~= days_of(front).insert(day)) by {
            assert forall|d: Seq<char>| holds_day(entries, d) <==> (d == day || holds_day(front, d)) by {
                if holds_day(entries, d) {
                    let a = place_of(entries, d);
                    if a < front.len() {
                        assert(front[a].day@ == d);
                    }
                }
                if holds_day(front, d) {
                    let a = place_of(front, d);
                    assert(entries[a].day@ == d);
                }
                if d == day {
                    assert(entries[entries.len() - 1].day@ == d);
                }
            }
        }
    }
}

} // verus!
