//! The ordered mapping from dates to the entries filed under them.

use vstd::prelude::*;

use crate::date::CalendarDate;

verus! {

/// The entries filed under one date, in the order they were added.
#[derive(Clone, Debug)]
pub struct Bucket {
    pub date: CalendarDate,
    pub entries: Vec<String>,
}

/// Buckets with distinct dates, kept in ascending chronological order.
#[derive(Clone, Debug)]
pub struct BookmarksByDate {
    pub buckets: Vec<Bucket>,
}

/// A bucket as a date and the texts of its entries.
pub type BucketView = (CalendarDate, Seq<Seq<char>>);

/// The entries filed under `d`, empty where no bucket has that date.
pub open spec fn lookup(m: Seq<BucketView>, d: CalendarDate) -> Seq<Seq<char>>
    decreases m.len(),
{
    if m.len() == 0 {
        Seq::empty()
    } else if m.last().0 == d {
        m.last().1
    } else {
        lookup(m.drop_last(), d)
    }
}

/// Some bucket has the date `d`.
pub open spec fn has_date(m: Seq<BucketView>, d: CalendarDate) -> bool {
    exists|i: int| 0 <= i < m.len() && (#[trigger] m[i]).0 == d
}

/// Dates strictly ascending, and no bucket empty.
pub open spec fn well_formed(m: Seq<BucketView>) -> bool {
    &&& forall|i: int, j: int| 0 <= i < j < m.len() ==> (#[trigger] m[i]).0.before((#[trigger] m[j]).0)
    &&& forall|i: int| 0 <= i < m.len() ==> (#[trigger] m[i]).1.len() > 0
}

/// In a well-formed mapping, the bucket at `i` is what `lookup` finds for its date.
pub proof fn lemma_lookup_at(m: Seq<BucketView>, i: int)
    requires
        well_formed(m),
        0 <= i < m.len(),
    ensures
        lookup(m, m[i].0) == m[i].1,
    decreases m.len(),
{
    if i != m.len() - 1 {
        assert(m[i].0.before(m[m.len() - 1].0));
        let p = m.drop_last();
        assert(p[i] == m[i]);
        assert forall|a: int, b: int| 0 <= a < b < p.len() implies (#[trigger] p[a]).0.before(
            (#[trigger] p[b]).0,
        ) by {
            assert(p[a] == m[a] && p[b] == m[b]);
        }
        assert forall|a: int| 0 <= a < p.len() implies (#[trigger] p[a]).1.len() > 0 by {
            assert(p[a] == m[a]);
        }
        lemma_lookup_at(p, i);
    }
}

/// Where no bucket has the date `d`, `lookup` finds nothing.
pub proof fn lemma_lookup_absent(m: Seq<BucketView>, d: CalendarDate)
    requires
        !has_date(m, d),
    ensures
        lookup(m, d) == Seq::<Seq<char>>::empty(),
    decreases m.len(),
{
    if m.len() > 0 {
        let p = m.drop_last();
        assert(m[m.len() - 1].0 != d);
        assert forall|i: int| 0 <= i < p.len() implies (#[trigger] p[i]).0 != d by {
            assert(p[i] == m[i]);
        }
        lemma_lookup_absent(p, d);
    }
}

impl Bucket {
    pub open spec fn view(&self) -> BucketView {
        (self.date, self.entries@.map_values(|e: String| e@))
    }
}

impl BookmarksByDate {
    /// The buckets, in their stored order.
    pub open spec fn view(&self) -> Seq<BucketView> {
        self.buckets@.map_values(|b: Bucket| b.view())
    }

    /// The entries filed under `d`.
    pub open spec fn entries_of(&self, d: CalendarDate) -> Seq<Seq<char>> {
        lookup(self.view(), d)
    }

    pub open spec fn wf(&self) -> bool {
        well_formed(self.view())
    }

    /// An empty mapping.
    pub fn new() -> (r: BookmarksByDate)
        ensures
            r.wf(),
            r.view().len() == 0,
    {
        BookmarksByDate { buckets: Vec::new() }
    }

    /// Appends `entry` at the tail of the bucket for `date`, creating that
    /// bucket if it is absent.
    pub fn insert(&mut self, date: CalendarDate, entry: String)
        requires
            old(self).wf(),
        ensures
            final(self).wf(),
            forall|d: CalendarDate| #[trigger]
                final(self).entries_of(d) == if d == date {
                    old(self).entries_of(d).push(entry@)
                } else {
                    old(self).entries_of(d)
                },
            forall|d: CalendarDate| #[trigger]
                has_date(final(self).view(), d) <==> (has_date(old(self).view(), d) || d == date),
    {
        let ghost m = self.view();
        let mut i: usize = 0;
        while i < self.buckets.len() && self.buckets[i].date.before_exec(&date)
            invariant
                0 <= i <= self.buckets@.len(),
                self.view() == m,
                well_formed(m),
                forall|j: int| 0 <= j < i ==> (#[trigger] m[j]).0.before(date),
            decreases self.buckets@.len() - i,
        {
            assert(m[i as int] == self.buckets@[i as int].view());
            i = i + 1;
        }
        if i < self.buckets.len() && self.buckets[i].date == date {
            assert(m[i as int] == self.buckets@[i as int].view());
            let mut b = self.buckets.remove(i);
            let ghost bv = b.view();
            b.entries.push(entry);
            assert(b.entries@.map_values(|e: String| e@) =~= bv.1.push(entry@));
            self.buckets.insert(i, b);
            let ghost n = m.update(i as int, (date, bv.1.push(entry@)));
            assert(self.view() =~= n);
            assert forall|d: CalendarDate| #[trigger]
                lookup(n, d) == if d == date {
                    lookup(m, d).push(entry@)
                } else {
                    lookup(m, d)
                } by {
                lemma_lookup_at(n, i as int);
                lemma_lookup_at(m, i as int);
                if d != date {
                    if has_date(m, d) {
                        let j = choose|j: int| 0 <= j < m.len() && (#[trigger] m[j]).0 == d;
                        lemma_lookup_at(m, j);
                        assert(n[j] == m[j]);
                        lemma_lookup_at(n, j);
                    } else {
                        lemma_lookup_absent(m, d);
                        assert forall|j: int| 0 <= j < n.len() implies (#[trigger] n[j]).0 != d by {
                            assert(n[j].0 == m[j].0);
                        }
                        lemma_lookup_absent(n, d);
                    }
                }
            }
            assert forall|d: CalendarDate| #[trigger]
                has_date(n, d) <==> (has_date(m, d) || d == date) by {
                if has_date(n, d) {
                    let j = choose|j: int| 0 <= j < n.len() && (#[trigger] n[j]).0 == d;
                    assert(m[j].0 == d);
                }
                if has_date(m, d) {
                    let j = choose|j: int| 0 <= j < m.len() && (#[trigger] m[j]).0 == d;
                    assert(n[j].0 == d);
                }
            }
        } else {
            let mut entries: Vec<String> = Vec::new();
            entries.push(entry);
            let b = Bucket { date, entries };
            assert(b.view().1 =~= seq![entry@]);
            self.buckets.insert(i, b);
            let ghost n = m.insert(i as int, (date, seq![entry@]));
            assert(self.view() =~= n);
            assert(!has_date(m, date)) by {
                if has_date(m, date) {
                    let j = choose|j: int| 0 <= j < m.len() && (#[trigger] m[j]).0 == date;
                    if j >= i {
                        if i < m.len() && j > i {
                            assert(m[i as int].0.before(m[j].0));
                        }
                    }
                }
            }
            assert forall|a: int, c: int| 0 <= a < c < n.len() implies (#[trigger] n[a]).0.before(
                (#[trigger] n[c]).0,
            ) by {
                if a < i && c > i {
                    assert(n[c] == m[c - 1]);
                    if c - 1 > a {
                        assert(m[a].0.before(m[c - 1].0));
                    }
                } else if c > i && a > i {
                    assert(n[c] == m[c - 1] && n[a] == m[a - 1]);
                } else if a == i && c > i {
                    assert(n[c] == m[c - 1]);
                    if c - 1 > i {
                        assert(m[i as int].0.before(m[c - 1].0));
                    }
                }
            }
            assert forall|d: CalendarDate| #[trigger]
                lookup(n, d) == if d == date {
                    lookup(m, d).push(entry@)
                } else {
                    lookup(m, d)
                } by {
                lemma_lookup_at(n, i as int);
                lemma_lookup_absent(m, date);
                assert(Seq::<Seq<char>>::empty().push(entry@) =~= seq![entry@]);
                if d != date {
                    if has_date(m, d) {
                        let j = choose|j: int| 0 <= j < m.len() && (#[trigger] m[j]).0 == d;
                        lemma_lookup_at(m, j);
                        if j < i {
                            assert(n[j] == m[j]);
                            lemma_lookup_at(n, j);
                        } else {
                            assert(n[j + 1] == m[j]);
                            lemma_lookup_at(n, j + 1);
                        }
                    } else {
                        lemma_lookup_absent(m, d);
                        assert forall|j: int| 0 <= j < n.len() implies (#[trigger] n[j]).0 != d by {
                            if j < i {
                                assert(n[j] == m[j]);
                            } else if j > i {
                                assert(n[j] == m[j - 1]);
                            }
                        }
                        lemma_lookup_absent(n, d);
                    }
                }
            }
            assert forall|d: CalendarDate| #[trigger]
                has_date(n, d) <==> (has_date(m, d) || d == date) by {
                if has_date(n, d) {
                    let j = choose|j: int| 0 <= j < n.len() && (#[trigger] n[j]).0 == d;
                    if j < i {
                        assert(n[j] == m[j]);
                    } else if j > i {
                        assert(n[j] == m[j - 1]);
                    }
                }
                if has_date(m, d) {
                    let j = choose|j: int| 0 <= j < m.len() && (#[trigger] m[j]).0 == d;
                    if j < i {
                        assert(n[j] == m[j]);
                    } else {
                        assert(n[j + 1] == m[j]);
                    }
                }
                if d == date {
                    assert(n[i as int].0 == d);
                }
            }
        }
    }
}

} // verus!
