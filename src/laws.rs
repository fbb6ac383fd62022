//! Properties of grouping and rendering, stated over the models that the
//! functions' contracts use.

use vstd::prelude::*;

use crate::buckets::{
    BookmarksByDate, BucketView, has_date, lemma_lookup_absent, lemma_lookup_at, lookup, well_formed,
};
use crate::date::{CalendarDate, date_key, decimal, digit_char, padded};
use crate::group::{
    Note, Placement, RawBookmark, UnparseablePolicy, entry_text, filed, notes, placement,
    placements, texts_for,
};
use crate::render::{document, section, sections, title_line};
use crate::response::grouping_of;

verus! {

/// Whether `p` files an entry under `d`.
pub open spec fn files_under(p: Placement, d: CalendarDate) -> bool {
    p matches Placement::Filed { date, .. } && date == d
}

/// How many of `ps` file an entry under `d`.
pub open spec fn count_under(ps: Seq<Placement>, d: CalendarDate) -> nat
    decreases ps.len(),
{
    if ps.len() == 0 {
        0
    } else {
        count_under(ps.drop_last(), d) + if files_under(ps.last(), d) {
            1nat
        } else {
            0nat
        }
    }
}

proof fn lemma_texts_push(ps: Seq<Placement>, d: CalendarDate)
    requires
        ps.len() > 0,
    ensures
        texts_for(filed(ps), d) == if files_under(ps.last(), d) {
            texts_for(filed(ps.drop_last()), d).push(ps.last()->Filed_text)
        } else {
            texts_for(filed(ps.drop_last()), d)
        },
{
    let q = ps.drop_last();
    match ps.last() {
        Placement::Filed { date, text, .. } => {
            assert(filed(ps) == filed(q).push((date, text)));
            assert(filed(q).push((date, text)).drop_last() =~= filed(q));
        },
        _ => {},
    }
}

/// Each date's bucket holds exactly as many entries as there are records
/// filed under that date.
pub proof fn law_bucket_sizes(ps: Seq<Placement>, d: CalendarDate)
    ensures
        texts_for(filed(ps), d).len() == count_under(ps, d),
    decreases ps.len(),
{
    if ps.len() > 0 {
        lemma_texts_push(ps, d);
        law_bucket_sizes(ps.drop_last(), d);
    }
}

/// A record filed under `d` stands in the bucket of `d` at the position given
/// by the number of earlier records filed under `d`.
pub proof fn law_filed_at_rank(ps: Seq<Placement>, d: CalendarDate, i: int)
    requires
        0 <= i < ps.len(),
        files_under(ps[i], d),
    ensures
        count_under(ps.take(i), d) < texts_for(filed(ps), d).len(),
        texts_for(filed(ps), d)[count_under(ps.take(i), d) as int] == ps[i]->Filed_text,
    decreases ps.len(),
{
    let q = ps.drop_last();
    lemma_texts_push(ps, d);
    if i == ps.len() - 1 {
        assert(ps.take(i) =~= q);
        law_bucket_sizes(q, d);
    } else {
        assert(ps.take(i) =~= q.take(i));
        assert(q[i] == ps[i]);
        law_filed_at_rank(q, d, i);
    }
}

/// Every record that has a title, a readable timestamp and a link appears in
/// the bucket of its timestamp's UTC date, and in no other: that bucket holds
/// its entry, and every bucket holds only as many entries as records filed
/// under its date.
pub proof fn law_filed_once(
    items: Seq<RawBookmark>,
    today: CalendarDate,
    policy: UnparseablePolicy,
    i: int,
    d: CalendarDate,
)
    requires
        0 <= i < items.len(),
        items[i].title is Some,
        items[i].link is Some,
        crate::group::parsed_of(items[i]) == Some(d),
    ensures
        ({
            let ps = placements(items, today, policy);
            let t = entry_text(items[i].title->Some_0@, items[i].link->Some_0@);
            &&& ps[i] == (Placement::Filed { date: d, text: t, fallback: false })
            &&& texts_for(filed(ps), d).contains(t)
            &&& forall|e: CalendarDate| #[trigger]
                texts_for(filed(ps), e).len() == count_under(ps, e)
        }),
{
    let ps = placements(items, today, policy);
    law_filed_at_rank(ps, d, i);
    assert forall|e: CalendarDate| #[trigger]
        texts_for(filed(ps), e).len() == count_under(ps, e) by {
        law_bucket_sizes(ps, e);
    }
}

proof fn lemma_count_take_grows(ps: Seq<Placement>, d: CalendarDate, i: int, j: int)
    requires
        0 <= i < j <= ps.len(),
        files_under(ps[i], d),
    ensures
        count_under(ps.take(j), d) >= count_under(ps.take(i), d) + 1,
    decreases j - i,
{
    let pj = ps.take(j);
    assert(pj.drop_last() =~= ps.take(j - 1));
    if j - 1 == i {
        assert(pj.last() == ps[i]);
    } else {
        lemma_count_take_grows(ps, d, i, j - 1);
    }
}

/// Within a bucket, entries keep the relative order of their records.
pub proof fn law_order_kept(ps: Seq<Placement>, d: CalendarDate, i: int, j: int)
    requires
        0 <= i < j < ps.len(),
        files_under(ps[i], d),
        files_under(ps[j], d),
    ensures
        exists|p: int, q: int|
            0 <= p < q < texts_for(filed(ps), d).len() && texts_for(filed(ps), d)[p]
                == ps[i]->Filed_text && texts_for(filed(ps), d)[q] == ps[j]->Filed_text,
{
    law_filed_at_rank(ps, d, i);
    law_filed_at_rank(ps, d, j);
    lemma_count_take_grows(ps, d, i, j);
    let p = count_under(ps.take(i), d) as int;
    let q = count_under(ps.take(j), d) as int;
    assert(0 <= p < q < texts_for(filed(ps), d).len());
}

proof fn lemma_filed_skip(ps: Seq<Placement>, i: int)
    requires
        0 <= i < ps.len(),
        !(ps[i] is Filed),
    ensures
        filed(ps) == filed(ps.remove(i)),
    decreases ps.len(),
{
    let q = ps.drop_last();
    if i == ps.len() - 1 {
        assert(ps.remove(i) =~= q);
    } else {
        assert(ps.remove(i).drop_last() =~= q.remove(i));
        assert(ps.remove(i).last() == ps.last());
        lemma_filed_skip(q, i);
    }
}

/// A record without a title leaves every bucket as it would be without it.
pub proof fn law_untitled_excluded(
    items: Seq<RawBookmark>,
    today: CalendarDate,
    policy: UnparseablePolicy,
    i: int,
)
    requires
        0 <= i < items.len(),
        items[i].title is None,
    ensures
        placements(items, today, policy)[i] is Untitled,
        filed(placements(items, today, policy)) == filed(placements(items.remove(i), today, policy)),
{
    let ps = placements(items, today, policy);
    assert(placements(items.remove(i), today, policy) =~= ps.remove(i));
    lemma_filed_skip(ps, i);
}

/// A titled, linked record whose timestamp cannot be read is filed under the
/// current date when the policy says so, and dropped otherwise.
pub proof fn law_unparseable(item: RawBookmark, today: CalendarDate)
    requires
        item.title is Some,
        item.created is Some,
        item.link is Some,
    ensures
        placement(item, None, today, UnparseablePolicy::FileUnderToday) == (Placement::Filed {
            date: today,
            text: entry_text(item.title->Some_0@, item.link->Some_0@),
            fallback: true,
        }),
        placement(item, None, today, UnparseablePolicy::Drop) is Dropped,
{
}

proof fn lemma_sections_take(m: Seq<BucketView>, i: int)
    requires
        0 <= i < m.len(),
    ensures
        sections(m.take(i + 1)) == sections(m.take(i)) + section(m[i]),
{
    assert(m.take(i + 1).drop_last() =~= m.take(i));
}

/// A well-formed mapping renders its sections one per bucket, in ascending
/// chronological order of their dates.
pub proof fn law_sections_ascending(m: Seq<BucketView>, i: int, j: int)
    requires
        well_formed(m),
        0 <= i < j < m.len(),
    ensures
        m[i].0.before(m[j].0),
        document(m) == title_line() + sections(m),
        sections(m.take(i + 1)) == sections(m.take(i)) + section(m[i]),
        sections(m.take(j + 1)) == sections(m.take(j)) + section(m[j]),
{
    lemma_sections_take(m, i);
    lemma_sections_take(m, j);
}


/// `a` and `b` first differ at `k`, where `a` holds the smaller character.
pub open spec fn first_smaller_at(a: Seq<char>, b: Seq<char>, k: int) -> bool {
    0 <= k < a.len() && k < b.len() && a.take(k) == b.take(k) && (a[k] as u32) < (b[k] as u32)
}

/// Lexicographic order of texts by character code, as byte-wise string
/// comparison orders them.
pub open spec fn text_before(a: Seq<char>, b: Seq<char>) -> bool {
    (exists|k: int| #[trigger] first_smaller_at(a, b, k)) || (a.len() < b.len() && b.take(
        a.len() as int,
    ) == a)
}

proof fn lemma_digit_code(d: int)
    requires
        0 <= d <= 9,
    ensures
        digit_char(d) as u32 == 48 + d,
{
}

proof fn lemma_padded4(n: nat)
    requires
        n <= 9999,
    ensures
        padded(n, 4) == seq![
            digit_char((n / 1000) as int),
            digit_char(((n / 100) % 10) as int),
            digit_char(((n / 10) % 10) as int),
            digit_char((n % 10) as int),
        ],
{
    reveal_with_fuel(decimal, 5);
    if n < 10 {
        assert(padded(n, 4) =~= seq!['0', '0', '0'] + seq![digit_char(n as int)]);
    } else if n < 100 {
        assert(decimal(n) =~= seq![digit_char((n / 10) as int), digit_char((n % 10) as int)]);
        assert(padded(n, 4) =~= seq!['0', '0'] + decimal(n));
    } else if n < 1000 {
        assert((n / 10) / 10 == n / 100);
        assert(decimal(n) =~= seq![
            digit_char((n / 100) as int),
            digit_char(((n / 10) % 10) as int),
            digit_char((n % 10) as int),
        ]);
        assert(padded(n, 4) =~= seq!['0'] + decimal(n));
    } else {
        assert((n / 10) / 10 == n / 100);
        assert((n / 100) / 10 == n / 1000);
        assert(decimal(n) =~= seq![
            digit_char((n / 1000) as int),
            digit_char(((n / 100) % 10) as int),
            digit_char(((n / 10) % 10) as int),
            digit_char((n % 10) as int),
        ]);
    }
}

proof fn lemma_padded2(n: nat)
    requires
        n <= 99,
    ensures
        padded(n, 2) == seq![digit_char((n / 10) as int), digit_char((n % 10) as int)],
{
    reveal_with_fuel(decimal, 3);
    if n < 10 {
        assert(padded(n, 2) =~= seq!['0'] + seq![digit_char(n as int)]);
    } else {
        assert(decimal(n) =~= seq![digit_char((n / 10) as int), digit_char((n % 10) as int)]);
    }
}

/// The eight digit values of a date key, in text order.
spec fn key_digits(d: CalendarDate) -> Seq<int> {
    let y = d.year as int;
    let m = d.month as int;
    let a = d.day as int;
    seq![y / 1000, (y / 100) % 10, (y / 10) % 10, y % 10, m / 10, m % 10, a / 10, a % 10]
}

/// The text position of each digit of a date key.
spec fn digit_pos(i: int) -> int {
    if i < 4 {
        i
    } else if i < 6 {
        i + 1
    } else {
        i + 2
    }
}

proof fn lemma_key_shape(d: CalendarDate)
    requires
        d.valid(),
        0 <= d.year <= 9999,
    ensures
        date_key(d).len() == 10,
        date_key(d)[4] == '-',
        date_key(d)[7] == '-',
        forall|i: int| 0 <= i < 8 ==> date_key(d)[#[trigger] digit_pos(i)] == digit_char(
            key_digits(d)[i],
        ),
        forall|i: int| 0 <= i < 8 ==> 0 <= #[trigger] key_digits(d)[i] <= 9,
{
    let y = d.year as nat;
    lemma_padded4(y);
    lemma_padded2(d.month as nat);
    lemma_padded2(d.day as nat);
    let k = date_key(d);
    let ds = key_digits(d);
    assert(k =~= seq![
        digit_char(ds[0]),
        digit_char(ds[1]),
        digit_char(ds[2]),
        digit_char(ds[3]),
        '-',
        digit_char(ds[4]),
        digit_char(ds[5]),
        '-',
        digit_char(ds[6]),
        digit_char(ds[7]),
    ]);
}

/// A number below 10000 is the value of its four digits.
proof fn lemma_split4(y: int)
    requires
        0 <= y <= 9999,
    ensures
        y == 1000 * (y / 1000) + 100 * ((y / 100) % 10) + 10 * ((y / 10) % 10) + y % 10,
        0 <= y / 1000 <= 9,
        0 <= (y / 100) % 10 <= 9,
        0 <= (y / 10) % 10 <= 9,
        0 <= y % 10 <= 9,
{
    assert(y / 100 == 10 * (y / 1000) + (y / 100) % 10);
    assert(y / 10 == 10 * (y / 100) + (y / 10) % 10);
}

/// Every element is a decimal digit.
spec fn all_digits(xs: Seq<int>) -> bool {
    forall|j: int| 0 <= j < xs.len() ==> 0 <= #[trigger] xs[j] <= 9
}

/// Place values that are positive and at least ten times the next one.
spec fn place_values(w: Seq<int>) -> bool {
    forall|j: int| 0 <= j < w.len() ==> #[trigger] w[j] >= 1 && (j + 1 < w.len() ==> w[j] >= 10 * w[j + 1])
}

/// The value of the digits of `xs` from position `i` on, with place values `w`.
spec fn weighted_from(xs: Seq<int>, w: Seq<int>, i: int) -> int
    decreases xs.len() - i,
{
    if i < 0 || i >= xs.len() {
        0
    } else {
        w[i] * xs[i] + weighted_from(xs, w, i + 1)
    }
}

/// Digits from position `i` on are worth less than ten times the place value at `i`.
proof fn lemma_weighted_bound(xs: Seq<int>, w: Seq<int>, i: int)
    requires
        xs.len() == w.len(),
        all_digits(xs),
        place_values(w),
        0 <= i <= xs.len(),
    ensures
        0 <= weighted_from(xs, w, i),
        i < xs.len() ==> weighted_from(xs, w, i) < 10 * w[i],
    decreases xs.len() - i,
{
    if i < xs.len() {
        lemma_weighted_bound(xs, w, i + 1);
        assert(0 <= w[i] * xs[i] <= 9 * w[i]) by (nonlinear_arith)
            requires
                0 <= xs[i] <= 9,
                w[i] >= 1,
        ;
        if i + 1 < xs.len() {
            assert(w[i] >= 10 * w[i + 1]);
        }
    }
}

/// Of two digit strings of equal length, the smaller value has the smaller
/// digit where they first differ.
proof fn lemma_first_digit_smaller(xs: Seq<int>, ys: Seq<int>, w: Seq<int>, i: int) -> (k: int)
    requires
        xs.len() == ys.len() == w.len(),
        all_digits(xs),
        all_digits(ys),
        place_values(w),
        0 <= i <= xs.len(),
        forall|j: int| 0 <= j < i ==> #[trigger] xs[j] == ys[j],
        weighted_from(xs, w, i) < weighted_from(ys, w, i),
    ensures
        i <= k < xs.len(),
        xs[k] < ys[k],
        forall|j: int| 0 <= j < k ==> #[trigger] xs[j] == ys[j],
    decreases xs.len() - i,
{
    if xs[i] == ys[i] {
        lemma_first_digit_smaller(xs, ys, w, i + 1)
    } else {
        if xs[i] > ys[i] {
            lemma_weighted_bound(xs, w, i + 1);
            lemma_weighted_bound(ys, w, i + 1);
            if i + 1 < xs.len() {
                assert(w[i] >= 10 * w[i + 1]);
            }
            assert(w[i] * xs[i] >= w[i] * ys[i] + w[i]) by (nonlinear_arith)
                requires
                    xs[i] >= ys[i] + 1,
                    w[i] >= 1,
            ;
        }
        i
    }
}

/// Place values of the eight digits of a date key.
spec fn key_weights() -> Seq<int> {
    seq![10000000, 1000000, 100000, 10000, 1000, 100, 10, 1]
}

/// The first digit where two dates' keys differ is smaller in the earlier date.
proof fn lemma_digits_before(a: CalendarDate, b: CalendarDate) -> (i: int)
    requires
        a.valid(),
        b.valid(),
        0 <= a.year <= 9999,
        0 <= b.year <= 9999,
        a.before(b),
    ensures
        0 <= i < 8,
        key_digits(a)[i] < key_digits(b)[i],
        forall|j: int| 0 <= j < i ==> #[trigger] key_digits(a)[j] == key_digits(b)[j],
{
    let (da, db, w) = (key_digits(a), key_digits(b), key_weights());
    lemma_split4(a.year as int);
    lemma_split4(b.year as int);
    reveal_with_fuel(weighted_from, 9);
    assert(weighted_from(da, w, 0) == 10000 * a.year + 100 * a.month + a.day);
    assert(weighted_from(db, w, 0) == 10000 * b.year + 100 * b.month + b.day);
    lemma_first_digit_smaller(da, db, w, 0)
}

/// Where `a` comes before `b`, its key comes before `b`'s as text.
proof fn lemma_key_before(a: CalendarDate, b: CalendarDate)
    requires
        a.valid(),
        b.valid(),
        0 <= a.year <= 9999,
        0 <= b.year <= 9999,
        a.before(b),
    ensures
        text_before(date_key(a), date_key(b)),
{
    let i = lemma_digits_before(a, b);
    lemma_key_shape(a);
    lemma_key_shape(b);
    let (ka, kb) = (date_key(a), date_key(b));
    let p = digit_pos(i);
    assert forall|q: int| 0 <= q < p implies ka[q] == kb[q] by {
        if q != 4 && q != 7 {
            let j = if q < 4 {
                q
            } else if q < 7 {
                q - 1
            } else {
                q - 2
            };
            assert(digit_pos(j) == q);
            assert(key_digits(a)[j] == key_digits(b)[j]);
        }
    }
    assert(ka.take(p) =~= kb.take(p));
    lemma_digit_code(key_digits(a)[i]);
    lemma_digit_code(key_digits(b)[i]);
    assert(first_smaller_at(ka, kb, p));
}

proof fn lemma_text_before_asymmetric(a: Seq<char>, b: Seq<char>)
    requires
        a.len() == b.len(),
    ensures
        !(text_before(a, b) && text_before(b, a)),
{
    if text_before(a, b) && text_before(b, a) {
        let k = choose|k: int| #[trigger] first_smaller_at(a, b, k);
        let l = choose|l: int| #[trigger] first_smaller_at(b, a, l);
        if k < l {
            assert(b.take(l)[k] == a.take(l)[k]);
        } else if l < k {
            assert(a.take(k)[l] == b.take(k)[l]);
        }
    }
}

/// For dates with four-digit years, the text order of their `YYYY-MM-DD`
/// keys is their chronological order.
pub proof fn law_key_order_is_chronological(a: CalendarDate, b: CalendarDate)
    requires
        a.valid(),
        b.valid(),
        0 <= a.year <= 9999,
        0 <= b.year <= 9999,
    ensures
        text_before(date_key(a), date_key(b)) <==> a.before(b),
{
    lemma_key_shape(a);
    lemma_key_shape(b);
    if a.before(b) {
        lemma_key_before(a, b);
    } else if b.before(a) {
        lemma_key_before(b, a);
        lemma_text_before_asymmetric(date_key(a), date_key(b));
    } else {
        assert(a == b);
        lemma_text_before_asymmetric(date_key(a), date_key(a));
    }
}

/// In a well-formed mapping whose dates are valid and have four-digit years,
/// the headings' `YYYY-MM-DD` keys also ascend as text.
pub proof fn law_headings_ascend_as_text(m: Seq<BucketView>, i: int, j: int)
    requires
        well_formed(m),
        0 <= i < j < m.len(),
        m[i].0.valid() && 0 <= m[i].0.year <= 9999,
        m[j].0.valid() && 0 <= m[j].0.year <= 9999,
    ensures
        text_before(date_key(m[i].0), date_key(m[j].0)),
{
    law_key_order_is_chronological(m[i].0, m[j].0);
}


/// The records that have a title, in order.
pub open spec fn titled_only(items: Seq<RawBookmark>) -> Seq<RawBookmark>
    decreases items.len(),
{
    if items.len() == 0 {
        items
    } else if items.last().title is Some {
        titled_only(items.drop_last()).push(items.last())
    } else {
        titled_only(items.drop_last())
    }
}

proof fn lemma_filed_titled(items: Seq<RawBookmark>, today: CalendarDate, policy: UnparseablePolicy)
    ensures
        filed(placements(items, today, policy)) == filed(
            placements(titled_only(items), today, policy),
        ),
    decreases items.len(),
{
    if items.len() > 0 {
        let p = items.drop_last();
        lemma_filed_titled(p, today, policy);
        assert(placements(items, today, policy).drop_last() =~= placements(p, today, policy));
        if items.last().title is Some {
            let t = titled_only(p);
            assert(placements(t.push(items.last()), today, policy).drop_last() =~= placements(
                t,
                today,
                policy,
            ));
        }
    }
}

proof fn lemma_well_formed_drop_last(m: Seq<BucketView>)
    requires
        well_formed(m),
        m.len() > 0,
    ensures
        well_formed(m.drop_last()),
        !has_date(m.drop_last(), m.last().0),
{
    let p = m.drop_last();
    assert forall|a: int, b: int| 0 <= a < b < p.len() implies (#[trigger] p[a]).0.before(
        (#[trigger] p[b]).0,
    ) by {
        assert(p[a] == m[a] && p[b] == m[b]);
    }
    assert forall|a: int| 0 <= a < p.len() implies (#[trigger] p[a]).1.len() > 0 by {
        assert(p[a] == m[a]);
    }
    if has_date(p, m.last().0) {
        let j = choose|j: int| 0 <= j < p.len() && (#[trigger] p[j]).0 == m.last().0;
        assert(m[j].0.before(m[m.len() - 1].0));
    }
}

/// Where `lookup` finds something for the date `d`, some bucket has that date,
/// at or before the last one.
proof fn lemma_found_not_after_last(m: Seq<BucketView>, d: CalendarDate)
    requires
        well_formed(m),
        lookup(m, d).len() > 0,
    ensures
        m.len() > 0,
        d == m.last().0 || d.before(m.last().0),
{
    if !has_date(m, d) {
        lemma_lookup_absent(m, d);
    } else {
        let j = choose|j: int| 0 <= j < m.len() && (#[trigger] m[j]).0 == d;
        if j < m.len() - 1 {
            assert(m[j].0.before(m[m.len() - 1].0));
        }
    }
}

/// Two well-formed mappings that file the same entries under every date are
/// the same mapping.
pub proof fn law_mapping_determined_by_entries(m1: Seq<BucketView>, m2: Seq<BucketView>)
    requires
        well_formed(m1),
        well_formed(m2),
        forall|d: CalendarDate| #[trigger] lookup(m1, d) == lookup(m2, d),
    ensures
        m1 == m2,
    decreases m1.len() + m2.len(),
{
    if m1.len() > 0 {
        lemma_lookup_at(m1, m1.len() - 1);
        lemma_found_not_after_last(m2, m1.last().0);
    }
    if m2.len() > 0 {
        lemma_lookup_at(m2, m2.len() - 1);
        lemma_found_not_after_last(m1, m2.last().0);
    }
    if m1.len() == 0 && m2.len() == 0 {
        assert(m1 =~= m2);
    } else {
        let x = m1.last().0;
        assert(x == m2.last().0);
        let (p1, p2) = (m1.drop_last(), m2.drop_last());
        lemma_well_formed_drop_last(m1);
        lemma_well_formed_drop_last(m2);
        assert forall|d: CalendarDate| #[trigger] lookup(p1, d) == lookup(p2, d) by {
            if d == x {
                lemma_lookup_absent(p1, d);
                lemma_lookup_absent(p2, d);
            } else {
                assert(lookup(m1, d) == lookup(p1, d));
                assert(lookup(m2, d) == lookup(p2, d));
            }
        }
        law_mapping_determined_by_entries(p1, p2);
        assert(m1 =~= p1.push(m1.last()));
        assert(m2 =~= p2.push(m2.last()));
    }
}

/// Leaving out the records without a title changes nothing in the document:
/// a grouping of all records and a grouping of the titled ones alone render
/// to the same text.
pub proof fn law_untitled_leave_document_unchanged(
    items: Seq<RawBookmark>,
    today: CalendarDate,
    policy: UnparseablePolicy,
    all: BookmarksByDate,
    all_notes: Seq<crate::group::Diagnostic>,
    titled: BookmarksByDate,
    titled_notes: Seq<crate::group::Diagnostic>,
)
    requires
        grouping_of(items, today, policy, all, all_notes),
        grouping_of(titled_only(items), today, policy, titled, titled_notes),
    ensures
        all.view() == titled.view(),
        document(all.view()) == document(titled.view()),
{
    lemma_filed_titled(items, today, policy);
    assert forall|d: CalendarDate| #[trigger] lookup(all.view(), d) == lookup(titled.view(), d) by {
        assert(all.entries_of(d) == titled.entries_of(d));
    }
    law_mapping_determined_by_entries(all.view(), titled.view());
}


/// The record a note is about.
pub open spec fn note_index(n: Note) -> int {
    match n {
        Note::MissingCreated(i) => i,
        Note::Unparseable(i, _) => i,
    }
}

/// Notes are made only about records that have a title: an untitled record
/// is left out silently.
pub proof fn law_untitled_unnoted(items: Seq<RawBookmark>, ps: Seq<Placement>, n: int)
    requires
        0 <= n <= ps.len(),
    ensures
        forall|k: int|
            0 <= k < notes(items, ps, n).len() ==> 0 <= #[trigger] note_index(notes(items, ps, n)[k])
                < n && !(ps[note_index(notes(items, ps, n)[k])] is Untitled),
    decreases n,
{
    if n > 0 {
        law_untitled_unnoted(items, ps, n - 1);
    }
}

/// Rendering depends on the mapping alone: equal mappings render to the same
/// text.
pub proof fn law_render_repeatable(a: &BookmarksByDate, b: &BookmarksByDate)
    requires
        a.view() == b.view(),
    ensures
        document(a.view()) == document(b.view()),
{
}

} // verus!
