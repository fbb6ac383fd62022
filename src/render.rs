//! The Markdown document: a title, then one section per date.

use vstd::prelude::*;

use crate::buckets::{BookmarksByDate, BucketView};
use crate::date::date_key;

verus! {

/// The document's first line.
pub open spec fn title_line() -> Seq<char> {
    seq!['#', ' ', 'B', 'o', 'm', 'a', 'j', 'o', 'u', '\n']
}

/// The bullet lines of a bucket's entries, in order.
pub open spec fn entry_lines(es: Seq<Seq<char>>) -> Seq<char>
    decreases es.len(),
{
    if es.len() == 0 {
        Seq::empty()
    } else {
        entry_lines(es.drop_last()) + seq!['-', ' '] + es.last() + seq!['\n']
    }
}

/// A blank line, the heading `## [[YYYY-MM-DD]]`, a blank line, then the
/// bucket's bullet lines.
pub open spec fn section(b: BucketView) -> Seq<char> {
    seq!['\n', '#', '#', ' ', '[', '['] + date_key(b.0) + seq![']', ']', '\n', '\n'] + entry_lines(
        b.1,
    )
}

/// The sections of the buckets, in order.
pub open spec fn sections(m: Seq<BucketView>) -> Seq<char>
    decreases m.len(),
{
    if m.len() == 0 {
        Seq::empty()
    } else {
        sections(m.drop_last()) + section(m.last())
    }
}

/// The whole document for a mapping.
pub open spec fn document(m: Seq<BucketView>) -> Seq<char> {
    title_line() + sections(m)
}

/// Renders the mapping as Markdown: the title line, then for each bucket in
/// stored order its date heading and one bullet per entry.
pub fn render(m: &BookmarksByDate) -> (r: String)
    ensures
        r@ == document(m.view()),
{
    let mut out = String::new();
    out.append("# Bomajou\n");
    proof {
        reveal_strlit("# Bomajou\n");
    }
    assert(out@ =~= title_line());
    let ghost v = m.view();
    let mut i: usize = 0;
    while i < m.buckets.len()
        invariant
            i <= m.buckets@.len(),
            v == m.view(),
            out@ == title_line() + sections(v.take(i as int)),
        decreases m.buckets@.len() - i,
    {
        let b = &m.buckets[i];
        assert(v[i as int] == b.view());
        let ghost head = out@;
        out.append("\n## [[");
        let key = b.date.key();
        out.append(key.as_str());
        out.append("]]\n\n");
        proof {
            reveal_strlit("\n## [[");
            reveal_strlit("]]\n\n");
        }
        let ghost es = b.view().1;
        let ghost start = out@;
        assert(es.take(0) =~= Seq::<Seq<char>>::empty());
        assert(start =~= head + seq!['\n', '#', '#', ' ', '[', '['] + date_key(b.date) + seq![
            ']',
            ']',
            '\n',
            '\n',
        ] + entry_lines(es.take(0)));
        let mut j: usize = 0;
        while j < b.entries.len()
            invariant
                j <= b.entries@.len(),
                es == b.view().1,
                out@ == start + entry_lines(es.take(j as int)),
            decreases b.entries@.len() - j,
        {
            out.append("- ");
            out.append(b.entries[j].as_str());
            out.append("\n");
            proof {
                reveal_strlit("- ");
                reveal_strlit("\n");
            }
            assert(es.take(j + 1).drop_last() =~= es.take(j as int));
            assert(es[j as int] == b.entries@[j as int]@);
            assert(out@ =~= start + entry_lines(es.take(j + 1)));
            j = j + 1;
        }
        assert(es.take(j as int) =~= es);
        assert(v.take(i + 1).drop_last() =~= v.take(i as int));
        assert(out@ =~= title_line() + sections(v.take(i + 1)));
        i = i + 1;
    }
    assert(v.take(i as int) =~= v);
    out
}

} // verus!
