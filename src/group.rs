//! Files bookmark records under the UTC date of their creation.

use vstd::prelude::*;

use crate::buckets::{BookmarksByDate, lookup};
use crate::date::{CalendarDate, parsed_created, push_char};

verus! {

/// The fields of one bookmark record that the grouping reads: each is the
/// field's string, or `None` where it is absent.  For `created` and `link`,
/// a value that is not a string counts as absent; a `title` that is not a
/// string stands as its JSON text.
#[derive(Clone, Debug)]
pub struct RawBookmark {
    pub title: Option<String>,
    pub created: Option<String>,
    pub link: Option<String>,
}

/// What becomes of a record whose `created` timestamp cannot be read.
#[derive(Clone, Copy, Debug, PartialEq, Eq, Structural)]
pub enum UnparseablePolicy {
    /// File it under the current date.
    FileUnderToday,
    /// Leave it out of the output.
    Drop,
}

/// Why a grouping run was abandoned.
#[derive(Clone, Copy, Debug, PartialEq, Eq, Structural)]
pub enum GroupError {
    /// The response has no `items` field.
    MissingItems,
    /// The `items` field is not an array.
    ItemsNotArray,
    /// The record at this index has a title and a timestamp but no `link`.
    MissingLink(usize),
}

/// A note on a record that was skipped or filed by a fallback rule.
#[derive(Clone, Debug, PartialEq, Eq)]
pub enum Diagnostic {
    /// The record at `index` has a title but no string `created` field.
    MissingCreated { index: usize },
    /// The record at `index` has a `created` field that cannot be read.
    UnparseableTimestamp { index: usize, text: String },
}

/// What happens to one record.
#[derive(Clone, Debug)]
pub enum ItemOutcome {
    Untitled,
    MissingCreated,
    Dropped,
    MissingLink,
    Filed { date: CalendarDate, text: String, fallback: bool },
}

/// [`ItemOutcome`] with its text as a sequence of characters.
pub enum Placement {
    Untitled,
    MissingCreated,
    Dropped,
    MissingLink,
    Filed { date: CalendarDate, text: Seq<char>, fallback: bool },
}

/// [`Diagnostic`] with its text as a sequence of characters.
pub enum Note {
    MissingCreated(int),
    Unparseable(int, Seq<char>),
}

impl ItemOutcome {
    pub open spec fn view(&self) -> Placement {
        match self {
            ItemOutcome::Untitled => Placement::Untitled,
            ItemOutcome::MissingCreated => Placement::MissingCreated,
            ItemOutcome::Dropped => Placement::Dropped,
            ItemOutcome::MissingLink => Placement::MissingLink,
            ItemOutcome::Filed { date, text, fallback } => Placement::Filed {
                date: *date,
                text: text@,
                fallback: *fallback,
            },
        }
    }
}

impl Diagnostic {
    pub open spec fn view(&self) -> Note {
        match self {
            Diagnostic::MissingCreated { index } => Note::MissingCreated(*index as int),
            Diagnostic::UnparseableTimestamp { index, text } => Note::Unparseable(
                *index as int,
                text@,
            ),
        }
    }
}

/// The entry `[title](link)`.
pub open spec fn entry_text(title: Seq<char>, link: Seq<char>) -> Seq<char> {
    seq!['['] + title + seq![']', '('] + link + seq![')']
}

/// What happens to `item`, given the date read from its timestamp.
pub open spec fn placement(
    item: RawBookmark,
    parsed: Option<CalendarDate>,
    today: CalendarDate,
    policy: UnparseablePolicy,
) -> Placement {
    match item.title {
        None => Placement::Untitled,
        Some(t) => match item.created {
            None => Placement::MissingCreated,
            Some(_) => {
                if parsed is None && policy == UnparseablePolicy::Drop {
                    Placement::Dropped
                } else {
                    match item.link {
                        None => Placement::MissingLink,
                        Some(l) => Placement::Filed {
                            date: match parsed {
                                Some(d) => d,
                                None => today,
                            },
                            text: entry_text(t@, l@),
                            fallback: parsed is None,
                        },
                    }
                }
            },
        },
    }
}

/// The date read from the record's timestamp.
pub open spec fn parsed_of(item: RawBookmark) -> Option<CalendarDate> {
    match item.created {
        Some(c) => parsed_created(c@),
        None => None,
    }
}

/// What happens to each record.
pub open spec fn placements(
    items: Seq<RawBookmark>,
    today: CalendarDate,
    policy: UnparseablePolicy,
) -> Seq<Placement> {
    Seq::new(items.len(), |i: int| placement(items[i], parsed_of(items[i]), today, policy))
}

/// The (date, entry) pairs of the filed records, in record order.
pub open spec fn filed(ps: Seq<Placement>) -> Seq<(CalendarDate, Seq<char>)>
    decreases ps.len(),
{
    if ps.len() == 0 {
        Seq::empty()
    } else {
        match ps.last() {
            Placement::Filed { date, text, .. } => filed(ps.drop_last()).push((date, text)),
            _ => filed(ps.drop_last()),
        }
    }
}

/// The entries of `fs` filed under `d`, in order.
pub open spec fn texts_for(fs: Seq<(CalendarDate, Seq<char>)>, d: CalendarDate) -> Seq<Seq<char>>
    decreases fs.len(),
{
    if fs.len() == 0 {
        Seq::empty()
    } else if fs.last().0 == d {
        texts_for(fs.drop_last(), d).push(fs.last().1)
    } else {
        texts_for(fs.drop_last(), d)
    }
}

/// The notes on the first `n` records.
pub open spec fn notes(items: Seq<RawBookmark>, ps: Seq<Placement>, n: int) -> Seq<Note>
    decreases n,
{
    if n <= 0 {
        Seq::empty()
    } else {
        let prev = notes(items, ps, n - 1);
        match ps[n - 1] {
            Placement::MissingCreated => prev.push(Note::MissingCreated(n - 1)),
            Placement::Dropped => prev.push(Note::Unparseable(n - 1, items[n - 1].created->Some_0@)),
            Placement::Filed { fallback, .. } => if fallback {
                prev.push(Note::Unparseable(n - 1, items[n - 1].created->Some_0@))
            } else {
                prev
            },
            _ => prev,
        }
    }
}

/// The grouped records and the notes made while grouping them.
#[derive(Clone, Debug)]
pub struct Grouped {
    pub dates: BookmarksByDate,
    pub diagnostics: Vec<Diagnostic>,
}

/// Decides what happens to `item`, given the date read from its timestamp
/// (`None` where it could not be read) and the current date.
pub fn place_item(
    item: &RawBookmark,
    parsed: Option<CalendarDate>,
    today: CalendarDate,
    policy: UnparseablePolicy,
) -> (r: ItemOutcome)
    ensures
        r.view() == placement(*item, parsed, today, policy),
{
    match &item.title {
        None => ItemOutcome::Untitled,
        Some(t) => match &item.created {
            None => ItemOutcome::MissingCreated,
            Some(_) => {
                let unparsed = parsed.is_none();
                if unparsed && policy == UnparseablePolicy::Drop {
                    ItemOutcome::Dropped
                } else {
                    match &item.link {
                        None => ItemOutcome::MissingLink,
                        Some(l) => {
                            let date = match parsed {
                                Some(d) => d,
                                None => today,
                            };
                            let mut text = String::new();
                            push_char(&mut text, '[');
                            text.append(t.as_str());
                            push_char(&mut text, ']');
                            push_char(&mut text, '(');
                            text.append(l.as_str());
                            push_char(&mut text, ')');
                            assert(text@ =~= entry_text(t@, l@));
                            ItemOutcome::Filed { date, text, fallback: unparsed }
                        },
                    }
                }
            },
        },
    }
}

/// Files every titled record with a timestamp under its date, in record
/// order; the first titled, timestamped record without a link abandons the
/// run.
pub fn group_items(items: &Vec<RawBookmark>, today: CalendarDate, policy: UnparseablePolicy) -> (r:
    Result<Grouped, GroupError>)
    ensures
        ({
            let ps = placements(items@, today, policy);
            &&& r is Err <==> exists|i: int| 0 <= i < ps.len() && #[trigger] ps[i] is MissingLink
            &&& r is Err ==> r->Err_0 is MissingLink
            &&& r matches Err(GroupError::MissingLink(i)) ==> i < ps.len() && ps[i as int] is MissingLink
                && forall|j: int| 0 <= j < i ==> !(#[trigger] ps[j] is MissingLink)
            &&& r matches Ok(g) ==> {
                &&& g.dates.wf()
                &&& forall|d: CalendarDate| #[trigger]
                    g.dates.entries_of(d) == texts_for(filed(ps), d)
                &&& g.diagnostics@.map_values(|x: Diagnostic| x.view()) == notes(
                    items@,
                    ps,
                    ps.len() as int,
                )
            }
        }),
{
    let ghost ps = placements(items@, today, policy);
    let mut dates = BookmarksByDate::new();
    let mut diagnostics: Vec<Diagnostic> = Vec::new();
    let mut i: usize = 0;
    while i < items.len()
        invariant
            i <= items@.len(),
            ps == placements(items@, today, policy),
            dates.wf(),
            forall|d: CalendarDate| #[trigger]
                dates.entries_of(d) == texts_for(filed(ps.take(i as int)), d),
            diagnostics@.map_values(|x: Diagnostic| x.view()) == notes(items@, ps, i as int),
            forall|j: int| 0 <= j < i ==> !(#[trigger] ps[j] is MissingLink),
        decreases items@.len() - i,
    {
        let item = &items[i];
        let parsed = match &item.created {
            Some(c) => CalendarDate::parse_timestamp(c.as_str()),
            None => None,
        };
        let outcome = place_item(item, parsed, today, policy);
        assert(ps.take(i + 1).drop_last() =~= ps.take(i as int));
        assert(ps[i as int] == outcome.view());
        let ghost before = diagnostics@.map_values(|x: Diagnostic| x.view());
        match outcome {
            ItemOutcome::Untitled => {},
            ItemOutcome::MissingCreated => {
                diagnostics.push(Diagnostic::MissingCreated { index: i });
                assert(diagnostics@.map_values(|x: Diagnostic| x.view()) =~= before.push(
                    Note::MissingCreated(i as int),
                ));
            },
            ItemOutcome::Dropped => {
                let text = item.created.clone().unwrap();
                diagnostics.push(Diagnostic::UnparseableTimestamp { index: i, text });
                assert(diagnostics@.map_values(|x: Diagnostic| x.view()) =~= before.push(
                    Note::Unparseable(i as int, items@[i as int].created->Some_0@),
                ));
            },
            ItemOutcome::MissingLink => {
                return Err(GroupError::MissingLink(i));
            },
            ItemOutcome::Filed { date, text, fallback } => {
                if fallback {
                    let c = item.created.clone().unwrap();
                    diagnostics.push(Diagnostic::UnparseableTimestamp { index: i, text: c });
                    assert(diagnostics@.map_values(|x: Diagnostic| x.view()) =~= before.push(
                        Note::Unparseable(i as int, items@[i as int].created->Some_0@),
                    ));
                }
                let ghost fs = filed(ps.take(i as int));
                let ghost t = text@;
                dates.insert(date, text);
                assert(filed(ps.take(i + 1)) == fs.push((date, t)));
                assert forall|d: CalendarDate| #[trigger]
                    dates.entries_of(d) == texts_for(fs.push((date, t)), d) by {
                    assert(fs.push((date, t)).drop_last() =~= fs);
                }
            },
        }
        i = i + 1;
    }
    assert(ps.take(i as int) =~= ps);
    Ok(Grouped { dates, diagnostics })
}

} // verus!
