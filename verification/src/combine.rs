use vstd::prelude::*;

use crate::duration::{max_duration_nanos, Duration};
use crate::text::{free_of, lemma_split_on_extend, lemma_split_on_separator, split_on};
use crate::timestamp::{
    parse_timestamp, timestamp_outcome, timestamp_overflows, TimestampError,
};

verus! {

/// Where the timing of a combined piece is taken from.
#[derive(Clone, Copy, Debug, PartialEq, Eq, Structural)]
pub enum ItemType {
    Audio,
    Subtitle,
}

impl From<i32> for ItemType {
    /// The choice made in the combine dialog: `1` picks the audio, every
    /// other value the subtitle.
    fn from(value: i32) -> (t: ItemType) {
        if value == 1 {
            ItemType::Audio
        } else {
            ItemType::Subtitle
        }
    }
}

impl vstd::std_specs::convert::FromSpecImpl<i32> for ItemType {
    open spec fn obeys_from_spec() -> bool {
        true
    }

    open spec fn from_spec(value: i32) -> ItemType {
        if value == 1 {
            ItemType::Audio
        } else {
            ItemType::Subtitle
        }
    }
}

/// The value of `audio` or `subtitle` that `from` picks.
pub open spec fn pick<T>(from: ItemType, audio: T, subtitle: T) -> T {
    match from {
        ItemType::Audio => audio,
        ItemType::Subtitle => subtitle,
    }
}

/// `Audio` takes the audio's value and `Subtitle` the subtitle's, whatever
/// the two values are.
pub proof fn lemma_pick<T>(audio: T, subtitle: T)
    ensures
        pick(ItemType::Audio, audio, subtitle) == audio,
        pick(ItemType::Subtitle, audio, subtitle) == subtitle,
{
}

/// Pairs the audio pieces with the subtitles, as far as both go: each
/// combined piece takes its start from `start_from` and its length from
/// `duration_from`. Both inputs hold (start, length) pairs.
pub fn combine_timings(
    audio: &[(Duration, Duration)],
    subtitles: &[(Duration, Duration)],
    start_from: ItemType,
    duration_from: ItemType,
) -> (timings: Vec<(Duration, Duration)>)
    ensures
        timings@.len() == if audio@.len() <= subtitles@.len() {
            audio@.len()
        } else {
            subtitles@.len()
        },
        forall|i: int|
            0 <= i < timings@.len() ==> #[trigger] timings@[i] == (
                pick(start_from, audio@[i].0, subtitles@[i].0),
                pick(duration_from, audio@[i].1, subtitles@[i].1),
            ),
{
    let count = if audio.len() <= subtitles.len() {
        audio.len()
    } else {
        subtitles.len()
    };
    let mut timings: Vec<(Duration, Duration)> = Vec::new();
    let mut i: usize = 0;
    while i < count
        invariant
            count <= audio@.len(),
            count <= subtitles@.len(),
            i <= count,
            timings@.len() == i,
            forall|k: int|
                0 <= k < i ==> #[trigger] timings@[k] == (
                    pick(start_from, audio@[k].0, subtitles@[k].0),
                    pick(duration_from, audio@[k].1, subtitles@[k].1),
                ),
        decreases count - i,
    {
        let start = match start_from {
            ItemType::Audio => audio[i].0,
            ItemType::Subtitle => subtitles[i].0,
        };
        let length = match duration_from {
            ItemType::Audio => audio[i].1,
            ItemType::Subtitle => subtitles[i].1,
        };
        timings.push((start, length));
        i = i + 1;
    }
    timings
}

/// The third cell of each row that has one, in order.
pub open spec fn third_cells(rows: Seq<Seq<Seq<char>>>) -> Seq<Seq<char>>
    decreases rows.len(),
{
    if rows.len() == 0 {
        Seq::empty()
    } else {
        let prev = third_cells(rows.drop_last());
        if rows.last().len() > 2 {
            prev.push(rows.last()[2])
        } else {
            prev
        }
    }
}

/// The texts are the third cells of exactly the rows that have three
/// cells or more, in the order of the rows.
pub proof fn lemma_third_cells_of_rows(rows: Seq<Seq<Seq<char>>>)
    ensures
        third_cells(rows) == rows.filter(|r: Seq<Seq<char>>| r.len() > 2).map_values(
            |r: Seq<Seq<char>>| r[2],
        ),
    decreases rows.len(),
{
    reveal(Seq::filter);
    let pred = |r: Seq<Seq<char>>| r.len() > 2;
    let third = |r: Seq<Seq<char>>| r[2];
    if rows.len() > 0 {
        let rest = rows.drop_last();
        lemma_third_cells_of_rows(rest);
        let kept = rest.filter(pred);
        assert(rows.filter(pred) == if pred(rows.last()) {
            kept.push(rows.last())
        } else {
            kept
        });
        if pred(rows.last()) {
            assert(kept.push(rows.last()).map_values(third) == kept.map_values(third).push(
                rows.last()[2],
            ));
        }
    } else {
        assert(rows.filter(pred).map_values(third) == Seq::<Seq<char>>::empty());
    }
}

/// `items` joined with a newline between each two of them.
pub open spec fn join_lines(items: Seq<Seq<char>>) -> Seq<char>
    decreases items.len(),
{
    if items.len() == 0 {
        Seq::empty()
    } else if items.len() == 1 {
        items[0]
    } else {
        join_lines(items.drop_last()) + seq!['\n'] + items.last()
    }
}

/// No text joins nothing, and one text is joined to itself alone.
pub proof fn lemma_join_lines_few(x: Seq<char>)
    ensures
        join_lines(Seq::<Seq<char>>::empty()) == Seq::<char>::empty(),
        join_lines(seq![x]) == x,
{
}

/// A text added after others comes after exactly one newline.
pub proof fn lemma_join_lines_push(items: Seq<Seq<char>>, x: Seq<char>)
    requires
        items.len() > 0,
    ensures
        join_lines(items.push(x)) == join_lines(items) + seq!['\n'] + x,
{
    assert(items.push(x).drop_last() == items);
}

/// Two joined runs of texts, joined again with one newline, are the
/// joining of all of them.
pub proof fn lemma_join_lines_concat(a: Seq<Seq<char>>, b: Seq<Seq<char>>)
    requires
        a.len() > 0,
        b.len() > 0,
    ensures
        join_lines(a + b) == join_lines(a) + seq!['\n'] + join_lines(b),
    decreases b.len(),
{
    if b.len() == 1 {
        assert(a + b == a.push(b[0]));
        lemma_join_lines_push(a, b[0]);
    } else {
        let b0 = b.drop_last();
        lemma_join_lines_concat(a, b0);
        assert(a + b == (a + b0).push(b.last()));
        lemma_join_lines_push(a + b0, b.last());
        lemma_join_lines_push(b0, b.last());
        assert(b0.push(b.last()) == b);
    }
}

/// Texts without newlines are read back, one per line, from their joining.
pub proof fn lemma_join_lines_split(items: Seq<Seq<char>>)
    requires
        items.len() > 0,
        forall|i: int| 0 <= i < items.len() ==> free_of(#[trigger] items[i], seq!['\n']),
    ensures
        split_on(join_lines(items), seq!['\n']) == items,
    decreases items.len(),
{
    let seps = seq!['\n'];
    let e = Seq::<char>::empty();
    if items.len() == 1 {
        lemma_split_on_extend(e, items[0], seps);
        assert(e + items[0] == items[0]);
        assert(split_on(e, seps) == seq![e]);
        assert(seq![e].update(0, e + items[0]) == items);
    } else {
        let rest = items.drop_last();
        assert forall|i: int| 0 <= i < rest.len() implies free_of(#[trigger] rest[i], seps) by {
            assert(rest[i] == items[i]);
        }
        lemma_join_lines_split(rest);
        let j = join_lines(rest);
        assert(seps.contains('\n')) by {
            assert(seps[0] == '\n');
        }
        lemma_split_on_separator(j, '\n', seps);
        assert(free_of(items.last(), seps)) by {
            assert(items.last() == items[items.len() - 1]);
        }
        lemma_split_on_extend(j.push('\n'), items.last(), seps);
        assert(j + seq!['\n'] == j.push('\n'));
        assert(e + items.last() == items.last());
        assert(rest.push(e).update(rest.len() as int, items.last()) == items);
    }
}

/// The text column of the subtitle table, one line per row that has one,
/// as a text-to-speech tool takes it.
pub fn tts_text(rows: &Vec<Vec<String>>) -> (text: String)
    ensures
        text@ == join_lines(third_cells(rows.deep_view())),
        ({
            let texts = third_cells(rows.deep_view());
            texts.len() > 0 && (forall|k: int|
                0 <= k < texts.len() ==> free_of(#[trigger] texts[k], seq!['\n'])) ==> split_on(
                text@,
                seq!['\n'],
            ) == texts
        }),
{
    let mut text = String::new();
    let mut i: usize = 0;
    let mut any = false;
    let ghost all = rows.deep_view();
    while i < rows.len()
        invariant
            i <= rows@.len(),
            all == rows.deep_view(),
            text@ == join_lines(third_cells(all.take(i as int))),
            any == (third_cells(all.take(i as int)).len() > 0),
        decreases rows@.len() - i,
    {
        let ghost before = third_cells(all.take(i as int));
        assert(all.take(i + 1).drop_last() == all.take(i as int));
        assert(all.take(i + 1).last() == all[i as int]);
        assert(all[i as int] == rows[i as int].deep_view());
        if rows[i].len() > 2 {
            assert(all[i as int][2] == rows[i as int][2]@);
            if any {
                proof {
                    reveal_strlit("\n");
                }
                text.append("\n");
            }
            text.append(rows[i][2].as_str());
            any = true;
            assert(before.push(rows[i as int][2]@).drop_last() == before);
        }
        i = i + 1;
    }
    assert(all.take(rows@.len() as int) == all);
    proof {
        let texts = third_cells(all);
        if texts.len() > 0 && (forall|k: int|
            0 <= k < texts.len() ==> free_of(#[trigger] texts[k], seq!['\n'])) {
            lemma_join_lines_split(texts);
        }
    }
    text
}

/// Why a row of the subtitle table has no timing.
#[derive(Clone, Copy, Debug, PartialEq, Eq, Structural)]
pub enum RowProblem {
    /// The row has fewer than three cells.
    MissingCell,
    /// Reading a time cell leaves the `u64` range.
    Overflow,
    /// A time cell is refused.
    Unreadable(TimestampError),
    /// The row ends before it starts.
    EndBeforeStart,
}

/// The start and the length of a subtitle row (start, end, text), in
/// milliseconds, or why it has none; the start cell is read first.
pub open spec fn row_timing(row: Seq<Seq<char>>) -> Result<(nat, nat), RowProblem> {
    if row.len() < 3 {
        Err(RowProblem::MissingCell)
    } else {
        match timestamp_outcome(row[0]) {
            None => Err(RowProblem::Overflow),
            Some(Err(e)) => Err(RowProblem::Unreadable(e)),
            Some(Ok(start)) => match timestamp_outcome(row[1]) {
                None => Err(RowProblem::Overflow),
                Some(Err(e)) => Err(RowProblem::Unreadable(e)),
                Some(Ok(end)) => if end < start {
                    Err(RowProblem::EndBeforeStart)
                } else {
                    Ok((start, (end - start) as nat))
                },
            },
        }
    }
}

fn read_time(cell: &String) -> (r: Result<Duration, RowProblem>)
    ensures
        match timestamp_outcome(cell@) {
            None => r == Err::<Duration, RowProblem>(RowProblem::Overflow),
            Some(Err(e)) => r == Err::<Duration, RowProblem>(RowProblem::Unreadable(e)),
            Some(Ok(ms)) => r matches Ok(d) && d@ == ms * 1_000_000,
        },
{
    if timestamp_overflows(cell.as_str()) {
        return Err(RowProblem::Overflow);
    }
    match parse_timestamp(cell.as_str()) {
        Ok(d) => Ok(d),
        Err(e) => Err(RowProblem::Unreadable(e)),
    }
}

/// The start and the length of each subtitle row of the table, or the first
/// row that has none and why.
pub fn subtitle_timings(rows: &Vec<Vec<String>>) -> (r: Result<
    Vec<(Duration, Duration)>,
    (usize, RowProblem),
>)
    ensures
        match r {
            Ok(t) => t@.len() == rows@.len() && forall|i: int|
                0 <= i < t@.len() ==> (row_timing(#[trigger] rows.deep_view()[i]) matches Ok(
                    (start, length),
                ) && t@[i].0@ == start * 1_000_000 && t@[i].1@ == length * 1_000_000),
            Err((k, p)) => k < rows@.len() && row_timing(rows.deep_view()[k as int]) == Err::<
                (nat, nat),
                RowProblem,
            >(p) && forall|i: int| 0 <= i < k ==> #[trigger] row_timing(rows.deep_view()[i]) is Ok,
        },
{
    let ghost all = rows.deep_view();
    let mut timings: Vec<(Duration, Duration)> = Vec::new();
    let mut i: usize = 0;
    while i < rows.len()
        invariant
            i <= rows@.len(),
            all == rows.deep_view(),
            timings@.len() == i,
            forall|k: int|
                0 <= k < i ==> (row_timing(#[trigger] all[k]) matches Ok((start, length))
                    && timings@[k].0@ == start * 1_000_000 && timings@[k].1@ == length * 1_000_000),
        decreases rows@.len() - i,
    {
        let row = &rows[i];
        assert(all[i as int] == row.deep_view());
        if row.len() < 3 {
            return Err((i, RowProblem::MissingCell));
        }
        assert(all[i as int][0] == row@[0]@);
        assert(all[i as int][1] == row@[1]@);
        let start = match read_time(&row[0]) {
            Ok(d) => d,
            Err(p) => return Err((i, p)),
        };
        let end = match read_time(&row[1]) {
            Ok(d) => d,
            Err(p) => return Err((i, p)),
        };
        let length = match end.checked_sub(&start) {
            Some(l) => l,
            None => return Err((i, RowProblem::EndBeforeStart)),
        };
        timings.push((start, length));
        i = i + 1;
    }
    Ok(timings)
}

/// The (start, end) span of each (start, length) timing, or `None` where an
/// end passes the largest duration.
pub fn timing_spans(timings: &[(Duration, Duration)]) -> (r: Option<Vec<(Duration, Duration)>>)
    ensures
        match r {
            Some(spans) => spans@.len() == timings@.len() && forall|i: int|
                0 <= i < spans@.len() ==> #[trigger] spans@[i].0 == timings@[i].0 && spans@[i].1@
                    == timings@[i].0@ + timings@[i].1@,
            None => exists|i: int|
                0 <= i < timings@.len() && #[trigger] timings@[i].0@ + timings@[i].1@
                    > max_duration_nanos(),
        },
{
    let mut spans: Vec<(Duration, Duration)> = Vec::new();
    let mut i: usize = 0;
    while i < timings.len()
        invariant
            i <= timings@.len(),
            spans@.len() == i,
            forall|k: int|
                0 <= k < i ==> #[trigger] spans@[k].0 == timings@[k].0 && spans@[k].1@
                    == timings@[k].0@ + timings@[k].1@,
        decreases timings@.len() - i,
    {
        let (start, length) = timings[i];
        match start.checked_add(&length) {
            Some(end) => spans.push((start, end)),
            None => {
                assert(timings@[i as int].0@ + timings@[i as int].1@ > max_duration_nanos());
                return None;
            },
        }
        i = i + 1;
    }
    Some(spans)
}

} // verus!
