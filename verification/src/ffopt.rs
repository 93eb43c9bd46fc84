use vstd::prelude::*;

use crate::decimal::{decimal, lemma_decimal_injective, push_decimal};
use crate::duration::Duration;

verus! {

/// The (start, end) range of each silence that a report gives by its end and
/// its length.
pub fn silence_ranges(ends_and_lengths: &[(Duration, Duration)]) -> (ranges: Vec<
    (Duration, Duration),
>)
    requires
        forall|i: int|
            0 <= i < ends_and_lengths@.len() ==> #[trigger] ends_and_lengths@[i].1@
                <= ends_and_lengths@[i].0@,
    ensures
        ranges@.len() == ends_and_lengths@.len(),
        forall|i: int|
            0 <= i < ranges@.len() ==> {
                &&& #[trigger] ranges@[i].0@ == ends_and_lengths@[i].0@ - ends_and_lengths@[i].1@
                &&& ranges@[i].1 == ends_and_lengths@[i].0
            },
{
    let mut ranges: Vec<(Duration, Duration)> = Vec::new();
    let mut i: usize = 0;
    while i < ends_and_lengths.len()
        invariant
            i <= ends_and_lengths@.len(),
            ranges@.len() == i,
            forall|k: int|
                0 <= k < ends_and_lengths@.len() ==> #[trigger] ends_and_lengths@[k].1@
                    <= ends_and_lengths@[k].0@,
            forall|k: int|
                0 <= k < i ==> {
                    &&& #[trigger] ranges@[k].0@ == ends_and_lengths@[k].0@
                        - ends_and_lengths@[k].1@
                    &&& ranges@[k].1 == ends_and_lengths@[k].0
                },
        decreases ends_and_lengths@.len() - i,
    {
        let (end, length) = ends_and_lengths[i];
        assert(length@ <= end@) by {
            assert(ends_and_lengths@[i as int].1@ <= ends_and_lengths@[i as int].0@);
        }
        let start = match end.checked_sub(&length) {
            Some(d) => d,
            None => Duration::zero(),
        };
        ranges.push((start, end));
        i = i + 1;
    }
    ranges
}

/// Splits an audio of length `end_time` at its silences into the pieces
/// between them: the first piece runs from the start to the first silence,
/// each next one from the end of a silence to the start of the next one, and
/// the last one from the end of the last silence to `end_time`.
pub fn get_audio_pieces(silence_pairs: &[(Duration, Duration)], end_time: Duration) -> (pieces:
    Vec<(Duration, Duration)>)
    ensures
        pieces@.len() == silence_pairs@.len() + 1,
        pieces@[0].0@ == 0,
        forall|i: int|
            1 <= i < pieces@.len() ==> #[trigger] pieces@[i].0 == silence_pairs@[i - 1].1,
        forall|i: int| 0 <= i < silence_pairs@.len() ==> #[trigger] pieces@[i].1 == silence_pairs@[i].0,
        pieces@[silence_pairs@.len() as int].1 == end_time,
{
    let n = silence_pairs.len();
    let mut pieces: Vec<(Duration, Duration)> = Vec::new();
    let mut start = Duration::zero();
    let mut i: usize = 0;
    while i < n
        invariant
            n == silence_pairs@.len(),
            i <= n,
            pieces@.len() == i,
            i == 0 ==> start@ == 0,
            i > 0 ==> start == silence_pairs@[i - 1].1,
            pieces@.len() > 0 ==> pieces@[0].0@ == 0,
            forall|j: int| 1 <= j < i ==> #[trigger] pieces@[j].0 == silence_pairs@[j - 1].1,
            forall|j: int| 0 <= j < i ==> #[trigger] pieces@[j].1 == silence_pairs@[j].0,
        decreases n - i,
    {
        let (silence_start, silence_end) = silence_pairs[i];
        pieces.push((start, silence_start));
        start = silence_end;
        i = i + 1;
    }
    pieces.push((start, end_time));
    pieces
}

/// The name of the file that holds piece `index` of the audio `file_name`:
/// `<file_name>#<index>.mp3`.
pub open spec fn piece_name(file_name: Seq<char>, index: nat) -> Seq<char> {
    file_name + seq!['#'] + decimal(index) + seq!['.', 'm', 'p', '3']
}

/// Pieces of one audio get files of their own.
pub proof fn lemma_piece_names_distinct(file_name: Seq<char>, i: nat, j: nat)
    requires
        i != j,
    ensures
        piece_name(file_name, i) != piece_name(file_name, j),
{
    if piece_name(file_name, i) == piece_name(file_name, j) {
        let a = piece_name(file_name, i);
        let b = piece_name(file_name, j);
        let lo = file_name.len() as int + 1;
        assert(a.len() == b.len());
        assert(decimal(i) == a.subrange(lo, a.len() - 4));
        assert(decimal(j) == b.subrange(lo, b.len() - 4));
        lemma_decimal_injective(i, j);
    }
}

/// Plans the cutting of the audio `file_name` into `audio_pieces`: for each
/// piece its start, its length and the name of the file it goes to.
pub fn cut_audio2(file_name: &str, audio_pieces: &[(Duration, Duration)]) -> (cuts: Vec<
    (Duration, Duration, String),
>)
    requires
        forall|i: int|
            0 <= i < audio_pieces@.len() ==> #[trigger] audio_pieces@[i].0@ <= audio_pieces@[i].1@,
    ensures
        cuts@.len() == audio_pieces@.len(),
        forall|i: int|
            0 <= i < cuts@.len() ==> {
                &&& #[trigger] cuts@[i].0 == audio_pieces@[i].0
                &&& cuts@[i].1@ == audio_pieces@[i].1@ - audio_pieces@[i].0@
                &&& cuts@[i].2@ == piece_name(file_name@, i as nat)
            },
{
    let mut cuts: Vec<(Duration, Duration, String)> = Vec::new();
    let mut i: usize = 0;
    while i < audio_pieces.len()
        invariant
            i <= audio_pieces@.len(),
            cuts@.len() == i,
            forall|k: int|
                0 <= k < audio_pieces@.len() ==> #[trigger] audio_pieces@[k].0@
                    <= audio_pieces@[k].1@,
            forall|k: int|
                0 <= k < i ==> {
                    &&& #[trigger] cuts@[k].0 == audio_pieces@[k].0
                    &&& cuts@[k].1@ == audio_pieces@[k].1@ - audio_pieces@[k].0@
                    &&& cuts@[k].2@ == piece_name(file_name@, k as nat)
                },
        decreases audio_pieces@.len() - i,
    {
        let (start, end) = audio_pieces[i];
        assert(start@ <= end@) by {
            assert(audio_pieces@[i as int].0@ <= audio_pieces@[i as int].1@);
        }
        let length = match end.checked_sub(&start) {
            Some(d) => d,
            None => Duration::zero(),
        };
        let mut name = String::from_str(file_name);
        proof {
            reveal_strlit("#");
            reveal_strlit(".mp3");
        }
        name.append("#");
        push_decimal(&mut name, i as u128);
        name.append(".mp3");
        cuts.push((start, length, name));
        i = i + 1;
    }
    cuts
}

/// The filter step that delays input `index` by `ms` milliseconds on both
/// channels: `[<index>]adelay=<ms>|<ms>[a<index>]`.
pub open spec fn delay_entry(index: nat, ms: nat) -> Seq<char> {
    seq!['['] + decimal(index) + seq![']', 'a', 'd', 'e', 'l', 'a', 'y', '='] + decimal(ms) + seq![
        '|',
    ] + decimal(ms) + seq!['[', 'a'] + decimal(index) + seq![']']
}

/// The delay steps for inputs starting at `ms` milliseconds, each followed
/// by `;`.
pub open spec fn delay_entries(ms: Seq<nat>) -> Seq<char>
    decreases ms.len(),
{
    if ms.len() == 0 {
        Seq::empty()
    } else {
        delay_entries(ms.drop_last()) + delay_entry((ms.len() - 1) as nat, ms.last()) + seq![';']
    }
}

/// The labels `[a0][a1]...` of the first `n` delayed inputs.
pub open spec fn mix_inputs(n: nat) -> Seq<char>
    decreases n,
{
    if n == 0 {
        Seq::empty()
    } else {
        mix_inputs((n - 1) as nat) + seq!['[', 'a'] + decimal((n - 1) as nat) + seq![']']
    }
}

/// The ffmpeg `filter_complex` that lays inputs starting at `ms`
/// milliseconds over one another: the delay steps, then
/// `[a0][a1]...amix=<count>`, all separated by `;`.
pub open spec fn join_filter(ms: Seq<nat>) -> Seq<char> {
    delay_entries(ms) + mix_inputs(ms.len()) + seq!['a', 'm', 'i', 'x', '='] + decimal(ms.len())
}

/// The whole milliseconds of each start time.
pub open spec fn start_millis(starts: Seq<Duration>) -> Seq<nat> {
    starts.map_values(|d: Duration| d@ / 1_000_000)
}

/// Each start is taken on its own, to the whole millisecond: no start is
/// measured against another one.
pub proof fn lemma_start_millis(starts: Seq<Duration>)
    ensures
        start_millis(starts).len() == starts.len(),
        forall|i: int|
            0 <= i < starts.len() ==> #[trigger] start_millis(starts)[i] == starts[i]@ / 1_000_000,
{
}

proof fn lemma_delay_entries_prefix(ms: Seq<nat>, k: int) -> (tail: Seq<char>)
    requires
        0 <= k <= ms.len(),
    ensures
        delay_entries(ms) == delay_entries(ms.take(k)) + tail,
    decreases ms.len(),
{
    if k == ms.len() {
        assert(ms.take(k) == ms);
        assert(delay_entries(ms) == delay_entries(ms) + Seq::<char>::empty());
        Seq::<char>::empty()
    } else {
        let rest = ms.drop_last();
        let t = lemma_delay_entries_prefix(rest, k);
        assert(rest.take(k) == ms.take(k));
        let step = delay_entry((ms.len() - 1) as nat, ms.last()) + seq![';'];
        assert(delay_entries(ms) == delay_entries(rest) + delay_entry((ms.len() - 1) as nat, ms.last()) + seq![';']);
        assert(delay_entries(ms) == delay_entries(ms.take(k)) + (t + step));
        t + step
    }
}

/// The filter delays input `i` by the whole milliseconds of its own start,
/// on both channels, and labels it `a<i>`: the text
/// `[<i>]adelay=<ms>|<ms>[a<i>];` stands in it, with `<ms>` the
/// milliseconds of `starts[i]`.
pub proof fn lemma_join_filter_delay(starts: Seq<Duration>, i: int)
    requires
        0 <= i < starts.len(),
    ensures
        ({
            let f = join_filter(start_millis(starts));
            let ms = starts[i]@ / 1_000_000;
            let e = seq!['['] + decimal(i as nat) + seq![
                ']',
                'a',
                'd',
                'e',
                'l',
                'a',
                'y',
                '=',
            ] + decimal(ms) + seq!['|'] + decimal(ms) + seq!['[', 'a'] + decimal(i as nat) + seq![
                ']',
                ';',
            ];
            exists|p: int| 0 <= p <= f.len() && e.is_prefix_of(#[trigger] f.skip(p))
        }),
{
    let ms = start_millis(starts);
    let f = join_filter(ms);
    let v = starts[i]@ / 1_000_000;
    let e = seq!['['] + decimal(i as nat) + seq![']', 'a', 'd', 'e', 'l', 'a', 'y', '=']
        + decimal(v) + seq!['|'] + decimal(v) + seq!['[', 'a'] + decimal(i as nat) + seq![']', ';'];
    let tail = lemma_delay_entries_prefix(ms, i + 1);
    let pre = delay_entries(ms.take(i));
    assert(ms.take(i + 1).drop_last() == ms.take(i));
    assert(ms.take(i + 1).last() == v);
    assert(delay_entry(i as nat, v) + seq![';'] == e);
    assert(delay_entries(ms.take(i + 1)) == pre + e);
    let rest = tail + mix_inputs(ms.len()) + seq!['a', 'm', 'i', 'x', '='] + decimal(ms.len());
    assert(f == pre + e + rest);
    let p = pre.len() as int;
    assert(f.skip(p).subrange(0, e.len() as int) == e);
    assert(e.is_prefix_of(f.skip(p)));
}

/// The filter ends by mixing all inputs: their labels `[a0]...[a<n-1>]`
/// in order, then `amix=<n>`.
pub proof fn lemma_join_filter_mix(starts: Seq<Duration>)
    ensures
        ({
            let f = join_filter(start_millis(starts));
            let m = mix_inputs(starts.len()) + seq!['a', 'm', 'i', 'x', '='] + decimal(starts.len());
            m.is_suffix_of(f)
        }),
{
    let ms = start_millis(starts);
    let f = join_filter(ms);
    let m = mix_inputs(starts.len()) + seq!['a', 'm', 'i', 'x', '='] + decimal(starts.len());
    assert(f == delay_entries(ms) + m);
    assert(f.subrange(f.len() - m.len(), f.len() as int) == m);
}

/// The ffmpeg `filter_complex` that mixes audios starting at `starts`.
pub fn join_audios_filter(starts: &[Duration]) -> (filter: String)
    ensures
        filter@ == join_filter(start_millis(starts@)),
{
    let ghost ms = start_millis(starts@);
    let mut filter = String::new();
    let n = starts.len();
    let mut i: usize = 0;
    while i < n
        invariant
            n == starts@.len(),
            i <= n,
            ms == start_millis(starts@),
            filter@ == delay_entries(ms.take(i as int)),
        decreases n - i,
    {
        let spot = starts[i].as_millis();
        let ghost before = filter@;
        proof {
            reveal_strlit("[");
            reveal_strlit("]adelay=");
            reveal_strlit("|");
            reveal_strlit("[a");
            reveal_strlit("]");
            reveal_strlit(";");
        }
        filter.append("[");
        push_decimal(&mut filter, i as u128);
        filter.append("]adelay=");
        push_decimal(&mut filter, spot);
        filter.append("|");
        push_decimal(&mut filter, spot);
        filter.append("[a");
        push_decimal(&mut filter, i as u128);
        filter.append("]");
        filter.append(";");
        assert(ms.take(i + 1).drop_last() == ms.take(i as int));
        assert(ms.take(i + 1).last() == spot);
        assert(filter@ == before + delay_entry(i as nat, spot as nat) + seq![';']);
        i = i + 1;
    }
    assert(ms.take(n as int) == ms);
    let ghost entries = filter@;
    let mut k: usize = 0;
    while k < n
        invariant
            k <= n,
            filter@ == entries + mix_inputs(k as nat),
        decreases n - k,
    {
        let ghost before = filter@;
        proof {
            reveal_strlit("[a");
            reveal_strlit("]");
        }
        filter.append("[a");
        push_decimal(&mut filter, k as u128);
        filter.append("]");
        assert(filter@ == before + seq!['[', 'a'] + decimal(k as nat) + seq![']']);
        k = k + 1;
    }
    proof {
        reveal_strlit("amix=");
    }
    filter.append("amix=");
    push_decimal(&mut filter, n as u128);
    filter
}

/// The index of the first piece that ends before it starts, or the number
/// of pieces where there is none: the pieces before it can be cut.
pub fn first_reversed_piece(pieces: &[(Duration, Duration)]) -> (k: usize)
    ensures
        k <= pieces@.len(),
        forall|i: int| 0 <= i < k ==> #[trigger] pieces@[i].0@ <= pieces@[i].1@,
        k < pieces@.len() ==> pieces@[k as int].1@ < pieces@[k as int].0@,
{
    let mut k: usize = 0;
    while k < pieces.len()
        invariant
            k <= pieces@.len(),
            forall|i: int| 0 <= i < k ==> #[trigger] pieces@[i].0@ <= pieces@[i].1@,
        decreases pieces@.len() - k,
    {
        let (start, end) = pieces[k];
        if end.checked_sub(&start).is_none() {
            return k;
        }
        k = k + 1;
    }
    k
}

} // verus!
