use vstd::prelude::*;

verus! {

/// The characters of `s`, in order.
pub fn chars_of(s: &str) -> (v: Vec<char>)
    ensures
        v@ == s@,
{
    let mut v: Vec<char> = Vec::new();
    for c in it: s.chars()
        invariant
            v@ == it.seq().take(it.index() as int),
            it.seq() == s@,
    {
        v.push(c);
    }
    v
}

/// The pieces of `s` between occurrences of any character of `seps`, as
/// `str::split` with a set of separator characters yields them: empty pieces
/// are kept, and there is always at least one piece.
pub open spec fn split_on(s: Seq<char>, seps: Seq<char>) -> Seq<Seq<char>>
    decreases s.len(),
{
    if s.len() == 0 {
        seq![Seq::empty()]
    } else {
        let prev = split_on(s.drop_last(), seps);
        if seps.contains(s.last()) {
            prev.push(Seq::empty())
        } else {
            prev.update(prev.len() - 1, prev.last().push(s.last()))
        }
    }
}

pub proof fn lemma_split_on_nonempty(s: Seq<char>, seps: Seq<char>)
    ensures
        split_on(s, seps).len() >= 1,
    decreases s.len(),
{
    if s.len() > 0 {
        lemma_split_on_nonempty(s.drop_last(), seps);
    }
}

/// No character of `s` is one of `seps`.
pub open spec fn free_of(s: Seq<char>, seps: Seq<char>) -> bool {
    forall|i: int| 0 <= i < s.len() ==> !seps.contains(#[trigger] s[i])
}

/// Text without separators extends the last piece.
pub proof fn lemma_split_on_extend(x: Seq<char>, y: Seq<char>, seps: Seq<char>)
    requires
        free_of(y, seps),
    ensures
        split_on(x + y, seps) == split_on(x, seps).update(
            split_on(x, seps).len() - 1,
            split_on(x, seps).last() + y,
        ),
    decreases y.len(),
{
    lemma_split_on_nonempty(x, seps);
    if y.len() == 0 {
        assert(x + y == x);
        assert(split_on(x, seps).last() + y == split_on(x, seps).last());
        assert(split_on(x, seps).update(split_on(x, seps).len() - 1, split_on(x, seps).last())
            == split_on(x, seps));
    } else {
        let y0 = y.drop_last();
        assert(free_of(y0, seps)) by {
            assert forall|i: int| 0 <= i < y0.len() implies !seps.contains(#[trigger] y0[i]) by {
                assert(y0[i] == y[i]);
            }
        }
        lemma_split_on_extend(x, y0, seps);
        assert((x + y).drop_last() == x + y0);
        assert((x + y).last() == y.last());
        assert(!seps.contains(y[y.len() - 1]));
        lemma_split_on_nonempty(x + y0, seps);
        assert(split_on(x, seps).last() + y == (split_on(x, seps).last() + y0).push(y.last()));
    }
}

/// A separator closes the last piece and opens an empty one.
pub proof fn lemma_split_on_separator(x: Seq<char>, c: char, seps: Seq<char>)
    requires
        seps.contains(c),
    ensures
        split_on(x.push(c), seps) == split_on(x, seps).push(Seq::empty()),
{
    assert(x.push(c).drop_last() == x);
}

/// The pieces that the character ranges `bounds` cut out of `s`.
pub open spec fn pieces_of(s: Seq<char>, bounds: Seq<(usize, usize)>) -> Seq<Seq<char>> {
    bounds.map_values(|b: (usize, usize)| s.subrange(b.0 as int, b.1 as int))
}

pub open spec fn bounds_within(bounds: Seq<(usize, usize)>, len: nat) -> bool {
    forall|i: int| 0 <= i < bounds.len() ==> #[trigger] bounds[i].0 <= bounds[i].1 <= len
}

fn is_separator(c: char, seps: &[char]) -> (b: bool)
    ensures
        b == seps@.contains(c),
{
    let mut k: usize = 0;
    while k < seps.len()
        invariant
            k <= seps@.len(),
            forall|j: int| 0 <= j < k ==> seps@[j] != c,
        decreases seps@.len() - k,
    {
        if seps[k] == c {
            return true;
        }
        k = k + 1;
    }
    false
}

/// The character ranges of the pieces of `chars` between separators.
pub fn split_bounds(chars: &Vec<char>, seps: &[char]) -> (bounds: Vec<(usize, usize)>)
    ensures
        bounds_within(bounds@, chars@.len()),
        pieces_of(chars@, bounds@) == split_on(chars@, seps@),
{
    let mut bounds: Vec<(usize, usize)> = Vec::new();
    let mut start: usize = 0;
    let mut i: usize = 0;
    assert(pieces_of(chars@, bounds@) == Seq::<Seq<char>>::empty());
    assert(chars@.take(0) == Seq::<char>::empty());
    assert(chars@.subrange(0, 0) == Seq::<char>::empty());
    while i < chars.len()
        invariant
            i <= chars@.len(),
            start <= i,
            bounds_within(bounds@, chars@.len()),
            pieces_of(chars@, bounds@).push(chars@.subrange(start as int, i as int)) == split_on(
                chars@.take(i as int),
                seps@,
            ),
        decreases chars@.len() - i,
    {
        let ghost before = chars@.take(i as int);
        assert(chars@.take(i + 1).drop_last() == before);
        proof {
            lemma_split_on_nonempty(before, seps@);
        }
        if is_separator(chars[i], seps) {
            let ghost old_bounds = bounds@;
            bounds.push((start, i));
            assert(pieces_of(chars@, bounds@) == pieces_of(chars@, old_bounds).push(
                chars@.subrange(start as int, i as int),
            ));
            start = i + 1;
            assert(chars@.subrange(start as int, (i + 1) as int) == Seq::<char>::empty());
        } else {
            assert(chars@.subrange(start as int, (i + 1) as int) == chars@.subrange(
                start as int,
                i as int,
            ).push(chars@[i as int]));
        }
        i = i + 1;
    }
    let ghost old_bounds = bounds@;
    bounds.push((start, i));
    assert(chars@.take(i as int) == chars@);
    assert(pieces_of(chars@, bounds@) == pieces_of(chars@, old_bounds).push(
        chars@.subrange(start as int, i as int),
    ));
    bounds
}

/// A line without the carriage return that ends it, if any.
pub open spec fn strip_cr(l: Seq<char>) -> Seq<char> {
    if l.len() > 0 && l.last() == '\r' {
        l.drop_last()
    } else {
        l
    }
}

/// The lines of `s` as `str::lines` yields them: split at `\n`, each line
/// that a `\n` ends loses one `\r` before it, and a last empty line (after
/// a final `\n`, or of an empty text) is not yielded.
pub open spec fn lines_of(s: Seq<char>) -> Seq<Seq<char>> {
    let t = split_on(s, seq!['\n']);
    let body = t.drop_last().map_values(|l: Seq<char>| strip_cr(l));
    if t.last().len() == 0 {
        body
    } else {
        body.push(t.last())
    }
}

/// The character ranges of the lines of `chars`.
pub fn line_bounds(chars: &Vec<char>) -> (lines: Vec<(usize, usize)>)
    ensures
        bounds_within(lines@, chars@.len()),
        pieces_of(chars@, lines@) == lines_of(chars@),
{
    let newline = vec!['\n'];
    let pieces = split_bounds(chars, newline.as_slice());
    let ghost t = split_on(chars@, newline@);
    proof {
        lemma_split_on_nonempty(chars@, newline@);
    }
    assert(newline@ == seq!['\n']);
    let last = pieces.len() - 1;
    let mut lines: Vec<(usize, usize)> = Vec::new();
    let mut k: usize = 0;
    while k < last
        invariant
            last == pieces@.len() - 1,
            k <= last,
            bounds_within(pieces@, chars@.len()),
            pieces_of(chars@, pieces@) == t,
            bounds_within(lines@, chars@.len()),
            pieces_of(chars@, lines@) == t.take(k as int).map_values(|l: Seq<char>| strip_cr(l)),
        decreases last - k,
    {
        let (from, to) = pieces[k];
        assert(pieces@[k as int].0 <= pieces@[k as int].1 <= chars@.len());
        let ghost piece = t[k as int];
        assert(piece == chars@.subrange(from as int, to as int));
        let mut end = to;
        if from < to && chars[to - 1] == '\r' {
            end = to - 1;
            assert(chars@.subrange(from as int, end as int) == piece.drop_last());
        }
        assert(chars@.subrange(from as int, end as int) == strip_cr(piece));
        let ghost old_lines = lines@;
        lines.push((from, end));
        assert(pieces_of(chars@, lines@) == pieces_of(chars@, old_lines).push(strip_cr(piece)));
        assert(bounds_within(lines@, chars@.len())) by {
            assert forall|i: int| 0 <= i < lines@.len() implies #[trigger] lines@[i].0 <= lines@[i].1
                <= chars@.len() by {
                if i < old_lines.len() {
                    assert(lines@[i] == old_lines[i]);
                }
            }
        }
        assert(t.take(k + 1) == t.take(k as int).push(piece));
        k = k + 1;
    }
    assert(t.take(last as int) == t.drop_last());
    let (from, to) = pieces[last];
    assert(pieces@[last as int].0 <= pieces@[last as int].1 <= chars@.len());
    if from < to {
        let ghost old_lines = lines@;
        lines.push((from, to));
        assert(pieces_of(chars@, lines@) == pieces_of(chars@, old_lines).push(t.last()));
        assert(bounds_within(lines@, chars@.len())) by {
            assert forall|i: int| 0 <= i < lines@.len() implies #[trigger] lines@[i].0 <= lines@[i].1
                <= chars@.len() by {
                if i < old_lines.len() {
                    assert(lines@[i] == old_lines[i]);
                }
            }
        }
    }
    lines
}

/// Whether two character sequences are the same.
pub fn chars_equal(a: &Vec<char>, b: &Vec<char>) -> (r: bool)
    ensures
        r == (a@ == b@),
{
    if a.len() != b.len() {
        return false;
    }
    let mut i: usize = 0;
    while i < a.len()
        invariant
            a@.len() == b@.len(),
            i <= a@.len(),
            forall|k: int| 0 <= k < i ==> a@[k] == b@[k],
        decreases a@.len() - i,
    {
        if a[i] != b[i] {
            return false;
        }
        i = i + 1;
    }
    assert(a@ == b@);
    true
}

} // verus!
