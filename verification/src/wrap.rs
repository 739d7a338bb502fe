//! Word wrapping that keeps every character: a line ends after a space, the
//! space stays on the line, and a run without spaces is never cut.

use crate::width::{chars_of, glyph_width, glyph_widths, measure};
use vstd::prelude::*;

verus! {

/// The sum of the widths in `ws`.
pub open spec fn sum(ws: Seq<usize>) -> nat
    decreases ws.len(),
{
    if ws.len() == 0 {
        0
    } else {
        sum(ws.drop_last()) + ws.last() as nat
    }
}

/// The index of the last space before offset `i`, or `-1` if there is none.
pub open spec fn last_space(text: Seq<char>, i: int) -> int
    decreases i,
{
    if i <= 0 {
        -1
    } else if text[i - 1] == ' ' {
        i - 1
    } else {
        last_space(text, i - 1)
    }
}

/// A line that starts at `start` may be closed when the scan stands at `i`:
/// what lies between has reached the width and holds a space to break after.
pub open spec fn can_break(text: Seq<char>, ws: Seq<usize>, start: int, i: int, width: nat) -> bool {
    &&& 0 <= start < i < text.len()
    &&& sum(ws.subrange(start, i)) >= width
    &&& last_space(text, i) >= start
}

/// `i` is the first offset at which the line from `start` may be closed.
pub open spec fn is_first_break(
    text: Seq<char>,
    ws: Seq<usize>,
    start: int,
    i: int,
    width: nat,
) -> bool {
    &&& can_break(text, ws, start, i, width)
    &&& forall|j: int| j < i ==> !can_break(text, ws, start, j, width)
}

/// Where the line that starts at `start` ends: just after the last space
/// before its first break, or at the end of the text if it never breaks.
pub open spec fn line_end(text: Seq<char>, ws: Seq<usize>, start: int, width: nat) -> int {
    if exists|i: int| is_first_break(text, ws, start, i, width) {
        last_space(text, choose|i: int| is_first_break(text, ws, start, i, width)) + 1
    } else {
        text.len() as int
    }
}

/// The end offsets of the lines of `text` from `start` on, in order.
pub open spec fn line_ends_from(text: Seq<char>, ws: Seq<usize>, start: int, width: nat) -> Seq<int>
    decreases text.len() - start,
{
    let e = line_end(text, ws, start, width);
    if 0 <= start < e < text.len() {
        seq![e] + line_ends_from(text, ws, e, width)
    } else {
        seq![text.len() as int]
    }
}

/// The end offsets of the lines of `text`, where `ws` holds the width of
/// each of its characters.
pub open spec fn line_ends(text: Seq<char>, ws: Seq<usize>, width: nat) -> Seq<int> {
    line_ends_from(text, ws, 0, width)
}

/// Where line `k` starts, given the end offsets of all lines.
pub open spec fn line_start(ends: Seq<int>, k: int) -> int {
    if k <= 0 {
        0
    } else {
        ends[k - 1]
    }
}

/// The text cut at the given end offsets.
pub open spec fn cut(text: Seq<char>, ends: Seq<int>) -> Seq<Seq<char>> {
    Seq::new(ends.len(), |k: int| text.subrange(line_start(ends, k), ends[k]))
}

/// The lines of `text` at the given width, each character as wide as the
/// width tables say.
pub open spec fn wrap_spec(text: Seq<char>, width: nat) -> Seq<Seq<char>> {
    cut(text, line_ends(text, glyph_widths(text), width))
}

/// All lines joined in order.
pub open spec fn concat(lines: Seq<Seq<char>>) -> Seq<char>
    decreases lines.len(),
{
    if lines.len() == 0 {
        Seq::empty()
    } else {
        concat(lines.drop_last()) + lines.last()
    }
}

/// End offsets that split a text of `n` characters into lines: they grow
/// strictly, none is zero unless the text is empty, and the last one is `n`.
pub open spec fn splits(ends: Seq<int>, n: int) -> bool {
    &&& ends.len() >= 1
    &&& ends.last() == n
    &&& ends[0] >= 0
    &&& n > 0 ==> ends[0] > 0
    &&& forall|a: int, b: int| 0 <= a < b < ends.len() ==> ends[a] < ends[b]
}

/// The offsets as mathematical integers.
pub open spec fn as_ints(v: Seq<usize>) -> Seq<int> {
    v.map_values(|e: usize| e as int)
}

/// The contents of each line.
pub open spec fn line_views(lines: Seq<&str>) -> Seq<Seq<char>> {
    lines.map_values(|s: &str| s@)
}

/// One more width at the end adds to the sum.
proof fn lemma_sum_extend(ws: Seq<usize>, a: int, i: int)
    requires
        0 <= a <= i < ws.len(),
    ensures
        sum(ws.subrange(a, i + 1)) == sum(ws.subrange(a, i)) + ws[i] as nat,
{
    assert(ws.subrange(a, i + 1).drop_last() =~= ws.subrange(a, i));
}

/// The last space before `i` is a space, and no space follows it before `i`.
proof fn lemma_last_space_is_last(text: Seq<char>, i: int)
    requires
        0 <= i <= text.len(),
    ensures
        last_space(text, i) >= 0 ==> text[last_space(text, i)] == ' ',
        forall|q: int| last_space(text, i) < q < i ==> text[q] != ' ',
    decreases i,
{
    if i > 0 {
        lemma_last_space_is_last(text, i - 1);
    }
}

/// Further on, the last space is no earlier.
proof fn lemma_last_space_mono(text: Seq<char>, j: int, i: int)
    requires
        j <= i,
    ensures
        last_space(text, j) <= last_space(text, i),
    decreases i - j,
{
    if j < i {
        lemma_last_space_mono(text, j, i - 1);
        if i - 1 >= 0 {
            lemma_last_space_range(text, i - 1);
        }
    }
}

/// The last space before `i` lies before `i`.
proof fn lemma_last_space_range(text: Seq<char>, i: int)
    ensures
        last_space(text, i) < i || i <= 0,
        last_space(text, i) >= -1,
    decreases i,
{
    if i > 0 {
        lemma_last_space_range(text, i - 1);
    }
}

/// The line from `start` ends after `start` and within the text.
pub proof fn lemma_line_end_bounds(text: Seq<char>, ws: Seq<usize>, start: int, width: nat)
    requires
        0 <= start <= text.len(),
    ensures
        start <= line_end(text, ws, start, width) <= text.len(),
        start < text.len() ==> start < line_end(text, ws, start, width),
{
    if exists|i: int| is_first_break(text, ws, start, i, width) {
        let i = choose|i: int| is_first_break(text, ws, start, i, width);
        lemma_last_space_range(text, i);
    }
}

/// The end offsets from `start` on split what is left of the text.
pub proof fn lemma_line_ends_from(text: Seq<char>, ws: Seq<usize>, start: int, width: nat)
    requires
        0 <= start <= text.len(),
    ensures
        ({
            let ends = line_ends_from(text, ws, start, width);
            &&& ends.len() >= 1
            &&& ends.last() == text.len()
            &&& start < text.len() ==> ends[0] > start
            &&& forall|k: int| 0 <= k < ends.len() ==> start <= #[trigger] ends[k] <= text.len()
            &&& forall|a: int, b: int| 0 <= a < b < ends.len() ==> ends[a] < ends[b]
        }),
    decreases text.len() - start,
{
    let e = line_end(text, ws, start, width);
    lemma_line_end_bounds(text, ws, start, width);
    if 0 <= start < e < text.len() {
        lemma_line_ends_from(text, ws, e, width);
        let rest = line_ends_from(text, ws, e, width);
        let ends = line_ends_from(text, ws, start, width);
        assert(ends =~= seq![e] + rest);
        assert forall|a: int, b: int| 0 <= a < b < ends.len() implies ends[a] < ends[b] by {
            assert(ends[b] == rest[b - 1]);
            if a > 0 {
                assert(ends[a] == rest[a - 1]);
            }
        }
        assert forall|k: int| 0 <= k < ends.len() implies start <= #[trigger] ends[k]
            <= text.len() by {
            if k > 0 {
                assert(ends[k] == rest[k - 1]);
            }
        }
    }
}

/// The end offsets of a wrap split the text.
pub proof fn lemma_line_ends_split(text: Seq<char>, ws: Seq<usize>, width: nat)
    ensures
        splits(line_ends(text, ws, width), text.len() as int),
{
    lemma_line_ends_from(text, ws, 0, width);
}

/// Line `k` of a split starts at or before its end, inside the text.
pub proof fn lemma_splits_ordered(ends: Seq<int>, n: int, k: int)
    requires
        splits(ends, n),
        0 <= k < ends.len(),
    ensures
        0 <= line_start(ends, k) <= ends[k] <= n,
        n > 0 ==> line_start(ends, k) < ends[k],
{
    if k < ends.len() - 1 {
        assert(ends[k] < ends[ends.len() - 1]);
    }
    if k > 0 {
        assert(ends[k - 1] < ends[k]);
        if k - 1 > 0 {
            assert(ends[0] < ends[k - 1]);
        }
    }
}

/// The first `k` lines of a cut, joined, are the text up to line `k`.
proof fn lemma_concat_cut(text: Seq<char>, ends: Seq<int>, k: int)
    requires
        splits(ends, text.len() as int),
        0 <= k <= ends.len(),
    ensures
        concat(cut(text, ends).take(k)) == text.subrange(0, line_start(ends, k)),
    decreases k,
{
    let lines = cut(text, ends);
    if k == 0 {
        assert(concat(lines.take(0)) =~= text.subrange(0, 0));
    } else {
        lemma_concat_cut(text, ends, k - 1);
        assert(lines.take(k).drop_last() =~= lines.take(k - 1));
        lemma_splits_ordered(ends, text.len() as int, k - 1);
        assert(lines.take(k).last() == text.subrange(line_start(ends, k - 1), ends[k - 1]));
        assert(text.subrange(0, line_start(ends, k - 1)) + text.subrange(
            line_start(ends, k - 1),
            ends[k - 1],
        ) =~= text.subrange(0, ends[k - 1]));
    }
}

/// Cutting a text at offsets that split it loses nothing: the lines joined
/// in order are the text.
pub proof fn lemma_cut_lossless(text: Seq<char>, ends: Seq<int>)
    requires
        splits(ends, text.len() as int),
    ensures
        concat(cut(text, ends)) == text,
{
    let lines = cut(text, ends);
    lemma_concat_cut(text, ends, ends.len() as int);
    assert(lines.take(ends.len() as int) =~= lines);
    assert(text.subrange(0, text.len() as int) =~= text);
}

/// Wrapping loses nothing: at any width, the lines of a text joined in
/// order are the text itself.
pub proof fn lemma_wrap_lossless(text: Seq<char>, width: nat)
    ensures
        concat(wrap_spec(text, width)) == text,
{
    lemma_line_ends_split(text, glyph_widths(text), width);
    lemma_cut_lossless(text, line_ends(text, glyph_widths(text), width));
}

/// Where a line may be closed at all, there is a first such offset.
proof fn lemma_least_break(text: Seq<char>, ws: Seq<usize>, start: int, j: int, width: nat)
    requires
        can_break(text, ws, start, j, width),
    ensures
        exists|i: int| is_first_break(text, ws, start, i, width),
    decreases j,
{
    if forall|k: int| k < j ==> !can_break(text, ws, start, k, width) {
        assert(is_first_break(text, ws, start, j, width));
    } else {
        let k = choose|k: int| k < j && can_break(text, ws, start, k, width);
        lemma_least_break(text, ws, start, k, width);
    }
}

/// Of the line that starts at `start` and ends at `e`: if the text goes on
/// after it, it ends with a space; and up to its last character it has not
/// both reached the width and met a space.
pub proof fn lemma_line_end_tight(text: Seq<char>, ws: Seq<usize>, start: int, width: nat)
    requires
        0 <= start <= text.len(),
    ensures
        ({
            let e = line_end(text, ws, start, width);
            &&& e < text.len() ==> start < e && text[e - 1] == ' '
            &&& start < e ==> sum(ws.subrange(start, e - 1)) < width || last_space(text, e - 1)
                < start
        }),
{
    let e = line_end(text, ws, start, width);
    lemma_line_end_bounds(text, ws, start, width);
    if start < e {
        lemma_last_space_range(text, e - 1);
        if exists|i: int| is_first_break(text, ws, start, i, width) {
            let i = choose|i: int| is_first_break(text, ws, start, i, width);
            lemma_last_space_range(text, i);
            lemma_last_space_is_last(text, i);
            assert(!can_break(text, ws, start, e - 1, width));
        } else {
            if can_break(text, ws, start, e - 1, width) {
                lemma_least_break(text, ws, start, e - 1, width);
            }
        }
    }
}

/// Each end offset is the end of the line that starts where the line
/// before it ended.
proof fn lemma_ends_are_line_ends(
    text: Seq<char>,
    ws: Seq<usize>,
    start: int,
    width: nat,
    k: int,
)
    requires
        0 <= start <= text.len(),
        0 <= k < line_ends_from(text, ws, start, width).len(),
    ensures
        ({
            let ends = line_ends_from(text, ws, start, width);
            let s = if k == 0 {
                start
            } else {
                ends[k - 1]
            };
            &&& 0 <= s <= text.len()
            &&& ends[k] == line_end(text, ws, s, width)
        }),
    decreases k,
{
    let e = line_end(text, ws, start, width);
    lemma_line_end_bounds(text, ws, start, width);
    if 0 <= start < e < text.len() {
        let rest = line_ends_from(text, ws, e, width);
        let ends = line_ends_from(text, ws, start, width);
        assert(ends =~= seq![e] + rest);
        if k > 0 {
            lemma_ends_are_line_ends(text, ws, e, width, k - 1);
            assert(ends[k] == rest[k - 1]);
            if k > 1 {
                assert(ends[k - 1] == rest[k - 2]);
            }
        }
    }
}

/// The width of a line: the sum of the widths of its characters.
pub open spec fn line_width(line: Seq<char>) -> nat {
    sum(glyph_widths(line))
}

/// Width bound. Take any line of a wrap and leave out its last character:
/// what remains is narrower than the width, or it holds no space (the line
/// is a single run, which is never cut). Every line but the last ends with
/// a space. So a line whose last character takes at most one column fits
/// the width, unless what stands before that character is a single run
/// that alone has reached the width.
pub proof fn lemma_wrap_width_bound(text: Seq<char>, width: nat, k: int)
    requires
        0 <= k < wrap_spec(text, width).len(),
    ensures
        ({
            let lines = wrap_spec(text, width);
            let line = lines[k];
            &&& k < lines.len() - 1 ==> line.len() > 0 && line.last() == ' '
            &&& line.len() > 0 ==> line_width(line.drop_last()) < width || !line.drop_last().contains(
                ' ',
            )
            &&& line.len() > 0 && glyph_width(line.last()) <= 1 ==> line_width(line) <= width || (
            !line.drop_last().contains(' ') && line_width(line.drop_last()) >= width)
        }),
{
    let ws = glyph_widths(text);
    let ends = line_ends(text, ws, width);
    let s = line_start(ends, k);
    let e = ends[k];
    let line = wrap_spec(text, width)[k];
    lemma_line_ends_split(text, ws, width);
    lemma_splits_ordered(ends, text.len() as int, k);
    lemma_ends_are_line_ends(text, ws, 0, width, k);
    lemma_line_end_tight(text, ws, s, width);
    assert(line == text.subrange(s, e));
    if k < ends.len() - 1 {
        assert(ends[k] < ends[ends.len() - 1]);
    }
    if line.len() > 0 {
        let body = line.drop_last();
        assert(body =~= text.subrange(s, e - 1));
        assert(glyph_widths(body) =~= ws.subrange(s, e - 1));
        assert(glyph_widths(line).drop_last() =~= glyph_widths(body));
        if last_space(text, e - 1) < s {
            lemma_last_space_is_last(text, e - 1);
            if body.contains(' ') {
                let q = choose|q: int| 0 <= q < body.len() && body[q] == ' ';
                assert(text[s + q] == ' ');
            }
        }
    }
}

/// The end offset of every line of `chars`, where `widths` holds the display
/// width of each character. One pass over the text.
pub fn wrap_offsets(chars: &Vec<char>, widths: &Vec<usize>, width: usize) -> (ends: Vec<usize>)
    requires
        chars.len() == widths.len(),
    ensures
        as_ints(ends@) == line_ends(chars@, widths@, width as nat),
        splits(as_ints(ends@), chars.len() as int),
{
    let ghost text = chars@;
    let ghost ws = widths@;
    let ghost w = width as nat;
    let n = chars.len();
    let mut ends: Vec<usize> = Vec::new();
    let mut start: usize = 0;
    let mut space: Option<usize> = None;
    // width of the line so far, and of what follows its last space
    let mut acc: usize = 0;
    let mut since: usize = 0;
    let mut i: usize = 0;
    while i < n
        invariant
            text == chars@,
            ws == widths@,
            w == width as nat,
            n == text.len(),
            n == ws.len(),
            start <= i <= n,
            match space {
                Some(p) => start <= p < i && last_space(text, i as int) == p,
                None => last_space(text, i as int) < start,
            },
            acc as int == if sum(ws.subrange(start as int, i as int)) > usize::MAX {
                usize::MAX as int
            } else {
                sum(ws.subrange(start as int, i as int)) as int
            },
            space is Some ==> since as int == if sum(
                ws.subrange(space.unwrap() + 1, i as int),
            ) > usize::MAX {
                usize::MAX as int
            } else {
                sum(ws.subrange(space.unwrap() + 1, i as int)) as int
            },
            forall|j: int| j < i ==> !can_break(text, ws, start as int, j, w),
            as_ints(ends@) + line_ends_from(text, ws, start as int, w) == line_ends(text, ws, w),
        decreases n - i,
    {
        if acc >= width {
            if let Some(p) = space {
                proof {
                    assert(can_break(text, ws, start as int, i as int, w));
                    assert(is_first_break(text, ws, start as int, i as int, w));
                    let c = choose|c: int| is_first_break(text, ws, start as int, c, w);
                    assert(c == i);
                    assert(line_end(text, ws, start as int, w) == p + 1);
                    assert(line_ends_from(text, ws, start as int, w) == seq![p + 1]
                        + line_ends_from(text, ws, p + 1, w));
                    assert(as_ints(ends@.push((p + 1) as usize)) =~= as_ints(ends@) + seq![p + 1]);
                    assert((as_ints(ends@) + seq![p + 1]) + line_ends_from(text, ws, p + 1, w)
                        =~= as_ints(ends@) + (seq![p + 1] + line_ends_from(text, ws, p + 1, w)));
                    let next: int = p + 1;
                    assert forall|j: int| j <= i implies !#[trigger] can_break(
                        text,
                        ws,
                        next,
                        j,
                        w,
                    ) by {
                        lemma_last_space_mono(text, j, i as int);
                    }
                }
                ends.push(p + 1);
                start = p + 1;
                acc = since;
                space = None;
            }
        }
        proof {
            lemma_sum_extend(ws, start as int, i as int);
        }
        let cw = widths[i];
        if chars[i] == ' ' {
            space = Some(i);
            since = 0;
            assert(ws.subrange(i + 1, i + 1) =~= Seq::<usize>::empty());
        } else {
            proof {
                if space is Some {
                    lemma_sum_extend(ws, space.unwrap() + 1, i as int);
                }
            }
            since = since.saturating_add(cw);
        }
        acc = acc.saturating_add(cw);
        i += 1;
    }
    proof {
        assert(!exists|c: int| is_first_break(text, ws, start as int, c, w));
        assert(line_ends_from(text, ws, start as int, w) == seq![n as int]);
        assert(as_ints(ends@.push(n)) =~= as_ints(ends@) + seq![n as int]);
        lemma_line_ends_split(text, ws, w);
    }
    ends.push(n);
    ends
}

/// Splits `text` into lines for a terminal `width` columns wide. A line is
/// closed once it has reached the width and holds a space: it then ends
/// with its last space, and the next line starts right after it. Spaces
/// stay on their lines and a run without spaces is never cut, so the lines
/// joined in order are `text`.
pub fn word_wrap_keep_space<'a>(text: &'a str, width: usize) -> (lines: Vec<&'a str>)
    requires
        width > 0,
    ensures
        line_views(lines@) == wrap_spec(text@, width as nat),
        concat(line_views(lines@)) == text@,
{
    let chars = chars_of(text);
    let widths = measure(&chars);
    let ends = wrap_offsets(&chars, &widths, width);
    let ghost cuts = as_ints(ends@);
    let mut lines: Vec<&'a str> = Vec::new();
    let mut from: usize = 0;
    let mut k: usize = 0;
    while k < ends.len()
        invariant
            cuts == as_ints(ends@),
            splits(cuts, text@.len() as int),
            k <= ends.len(),
            from as int == line_start(cuts, k as int),
            line_views(lines@) == cut(text@, cuts).take(k as int),
        decreases ends.len() - k,
    {
        proof {
            lemma_splits_ordered(cuts, text@.len() as int, k as int);
        }
        let to = ends[k];
        assert(cuts[k as int] == to as int);
        let line = text.substring_char(from, to);
        let ghost before = lines@;
        lines.push(line);
        proof {
            assert(line@ == cut(text@, cuts)[k as int]);
            assert(line_views(before.push(line)) =~= line_views(before).push(line@));
            assert(cut(text@, cuts).take(k + 1) =~= cut(text@, cuts).take(k as int).push(
                cut(text@, cuts)[k as int],
            ));
        }
        from = to;
        k += 1;
    }
    proof {
        assert(cut(text@, cuts).take(k as int) =~= cut(text@, cuts));
        lemma_wrap_lossless(text@, width as nat);
    }
    lines
}

/// How many of the characters are spaces.
pub open spec fn space_count(s: Seq<char>) -> nat
    decreases s.len(),
{
    if s.len() == 0 {
        0
    } else {
        space_count(s.drop_last()) + if s.last() == ' ' {
            1nat
        } else {
            0nat
        }
    }
}

/// There are no more spaces than characters.
pub proof fn lemma_space_count_bound(s: Seq<char>)
    ensures
        space_count(s) <= s.len(),
    decreases s.len(),
{
    if s.len() > 0 {
        lemma_space_count_bound(s.drop_last());
    }
}

/// The number of spaces among the first `upto` characters.
pub fn count_spaces_in(chars: &Vec<char>, upto: usize) -> (count: usize)
    requires
        upto <= chars.len(),
    ensures
        count == space_count(chars@.take(upto as int)),
{
    let mut count: usize = 0;
    let mut i: usize = 0;
    while i < upto
        invariant
            i <= upto <= chars.len(),
            count == space_count(chars@.take(i as int)),
            count <= i,
        decreases upto - i,
    {
        assert(chars@.take(i + 1).drop_last() =~= chars@.take(i as int));
        if chars[i] == ' ' {
            count += 1;
        }
        i += 1;
    }
    count
}

/// The number of spaces in `string`.
pub fn count_spaces(string: &str) -> (count: usize)
    ensures
        count == space_count(string@),
{
    let chars = chars_of(string);
    assert(chars@.take(chars.len() as int) =~= chars@);
    count_spaces_in(&chars, chars.len())
}

} // verus!
