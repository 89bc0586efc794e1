//! The text form of a return series: comma-separated values, split into fields.
use vstd::prelude::*;

verus! {

/// Whether `c` has the Unicode `White_Space` property.
pub open spec fn is_unicode_whitespace(c: char) -> bool {
    let u = c as u32;
    ||| 0x9 <= u <= 0xD
    ||| u == 0x20
    ||| u == 0x85
    ||| u == 0xA0
    ||| u == 0x1680
    ||| 0x2000 <= u <= 0x200A
    ||| u == 0x2028
    ||| u == 0x2029
    ||| u == 0x202F
    ||| u == 0x205F
    ||| u == 0x3000
}

/// Whether `c` is whitespace, as `char::is_whitespace` decides it.
fn is_whitespace(c: char) -> (r: bool)
    ensures
        r == is_unicode_whitespace(c),
{
    let u: u32 = c as u32;
    (0x9 <= u && u <= 0xD) || u == 0x20 || u == 0x85 || u == 0xA0 || u == 0x1680 || (0x2000
        <= u && u <= 0x200A) || u == 0x2028 || u == 0x2029 || u == 0x202F || u == 0x205F || u
        == 0x3000
}

/// `s` without the leading characters that satisfy `strip`.
pub open spec fn strip_leading(s: Seq<char>, strip: spec_fn(char) -> bool) -> Seq<char>
    decreases s.len(),
{
    if s.len() > 0 && strip(s[0]) {
        strip_leading(s.drop_first(), strip)
    } else {
        s
    }
}

/// `s` without the trailing characters that satisfy `strip`.
pub open spec fn strip_trailing(s: Seq<char>, strip: spec_fn(char) -> bool) -> Seq<char>
    decreases s.len(),
{
    if s.len() > 0 && strip(s.last()) {
        strip_trailing(s.drop_last(), strip)
    } else {
        s
    }
}

/// Characters with the `White_Space` property.
pub open spec fn whitespace() -> spec_fn(char) -> bool {
    |c: char| is_unicode_whitespace(c)
}

/// The comma alone.
pub open spec fn comma() -> spec_fn(char) -> bool {
    |c: char| c == ','
}

/// `s` with surrounding whitespace removed, then surrounding commas.
pub open spec fn trimmed(s: Seq<char>) -> Seq<char> {
    let t = strip_trailing(strip_leading(s, whitespace()), whitespace());
    strip_trailing(strip_leading(t, comma()), comma())
}

/// The pieces of `s` between commas; text without a comma is one piece.
pub open spec fn split_commas(s: Seq<char>) -> Seq<Seq<char>>
    decreases s.len(),
{
    if s.len() == 0 {
        seq![Seq::empty()]
    } else {
        let prev = split_commas(s.drop_last());
        if s.last() == ',' {
            prev.push(Seq::empty())
        } else {
            prev.update(prev.len() - 1, prev.last().push(s.last()))
        }
    }
}

/// The fields of a series text: trimmed, then split at each comma.
pub open spec fn series_fields(content: Seq<char>) -> Seq<Seq<char>> {
    split_commas(trimmed(content))
}

/// The character sequences of `fields`.
pub open spec fn field_views(fields: Seq<Vec<char>>) -> Seq<Seq<char>> {
    fields.map_values(|f: Vec<char>| f@)
}

/// The set of characters that `strip_bounds` drops: whitespace or commas.
pub open spec fn stripped(spaces: bool) -> spec_fn(char) -> bool {
    if spaces {
        whitespace()
    } else {
        comma()
    }
}

/// Whether `strip_bounds` drops `c`.
fn is_stripped(c: char, spaces: bool) -> (r: bool)
    ensures
        r == stripped(spaces)(c),
{
    if spaces {
        is_whitespace(c)
    } else {
        c == ','
    }
}

/// The bounds `start..end` of `s` once the leading and trailing characters of
/// `stripped(spaces)` are dropped from `from..to`.
fn strip_bounds(s: &Vec<char>, from: usize, to: usize, spaces: bool) -> (r: (usize, usize))
    requires
        from <= to <= s.len(),
    ensures
        from <= r.0 <= r.1 <= to,
        s@.subrange(r.0 as int, r.1 as int) == strip_trailing(
            strip_leading(s@.subrange(from as int, to as int), stripped(spaces)),
            stripped(spaces),
        ),
{
    let ghost strip = stripped(spaces);
    let mut start: usize = from;
    while start < to && is_stripped(s[start], spaces)
        invariant
            from <= start <= to <= s.len(),
            strip == stripped(spaces),
            strip_leading(s@.subrange(from as int, to as int), strip) == strip_leading(
                s@.subrange(start as int, to as int),
                strip,
            ),
        decreases to - start,
    {
        assert(s@.subrange(start as int, to as int).drop_first() == s@.subrange(
            start + 1,
            to as int,
        ));
        start = start + 1;
    }
    let mut end: usize = to;
    while end > start && is_stripped(s[end - 1], spaces)
        invariant
            from <= start <= end <= to <= s.len(),
            strip == stripped(spaces),
            strip_leading(s@.subrange(from as int, to as int), strip) == s@.subrange(
                start as int,
                to as int,
            ),
            strip_trailing(s@.subrange(start as int, to as int), strip) == strip_trailing(
                s@.subrange(start as int, end as int),
                strip,
            ),
        decreases end - start,
    {
        assert(s@.subrange(start as int, end as int).drop_last() == s@.subrange(
            start as int,
            end - 1,
        ));
        end = end - 1;
    }
    (start, end)
}

/// Splits the text of a return series into its value fields: surrounding whitespace,
/// then surrounding commas, are removed, and the rest is split at each comma.
pub fn split_series(content: &Vec<char>) -> (r: Vec<Vec<char>>)
    ensures
        field_views(r@) == series_fields(content@),
{
    let (outer_start, outer_end) = strip_bounds(content, 0, content.len(), true);
    let (start, end) = strip_bounds(content, outer_start, outer_end, false);
    assert(content@.subrange(0, content.len() as int) == content@);
    let mut fields: Vec<Vec<char>> = Vec::new();
    let mut current: Vec<char> = Vec::new();
    let mut i: usize = start;
    while i < end
        invariant
            start <= i <= end <= content.len(),
            field_views(fields@).push(current@) == split_commas(
                content@.subrange(start as int, i as int),
            ),
        decreases end - i,
    {
        let ghost before = content@.subrange(start as int, i as int);
        let ghost after = content@.subrange(start as int, i + 1);
        assert(after.drop_last() == before);
        assert(after.last() == content@[i as int]);
        if content[i] == ',' {
            fields.push(current);
            current = Vec::new();
            assert(field_views(fields@).push(current@) == split_commas(after));
        } else {
            let ghost prev = split_commas(before);
            current.push(content[i]);
            assert(field_views(fields@).push(current@) =~= prev.update(
                prev.len() - 1,
                prev.last().push(content@[i as int]),
            ));
        }
        i = i + 1;
    }
    fields.push(current);
    assert(field_views(fields@) =~= split_commas(content@.subrange(start as int, end as int)));
    fields
}

} // verus!
