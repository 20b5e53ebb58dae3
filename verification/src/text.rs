use vstd::prelude::*;
use vstd::string::StrSliceExecFns;

verus! {

/// The characters of a text.
pub fn to_chars(a: &str) -> (chars: Vec<char>)
    ensures
        chars@ == a@,
{
    let n: usize = a.unicode_len();
    let mut chars: Vec<char> = Vec::new();
    let mut i: usize = 0;
    while i < n
        invariant
            n == a@.len(),
            i <= n,
            chars@ == a@.take(i as int),
        decreases n - i,
    {
        chars.push(a.get_char(i));
        assert(a@.take(i + 1) =~= a@.take(i as int).push(a@[i as int]));
        i += 1;
    }
    assert(a@.take(n as int) =~= a@);
    chars
}

/// Whether the characters from `start` up to `end` begin with `prefix`.
pub fn has_prefix(chars: &Vec<char>, start: usize, end: usize, prefix: &str) -> (found: bool)
    requires
        start <= end <= chars@.len(),
    ensures
        found == prefix@.is_prefix_of(chars@.subrange(start as int, end as int)),
{
    let n: usize = prefix.unicode_len();
    let ghost line = chars@.subrange(start as int, end as int);
    if n > end - start {
        return false;
    }
    let mut i: usize = 0;
    while i < n
        invariant
            start <= end <= chars@.len(),
            n == prefix@.len(),
            n <= end - start,
            i <= n,
            line == chars@.subrange(start as int, end as int),
            forall|k: int| 0 <= k < i ==> prefix@[k] == line[k],
        decreases n - i,
    {
        if prefix.get_char(i) != chars[start + i] {
            assert(line[i as int] == chars@[start + i]);
            assert(!prefix@.is_prefix_of(line)) by {
                if prefix@.is_prefix_of(line) {
                    assert(line.subrange(0, prefix@.len() as int)[i as int] == line[i as int]);
                }
            }
            return false;
        }
        assert(line[i as int] == chars@[start + i]);
        i += 1;
    }
    assert(prefix@ =~= line.subrange(0, prefix@.len() as int));
    true
}

/// Whether the characters from `start` up to `end` are exactly `literal`.
pub fn text_is(chars: &Vec<char>, start: usize, end: usize, literal: &str) -> (same: bool)
    requires
        start <= end <= chars@.len(),
    ensures
        same == (chars@.subrange(start as int, end as int) == literal@),
{
    let ghost line = chars@.subrange(start as int, end as int);
    let found: bool = has_prefix(chars, start, end, literal);
    let n: usize = literal.unicode_len();
    if found && n == end - start {
        assert(line.subrange(0, n as int) =~= line);
        true
    } else {
        false
    }
}

/// The first place from `from` on at which `needle` stands in a text.
pub open spec fn first_at(s: Seq<char>, from: int, needle: Seq<char>) -> Option<int>
    decreases s.len() - from,
{
    if from < 0 || from + needle.len() > s.len() {
        None
    } else if needle.is_prefix_of(s.subrange(from, s.len() as int)) {
        Some(from)
    } else {
        first_at(s, from + 1, needle)
    }
}

/// The first place from `from` on at which `needle` stands in the
/// characters.
pub fn find_text(chars: &Vec<char>, from: usize, needle: &str) -> (at: Option<usize>)
    requires
        from <= chars@.len(),
    ensures
        match at {
            Some(i) => first_at(chars@, from as int, needle@) == Some(i as int) && from <= i && i
                + needle@.len() <= chars@.len(),
            None => first_at(chars@, from as int, needle@) is None,
        },
{
    let n: usize = chars.len();
    let m: usize = needle.unicode_len();
    let mut i: usize = from;
    while i <= n && m <= n - i
        invariant
            from <= i,
            n == chars@.len(),
            m == needle@.len(),
            i <= n + 1,
            first_at(chars@, from as int, needle@) == first_at(chars@, i as int, needle@),
        decreases n + 1 - i,
    {
        if has_prefix(chars, i, n, needle) {
            return Some(i);
        }
        i += 1;
    }
    None
}

/// Whether a character is white space, as Unicode has it.
pub open spec fn spec_is_space(c: char) -> bool {
    ||| '\u{9}' <= c <= '\u{d}'
    ||| c == ' '
    ||| c == '\u{85}'
    ||| c == '\u{a0}'
    ||| c == '\u{1680}'
    ||| '\u{2000}' <= c <= '\u{200a}'
    ||| c == '\u{2028}'
    ||| c == '\u{2029}'
    ||| c == '\u{202f}'
    ||| c == '\u{205f}'
    ||| c == '\u{3000}'
}

/// Whether a character is white space.
pub fn is_space(c: char) -> (space: bool)
    ensures
        space == spec_is_space(c),
{
    ('\u{9}' <= c && c <= '\u{d}') || c == ' ' || c == '\u{85}' || c == '\u{a0}' || c == '\u{1680}'
        || ('\u{2000}' <= c && c <= '\u{200a}') || c == '\u{2028}' || c == '\u{2029}' || c
        == '\u{202f}' || c == '\u{205f}' || c == '\u{3000}'
}

/// Where a text begins once the white space at its start is left out.
pub open spec fn trim_start(s: Seq<char>, from: int) -> int
    decreases s.len() - from,
{
    if from >= s.len() || !spec_is_space(s[from]) {
        from
    } else {
        trim_start(s, from + 1)
    }
}

/// Where a text that begins at `start` ends once the white space at its end
/// is left out.
pub open spec fn trim_end(s: Seq<char>, start: int, end: int) -> int
    decreases end - start,
{
    if end <= start || !spec_is_space(s[end - 1]) {
        end
    } else {
        trim_end(s, start, end - 1)
    }
}

/// A text without the white space at its start and at its end.
pub open spec fn trimmed(s: Seq<char>) -> Seq<char> {
    let start = trim_start(s, 0);
    s.subrange(start, trim_end(s, start, s.len() as int))
}

/// The bounds of the characters from `start` up to `end` without the white
/// space at their start and at their end.
pub fn trim_range(chars: &Vec<char>, start: usize, end: usize) -> (bounds: (usize, usize))
    requires
        start <= end <= chars@.len(),
    ensures
        start <= bounds.0 <= bounds.1 <= end,
        chars@.subrange(bounds.0 as int, bounds.1 as int) == trimmed(
            chars@.subrange(start as int, end as int),
        ),
{
    let ghost line = chars@.subrange(start as int, end as int);
    let mut a: usize = start;
    while a < end && is_space(chars[a])
        invariant
            start <= a <= end <= chars@.len(),
            line == chars@.subrange(start as int, end as int),
            trim_start(line, 0) == trim_start(line, a - start),
        decreases end - a,
    {
        assert(line[a - start] == chars@[a as int]);
        a += 1;
    }
    assert(trim_start(line, 0) == a - start) by {
        if a < end {
            assert(line[a - start] == chars@[a as int]);
        }
    }
    let mut b: usize = end;
    while b > a && is_space(chars[b - 1])
        invariant
            start <= a <= b <= end <= chars@.len(),
            line == chars@.subrange(start as int, end as int),
            trim_end(line, a - start, end - start) == trim_end(line, a - start, b - start),
        decreases b - a,
    {
        assert(line[b - 1 - start] == chars@[b - 1]);
        b -= 1;
    }
    assert(trim_end(line, a - start, end - start) == b - start) by {
        if b > a {
            assert(line[b - 1 - start] == chars@[b - 1]);
        }
    }
    assert(chars@.subrange(a as int, b as int) =~= line.subrange(a - start, b - start));
    (a, b)
}

} // verus!
