//! Characters, words, fields and lines.
//!
//! Text is handled as a sequence of `char`s. Each way of cutting a text into
//! pieces is defined once, as a spec function over `Seq<char>`, and computed by
//! a scanner that is proved to return exactly those pieces.

use vstd::prelude::*;

verus! {

/// The contents of each piece, in order.
pub open spec fn views(pieces: Seq<Vec<char>>) -> Seq<Seq<char>> {
    Seq::new(pieces.len(), |k: int| pieces[k]@)
}

/// Whether `c` has the Unicode property `White_Space`.
pub open spec fn is_space(c: char) -> bool {
    let n: u32 = c as u32;
    ||| 0x09 <= n <= 0x0D
    ||| n == 0x20
    ||| n == 0x85
    ||| n == 0xA0
    ||| n == 0x1680
    ||| 0x2000 <= n <= 0x200A
    ||| n == 0x2028
    ||| n == 0x2029
    ||| n == 0x202F
    ||| n == 0x205F
    ||| n == 0x3000
}

/// Whether `c` is one of the ten decimal digits.
pub open spec fn is_digit(c: char) -> bool {
    0x30 <= c as u32 <= 0x39
}

/// The first position at or after `i` that does not hold a decimal digit, or
/// the length of `s` if there is none.
pub open spec fn digits_end(s: Seq<char>, i: int) -> int
    decreases s.len() - i,
{
    if 0 <= i < s.len() && is_digit(s[i]) {
        digits_end(s, i + 1)
    } else {
        i
    }
}

/// The first position at or after `i` that holds a white-space character, or
/// the length of `s` if there is none.
pub open spec fn word_end(s: Seq<char>, i: int) -> int
    decreases s.len() - i,
{
    if 0 <= i < s.len() && !is_space(s[i]) {
        word_end(s, i + 1)
    } else {
        i
    }
}

/// The words of `s` that start at or after `i`: the maximal runs of
/// characters that are not white space, from left to right.
pub open spec fn words_from(s: Seq<char>, i: int) -> Seq<Seq<char>>
    decreases s.len() - i,
{
    if i < 0 || i >= s.len() {
        Seq::empty()
    } else if is_space(s[i]) {
        words_from(s, i + 1)
    } else {
        proof {
            lemma_word_end(s, i);
        }
        seq![s.subrange(i, word_end(s, i))] + words_from(s, word_end(s, i))
    }
}

/// The words of `s`: what is left when `s` is cut at every run of white space.
pub open spec fn words(s: Seq<char>) -> Seq<Seq<char>> {
    words_from(s, 0)
}

/// The first position at or after `i` that holds `sep`, or the length of `s`
/// if there is none.
pub open spec fn field_end(s: Seq<char>, sep: char, i: int) -> int
    decreases s.len() - i,
{
    if 0 <= i < s.len() && s[i] != sep {
        field_end(s, sep, i + 1)
    } else {
        i
    }
}

/// The fields of `s` from position `i` on, where each occurrence of `sep`
/// ends one field and starts the next. There is always at least one field,
/// and a field may be empty.
pub open spec fn fields_from(s: Seq<char>, sep: char, i: int) -> Seq<Seq<char>>
    decreases s.len() - i,
{
    let j = field_end(s, sep, i);
    if 0 <= i <= j < s.len() {
        seq![s.subrange(i, j)] + fields_from(s, sep, j + 1)
    } else {
        seq![s.subrange(i, s.len() as int)]
    }
}

/// The fields of `s`: what lies between the occurrences of `sep`.
pub open spec fn fields(s: Seq<char>, sep: char) -> Seq<Seq<char>> {
    fields_from(s, sep, 0)
}

/// The position just behind the first line feed at or after `i`, or the
/// length of `s` if there is none.
pub open spec fn line_end(s: Seq<char>, i: int) -> int
    decreases s.len() - i,
{
    if 0 <= i < s.len() {
        if s[i] == '\n' {
            i + 1
        } else {
            line_end(s, i + 1)
        }
    } else {
        i
    }
}

/// The physical lines of `s` from position `i` on. A line ends with its line
/// feed, which belongs to it; the last line may lack one.
pub open spec fn lines_from(s: Seq<char>, i: int) -> Seq<Seq<char>>
    decreases s.len() - i,
{
    if 0 <= i < s.len() {
        proof {
            lemma_line_end(s, i);
        }
        seq![s.subrange(i, line_end(s, i))] + lines_from(s, line_end(s, i))
    } else {
        Seq::empty()
    }
}

/// The physical lines of `s`. The empty text has no line.
pub open spec fn lines(s: Seq<char>) -> Seq<Seq<char>> {
    lines_from(s, 0)
}

/// A word that starts inside `s` ends behind its start and inside `s`, and
/// holds no white space; behind it comes white space or the end of `s`.
pub proof fn lemma_word_end(s: Seq<char>, i: int)
    requires
        0 <= i <= s.len(),
    ensures
        i <= word_end(s, i) <= s.len(),
        i < s.len() && !is_space(s[i]) ==> i < word_end(s, i),
        forall|k: int| i <= k < word_end(s, i) ==> !is_space(#[trigger] s[k]),
        word_end(s, i) < s.len() ==> is_space(s[word_end(s, i)]),
    decreases s.len() - i,
{
    if i < s.len() && !is_space(s[i]) {
        lemma_word_end(s, i + 1);
    }
}

/// A field that starts inside `s` or at its end ends inside `s` or at its
/// end, and does not hold the separator.
pub proof fn lemma_field_end(s: Seq<char>, sep: char, i: int)
    requires
        0 <= i <= s.len(),
    ensures
        i <= field_end(s, sep, i) <= s.len(),
        forall|k: int| i <= k < field_end(s, sep, i) ==> #[trigger] s[k] != sep,
        field_end(s, sep, i) < s.len() ==> s[field_end(s, sep, i)] == sep,
    decreases s.len() - i,
{
    if i < s.len() && s[i] != sep {
        lemma_field_end(s, sep, i + 1);
    }
}

/// A line that starts inside `s` ends behind its start and inside `s`; a line
/// feed can only be its last character, and is, unless the text ends first.
pub proof fn lemma_line_end(s: Seq<char>, i: int)
    requires
        0 <= i <= s.len(),
    ensures
        i <= line_end(s, i) <= s.len(),
        i < s.len() ==> i < line_end(s, i),
        forall|k: int| i <= k < line_end(s, i) - 1 ==> #[trigger] s[k] != '\n',
        i < line_end(s, i) < s.len() ==> s[line_end(s, i) - 1] == '\n',
    decreases s.len() - i,
{
    if i < s.len() && s[i] != '\n' {
        lemma_line_end(s, i + 1);
    }
}

/// The characters of a string, in order.
pub fn chars_of(s: &str) -> (v: Vec<char>)
    ensures
        v@ == s@,
{
    let mut v: Vec<char> = Vec::new();
    for c in it: s.chars()
        invariant
            it.seq() == s@,
            v@ == s@.take(it.index() as int),
    {
        v.push(c);
        assert(s@.take(it.index() + 1) =~= s@.take(it.index() as int).push(c));
    }
    assert(s@.take(s@.len() as int) =~= s@);
    v
}

/// Whether `c` is white space.
pub fn is_whitespace(c: char) -> (b: bool)
    ensures
        b == is_space(c),
{
    let n: u32 = c as u32;
    (0x09 <= n && n <= 0x0D) || n == 0x20 || n == 0x85 || n == 0xA0 || n == 0x1680 || (0x2000 <= n
        && n <= 0x200A) || n == 0x2028 || n == 0x2029 || n == 0x202F || n == 0x205F || n == 0x3000
}

/// Whether `c` is a decimal digit.
pub fn is_decimal_digit(c: char) -> (b: bool)
    ensures
        b == is_digit(c),
{
    let n: u32 = c as u32;
    0x30 <= n && n <= 0x39
}

/// Runs over the decimal digits that start at position `i`.
pub(crate) fn skip_digits(s: &[char], i: usize) -> (j: usize)
    requires
        i <= s@.len(),
    ensures
        j == digits_end(s@, i as int),
        i <= j <= s@.len(),
{
    let mut j: usize = i;
    while j < s.len() && is_decimal_digit(s[j])
        invariant
            i <= j <= s@.len(),
            digits_end(s@, i as int) == digits_end(s@, j as int),
        decreases s@.len() - j,
    {
        j += 1;
    }
    j
}

/// A copy of the characters of `s` from position `from` up to, not including,
/// position `to`.
pub(crate) fn copy_range(s: &[char], from: usize, to: usize) -> (r: Vec<char>)
    requires
        from <= to <= s@.len(),
    ensures
        r@ == s@.subrange(from as int, to as int),
{
    let mut r: Vec<char> = Vec::new();
    let mut k: usize = from;
    while k < to
        invariant
            from <= k <= to <= s@.len(),
            r@ == s@.subrange(from as int, k as int),
        decreases to - k,
    {
        r.push(s[k]);
        assert(s@.subrange(from as int, k + 1) =~= s@.subrange(from as int, k as int).push(
            s@[k as int],
        ));
        k += 1;
    }
    r
}

/// Cuts `s` into its words.
pub fn split_words(s: &[char]) -> (r: Vec<Vec<char>>)
    ensures
        views(r@) == words(s@),
{
    let mut out: Vec<Vec<char>> = Vec::new();
    let mut i: usize = 0;
    assert(views(out@) + words_from(s@, 0) =~= words(s@));
    while i < s.len()
        invariant
            i <= s@.len(),
            views(out@) + words_from(s@, i as int) == words(s@),
        decreases s@.len() - i,
    {
        if is_whitespace(s[i]) {
            i += 1;
        } else {
            let start: usize = i;
            while i < s.len() && !is_whitespace(s[i])
                invariant
                    start <= i <= s@.len(),
                    word_end(s@, start as int) == word_end(s@, i as int),
                decreases s@.len() - i,
            {
                i += 1;
            }
            let word = copy_range(s, start, i);
            proof {
                assert(views(out@.push(word)) =~= views(out@) + seq![word@]);
                assert(views(out@.push(word)) + words_from(s@, i as int) =~= views(out@)
                    + words_from(s@, start as int));
            }
            out.push(word);
        }
    }
    assert(views(out@) + Seq::<Seq<char>>::empty() =~= views(out@));
    out
}

/// Cuts `s` into its fields at every occurrence of `sep`.
pub fn split_fields(s: &[char], sep: char) -> (r: Vec<Vec<char>>)
    ensures
        views(r@) == fields(s@, sep),
{
    let mut out: Vec<Vec<char>> = Vec::new();
    let mut start: usize = 0;
    let mut i: usize = 0;
    assert(views(out@) + fields_from(s@, sep, 0) =~= fields(s@, sep));
    while i < s.len()
        invariant
            start <= i <= s@.len(),
            field_end(s@, sep, start as int) == field_end(s@, sep, i as int),
            views(out@) + fields_from(s@, sep, start as int) == fields(s@, sep),
        decreases s@.len() - i,
    {
        if s[i] == sep {
            let field = copy_range(s, start, i);
            proof {
                assert(views(out@.push(field)) =~= views(out@) + seq![field@]);
                assert(views(out@.push(field)) + fields_from(s@, sep, i + 1) =~= views(out@)
                    + fields_from(s@, sep, start as int));
            }
            out.push(field);
            start = i + 1;
        }
        i += 1;
    }
    let field = copy_range(s, start, i);
    proof {
        assert(views(out@.push(field)) =~= views(out@) + seq![field@]);
    }
    out.push(field);
    out
}

/// Cuts `s` into its physical lines.
pub fn split_lines(s: &[char]) -> (r: Vec<Vec<char>>)
    ensures
        views(r@) == lines(s@),
{
    let mut out: Vec<Vec<char>> = Vec::new();
    let mut i: usize = 0;
    assert(views(out@) + lines_from(s@, 0) =~= lines(s@));
    while i < s.len()
        invariant
            i <= s@.len(),
            views(out@) + lines_from(s@, i as int) == lines(s@),
        decreases s@.len() - i,
    {
        let start: usize = i;
        while i < s.len() && s[i] != '\n'
            invariant
                start <= i <= s@.len(),
                start < s@.len(),
                line_end(s@, start as int) == line_end(s@, i as int),
            decreases s@.len() - i,
        {
            i += 1;
        }
        if i < s.len() {
            i += 1;
        }
        let line = copy_range(s, start, i);
        proof {
            assert(views(out@.push(line)) =~= views(out@) + seq![line@]);
            assert(views(out@.push(line)) + lines_from(s@, i as int) =~= views(out@) + lines_from(
                s@,
                start as int,
            ));
        }
        out.push(line);
    }
    assert(views(out@) + Seq::<Seq<char>>::empty() =~= views(out@));
    out
}

} // verus!
