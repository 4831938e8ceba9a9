//! The crate's view of the Unicode data it does not compute itself: display
//! widths, line break opportunities and grapheme cluster counts, each behind
//! a small trusted wrapper, plus the conversion from a character vector back
//! to a `String`.

use vstd::prelude::*;
use vstd::string::*;

verus! {

/// The display width in columns of one character; what
/// `unicode_width::UnicodeWidthChar::width` answers, with control characters
/// counted as zero columns.
pub uninterp spec fn char_width_of(c: char) -> usize;

/// The char offsets at which the Unicode line breaking algorithm allows a
/// break in the text; what `unicode_linebreak::linebreaks` answers, with
/// each byte offset read as the count of characters before it.
pub uninterp spec fn break_offsets_of(s: Seq<char>) -> Seq<usize>;

/// The number of grapheme clusters of the text; what
/// `unicode_segmentation::UnicodeSegmentation::graphemes` yields, counted.
pub uninterp spec fn grapheme_count_of(s: Seq<char>) -> usize;

/// Relies on unicode_width::UnicodeWidthChar::width: the column width of the
/// character, `None` for a control character (counted 0 here); the crate's
/// rules assign every character a width of at most 3 columns.
#[verifier::external_body]
pub(crate) fn char_display_width(c: char) -> (r: usize)
    ensures
        r == char_width_of(c),
        r <= 3,
{
    unicode_width::UnicodeWidthChar::width(c).unwrap_or(0)
}

/// Relies on unicode_linebreak::linebreaks: it yields the byte index of the
/// character succeeding each break opportunity, in increasing order, each at
/// a character boundary and at most the text's length, and always ends with
/// a mandatory break at the end of a non-empty text. Byte offsets are turned
/// into char offsets by counting the characters before them.
#[verifier::external_body]
pub(crate) fn line_break_offsets(text: &str) -> (r: Vec<usize>)
    ensures
        r@ == break_offsets_of(text@),
        forall|i: int| 0 <= i < r@.len() ==> r@[i] <= text@.len(),
        forall|i: int, j: int| 0 <= i < j < r@.len() ==> r@[i] < r@[j],
        text@.len() > 0 ==> r@.len() > 0 && r@[r@.len() - 1] == text@.len(),
{
    unicode_linebreak::linebreaks(text).map(|(pos, _)| text[..pos].chars().count()).collect()
}

/// Relies on unicode_segmentation::UnicodeSegmentation::graphemes (extended
/// grapheme clusters), counted; the count depends on the text alone.
#[verifier::external_body]
pub(crate) fn grapheme_count(text: &str) -> (r: usize)
    ensures
        r == grapheme_count_of(text@),
{
    unicode_segmentation::UnicodeSegmentation::graphemes(text, true).count()
}

/// Relies on std's `FromIterator` for `String`: collecting characters yields
/// the string of exactly those characters.
#[verifier::external_body]
pub(crate) fn chars_to_string(v: &Vec<char>) -> (r: String)
    ensures
        r@ == v@,
{
    v.iter().collect()
}

/// The characters of the text as a vector, one per char of its view.
pub(crate) fn str_chars(text: &str) -> (r: Vec<char>)
    ensures
        r@ == text@,
{
    let n = text.unicode_len();
    let mut out: Vec<char> = Vec::new();
    let mut i: usize = 0;
    while i < n
        invariant
            n == text@.len(),
            i <= n,
            out@ == text@.take(i as int),
        decreases n - i,
    {
        out.push(text.get_char(i));
        proof {
            assert(text@.take(i + 1 as int) =~= text@.take(i as int).push(text@[i as int]));
        }
        i = i + 1;
    }
    proof {
        assert(text@.take(n as int) =~= text@);
    }
    out
}

/// The width of each character of the text, in order.
pub open spec fn widths_of(s: Seq<char>) -> Seq<usize> {
    Seq::new(s.len(), |i: int| char_width_of(s[i]))
}

/// The display width of a text: the sum of its characters' widths.
pub open spec fn seq_width(s: Seq<char>) -> int
    decreases s.len(),
{
    if s.len() == 0 {
        0
    } else {
        char_width_of(s[0]) + seq_width(s.skip(1))
    }
}

/// The widths of the characters of `chars`, each at most 3 columns.
pub(crate) fn char_widths(chars: &Vec<char>) -> (r: Vec<usize>)
    ensures
        r@ == widths_of(chars@),
        forall|i: int| 0 <= i < r@.len() ==> r@[i] <= 3,
{
    let n = chars.len();
    let mut out: Vec<usize> = Vec::new();
    let mut i: usize = 0;
    while i < n
        invariant
            n == chars@.len(),
            i <= n,
            out@.len() == i,
            forall|j: int| 0 <= j < i ==> out@[j] == char_width_of(chars@[j]) && out@[j] <= 3,
        decreases n - i,
    {
        out.push(char_display_width(chars[i]));
        i = i + 1;
    }
    proof {
        assert(out@ =~= widths_of(chars@));
    }
    out
}

/// Appending a character adds its width.
pub proof fn lemma_seq_width_push(s: Seq<char>, c: char)
    ensures
        seq_width(s.push(c)) == seq_width(s) + char_width_of(c),
    decreases s.len(),
{
    if s.len() == 0 {
        assert(s.push(c)[0] == c);
        assert(s.push(c).skip(1) =~= Seq::<char>::empty());
        assert(seq_width(Seq::<char>::empty()) == 0);
        assert(seq_width(s.push(c)) == char_width_of(c) + seq_width(s.push(c).skip(1)));
    } else {
        assert(s.push(c)[0] == s[0]);
        assert(s.push(c).skip(1) =~= s.skip(1).push(c));
        lemma_seq_width_push(s.skip(1), c);
    }
}

/// The display width of the text, measured with the real width data.
pub fn display_width(text: &str) -> (r: u128)
    ensures
        r as int == seq_width(text@),
        r <= 3 * (usize::MAX as u128),
{
    let chars = str_chars(text);
    chars_display_width(&chars)
}

/// The display width of a character vector.
pub(crate) fn chars_display_width(chars: &Vec<char>) -> (r: u128)
    ensures
        r as int == seq_width(chars@),
        r <= 3 * (usize::MAX as u128),
{
    let n = chars.len();
    let mut acc: u128 = 0;
    let mut i: usize = 0;
    while i < n
        invariant
            n == chars@.len(),
            i <= n,
            acc as int == seq_width(chars@.take(i as int)),
            acc <= 3 * (i as u128),
            i <= usize::MAX,
        decreases n - i,
    {
        let w = char_display_width(chars[i]);
        proof {
            lemma_seq_width_push(chars@.take(i as int), chars@[i as int]);
            assert(chars@.take(i + 1 as int) =~= chars@.take(i as int).push(chars@[i as int]));
        }
        acc = acc + (w as u128);
        i = i + 1;
    }
    proof {
        assert(chars@.take(n as int) =~= chars@);
    }
    acc
}

} // verus!
