//! Small text helpers the entry model needs: Unicode whitespace trimming,
//! numeric ordering of plural indices, insertion sort of indexed plural
//! pairs, decimal rendering of positions, and splitting a text into lines.

use vstd::prelude::*;
use vstd::string::*;

verus! {

/// The characters with the Unicode `White_Space` property.
pub open spec fn is_white_space(c: char) -> bool {
    ||| c == '\t'
    ||| c == '\n'
    ||| c == '\u{0B}'
    ||| c == '\u{0C}'
    ||| c == '\r'
    ||| c == ' '
    ||| c == '\u{85}'
    ||| c == '\u{A0}'
    ||| c == '\u{1680}'
    ||| ('\u{2000}' <= c && c <= '\u{200A}')
    ||| c == '\u{2028}'
    ||| c == '\u{2029}'
    ||| c == '\u{202F}'
    ||| c == '\u{205F}'
    ||| c == '\u{3000}'
}

fn is_white_space_exec(c: char) -> (r: bool)
    ensures
        r == is_white_space(c),
{
    c == '\t' || c == '\n' || c == '\u{0B}' || c == '\u{0C}' || c == '\r' || c == ' ' || c
        == '\u{85}' || c == '\u{A0}' || c == '\u{1680}' || ('\u{2000}' <= c && c <= '\u{200A}')
        || c == '\u{2028}' || c == '\u{2029}' || c == '\u{202F}' || c == '\u{205F}' || c
        == '\u{3000}'
}

/// The text without its trailing whitespace.
pub open spec fn trimmed_end(s: Seq<char>) -> Seq<char>
    decreases s.len(),
{
    if s.len() == 0 || !is_white_space(s.last()) {
        s
    } else {
        trimmed_end(s.drop_last())
    }
}

proof fn lemma_trimmed_take(s: Seq<char>, j: int)
    requires
        0 <= j <= s.len(),
        forall|k: int| j <= k < s.len() ==> is_white_space(s[k]),
        j > 0 ==> !is_white_space(s[j - 1]),
    ensures
        trimmed_end(s) == s.take(j),
    decreases s.len() - j,
{
    if j == s.len() {
        assert(s.take(j) =~= s);
    } else {
        assert(is_white_space(s.last()));
        lemma_trimmed_take(s.drop_last(), j);
        assert(s.drop_last().take(j) =~= s.take(j));
    }
}

/// The text with trailing whitespace removed.
pub(crate) fn trim_end_str(text: &str) -> (r: String)
    ensures
        r@ == trimmed_end(text@),
{
    let chars = crate::unicode::str_chars(text);
    let n = chars.len();
    let mut j: usize = n;
    while j > 0 && is_white_space_exec(chars[j - 1])
        invariant
            n == chars@.len(),
            j <= n,
            forall|k: int| j <= k < chars@.len() ==> is_white_space(chars@[k]),
        decreases j,
    {
        j = j - 1;
    }
    let kept = crate::twrapper::vec_slice(&chars, 0, j);
    proof {
        lemma_trimmed_take(text@, j as int);
        assert(chars@.subrange(0, j as int) =~= text@.take(j as int));
    }
    crate::unicode::chars_to_string(&kept)
}

/// Strict lexicographic order on texts, by code point.
pub open spec fn lex_lt(a: Seq<char>, b: Seq<char>) -> bool
    decreases a.len(),
{
    if a.len() == 0 {
        b.len() > 0
    } else if b.len() == 0 {
        false
    } else if a[0] != b[0] {
        (a[0] as u32) < (b[0] as u32)
    } else {
        lex_lt(a.skip(1), b.skip(1))
    }
}

/// Whether `a` orders strictly before `b`.
pub(crate) fn str_lex_lt(a: &str, b: &str) -> (r: bool)
    ensures
        r == lex_lt(a@, b@),
{
    let la = a.unicode_len();
    let lb = b.unicode_len();
    let mut i: usize = 0;
    proof {
        assert(a@.skip(0) =~= a@);
        assert(b@.skip(0) =~= b@);
    }
    loop
        invariant
            la == a@.len(),
            lb == b@.len(),
            i <= la,
            i <= lb,
            lex_lt(a@, b@) == lex_lt(a@.skip(i as int), b@.skip(i as int)),
        ensures
            i <= la && i <= lb,
            lex_lt(a@, b@) == lex_lt(a@.skip(i as int), b@.skip(i as int)),
            i >= la || i >= lb,
        decreases la - i,
    {
        if i >= la || i >= lb {
            break ;
        }
        let ca = a.get_char(i);
        let cb = b.get_char(i);
        proof {
            assert(a@.skip(i as int)[0] == a@[i as int]);
            assert(b@.skip(i as int)[0] == b@[i as int]);
            assert(a@.skip(i as int).skip(1) =~= a@.skip(i as int + 1));
            assert(b@.skip(i as int).skip(1) =~= b@.skip(i as int + 1));
        }
        if ca != cb {
            proof {
                assert(lex_lt(a@.skip(i as int), b@.skip(i as int)) == ((ca as u32) < (
                cb as u32)));
            }
            return (ca as u32) < (cb as u32);
        }
        i = i + 1;
    }
    proof {
        if i >= la {
            assert(a@.skip(i as int).len() == 0);
        } else {
            assert(i >= lb);
            assert(b@.skip(i as int).len() == 0);
            assert(a@.skip(i as int).len() > 0);
        }
    }
    la < lb
}

/// True of a decimal digit.
pub open spec fn is_ascii_digit(c: char) -> bool {
    '0' <= c && c <= '9'
}

/// True of a non-empty text made of decimal digits alone.
pub open spec fn all_digits(s: Seq<char>) -> bool {
    s.len() > 0 && (forall|i: int| 0 <= i < s.len() ==> is_ascii_digit(#[trigger] s[i]))
}

/// The text without its leading zeros.
pub open spec fn strip_zeros(s: Seq<char>) -> Seq<char>
    decreases s.len(),
{
    if s.len() == 0 || s[0] != '0' {
        s
    } else {
        strip_zeros(s.skip(1))
    }
}

/// Numeric order on decimal numerals: once leading zeros are dropped, a
/// shorter numeral is smaller, and equally long numerals compare digit by
/// digit.
pub open spec fn numeric_lt(a: Seq<char>, b: Seq<char>) -> bool {
    ||| strip_zeros(a).len() < strip_zeros(b).len()
    ||| (strip_zeros(a).len() == strip_zeros(b).len() && lex_lt(strip_zeros(a), strip_zeros(b)))
}

/// The order of plural indices: digit keys ascend numerically (lexicographic
/// order breaking ties among numerals of equal value, such as a key with a
/// leading zero), digit keys come before any other key, and the remaining
/// keys order lexicographically.
pub open spec fn index_lt(a: Seq<char>, b: Seq<char>) -> bool {
    if all_digits(a) && all_digits(b) {
        if numeric_lt(a, b) {
            true
        } else if numeric_lt(b, a) {
            false
        } else {
            lex_lt(a, b)
        }
    } else if all_digits(a) {
        true
    } else if all_digits(b) {
        false
    } else {
        lex_lt(a, b)
    }
}

fn all_digits_exec(text: &str) -> (r: bool)
    ensures
        r == all_digits(text@),
{
    let n = text.unicode_len();
    if n == 0 {
        return false;
    }
    let mut i: usize = 0;
    while i < n
        invariant
            n == text@.len(),
            i <= n,
            forall|j: int| 0 <= j < i ==> is_ascii_digit(#[trigger] text@[j]),
        decreases n - i,
    {
        let c = text.get_char(i);
        if !('0' <= c && c <= '9') {
            return false;
        }
        i = i + 1;
    }
    true
}

proof fn lemma_strip_zeros_skip(s: Seq<char>, z: int)
    requires
        0 <= z <= s.len(),
        forall|k: int| 0 <= k < z ==> s[k] == '0',
        z < s.len() ==> s[z] != '0',
    ensures
        strip_zeros(s) == s.skip(z),
    decreases z,
{
    if z == 0 {
        assert(s.skip(0) =~= s);
    } else {
        assert(s[0] == '0');
        assert(forall|k: int| 0 <= k < z - 1 ==> #[trigger] s.skip(1)[k] == '0');
        if z < s.len() {
            assert(s.skip(1)[z - 1] == s[z]);
        }
        lemma_strip_zeros_skip(s.skip(1), z - 1);
        assert(s.skip(1).skip(z - 1) =~= s.skip(z));
    }
}

/// The text without its leading zeros.
fn strip_leading_zeros(text: &str) -> (r: String)
    ensures
        r@ == strip_zeros(text@),
{
    let chars = crate::unicode::str_chars(text);
    let n = chars.len();
    let mut z: usize = 0;
    while z < n && chars[z] == '0'
        invariant
            n == chars@.len(),
            z <= n,
            forall|k: int| 0 <= k < z ==> chars@[k] == '0',
        decreases n - z,
    {
        z = z + 1;
    }
    let kept = crate::twrapper::vec_slice(&chars, z, n);
    proof {
        lemma_strip_zeros_skip(text@, z as int);
        assert(chars@.subrange(z as int, n as int) =~= text@.skip(z as int));
    }
    crate::unicode::chars_to_string(&kept)
}

/// Whether plural index `a` orders strictly before plural index `b`.
pub(crate) fn str_index_lt(a: &str, b: &str) -> (r: bool)
    ensures
        r == index_lt(a@, b@),
{
    let da = all_digits_exec(a);
    let db = all_digits_exec(b);
    if da && db {
        let sa = strip_leading_zeros(a);
        let sb = strip_leading_zeros(b);
        let la = sa.as_str().unicode_len();
        let lb = sb.as_str().unicode_len();
        if la < lb {
            true
        } else if la > lb {
            false
        } else if str_lex_lt(sa.as_str(), sb.as_str()) {
            true
        } else if str_lex_lt(sb.as_str(), sa.as_str()) {
            false
        } else {
            str_lex_lt(a, b)
        }
    } else if da {
        true
    } else if db {
        false
    } else {
        str_lex_lt(a, b)
    }
}

/// The views of a sequence of string pairs.
pub open spec fn pair_views(s: Seq<(String, String)>) -> Seq<(Seq<char>, Seq<char>)> {
    s.map_values(|p: (String, String)| (p.0@, p.1@))
}

/// Insertion of a pair into a key-sorted sequence: before the first element
/// whose key does not order strictly below the new key.
pub open spec fn insert_pair(
    x: (Seq<char>, Seq<char>),
    l: Seq<(Seq<char>, Seq<char>)>,
) -> Seq<(Seq<char>, Seq<char>)>
    decreases l.len(),
{
    if l.len() == 0 {
        seq![x]
    } else if index_lt(l[0].0, x.0) {
        seq![l[0]] + insert_pair(x, l.skip(1))
    } else {
        seq![x] + l
    }
}

/// Insertion sort of indexed pairs by key, in ascending numeric index order.
pub open spec fn sort_pairs(l: Seq<(Seq<char>, Seq<char>)>) -> Seq<(Seq<char>, Seq<char>)>
    decreases l.len(),
{
    if l.len() == 0 {
        Seq::empty()
    } else {
        insert_pair(l[0], sort_pairs(l.skip(1)))
    }
}

proof fn lemma_insert_split(x: (Seq<char>, Seq<char>), l: Seq<(Seq<char>, Seq<char>)>, k: int)
    requires
        0 <= k <= l.len(),
        forall|j: int| 0 <= j < k ==> index_lt(#[trigger] l[j].0, x.0),
        k < l.len() ==> !index_lt(l[k].0, x.0),
    ensures
        insert_pair(x, l) == l.take(k) + seq![x] + l.skip(k),
    decreases k,
{
    if l.len() == 0 {
        assert(l.take(0) =~= Seq::<(Seq<char>, Seq<char>)>::empty());
        assert(l.skip(0) =~= l);
        assert(l.take(0) + seq![x] + l.skip(0) =~= seq![x]);
    } else if k == 0 {
        assert(l.take(0) + seq![x] + l.skip(0) =~= seq![x] + l);
    } else {
        assert(index_lt(l[0].0, x.0));
        assert(forall|j: int| 0 <= j < k - 1 ==> index_lt(#[trigger] l.skip(1)[j].0, x.0));
        lemma_insert_split(x, l.skip(1), k - 1);
        assert(seq![l[0]] + (l.skip(1).take(k - 1) + seq![x] + l.skip(1).skip(k - 1)) =~= l.take(k)
            + seq![x] + l.skip(k));
    }
}

/// Insert one pair into a key-sorted vector of pairs.
fn insert_pair_exec(x: (String, String), l: Vec<(String, String)>) -> (r: Vec<(String, String)>)
    ensures
        pair_views(r@) == insert_pair((x.0@, x.1@), pair_views(l@)),
{
    let ghost xv = (x.0@, x.1@);
    let ghost lv = pair_views(l@);
    let n = l.len();
    let mut k: usize = 0;
    loop
        invariant
            n == l@.len(),
            lv == pair_views(l@),
            xv == (x.0@, x.1@),
            k <= n,
            forall|j: int| 0 <= j < k ==> index_lt(#[trigger] lv[j].0, xv.0),
        ensures
            k <= n,
            forall|j: int| 0 <= j < k ==> index_lt(#[trigger] lv[j].0, xv.0),
            k < n ==> !index_lt(lv[k as int].0, xv.0),
        decreases n - k,
    {
        if k >= n {
            break ;
        }
        let below = str_index_lt(l[k].0.as_str(), x.0.as_str());
        proof {
            assert(lv[k as int] == (l@[k as int].0@, l@[k as int].1@));
            assert(below == index_lt(lv[k as int].0, xv.0));
        }
        if !below {
            break ;
        }
        k = k + 1;
    }
    proof {
        lemma_insert_split(xv, lv, k as int);
    }
    let mut out: Vec<(String, String)> = Vec::new();
    let mut i: usize = 0;
    while i < k
        invariant
            k <= n,
            n == l@.len(),
            lv == pair_views(l@),
            i <= k,
            pair_views(out@) == lv.take(i as int),
        decreases k - i,
    {
        let ghost prev = pair_views(out@);
        out.push((l[i].0.clone(), l[i].1.clone()));
        proof {
            assert(pair_views(out@) =~= prev.push(lv[i as int]));
            assert(lv.take(i + 1 as int) =~= lv.take(i as int).push(lv[i as int]));
        }
        i = i + 1;
    }
    let ghost before = pair_views(out@);
    out.push(x);
    proof {
        assert(pair_views(out@) =~= before.push(xv));
    }
    let mut i2: usize = k;
    while i2 < n
        invariant
            k <= n,
            n == l@.len(),
            lv == pair_views(l@),
            k <= i2 <= n,
            pair_views(out@) == lv.take(k as int) + seq![xv] + lv.subrange(k as int, i2 as int),
        decreases n - i2,
    {
        let ghost prev = pair_views(out@);
        out.push((l[i2].0.clone(), l[i2].1.clone()));
        proof {
            assert(pair_views(out@) =~= prev.push(lv[i2 as int]));
            assert(lv.take(k as int) + seq![xv] + lv.subrange(k as int, i2 + 1 as int)
                =~= prev.push(lv[i2 as int]));
        }
        i2 = i2 + 1;
    }
    proof {
        assert(lv.take(k as int) + seq![xv] + lv.take(k as int) =~= lv.take(k as int) + seq![xv]
            + lv.take(k as int));
        assert(lv.subrange(k as int, n as int) =~= lv.skip(k as int));
        assert(pair_views(out@) =~= lv.take(k as int) + seq![xv] + lv.skip(k as int));
    }
    out
}

/// Sort indexed pairs by key, ascending.
pub(crate) fn sort_pairs_exec(v: &Vec<(String, String)>) -> (r: Vec<(String, String)>)
    ensures
        pair_views(r@) == sort_pairs(pair_views(v@)),
{
    let n = v.len();
    let ghost vv = pair_views(v@);
    let mut out: Vec<(String, String)> = Vec::new();
    let mut i: usize = n;
    proof {
        assert(vv.skip(n as int) =~= Seq::<(Seq<char>, Seq<char>)>::empty());
        assert(pair_views(out@) =~= sort_pairs(vv.skip(n as int)));
    }
    while i > 0
        invariant
            n == v@.len(),
            vv == pair_views(v@),
            i <= n,
            pair_views(out@) == sort_pairs(vv.skip(i as int)),
        decreases i,
    {
        i = i - 1;
        let x = (v[i].0.clone(), v[i].1.clone());
        out = insert_pair_exec(x, out);
        proof {
            assert(vv.skip(i as int)[0] == vv[i as int]);
            assert(vv.skip(i as int).skip(1) =~= vv.skip(i as int + 1));
        }
    }
    proof {
        assert(vv.skip(0) =~= vv);
    }
    out
}

/// The decimal digit character of `d`.
pub open spec fn dec_digit(d: int) -> char {
    if d == 0 {
        '0'
    } else if d == 1 {
        '1'
    } else if d == 2 {
        '2'
    } else if d == 3 {
        '3'
    } else if d == 4 {
        '4'
    } else if d == 5 {
        '5'
    } else if d == 6 {
        '6'
    } else if d == 7 {
        '7'
    } else if d == 8 {
        '8'
    } else {
        '9'
    }
}

/// The decimal representation of a non-negative number.
pub open spec fn dec_digits(n: int) -> Seq<char>
    decreases n,
{
    if n < 10 {
        seq![dec_digit(n)]
    } else {
        dec_digits(n / 10) + seq![dec_digit(n % 10)]
    }
}

fn dec_digit_exec(d: usize) -> (r: char)
    requires
        d < 10,
    ensures
        r == dec_digit(d as int),
{
    if d == 0 {
        '0'
    } else if d == 1 {
        '1'
    } else if d == 2 {
        '2'
    } else if d == 3 {
        '3'
    } else if d == 4 {
        '4'
    } else if d == 5 {
        '5'
    } else if d == 6 {
        '6'
    } else if d == 7 {
        '7'
    } else if d == 8 {
        '8'
    } else {
        '9'
    }
}

fn dec_chars(n: usize) -> (r: Vec<char>)
    ensures
        r@ == dec_digits(n as int),
    decreases n,
{
    if n < 10 {
        let mut v: Vec<char> = Vec::new();
        v.push(dec_digit_exec(n));
        proof {
            assert(v@ =~= dec_digits(n as int));
        }
        v
    } else {
        let mut v = dec_chars(n / 10);
        v.push(dec_digit_exec(n % 10));
        proof {
            assert(v@ =~= dec_digits((n / 10) as int) + seq![dec_digit((n % 10) as int)]);
        }
        v
    }
}

/// The decimal text of a position.
pub(crate) fn usize_to_string(n: usize) -> (r: String)
    ensures
        r@ == dec_digits(n as int),
{
    let v = dec_chars(n);
    crate::unicode::chars_to_string(&v)
}

/// The lines of a text: pieces between newline characters, each with one
/// trailing carriage return removed, and nothing after a final newline.
pub open spec fn str_lines(s: Seq<char>) -> Seq<Seq<char>>
    decreases s.len(),
{
    if s.len() == 0 {
        Seq::empty()
    } else if s.contains('\n') && 0 <= first_nl(s) < s.len() {
        let k = first_nl(s);
        seq![strip_cr(s.take(k))] + str_lines(s.skip(k + 1))
    } else {
        seq![strip_cr(s)]
    }
}

/// The index of the first newline of the text.
pub open spec fn first_nl(s: Seq<char>) -> int
    decreases s.len(),
{
    if s.len() == 0 {
        0
    } else if s[0] == '\n' {
        0
    } else {
        1 + first_nl(s.skip(1))
    }
}

/// A line without its trailing carriage return.
pub open spec fn strip_cr(l: Seq<char>) -> Seq<char> {
    if l.len() > 0 && l.last() == '\r' {
        l.drop_last()
    } else {
        l
    }
}

proof fn lemma_first_nl(s: Seq<char>)
    requires
        s.contains('\n'),
    ensures
        0 <= first_nl(s) < s.len(),
        s[first_nl(s)] == '\n',
        forall|j: int| 0 <= j < first_nl(s) ==> s[j] != '\n',
    decreases s.len(),
{
    if s.len() > 0 && s[0] != '\n' {
        assert(s.skip(1).contains('\n')) by {
            let w = choose|w: int| 0 <= w < s.len() && s[w] == '\n';
            assert(s.skip(1)[w - 1] == '\n');
        }
        lemma_first_nl(s.skip(1));
        assert forall|j: int| 0 <= j < first_nl(s) implies s[j] != '\n' by {
            if j > 0 {
                assert(s.skip(1)[j - 1] == s[j]);
                assert(j - 1 < first_nl(s.skip(1)));
            }
        }
    }
}

/// The lines of the text, as `str_lines` describes them.
pub(crate) fn split_lines(text: &str) -> (r: Vec<String>)
    ensures
        r@.map_values(|t: String| t@) == str_lines(text@),
{
    let chars = crate::unicode::str_chars(text);
    let n = chars.len();
    let mut out: Vec<String> = Vec::new();
    let mut start: usize = 0;
    proof {
        assert(text@.skip(0) =~= text@);
        assert(out@.map_values(|t: String| t@) =~= Seq::<Seq<char>>::empty());
        assert(out@.map_values(|t: String| t@) + str_lines(text@.skip(0)) =~= str_lines(text@));
    }
    while start < n
        invariant
            n == chars@.len(),
            chars@ == text@,
            start <= n,
            str_lines(text@) == out@.map_values(|t: String| t@) + str_lines(
                text@.skip(start as int),
            ),
        decreases n - start,
    {
        let ghost rest = text@.skip(start as int);
        let ghost prev = out@.map_values(|t: String| t@);
        // find the next newline, if any
        let mut j: usize = start;
        while j < n && chars[j] != '\n'
            invariant
                n == chars@.len(),
                start <= j <= n,
                forall|t: int| start <= t < j ==> chars@[t] != '\n',
            decreases n - j,
        {
            j = j + 1;
        }
        if j < n {
            // a newline at j ends this line
            proof {
                assert(rest[j - start] == '\n');
                assert(rest.contains('\n'));
                lemma_first_nl(rest);
                assert(forall|t: int|
                    0 <= t < j - start ==> rest[t] == #[trigger] text@[start + t]);
                assert(first_nl(rest) == j - start) by {
                    if first_nl(rest) < j - start {
                        assert(text@[start + first_nl(rest)] == '\n');
                    }
                }
            }
            let line_end = trim_one_cr(chars.len(), &chars, start, j);
            let piece = crate::twrapper::vec_slice(&chars, start, line_end);
            let s = crate::unicode::chars_to_string(&piece);
            out.push(s);
            proof {
                assert(rest.take(j - start) =~= text@.subrange(start as int, j as int));
                assert(strip_cr(rest.take(j - start)) =~= text@.subrange(
                    start as int,
                    line_end as int,
                ));
                assert(out@.map_values(|t: String| t@) =~= prev.push(
                    text@.subrange(start as int, line_end as int),
                ));
                assert(rest.skip(j - start + 1) =~= text@.skip(j + 1 as int));
                assert(prev + (seq![strip_cr(rest.take(j - start))] + str_lines(
                    text@.skip(j + 1 as int),
                )) =~= prev.push(text@.subrange(start as int, line_end as int)) + str_lines(
                    text@.skip(j + 1 as int),
                ));
            }
            start = j + 1;
        } else {
            // no newline: the rest is the final line
            proof {
                assert(!rest.contains('\n')) by {
                    if rest.contains('\n') {
                        let w = choose|w: int| 0 <= w < rest.len() && rest[w] == '\n';
                        assert(text@[start + w] == '\n');
                    }
                }
                assert(rest.len() > 0);
            }
            let line_end = trim_one_cr(chars.len(), &chars, start, n);
            let piece = crate::twrapper::vec_slice(&chars, start, line_end);
            let s = crate::unicode::chars_to_string(&piece);
            out.push(s);
            proof {
                assert(rest =~= text@.subrange(start as int, n as int));
                assert(strip_cr(rest) =~= text@.subrange(start as int, line_end as int));
                assert(out@.map_values(|t: String| t@) =~= prev.push(strip_cr(rest)));
                assert(prev + seq![strip_cr(rest)] =~= prev.push(strip_cr(rest)));
                assert(str_lines(rest) =~= seq![strip_cr(rest)]);
                assert(text@.skip(n as int) =~= Seq::<char>::empty());
            }
            start = n;
        }
    }
    proof {
        assert(text@.skip(n as int) =~= Seq::<char>::empty());
        assert(str_lines(Seq::<char>::empty()) =~= Seq::<Seq<char>>::empty());
        assert(out@.map_values(|t: String| t@) + Seq::<Seq<char>>::empty() =~= out@.map_values(
            |t: String| t@,
        ));
    }
    out
}

/// The end of the line `chars[start..j]` once a single trailing carriage
/// return is dropped.
fn trim_one_cr(n: usize, chars: &Vec<char>, start: usize, j: usize) -> (r: usize)
    requires
        n == chars@.len(),
        start <= j <= n,
    ensures
        start <= r <= j,
        chars@.subrange(start as int, r as int) == strip_cr(
            chars@.subrange(start as int, j as int),
        ),
{
    let ghost l = chars@.subrange(start as int, j as int);
    if j > start && chars[j - 1] == '\r' {
        proof {
            assert(l.last() == '\r');
            assert(l.drop_last() =~= chars@.subrange(start as int, j - 1));
        }
        j - 1
    } else {
        proof {
            if l.len() > 0 {
                assert(l.last() == chars@[j - 1]);
            }
        }
        j
    }
}

} // verus!

verus! {

/// The text without its leading whitespace.
pub open spec fn trimmed_start(s: Seq<char>) -> Seq<char>
    decreases s.len(),
{
    if s.len() == 0 || !is_white_space(s[0]) {
        s
    } else {
        trimmed_start(s.skip(1))
    }
}

/// The text without its leading and trailing whitespace.
pub open spec fn trimmed(s: Seq<char>) -> Seq<char> {
    trimmed_end(trimmed_start(s))
}

proof fn lemma_trimmed_start_skip(s: Seq<char>, j: int)
    requires
        0 <= j <= s.len(),
        forall|k: int| 0 <= k < j ==> is_white_space(s[k]),
        j < s.len() ==> !is_white_space(s[j]),
    ensures
        trimmed_start(s) == s.skip(j),
    decreases j,
{
    if j == 0 {
        assert(s.skip(0) =~= s);
    } else {
        assert(is_white_space(s[0]));
        assert(forall|k: int| 0 <= k < j - 1 ==> is_white_space(#[trigger] s.skip(1)[k]));
        if j < s.len() {
            assert(s.skip(1)[j - 1] == s[j]);
        }
        lemma_trimmed_start_skip(s.skip(1), j - 1);
        assert(s.skip(1).skip(j - 1) =~= s.skip(j));
    }
}

/// The text with leading and trailing whitespace removed.
pub(crate) fn trim_str(text: &str) -> (r: String)
    ensures
        r@ == trimmed(text@),
{
    let chars = crate::unicode::str_chars(text);
    let n = chars.len();
    let mut a: usize = 0;
    while a < n && is_white_space_exec(chars[a])
        invariant
            n == chars@.len(),
            a <= n,
            forall|k: int| 0 <= k < a ==> is_white_space(chars@[k]),
        decreases n - a,
    {
        a = a + 1;
    }
    proof {
        lemma_trimmed_start_skip(text@, a as int);
    }
    let mut b: usize = n;
    while b > a && is_white_space_exec(chars[b - 1])
        invariant
            n == chars@.len(),
            a <= b <= n,
            forall|k: int| b <= k < chars@.len() ==> is_white_space(chars@[k]),
        decreases b,
    {
        b = b - 1;
    }
    let kept = crate::twrapper::vec_slice(&chars, a, b);
    proof {
        let st = text@.skip(a as int);
        assert(forall|k: int| b - a <= k < st.len() ==> is_white_space(#[trigger] st[k])) by {
            assert(forall|k: int| b - a <= k < st.len() ==> st[k] == #[trigger] text@[a + k]);
        }
        if b > a {
            assert(st[b - a - 1] == text@[b - 1]);
            assert(!is_white_space(st[b - a - 1]));
        }
        lemma_trimmed_take(st, b - a);
        assert(chars@.subrange(a as int, b as int) =~= st.take(b - a));
    }
    crate::unicode::chars_to_string(&kept)
}

} // verus!
