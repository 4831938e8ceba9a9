//! Escaping and unescaping of control characters in PO quoted string fields.
//!
//! `escape` replaces backslash, tab, newline, carriage return, vertical tab,
//! backspace, form feed and double quote by their two-character escape
//! sequences; the backslash is handled first, so no sequence is re-escaped.
//! `unescape` reverses the full set: a backslash followed by a recognized
//! code decodes to the character it stands for, and a backslash followed by
//! anything else (or ending the text) is kept literally, so unknown escapes
//! degrade gracefully rather than failing.
//!
//! `unescape_except_double_quotes` is different in kind: it is the partial
//! pass applied to each line when re-emitting an already-escaped value, so
//! it must leave the letter escape sequences intact for the quoted output
//! syntax. It only removes a backslash standing before a literal character
//! of its set, keeping `\"` escaped.

use vstd::prelude::*;
use vstd::string::*;

verus! {

/// True of the characters that `escape` replaces by an escape sequence.
pub open spec fn is_escaped_char(c: char) -> bool {
    ||| c == '\\'
    ||| c == '\t'
    ||| c == '\n'
    ||| c == '\r'
    ||| c == '\u{0B}'
    ||| c == '\u{8}'
    ||| c == '\u{0C}'
    ||| c == '"'
}

/// The letter that follows the backslash in the escape sequence of `c`.
pub open spec fn escape_code(c: char) -> char {
    if c == '\\' {
        '\\'
    } else if c == '\t' {
        't'
    } else if c == '\n' {
        'n'
    } else if c == '\r' {
        'r'
    } else if c == '\u{0B}' {
        'v'
    } else if c == '\u{8}' {
        'b'
    } else if c == '\u{0C}' {
        'f'
    } else {
        '"'
    }
}

/// What `escape` emits for one input character.
pub open spec fn escape_char(c: char) -> Seq<char> {
    if is_escaped_char(c) {
        seq!['\\', escape_code(c)]
    } else {
        seq![c]
    }
}

/// The escaped form of a whole text.
pub open spec fn escape_seq(s: Seq<char>) -> Seq<char>
    decreases s.len(),
{
    if s.len() == 0 {
        Seq::empty()
    } else {
        escape_char(s[0]) + escape_seq(s.skip(1))
    }
}

/// The set of characters that, after a backslash, have their backslash
/// removed by an unescape pass over the text.
pub open spec fn unescape_emits(s: Seq<char>, escaping: bool, set: Seq<char>) -> Seq<char>
    decreases s.len(),
{
    if s.len() == 0 {
        Seq::empty()
    } else if escaping {
        (if set.contains(s[0]) {
            seq![s[0]]
        } else {
            seq!['\\', s[0]]
        }) + unescape_emits(s.skip(1), false, set)
    } else if s[0] == '\\' {
        unescape_emits(s.skip(1), true, set)
    } else {
        seq![s[0]] + unescape_emits(s.skip(1), false, set)
    }
}

/// True of the characters that may follow a backslash in an escape sequence.
pub open spec fn is_escape_code(c: char) -> bool {
    ||| c == 't'
    ||| c == 'n'
    ||| c == 'r'
    ||| c == 'v'
    ||| c == 'b'
    ||| c == 'f'
    ||| c == '\\'
    ||| c == '"'
}

/// The character an escape code stands for; the inverse of `escape_code`.
pub open spec fn decode_code(c: char) -> char {
    if c == 't' {
        '\t'
    } else if c == 'n' {
        '\n'
    } else if c == 'r' {
        '\r'
    } else if c == 'v' {
        '\u{0B}'
    } else if c == 'b' {
        '\u{8}'
    } else if c == 'f' {
        '\u{0C}'
    } else if c == '\\' {
        '\\'
    } else {
        '"'
    }
}

/// The unescaped form of a whole text: every two-character escape sequence
/// becomes its character, and a backslash not opening a recognized sequence
/// stays as it is.
pub open spec fn unescape_decoded(s: Seq<char>) -> Seq<char>
    decreases s.len(),
{
    if s.len() == 0 {
        Seq::empty()
    } else if s[0] == '\\' && s.len() >= 2 && is_escape_code(s[1]) {
        seq![decode_code(s[1])] + unescape_decoded(s.skip(2))
    } else {
        seq![s[0]] + unescape_decoded(s.skip(1))
    }
}

/// The characters whose backslash the partial unescape pass removes. The set
/// holds the literal characters themselves: a backslash followed by one of
/// them loses the backslash, anything else after a backslash stays as it is.
pub open spec fn no_quotes_unescape_set() -> Seq<char> {
    seq!['\\', '\t', '\r', '\n', '\u{8}', '\u{0B}', '\u{0C}']
}

/// Escape characters in a PO string field.
pub fn escape(text: &str) -> (r: String)
    ensures
        r@ == escape_seq(text@),
{
    let n = text.unicode_len();
    let mut out: Vec<char> = Vec::new();
    let mut i: usize = 0;
    while i < n
        invariant
            n == text@.len(),
            i <= n,
            out@ == escape_seq(text@.take(i as int)),
        decreases n - i,
    {
        let c = text.get_char(i);
        if c == '\\' {
            out.push('\\');
            out.push('\\');
        } else if c == '\t' {
            out.push('\\');
            out.push('t');
        } else if c == '\n' {
            out.push('\\');
            out.push('n');
        } else if c == '\r' {
            out.push('\\');
            out.push('r');
        } else if c == '\u{0B}' {
            out.push('\\');
            out.push('v');
        } else if c == '\u{8}' {
            out.push('\\');
            out.push('b');
        } else if c == '\u{0C}' {
            out.push('\\');
            out.push('f');
        } else if c == '"' {
            out.push('\\');
            out.push('"');
        } else {
            out.push(c);
        }
        proof {
            lemma_escape_seq_push(text@.take(i as int), c);
            assert(text@.take(i + 1 as int) == text@.take(i as int).push(c));
        }
        i = i + 1;
    }
    proof {
        assert(text@.take(n as int) == text@);
    }
    crate::unicode::chars_to_string(&out)
}

/// One unescape pass over `text`: a backslash followed by a character of
/// `characters` loses the backslash, a backslash followed by anything else is
/// kept, and a trailing backslash is dropped.
pub fn unescape_characters(text: &str, characters: &[char]) -> (r: String)
    ensures
        r@ == unescape_emits(text@, false, characters@),
{
    let n = text.unicode_len();
    let mut out: Vec<char> = Vec::new();
    let mut escaping: bool = false;
    let mut i: usize = 0;
    proof {
        assert(text@.skip(0) =~= text@);
        assert(out@ + unescape_emits(text@, false, characters@) =~= unescape_emits(
            text@,
            false,
            characters@,
        ));
    }
    while i < n
        invariant
            n == text@.len(),
            i <= n,
            unescape_emits(text@, false, characters@) == out@ + unescape_emits(
                text@.skip(i as int),
                escaping,
                characters@,
            ),
        decreases n - i,
    {
        let ghost prev_out = out@;
        let ghost prev_esc = escaping;
        let ghost t = text@.skip(i as int);
        proof {
            assert(t.len() > 0);
            assert(t[0] == text@[i as int]);
            assert(t.skip(1) =~= text@.skip(i as int + 1));
        }
        let c = text.get_char(i);
        if escaping {
            if !slice_contains(characters, c) {
                out.push('\\');
            }
            out.push(c);
            escaping = false;
        } else if c == '\\' {
            escaping = true;
        } else {
            out.push(c);
        }
        i = i + 1;
        proof {
            assert(out@ + unescape_emits(text@.skip(i as int), escaping, characters@) =~= prev_out
                + unescape_emits(t, prev_esc, characters@));
        }
    }
    proof {
        assert(text@.skip(n as int) =~= Seq::<char>::empty());
        assert(out@ + unescape_emits(text@.skip(n as int), escaping, characters@) =~= out@);
    }
    crate::unicode::chars_to_string(&out)
}

fn slice_contains(s: &[char], c: char) -> (r: bool)
    ensures
        r == s@.contains(c),
{
    let mut i: usize = 0;
    while i < s.len()
        invariant
            i <= s@.len(),
            forall|j: int| 0 <= j < i ==> s@[j] != c,
        decreases s@.len() - i,
    {
        if s[i] == c {
            return true;
        }
        i = i + 1;
    }
    false
}

fn decode_code_exec(c: char) -> (r: Option<char>)
    ensures
        r == (if is_escape_code(c) {
            Option::Some(decode_code(c))
        } else {
            Option::<char>::None
        }),
{
    if c == 't' {
        Option::Some('\t')
    } else if c == 'n' {
        Option::Some('\n')
    } else if c == 'r' {
        Option::Some('\r')
    } else if c == 'v' {
        Option::Some('\u{0B}')
    } else if c == 'b' {
        Option::Some('\u{8}')
    } else if c == 'f' {
        Option::Some('\u{0C}')
    } else if c == '\\' {
        Option::Some('\\')
    } else if c == '"' {
        Option::Some('"')
    } else {
        Option::None
    }
}

/// Unescape characters in a PO string field: the full escape set is decoded
/// back to its characters.
pub fn unescape(text: &str) -> (r: String)
    ensures
        r@ == unescape_decoded(text@),
{
    let n = text.unicode_len();
    let mut out: Vec<char> = Vec::new();
    let mut i: usize = 0;
    proof {
        assert(text@.skip(0) =~= text@);
        assert(out@ + unescape_decoded(text@) =~= unescape_decoded(text@));
    }
    while i < n
        invariant
            n == text@.len(),
            i <= n,
            unescape_decoded(text@) == out@ + unescape_decoded(text@.skip(i as int)),
        decreases n - i,
    {
        let ghost prev_out = out@;
        let ghost t = text@.skip(i as int);
        proof {
            assert(t.len() > 0);
            assert(t[0] == text@[i as int]);
            assert(t.skip(1) =~= text@.skip(i as int + 1));
            if i + 1 < n {
                assert(t[1] == text@[i as int + 1]);
                assert(t.skip(2) =~= text@.skip(i as int + 2));
            }
        }
        let c = text.get_char(i);
        if c == '\\' && i + 1 < n {
            match decode_code_exec(text.get_char(i + 1)) {
                Option::Some(d) => {
                    out.push(d);
                    i = i + 2;
                },
                Option::None => {
                    out.push('\\');
                    i = i + 1;
                },
            }
        } else {
            out.push(c);
            i = i + 1;
        }
        proof {
            assert(out@ + unescape_decoded(text@.skip(i as int)) =~= prev_out + unescape_decoded(
                t,
            ));
        }
    }
    proof {
        assert(text@.skip(n as int) =~= Seq::<char>::empty());
        assert(out@ + unescape_decoded(text@.skip(n as int)) =~= out@);
    }
    crate::unicode::chars_to_string(&out)
}

/// Unescape all characters except double quotes in a PO string field.
pub fn unescape_except_double_quotes(text: &str) -> (r: String)
    ensures
        r@ == unescape_emits(text@, false, no_quotes_unescape_set()),
{
    let characters: [char; 7] = ['\\', '\t', '\r', '\n', '\u{8}', '\u{0B}', '\u{0C}'];
    let r = unescape_characters(text, characters.as_slice());
    proof {
        assert(characters@ =~= no_quotes_unescape_set());
    }
    r
}

/// Appending one character to the input appends its escape sequence to the
/// output.
pub proof fn lemma_escape_seq_push(s: Seq<char>, c: char)
    ensures
        escape_seq(s.push(c)) == escape_seq(s) + escape_char(c),
    decreases s.len(),
{
    if s.len() == 0 {
        assert(s.push(c)[0] == c);
        assert(s.push(c).skip(1) =~= Seq::<char>::empty());
        assert(escape_seq(Seq::<char>::empty()) == Seq::<char>::empty());
        assert(escape_seq(s.push(c)) == escape_char(c) + escape_seq(s.push(c).skip(1)));
        assert(escape_seq(s.push(c)) =~= escape_char(c));
        assert(escape_seq(s) + escape_char(c) =~= escape_char(c));
    } else {
        assert(s.push(c)[0] == s[0]);
        assert(s.push(c).skip(1) =~= s.skip(1).push(c));
        lemma_escape_seq_push(s.skip(1), c);
        assert(escape_seq(s.push(c)) == escape_char(s[0]) + (escape_seq(s.skip(1))
            + escape_char(c)));
        assert(escape_char(s[0]) + (escape_seq(s.skip(1)) + escape_char(c)) =~= (escape_char(s[0])
            + escape_seq(s.skip(1))) + escape_char(c));
    }
}

} // verus!

verus! {

proof fn lemma_unescape_escape_step(c: char, t: Seq<char>)
    ensures
        unescape_decoded(escape_char(c) + t) == seq![c] + unescape_decoded(t),
{
    let u = escape_char(c) + t;
    if is_escaped_char(c) {
        assert(u[0] == '\\');
        assert(u[1] == escape_code(c));
        assert(is_escape_code(escape_code(c)));
        assert(decode_code(escape_code(c)) == c);
        assert(u.skip(2) =~= t);
        assert(unescape_decoded(u) == seq![c] + unescape_decoded(t));
    } else {
        assert(u[0] == c);
        assert(c != '\\');
        assert(u.skip(1) =~= t);
        assert(unescape_decoded(u) == seq![c] + unescape_decoded(t));
    }
}

/// Escaping and unescaping are inverse: unescaping the escaped form of any
/// text yields the text again. Escaping leaves no backslash unpaired, so no
/// restriction on the text is needed.
pub proof fn lemma_unescape_escape(s: Seq<char>)
    ensures
        unescape_decoded(escape_seq(s)) == s,
    decreases s.len(),
{
    if s.len() == 0 {
        assert(escape_seq(s) == Seq::<char>::empty());
        assert(unescape_decoded(Seq::<char>::empty()) == Seq::<char>::empty());
    } else {
        assert(escape_seq(s) == escape_char(s[0]) + escape_seq(s.skip(1)));
        lemma_unescape_escape_step(s[0], escape_seq(s.skip(1)));
        lemma_unescape_escape(s.skip(1));
        assert(seq![s[0]] + s.skip(1) =~= s);
    }
}

} // verus!
