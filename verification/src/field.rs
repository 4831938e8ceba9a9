//! Rendering of one named PO field as quoted lines.
//!
//! A field is rendered as `<delflag><fieldname>[<index>] "<first line>"`
//! followed by one quoted continuation line per wrapped fragment. The value
//! is escaped first, wrapping works on the escaped text so that no escape
//! sequence is split across lines, and each emitted line is then unescaped
//! again except for its double quotes, which must stay escaped inside the
//! quoted syntax.

use crate::escaping::escape;
use crate::escaping::escape_seq;
use crate::escaping::no_quotes_unescape_set;
use crate::escaping::unescape_emits;
use crate::escaping::unescape_except_double_quotes;
use crate::twrapper::policy_fragments;
use crate::twrapper::wrap_with;
use crate::twrapper::WrapPolicy;
use crate::unicode::display_width;
use crate::unicode::seq_width;
use vstd::prelude::*;
use vstd::string::*;

verus! {

/// `[i]` for a non-empty plural index, nothing for an empty one.
pub open spec fn plural_idx_repr(idx: Seq<char>) -> Seq<char> {
    if idx.len() == 0 {
        Seq::empty()
    } else {
        seq!['['] + idx + seq![']']
    }
}

/// A quoted, newline-terminated output line with its prefix.
pub open spec fn quoted_line(delflag: Seq<char>, content: Seq<char>) -> Seq<char> {
    delflag + seq!['"'] + content + seq!['"', '\n']
}

/// The unescaping applied to each emitted line: everything except quotes.
pub open spec fn unq(line: Seq<char>) -> Seq<char> {
    unescape_emits(line, false, no_quotes_unescape_set())
}

/// The lines a field value occupies: when the escaped value together with
/// the field name does not fit the budget, an empty first line followed by
/// the wrapped fragments; otherwise the whole escaped value as one line.
pub open spec fn field_lines(
    policy: WrapPolicy,
    escaped: Seq<char>,
    fieldname: Seq<char>,
    w: int,
) -> Seq<Seq<char>> {
    if seq_width(escaped) + seq_width(fieldname) + 1 > w {
        seq![Seq::<char>::empty()] + policy_fragments(policy, escaped, w)
    } else {
        seq![escaped]
    }
}

/// The quoted continuation lines after the first.
pub open spec fn cont_lines(delflag: Seq<char>, lines: Seq<Seq<char>>) -> Seq<char>
    decreases lines.len(),
{
    if lines.len() == 0 {
        Seq::empty()
    } else {
        quoted_line(delflag, unq(lines[0])) + cont_lines(delflag, lines.skip(1))
    }
}

/// Appending a line appends its quoted form.
pub proof fn lemma_cont_lines_push(delflag: Seq<char>, lines: Seq<Seq<char>>, x: Seq<char>)
    ensures
        cont_lines(delflag, lines.push(x)) == cont_lines(delflag, lines) + quoted_line(
            delflag,
            unq(x),
        ),
    decreases lines.len(),
{
    if lines.len() == 0 {
        assert(lines.push(x)[0] == x);
        assert(lines.push(x).skip(1) =~= Seq::<Seq<char>>::empty());
        assert(cont_lines(delflag, Seq::<Seq<char>>::empty()) == Seq::<char>::empty());
        assert(cont_lines(delflag, lines.push(x)) == quoted_line(delflag, unq(x)) + cont_lines(
            delflag,
            lines.push(x).skip(1),
        ));
        assert(cont_lines(delflag, lines.push(x)) =~= quoted_line(delflag, unq(x)));
        assert(cont_lines(delflag, lines) + quoted_line(delflag, unq(x)) =~= quoted_line(
            delflag,
            unq(x),
        ));
    } else {
        assert(lines.push(x)[0] == lines[0]);
        assert(lines.push(x).skip(1) =~= lines.skip(1).push(x));
        lemma_cont_lines_push(delflag, lines.skip(1), x);
        assert(cont_lines(delflag, lines.push(x)) == quoted_line(delflag, unq(lines[0])) + (
        cont_lines(delflag, lines.skip(1)) + quoted_line(delflag, unq(x))));
        assert(quoted_line(delflag, unq(lines[0])) + (cont_lines(delflag, lines.skip(1))
            + quoted_line(delflag, unq(x))) =~= (quoted_line(delflag, unq(lines[0])) + cont_lines(
            delflag,
            lines.skip(1),
        )) + quoted_line(delflag, unq(x)));
    }
}

/// The full text block of one rendered field.
pub open spec fn field_block(
    policy: WrapPolicy,
    fieldname: Seq<char>,
    delflag: Seq<char>,
    value: Seq<char>,
    plural_index: Seq<char>,
    w: int,
) -> Seq<char> {
    let lines = field_lines(policy, escape_seq(value), fieldname, w);
    delflag + fieldname + plural_idx_repr(plural_index) + seq![' '] + quoted_line(
        Seq::empty(),
        unq(lines[0]),
    ) + cont_lines(delflag, lines.skip(1))
}

/// Append one quoted line to the output.
pub(crate) fn push_quoted_line(ret: &mut String, delflag: &str, content: &str)
    ensures
        final (ret)@ == old(ret)@ + quoted_line(delflag@, content@),
{
    ret.append(delflag);
    ret.append("\"");
    ret.append(content);
    ret.append("\"\n");
    proof {
        reveal_strlit("\"");
        reveal_strlit("\"\n");
        assert("\""@ =~= seq!['"']);
        assert("\"\n"@ =~= seq!['"', '\n']);
        assert(ret@ =~= old(ret)@ + quoted_line(delflag@, content@));
    }
}

/// Render one named field under the given wrap policy.
pub(crate) fn render_field(
    policy: WrapPolicy,
    fieldname: &str,
    delflag: &str,
    value: &str,
    plural_index: &str,
    wrapwidth: usize,
) -> (r: String)
    ensures
        r@ == field_block(policy, fieldname@, delflag@, value@, plural_index@, wrapwidth as int),
{
    let ghost w = wrapwidth as int;
    let escaped = escape(value);
    let ew = display_width(escaped.as_str());
    let fw = display_width(fieldname);
    let ghost lines_spec = field_lines(policy, escape_seq(value@), fieldname@, w);
    let lines: Vec<String> = if ew + fw + 1 > wrapwidth as u128 {
        let mut ls: Vec<String> = Vec::new();
        ls.push(String::new());
        let wrapped = wrap_with(policy, escaped.as_str(), wrapwidth);
        let m = wrapped.len();
        let mut k: usize = 0;
        proof {
            assert(ls@.map_values(|t: String| t@) =~= seq![Seq::<char>::empty()]
                + wrapped@.map_values(|t: String| t@).take(0));
        }
        while k < m
            invariant
                m == wrapped@.len(),
                k <= m,
                ls@.map_values(|t: String| t@) == seq![Seq::<char>::empty()] + wrapped@.map_values(
                    |t: String| t@,
                ).take(k as int),
            decreases m - k,
        {
            let ghost prev = ls@.map_values(|t: String| t@);
            ls.push(wrapped[k].clone());
            proof {
                assert(ls@.map_values(|t: String| t@) =~= prev.push(wrapped@[k as int]@));
                assert(seq![Seq::<char>::empty()] + wrapped@.map_values(|t: String| t@).take(
                    k + 1 as int,
                ) =~= prev.push(wrapped@[k as int]@));
            }
            k = k + 1;
        }
        proof {
            assert(wrapped@.map_values(|t: String| t@).take(m as int) =~= wrapped@.map_values(
                |t: String| t@,
            ));
            assert(ls@.map_values(|t: String| t@) == lines_spec);
        }
        ls
    } else {
        let mut ls: Vec<String> = Vec::new();
        ls.push(escaped);
        proof {
            assert(ls@.map_values(|t: String| t@) =~= seq![escape_seq(value@)]);
        }
        ls
    };
    let ghost lines_v = lines@.map_values(|t: String| t@);
    let mut ret = String::new();
    ret.append(delflag);
    ret.append(fieldname);
    if plural_index.unicode_len() > 0 {
        ret.append("[");
        ret.append(plural_index);
        ret.append("]");
    }
    ret.append(" ");
    proof {
        reveal_strlit("[");
        reveal_strlit("]");
        reveal_strlit(" ");
        assert("["@ =~= seq!['[']);
        assert("]"@ =~= seq![']']);
        assert(" "@ =~= seq![' ']);
        assert(ret@ =~= delflag@ + fieldname@ + plural_idx_repr(plural_index@) + seq![' ']);
    }
    let first_un = unescape_except_double_quotes(lines[0].as_str());
    push_quoted_line(&mut ret, "", first_un.as_str());
    proof {
        reveal_strlit("");
        assert(""@ =~= Seq::<char>::empty());
        assert(ret@ =~= delflag@ + fieldname@ + plural_idx_repr(plural_index@) + seq![' ']
            + quoted_line(Seq::empty(), unq(lines_v[0])));
    }
    let ghost head = delflag@ + fieldname@ + plural_idx_repr(plural_index@) + seq![' ']
        + quoted_line(Seq::empty(), unq(lines_v[0]));
    let n = lines.len();
    let mut k: usize = 1;
    proof {
        assert(ret@ + cont_lines(delflag@, lines_v.subrange(1, 1)) =~= ret@);
        assert(lines_v.subrange(1, 1) =~= Seq::<Seq<char>>::empty());
    }
    while k < n
        invariant
            n == lines@.len(),
            n >= 1,
            1 <= k <= n,
            lines_v == lines@.map_values(|t: String| t@),
            ret@ == head + cont_lines(delflag@, lines_v.subrange(1, k as int)),
        decreases n - k,
    {
        let ghost prev = ret@;
        let un = unescape_except_double_quotes(lines[k].as_str());
        push_quoted_line(&mut ret, delflag, un.as_str());
        proof {
            lemma_cont_lines_push(delflag@, lines_v.subrange(1, k as int), lines_v[k as int]);
            assert(lines_v.subrange(1, k + 1 as int) =~= lines_v.subrange(1, k as int).push(
                lines_v[k as int],
            ));
            assert(head + (cont_lines(delflag@, lines_v.subrange(1, k as int)) + quoted_line(
                delflag@,
                unq(lines_v[k as int]),
            )) =~= (head + cont_lines(delflag@, lines_v.subrange(1, k as int))) + quoted_line(
                delflag@,
                unq(lines_v[k as int]),
            ));
        }
        k = k + 1;
    }
    proof {
        assert(lines_v.subrange(1, n as int) =~= lines_v.skip(1));
        assert(ret@ == field_block(
            policy,
            fieldname@,
            delflag@,
            value@,
            plural_index@,
            wrapwidth as int,
        ));
    }
    ret
}

/// One named PO field with its rendering parameters.
pub struct POStringField<'a> {
    pub fieldname: &'a str,
    pub delflag: &'a str,
    pub value: &'a str,
    pub plural_index: &'a str,
    pub wrapwidth: usize,
}

impl<'a> POStringField<'a> {
    /// Bundle the rendering parameters of one field.
    pub fn new(
        fieldname: &'a str,
        delflag: &'a str,
        value: &'a str,
        plural_index: &'a str,
        wrapwidth: usize,
    ) -> (r: POStringField<'a>)
        ensures
            r.fieldname@ == fieldname@,
            r.delflag@ == delflag@,
            r.value@ == value@,
            r.plural_index@ == plural_index@,
            r.wrapwidth == wrapwidth,
    {
        POStringField { fieldname, delflag, value, plural_index, wrapwidth }
    }

    /// The rendered text block of the field, under the gettext wrap policy.
    pub fn to_string(&self) -> (r: String)
        ensures
            r@ == field_block(
                WrapPolicy::Gettext,
                self.fieldname@,
                self.delflag@,
                self.value@,
                self.plural_index@,
                self.wrapwidth as int,
            ),
    {
        render_field(
            WrapPolicy::Gettext,
            self.fieldname,
            self.delflag,
            self.value,
            self.plural_index,
            self.wrapwidth,
        )
    }
}

} // verus!
