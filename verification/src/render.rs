//! The building blocks of a serialized entry: comment blocks, the
//! occurrences line, the flags line, plural msgstr blocks and the metadata
//! msgstr block. Each block has a spec description and an exec function that
//! appends exactly that block to the output.

use crate::escaping::escape;
use crate::escaping::escape_seq;
use crate::field::field_block;
use crate::field::render_field;
use crate::strutil::sort_pairs;
use crate::strutil::split_lines;
use crate::strutil::str_lines;
use crate::twrapper::cap0;
use crate::twrapper::policy_fragments;
use crate::twrapper::wrap_with;
use crate::twrapper::WrapPolicy;
use crate::unicode::grapheme_count;
use crate::unicode::grapheme_count_of;
use crate::unicode::seq_width;
use vstd::prelude::*;
use vstd::string::*;

verus! {

/// How the length of a comment or occurrences line is measured against the
/// wrap width: in grapheme clusters or in display columns.
#[derive(Clone, Copy, PartialEq, Eq, Structural)]
pub enum Measure {
    Graphemes,
    Columns,
}

/// The measured length of a line.
pub open spec fn line_measure(m: Measure, s: Seq<char>) -> int {
    match m {
        Measure::Graphemes => grapheme_count_of(s) as int,
        Measure::Columns => seq_width(s),
    }
}

fn measure_str(m: Measure, s: &str) -> (r: u128)
    ensures
        r as int == line_measure(m, s@),
        r <= 3 * (usize::MAX as u128),
{
    match m {
        Measure::Graphemes => grapheme_count(s) as u128,
        Measure::Columns => crate::unicode::display_width(s),
    }
}

/// The items after the first, each preceded by the separator.
pub open spec fn tail_join(sep: Seq<char>, items: Seq<Seq<char>>) -> Seq<char>
    decreases items.len(),
{
    if items.len() == 0 {
        Seq::empty()
    } else {
        sep + items[0] + tail_join(sep, items.skip(1))
    }
}

/// The items joined by the separator.
pub open spec fn joined_with(sep: Seq<char>, items: Seq<Seq<char>>) -> Seq<char> {
    if items.len() == 0 {
        Seq::empty()
    } else {
        items[0] + tail_join(sep, items.skip(1))
    }
}

/// Appending an item appends a separator and the item.
pub proof fn lemma_tail_join_push(sep: Seq<char>, items: Seq<Seq<char>>, x: Seq<char>)
    ensures
        tail_join(sep, items.push(x)) == tail_join(sep, items) + (sep + x),
    decreases items.len(),
{
    if items.len() == 0 {
        assert(items.push(x)[0] == x);
        assert(items.push(x).skip(1) =~= Seq::<Seq<char>>::empty());
        assert(tail_join(sep, Seq::<Seq<char>>::empty()) == Seq::<char>::empty());
        assert(tail_join(sep, items.push(x)) =~= tail_join(sep, items) + (sep + x));
    } else {
        assert(items.push(x)[0] == items[0]);
        assert(items.push(x).skip(1) =~= items.skip(1).push(x));
        lemma_tail_join_push(sep, items.skip(1), x);
        assert(sep + items[0] + (tail_join(sep, items.skip(1)) + (sep + x)) =~= (sep + items[0]
            + tail_join(sep, items.skip(1))) + (sep + x));
    }
}

/// One occurrence as text: `path` or `path:line`.
pub open spec fn occ_entry(p: (Seq<char>, Seq<char>)) -> Seq<char> {
    if p.1.len() == 0 {
        p.0
    } else {
        p.0 + ":"@ + p.1
    }
}

/// The occurrences of an entry joined by single spaces.
pub open spec fn occ_repr(occs: Seq<(Seq<char>, Seq<char>)>) -> Seq<char> {
    joined_with(" "@, occs.map_values(|p: (Seq<char>, Seq<char>)| occ_entry(p)))
}

/// The `#: ` occurrences block: the joined occurrences, wrapped at three
/// columns less than the budget when the measured line overflows it, each
/// wrapped piece on its own `#: ` line.
pub open spec fn occ_block(
    policy: WrapPolicy,
    m: Measure,
    occs: Seq<(Seq<char>, Seq<char>)>,
    w: int,
) -> Seq<char> {
    let repr = occ_repr(occs);
    (if line_measure(m, repr) + 3 > w {
        joined_with(
            "\n"@,
            policy_fragments(policy, repr, cap0(w - 3)).map_values(|f: Seq<char>| "#: "@ + f),
        )
    } else {
        "#: "@ + repr
    }) + "\n"@
}

/// The `#, ` flags line.
pub open spec fn flags_line(flags: Seq<Seq<char>>) -> Seq<char> {
    "#, "@ + joined_with(", "@, flags) + "\n"@
}

/// One comment line: wrapped at two columns less than the budget when the
/// measured line overflows it (losing its prefix, as the reference tool
/// does), prefixed otherwise.
pub open spec fn comment_line(
    policy: WrapPolicy,
    m: Measure,
    prefix: Seq<char>,
    line: Seq<char>,
    w: int,
) -> Seq<char> {
    (if line_measure(m, line) + 2 > w {
        joined_with("\n"@, policy_fragments(policy, line, cap0(w - 2)))
    } else {
        prefix + line
    }) + "\n"@
}

/// A whole comment block, one `comment_line` per line of the comment.
pub open spec fn comment_block(
    policy: WrapPolicy,
    m: Measure,
    prefix: Seq<char>,
    lines: Seq<Seq<char>>,
    w: int,
) -> Seq<char>
    decreases lines.len(),
{
    if lines.len() == 0 {
        Seq::empty()
    } else {
        comment_line(policy, m, prefix, lines[0], w) + comment_block(
            policy,
            m,
            prefix,
            lines.skip(1),
            w,
        )
    }
}

proof fn lemma_comment_block_push(
    policy: WrapPolicy,
    m: Measure,
    prefix: Seq<char>,
    lines: Seq<Seq<char>>,
    x: Seq<char>,
    w: int,
)
    ensures
        comment_block(policy, m, prefix, lines.push(x), w) == comment_block(
            policy,
            m,
            prefix,
            lines,
            w,
        ) + comment_line(policy, m, prefix, x, w),
    decreases lines.len(),
{
    if lines.len() == 0 {
        assert(lines.push(x)[0] == x);
        assert(lines.push(x).skip(1) =~= Seq::<Seq<char>>::empty());
        assert(comment_block(policy, m, prefix, Seq::<Seq<char>>::empty(), w) == Seq::<char>::empty());
        assert(comment_block(policy, m, prefix, lines.push(x), w) =~= comment_block(
            policy,
            m,
            prefix,
            lines,
            w,
        ) + comment_line(policy, m, prefix, x, w));
    } else {
        assert(lines.push(x)[0] == lines[0]);
        assert(lines.push(x).skip(1) =~= lines.skip(1).push(x));
        lemma_comment_block_push(policy, m, prefix, lines.skip(1), x, w);
        assert(comment_line(policy, m, prefix, lines[0], w) + (comment_block(
            policy,
            m,
            prefix,
            lines.skip(1),
            w,
        ) + comment_line(policy, m, prefix, x, w)) =~= (comment_line(policy, m, prefix, lines[0], w)
            + comment_block(policy, m, prefix, lines.skip(1), w)) + comment_line(
            policy,
            m,
            prefix,
            x,
            w,
        ));
    }
}

/// Append the joined items to the output.
fn append_joined(ret: &mut String, sep: &str, items: &Vec<String>)
    ensures
        final (ret)@ == old(ret)@ + joined_with(sep@, items@.map_values(|t: String| t@)),
{
    let ghost iv = items@.map_values(|t: String| t@);
    let n = items.len();
    if n == 0 {
        proof {
            assert(old(ret)@ + joined_with(sep@, iv) =~= old(ret)@);
        }
        return ;
    }
    ret.append(items[0].as_str());
    let mut k: usize = 1;
    proof {
        assert(iv.subrange(1, 1) =~= Seq::<Seq<char>>::empty());
        assert(ret@ + tail_join(sep@, iv.subrange(1, 1)) =~= ret@);
    }
    while k < n
        invariant
            n == items@.len(),
            n >= 1,
            1 <= k <= n,
            iv == items@.map_values(|t: String| t@),
            ret@ == old(ret)@ + iv[0] + tail_join(sep@, iv.subrange(1, k as int)),
        decreases n - k,
    {
        ret.append(sep);
        ret.append(items[k].as_str());
        proof {
            lemma_tail_join_push(sep@, iv.subrange(1, k as int), iv[k as int]);
            assert(iv.subrange(1, k + 1 as int) =~= iv.subrange(1, k as int).push(iv[k as int]));
            assert(old(ret)@ + iv[0] + (tail_join(sep@, iv.subrange(1, k as int)) + (sep@
                + iv[k as int])) =~= (old(ret)@ + iv[0] + tail_join(sep@, iv.subrange(1, k as int)))
                + sep@ + iv[k as int]);
        }
        k = k + 1;
    }
    proof {
        assert(iv.subrange(1, n as int) =~= iv.skip(1));
        assert(old(ret)@ + iv[0] + tail_join(sep@, iv.skip(1)) =~= old(ret)@ + joined_with(
            sep@,
            iv,
        ));
    }
}

/// Append the `#: ` occurrences block for a non-empty occurrence list.
pub(crate) fn append_occ_block(
    ret: &mut String,
    policy: WrapPolicy,
    m: Measure,
    occs: &Vec<(String, String)>,
    wrapwidth: usize,
)
    ensures
        final (ret)@ == old(ret)@ + occ_block(
            policy,
            m,
            crate::strutil::pair_views(occs@),
            wrapwidth as int,
        ),
{
    let ghost ov = crate::strutil::pair_views(occs@);
    // join the occurrences with single spaces
    let n = occs.len();
    let mut parts: Vec<String> = Vec::new();
    let mut i: usize = 0;
    proof {
        assert(parts@.map_values(|t: String| t@) =~= ov.map_values(
            |p: (Seq<char>, Seq<char>)| occ_entry(p),
        ).take(0));
    }
    while i < n
        invariant
            n == occs@.len(),
            i <= n,
            ov == crate::strutil::pair_views(occs@),
            parts@.map_values(|t: String| t@) == ov.map_values(
                |p: (Seq<char>, Seq<char>)| occ_entry(p),
            ).take(i as int),
        decreases n - i,
    {
        let ghost prev = parts@.map_values(|t: String| t@);
        let mut s = occs[i].0.clone();
        if occs[i].1.as_str().unicode_len() > 0 {
            s.append(":");
            s.append(occs[i].1.as_str());
        }
        parts.push(s);
        proof {
            assert(ov[i as int] == (occs@[i as int].0@, occs@[i as int].1@));
            assert(s@ == occ_entry(ov[i as int]));
            assert(parts@.map_values(|t: String| t@) =~= prev.push(occ_entry(ov[i as int])));
            assert(ov.map_values(|p: (Seq<char>, Seq<char>)| occ_entry(p)).take(i + 1 as int)
                =~= prev.push(occ_entry(ov[i as int])));
        }
        i = i + 1;
    }
    proof {
        assert(ov.map_values(|p: (Seq<char>, Seq<char>)| occ_entry(p)).take(n as int)
            =~= ov.map_values(|p: (Seq<char>, Seq<char>)| occ_entry(p)));
    }
    let mut repr = String::new();
    append_joined(&mut repr, " ", &parts);
    proof {
        assert(repr@ == occ_repr(ov));
    }
    let msr = measure_str(m, repr.as_str());
    if msr + 3 > wrapwidth as u128 {
        let budget = if wrapwidth >= 3 {
            wrapwidth - 3
        } else {
            0
        };
        let wrapped = wrap_with(policy, repr.as_str(), budget);
        let ghost wv = wrapped@.map_values(|t: String| t@);
        // prefix each wrapped piece
        let wn = wrapped.len();
        let mut pieces: Vec<String> = Vec::new();
        let mut k: usize = 0;
        proof {
            assert(pieces@.map_values(|t: String| t@) =~= wv.map_values(
                |f: Seq<char>| "#: "@ + f,
            ).take(0));
        }
        while k < wn
            invariant
                wn == wrapped@.len(),
                k <= wn,
                wv == wrapped@.map_values(|t: String| t@),
                pieces@.map_values(|t: String| t@) == wv.map_values(
                    |f: Seq<char>| "#: "@ + f,
                ).take(k as int),
            decreases wn - k,
        {
            let ghost prev = pieces@.map_values(|t: String| t@);
            let mut s = String::new();
            s.append("#: ");
            s.append(wrapped[k].as_str());
            pieces.push(s);
            proof {
                assert(s@ == "#: "@ + wv[k as int]);
                assert(pieces@.map_values(|t: String| t@) =~= prev.push("#: "@ + wv[k as int]));
                assert(wv.map_values(|f: Seq<char>| "#: "@ + f).take(k + 1 as int) =~= prev.push(
                    "#: "@ + wv[k as int],
                ));
            }
            k = k + 1;
        }
        proof {
            assert(wv.map_values(|f: Seq<char>| "#: "@ + f).take(wn as int) =~= wv.map_values(
                |f: Seq<char>| "#: "@ + f,
            ));
        }
        append_joined(ret, "\n", &pieces);
        ret.append("\n");
        proof {
            assert(budget as int == cap0(wrapwidth as int - 3));
            assert(ret@ =~= old(ret)@ + occ_block(policy, m, ov, wrapwidth as int));
        }
    } else {
        ret.append("#: ");
        ret.append(repr.as_str());
        ret.append("\n");
        proof {
            assert(ret@ =~= old(ret)@ + occ_block(policy, m, ov, wrapwidth as int));
        }
    }
}

/// Append the `#, ` flags line for a non-empty flag list.
pub(crate) fn append_flags_line(ret: &mut String, flags: &Vec<String>)
    ensures
        final (ret)@ == old(ret)@ + flags_line(flags@.map_values(|t: String| t@)),
{
    ret.append("#, ");
    append_joined(ret, ", ", flags);
    ret.append("\n");
    proof {
        assert(ret@ =~= old(ret)@ + flags_line(flags@.map_values(|t: String| t@)));
    }
}

/// Append a whole comment block, one output line per comment line.
pub(crate) fn append_comment_block(
    ret: &mut String,
    policy: WrapPolicy,
    m: Measure,
    prefix: &str,
    comment: &str,
    wrapwidth: usize,
)
    ensures
        final (ret)@ == old(ret)@ + comment_block(
            policy,
            m,
            prefix@,
            str_lines(comment@),
            wrapwidth as int,
        ),
{
    let lines = split_lines(comment);
    let ghost lv = lines@.map_values(|t: String| t@);
    let n = lines.len();
    let mut i: usize = 0;
    proof {
        assert(lv.take(0) =~= Seq::<Seq<char>>::empty());
        assert(old(ret)@ + comment_block(policy, m, prefix@, lv.take(0), wrapwidth as int)
            =~= old(ret)@);
    }
    while i < n
        invariant
            n == lines@.len(),
            i <= n,
            lv == lines@.map_values(|t: String| t@),
            ret@ == old(ret)@ + comment_block(policy, m, prefix@, lv.take(i as int), wrapwidth as int),
        decreases n - i,
    {
        let ghost prev = ret@;
        let msr = measure_str(m, lines[i].as_str());
        if msr + 2 > wrapwidth as u128 {
            let budget = if wrapwidth >= 2 {
                wrapwidth - 2
            } else {
                0
            };
            let wrapped = wrap_with(policy, lines[i].as_str(), budget);
            append_joined(ret, "\n", &wrapped);
            proof {
                assert(budget as int == cap0(wrapwidth as int - 2));
            }
        } else {
            ret.append(prefix);
            ret.append(lines[i].as_str());
        }
        ret.append("\n");
        proof {
            assert(ret@ =~= prev + comment_line(policy, m, prefix@, lv[i as int], wrapwidth as int));
            lemma_comment_block_push(policy, m, prefix@, lv.take(i as int), lv[i as int], wrapwidth as int);
            assert(lv.take(i + 1 as int) =~= lv.take(i as int).push(lv[i as int]));
            assert(old(ret)@ + (comment_block(policy, m, prefix@, lv.take(i as int), wrapwidth as int)
                + comment_line(policy, m, prefix@, lv[i as int], wrapwidth as int)) =~= prev
                + comment_line(policy, m, prefix@, lv[i as int], wrapwidth as int));
        }
        i = i + 1;
    }
    proof {
        assert(lv.take(n as int) =~= lv);
    }
}

/// The indexed plural msgstr blocks, one rendered field per pair, in order.
pub open spec fn plural_blocks(
    policy: WrapPolicy,
    pairs: Seq<(Seq<char>, Seq<char>)>,
    delflag: Seq<char>,
    w: int,
) -> Seq<char>
    decreases pairs.len(),
{
    if pairs.len() == 0 {
        Seq::empty()
    } else {
        field_block(policy, "msgstr"@, delflag, pairs[0].1, pairs[0].0, w) + plural_blocks(
            policy,
            pairs.skip(1),
            delflag,
            w,
        )
    }
}

proof fn lemma_plural_blocks_push(
    policy: WrapPolicy,
    pairs: Seq<(Seq<char>, Seq<char>)>,
    x: (Seq<char>, Seq<char>),
    delflag: Seq<char>,
    w: int,
)
    ensures
        plural_blocks(policy, pairs.push(x), delflag, w) == plural_blocks(policy, pairs, delflag, w)
            + field_block(policy, "msgstr"@, delflag, x.1, x.0, w),
    decreases pairs.len(),
{
    if pairs.len() == 0 {
        assert(pairs.push(x)[0] == x);
        assert(pairs.push(x).skip(1) =~= Seq::<(Seq<char>, Seq<char>)>::empty());
        assert(plural_blocks(policy, Seq::<(Seq<char>, Seq<char>)>::empty(), delflag, w)
            == Seq::<char>::empty());
        assert(plural_blocks(policy, pairs.push(x), delflag, w) =~= plural_blocks(
            policy,
            pairs,
            delflag,
            w,
        ) + field_block(policy, "msgstr"@, delflag, x.1, x.0, w));
    } else {
        assert(pairs.push(x)[0] == pairs[0]);
        assert(pairs.push(x).skip(1) =~= pairs.skip(1).push(x));
        lemma_plural_blocks_push(policy, pairs.skip(1), x, delflag, w);
        assert(field_block(policy, "msgstr"@, delflag, pairs[0].1, pairs[0].0, w) + (plural_blocks(
            policy,
            pairs.skip(1),
            delflag,
            w,
        ) + field_block(policy, "msgstr"@, delflag, x.1, x.0, w)) =~= (field_block(
            policy,
            "msgstr"@,
            delflag,
            pairs[0].1,
            pairs[0].0,
            w,
        ) + plural_blocks(policy, pairs.skip(1), delflag, w)) + field_block(
            policy,
            "msgstr"@,
            delflag,
            x.1,
            x.0,
            w,
        ));
    }
}

/// Append the plural msgstr blocks, sorted ascending by index.
pub(crate) fn append_plural_blocks(
    ret: &mut String,
    policy: WrapPolicy,
    pairs: &Vec<(String, String)>,
    delflag: &str,
    wrapwidth: usize,
)
    ensures
        final (ret)@ == old(ret)@ + plural_blocks(
            policy,
            sort_pairs(crate::strutil::pair_views(pairs@)),
            delflag@,
            wrapwidth as int,
        ),
{
    let sorted = crate::strutil::sort_pairs_exec(pairs);
    let ghost sv = crate::strutil::pair_views(sorted@);
    let n = sorted.len();
    let mut k: usize = 0;
    proof {
        assert(sv.take(0) =~= Seq::<(Seq<char>, Seq<char>)>::empty());
        assert(old(ret)@ + plural_blocks(policy, sv.take(0), delflag@, wrapwidth as int)
            =~= old(ret)@);
    }
    while k < n
        invariant
            n == sorted@.len(),
            k <= n,
            sv == crate::strutil::pair_views(sorted@),
            ret@ == old(ret)@ + plural_blocks(policy, sv.take(k as int), delflag@, wrapwidth as int),
        decreases n - k,
    {
        let ghost prev = ret@;
        let f = render_field(
            policy,
            "msgstr",
            delflag,
            sorted[k].1.as_str(),
            sorted[k].0.as_str(),
            wrapwidth,
        );
        ret.append(f.as_str());
        proof {
            assert(sv[k as int] == (sorted@[k as int].0@, sorted@[k as int].1@));
            lemma_plural_blocks_push(policy, sv.take(k as int), sv[k as int], delflag@, wrapwidth as int);
            assert(sv.take(k + 1 as int) =~= sv.take(k as int).push(sv[k as int]));
            assert(old(ret)@ + (plural_blocks(policy, sv.take(k as int), delflag@, wrapwidth as int)
                + field_block(
                policy,
                "msgstr"@,
                delflag@,
                sv[k as int].1,
                sv[k as int].0,
                wrapwidth as int,
            )) =~= prev + field_block(
                policy,
                "msgstr"@,
                delflag@,
                sv[k as int].1,
                sv[k as int].0,
                wrapwidth as int,
            ));
        }
        k = k + 1;
    }
    proof {
        assert(sv.take(n as int) =~= sv);
    }
}

/// The metadata msgstr block: an empty `msgstr ""` line, then each line of
/// the metadata text as its own quoted line closed by a literal `\n` token.
pub open spec fn metadata_lines_block(lines: Seq<Seq<char>>) -> Seq<char>
    decreases lines.len(),
{
    if lines.len() == 0 {
        Seq::empty()
    } else {
        "\""@ + escape_seq(lines[0]) + "\\n"@ + "\"\n"@ + metadata_lines_block(lines.skip(1))
    }
}

/// The whole metadata msgstr block.
pub open spec fn metadata_msgstr_block(msgstr: Seq<char>) -> Seq<char> {
    "msgstr \"\"\n"@ + metadata_lines_block(str_lines(msgstr))
}

proof fn lemma_metadata_lines_push(lines: Seq<Seq<char>>, x: Seq<char>)
    ensures
        metadata_lines_block(lines.push(x)) == metadata_lines_block(lines) + ("\""@ + escape_seq(x)
            + "\\n"@ + "\"\n"@),
    decreases lines.len(),
{
    if lines.len() == 0 {
        assert(lines.push(x)[0] == x);
        assert(lines.push(x).skip(1) =~= Seq::<Seq<char>>::empty());
        assert(metadata_lines_block(Seq::<Seq<char>>::empty()) == Seq::<char>::empty());
        assert(metadata_lines_block(lines.push(x)) =~= metadata_lines_block(lines) + ("\""@
            + escape_seq(x) + "\\n"@ + "\"\n"@));
    } else {
        assert(lines.push(x)[0] == lines[0]);
        assert(lines.push(x).skip(1) =~= lines.skip(1).push(x));
        lemma_metadata_lines_push(lines.skip(1), x);
        assert("\""@ + escape_seq(lines[0]) + "\\n"@ + "\"\n"@ + (metadata_lines_block(
            lines.skip(1),
        ) + ("\""@ + escape_seq(x) + "\\n"@ + "\"\n"@)) =~= ("\""@ + escape_seq(lines[0]) + "\\n"@
            + "\"\n"@ + metadata_lines_block(lines.skip(1))) + ("\""@ + escape_seq(x) + "\\n"@
            + "\"\n"@));
    }
}

/// Append the metadata msgstr block.
pub(crate) fn append_metadata_msgstr(ret: &mut String, msgstr: &str)
    ensures
        final (ret)@ == old(ret)@ + metadata_msgstr_block(msgstr@),
{
    ret.append("msgstr \"\"\n");
    let lines = split_lines(msgstr);
    let ghost lv = lines@.map_values(|t: String| t@);
    let n = lines.len();
    let mut i: usize = 0;
    proof {
        assert(lv.take(0) =~= Seq::<Seq<char>>::empty());
        assert(ret@ + metadata_lines_block(lv.take(0)) =~= ret@);
    }
    while i < n
        invariant
            n == lines@.len(),
            i <= n,
            lv == lines@.map_values(|t: String| t@),
            ret@ == old(ret)@ + "msgstr \"\"\n"@ + metadata_lines_block(lv.take(i as int)),
        decreases n - i,
    {
        let ghost prev = ret@;
        let escaped = escape(lines[i].as_str());
        ret.append("\"");
        ret.append(escaped.as_str());
        ret.append("\\n");
        ret.append("\"\n");
        proof {
            lemma_metadata_lines_push(lv.take(i as int), lv[i as int]);
            assert(lv.take(i + 1 as int) =~= lv.take(i as int).push(lv[i as int]));
            assert(old(ret)@ + "msgstr \"\"\n"@ + (metadata_lines_block(lv.take(i as int)) + ("\""@
                + escape_seq(lv[i as int]) + "\\n"@ + "\"\n"@)) =~= prev + ("\""@ + escape_seq(
                lv[i as int],
            ) + "\\n"@ + "\"\n"@));
            assert(ret@ =~= prev + ("\""@ + escape_seq(lv[i as int]) + "\\n"@ + "\"\n"@));
        }
        i = i + 1;
    }
    proof {
        assert(lv.take(n as int) =~= lv);
        assert(old(ret)@ + "msgstr \"\"\n"@ + metadata_lines_block(lv) =~= old(ret)@
            + metadata_msgstr_block(msgstr@));
    }
}

} // verus!
