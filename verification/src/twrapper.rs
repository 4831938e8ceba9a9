//! Unicode line wrapping.
//!
//! `wrap` reproduces the layout of the reference gettext tooling: fragments
//! break only at Unicode line break opportunities, widths are display
//! columns, a run of whitespace before a chosen break is pulled into the
//! next fragment, and at the final break trailing whitespace is trimmed from
//! the width computation while staying in the content. `wrap_plain` breaks
//! exactly at the opportunities, greedily filling each line.
//!
//! Both functions are total: any text and any width produce a non-empty
//! fragment sequence whose concatenation is the original text, and a text
//! that already fits its budget is returned whole.

use crate::unicode::break_offsets_of;
use crate::unicode::char_width_of;
use crate::unicode::char_widths;
use crate::unicode::chars_display_width;
use crate::unicode::chars_to_string;
use crate::unicode::line_break_offsets;
use crate::unicode::seq_width;
use crate::unicode::str_chars;
use crate::unicode::widths_of;
use vstd::prelude::*;
use vstd::string::*;

verus! {

/// ASCII whitespace, as the wrapping rules of gettext see it.
pub open spec fn is_ascii_ws(c: char) -> bool {
    c == ' ' || c == '\t' || c == '\n' || c == '\r' || c == '\u{0C}'
}

/// The sum of the widths `ws[a..b]`; zero when the range is empty or out of
/// bounds.
pub open spec fn sum_range(ws: Seq<usize>, a: int, b: int) -> int
    decreases b - a,
{
    if a < 0 || b > ws.len() || a >= b {
        0
    } else {
        ws[a] + sum_range(ws, a + 1, b)
    }
}

/// Extending the summed range by one position on the right adds that width.
pub proof fn lemma_sum_range_snoc(ws: Seq<usize>, a: int, b: int)
    requires
        0 <= a,
        a <= b < ws.len(),
    ensures
        sum_range(ws, a, b + 1) == sum_range(ws, a, b) + ws[b],
    decreases b - a,
{
    if a < b {
        lemma_sum_range_snoc(ws, a + 1, b);
    } else {
        assert(sum_range(ws, b + 1, b + 1) == 0);
    }
}

/// A range of widths bounded by 3 sums to at most three times its length.
pub proof fn lemma_sum_range_bound(ws: Seq<usize>, a: int, b: int)
    requires
        forall|i: int| 0 <= i < ws.len() ==> ws[i] <= 3,
    ensures
        0 <= sum_range(ws, a, b) <= 3 * (if b - a >= 0 {
            b - a
        } else {
            0
        }),
    decreases b - a,
{
    if !(a < 0 || b > ws.len() || a >= b) {
        lemma_sum_range_bound(ws, a + 1, b);
    }
}

/// The summed widths of `ws[a..b]`.
pub(crate) fn range_width(ws: &Vec<usize>, a: usize, b: usize) -> (r: u128)
    requires
        b <= ws@.len(),
        forall|i: int| 0 <= i < ws@.len() ==> ws@[i] <= 3,
    ensures
        r as int == sum_range(ws@, a as int, b as int),
        r as int <= 3 * ws@.len(),
{
    let n = ws.len();
    let mut acc: u128 = 0;
    let mut i: usize = a;
    if a >= b {
        return 0;
    }
    while i < b
        invariant
            n == ws@.len(),
            a <= i <= b <= n,
            forall|j: int| 0 <= j < ws@.len() ==> ws@[j] <= 3,
            acc as int == sum_range(ws@, a as int, i as int),
            acc as int <= 3 * (i - a),
        decreases b - i,
    {
        proof {
            lemma_sum_range_snoc(ws@, a as int, i as int);
        }
        acc = acc + (ws[i] as u128);
        i = i + 1;
    }
    acc
}

/// The length of the maximal run of ASCII whitespace ending at position `i`.
pub open spec fn ws_run(s: Seq<char>, i: int) -> int
    decreases i + 1,
{
    if i < 0 || i >= s.len() || !is_ascii_ws(s[i]) {
        0
    } else {
        1 + ws_run(s, i - 1)
    }
}

fn is_ascii_ws_exec(c: char) -> (r: bool)
    ensures
        r == is_ascii_ws(c),
{
    c == ' ' || c == '\t' || c == '\n' || c == '\r' || c == '\u{0C}'
}

/// The length of the maximal run of ASCII whitespace ending at position `i`.
pub(crate) fn ws_run_count(chars: &Vec<char>, i: usize) -> (r: usize)
    requires
        i < chars@.len(),
    ensures
        r as int == ws_run(chars@, i as int),
{
    let n = chars.len();
    let mut j: usize = i;
    let mut cnt: usize = 0;
    loop
        invariant_except_break
            cnt == i - j,
            ws_run(chars@, i as int) == cnt + ws_run(chars@, j as int),
        invariant
            n == chars@.len(),
            i < n,
            j <= i,
            j < n,
        ensures
            cnt as int == ws_run(chars@, i as int),
        decreases j,
    {
        if !is_ascii_ws_exec(chars[j]) {
            proof {
                assert(ws_run(chars@, j as int) == 0);
            }
            break ;
        }
        if j == 0 {
            cnt = cnt + 1;
            proof {
                assert(ws_run(chars@, -1) == 0);
                assert(ws_run(chars@, 0) == 1);
            }
            break ;
        }
        cnt = cnt + 1;
        j = j - 1;
    }
    cnt
}

/// The concatenation of a sequence of texts.
pub open spec fn concat_all(xs: Seq<Seq<char>>) -> Seq<char>
    decreases xs.len(),
{
    if xs.len() == 0 {
        Seq::empty()
    } else {
        xs[0] + concat_all(xs.skip(1))
    }
}

/// The fragments of `s` cut at the offsets `breaks`, starting at `prev`.
pub open spec fn frags_from(s: Seq<char>, breaks: Seq<int>, prev: int) -> Seq<Seq<char>>
    decreases breaks.len(),
{
    if breaks.len() == 0 {
        seq![s.subrange(prev, s.len() as int)]
    } else {
        seq![s.subrange(prev, breaks[0])] + frags_from(s, breaks.skip(1), breaks[0])
    }
}

/// Cutting a text at ordered in-range offsets loses nothing: the fragments
/// concatenate to the text from `prev` on.
pub proof fn lemma_frags_concat(s: Seq<char>, breaks: Seq<int>, prev: int)
    requires
        0 <= prev <= s.len(),
        forall|k: int| 0 <= k < breaks.len() ==> prev <= #[trigger] breaks[k] <= s.len(),
        forall|k1: int, k2: int| 0 <= k1 < k2 < breaks.len() ==> breaks[k1] <= breaks[k2],
    ensures
        concat_all(frags_from(s, breaks, prev)) == s.subrange(prev, s.len() as int),
    decreases breaks.len(),
{
    if breaks.len() == 0 {
        let f = frags_from(s, breaks, prev);
        assert(f.skip(1) =~= Seq::<Seq<char>>::empty());
        assert(concat_all(Seq::<Seq<char>>::empty()) == Seq::<char>::empty());
        assert(concat_all(f) == f[0] + concat_all(f.skip(1)));
        assert(concat_all(f) =~= s.subrange(prev, s.len() as int));
    } else {
        let b0 = breaks[0];
        assert(forall|k: int|
            0 <= k < breaks.skip(1).len() ==> b0 <= #[trigger] breaks.skip(1)[k] <= s.len());
        lemma_frags_concat(s, breaks.skip(1), b0);
        let f = frags_from(s, breaks, prev);
        assert(f.skip(1) =~= frags_from(s, breaks.skip(1), b0));
        assert(concat_all(f) == s.subrange(prev, b0) + concat_all(frags_from(s, breaks.skip(1), b0)));
        assert(s.subrange(prev, b0) + s.subrange(b0, s.len() as int) =~= s.subrange(
            prev,
            s.len() as int,
        ));
    }
}

/// A copy of `chars[a..b]`.
pub(crate) fn vec_slice(chars: &Vec<char>, a: usize, b: usize) -> (r: Vec<char>)
    requires
        a <= b <= chars@.len(),
    ensures
        r@ == chars@.subrange(a as int, b as int),
{
    let mut out: Vec<char> = Vec::new();
    let mut i: usize = a;
    while i < b
        invariant
            a <= i <= b <= chars@.len(),
            out@ == chars@.subrange(a as int, i as int),
        decreases b - i,
    {
        out.push(chars[i]);
        proof {
            assert(chars@.subrange(a as int, i + 1 as int) =~= chars@.subrange(
                a as int,
                i as int,
            ).push(chars@[i as int]));
        }
        i = i + 1;
    }
    out
}

/// The fragments of `chars` cut at the offsets `breaks`.
pub(crate) fn slice_fragments(chars: &Vec<char>, breaks: &Vec<usize>) -> (r: Vec<Vec<char>>)
    requires
        forall|k: int| 0 <= k < breaks@.len() ==> #[trigger] breaks@[k] <= chars@.len(),
        forall|k1: int, k2: int| 0 <= k1 < k2 < breaks@.len() ==> breaks@[k1] <= breaks@[k2],
    ensures
        r@.map_values(|v: Vec<char>| v@) == frags_from(
            chars@,
            breaks@.map_values(|b: usize| b as int),
            0,
        ),
{
    let ghost bs = breaks@.map_values(|b: usize| b as int);
    let n = breaks.len();
    let mut out: Vec<Vec<char>> = Vec::new();
    let mut prev: usize = 0;
    let mut k: usize = 0;
    proof {
        assert(bs.skip(0) =~= bs);
        assert(out@.map_values(|v: Vec<char>| v@) + frags_from(chars@, bs, 0) =~= frags_from(
            chars@,
            bs,
            0,
        ));
    }
    while k < n
        invariant
            n == breaks@.len(),
            k <= n,
            bs == breaks@.map_values(|b: usize| b as int),
            forall|j: int| 0 <= j < breaks@.len() ==> #[trigger] breaks@[j] <= chars@.len(),
            forall|k1: int, k2: int| 0 <= k1 < k2 < breaks@.len() ==> breaks@[k1] <= breaks@[k2],
            prev <= chars@.len(),
            k > 0 ==> prev == breaks@[k - 1],
            k == 0 ==> prev == 0,
            frags_from(chars@, bs, 0) == out@.map_values(|v: Vec<char>| v@) + frags_from(
                chars@,
                bs.skip(k as int),
                prev as int,
            ),
        decreases n - k,
    {
        let ghost prev_out = out@.map_values(|v: Vec<char>| v@);
        let b = breaks[k];
        proof {
            assert(breaks@[k as int] >= prev);
        }
        let piece = vec_slice(chars, prev, b);
        out.push(piece);
        proof {
            let tail = bs.skip(k as int);
            assert(tail[0] == b as int);
            assert(tail.skip(1) =~= bs.skip(k as int + 1));
            assert(out@.map_values(|v: Vec<char>| v@) =~= prev_out.push(
                chars@.subrange(prev as int, b as int),
            ));
            assert(out@.map_values(|v: Vec<char>| v@) + frags_from(
                chars@,
                bs.skip(k as int + 1),
                b as int,
            ) =~= prev_out + frags_from(chars@, tail, prev as int));
        }
        prev = b;
        k = k + 1;
    }
    let last = vec_slice(chars, prev, chars.len());
    let ghost prev_out = out@.map_values(|v: Vec<char>| v@);
    out.push(last);
    proof {
        assert(bs.skip(n as int) =~= Seq::<int>::empty());
        assert(frags_from(chars@, bs.skip(n as int), prev as int) =~= seq![
            chars@.subrange(prev as int, chars@.len() as int),
        ]);
        assert(out@.map_values(|v: Vec<char>| v@) =~= prev_out.push(
            chars@.subrange(prev as int, chars@.len() as int),
        ));
        assert(prev_out + frags_from(chars@, bs.skip(n as int), prev as int) =~= out@.map_values(
            |v: Vec<char>| v@,
        ));
    }
    out
}

} // verus!

verus! {

/// Zero where the subtraction would go below zero.
pub open spec fn cap0(x: int) -> int {
    if x >= 0 {
        x
    } else {
        0
    }
}

/// The running state of the gettext break computation: the width accumulated
/// up to the current opportunity, the last position whose width was counted,
/// the width recorded at the last chosen break, the whitespace run carried
/// from the previous opportunity, the last chosen break offset, and the
/// chosen break offsets so far.
pub struct WrapState {
    pub accum: int,
    pub acb: int,
    pub lbw: int,
    pub pew: int,
    pub lastb: int,
    pub breaks: Seq<int>,
}

/// The gettext break computation at one break opportunity: accumulate widths
/// up to the opportunity, measure the line that would run to the next
/// opportunity, pull a whitespace run before the next opportunity into the
/// next line (or, before the final opportunity, trim the carried whitespace
/// from the measurement only), and choose the current opportunity as a break
/// when the measured line overflows the budget.
pub open spec fn gt_step(
    s: Seq<char>,
    ws: Seq<usize>,
    ops: Seq<usize>,
    w: int,
    st: WrapState,
    lbi: int,
) -> WrapState {
    let lb = ops[lbi] as int;
    let accum1 = st.accum + sum_range(ws, st.accum, lb);
    let acb1 = if st.accum < lb {
        lb - 1
    } else {
        st.acb
    };
    if lbi == ops.len() - 1 {
        WrapState { accum: accum1, acb: acb1, ..st }
    } else {
        let next = ops[lbi + 1] as int;
        let partial0 = accum1 + sum_range(ws, acb1, next);
        let pab = if acb1 < next {
            next - 1
        } else {
            acb1
        };
        let adj = if lbi + 1 == ops.len() - 1 {
            if st.pew > 0 {
                (cap0(lb - st.pew), cap0(partial0 - st.pew), st.pew)
            } else {
                (lb, partial0, st.pew)
            }
        } else {
            if 0 <= pab < s.len() && s[pab] == ' ' {
                let run = ws_run(s, pab);
                (cap0(lb - run), cap0(partial0 - run), run)
            } else {
                (lb, partial0, st.pew)
            }
        };
        let width = cap0(adj.1 - st.lbw);
        if width > w {
            let b = if adj.0 > st.lastb {
                adj.0
            } else {
                st.lastb
            };
            WrapState {
                accum: accum1,
                acb: acb1,
                lbw: accum1,
                pew: adj.2,
                lastb: b,
                breaks: st.breaks.push(b),
            }
        } else {
            WrapState { accum: accum1, acb: acb1, lbw: st.lbw, pew: adj.2, ..st }
        }
    }
}

/// The state after the first `i` break opportunities were processed.
pub open spec fn gt_state(s: Seq<char>, ws: Seq<usize>, ops: Seq<usize>, w: int, i: int) -> WrapState
    decreases i,
{
    if i <= 0 {
        WrapState { accum: 0, acb: 0, lbw: 0, pew: 0, lastb: 0, breaks: Seq::empty() }
    } else {
        gt_step(s, ws, ops, w, gt_state(s, ws, ops, w, i - 1), i - 1)
    }
}

/// The break offsets the gettext computation chooses for a text and budget.
pub open spec fn gettext_breaks(s: Seq<char>, w: int) -> Seq<int> {
    gt_state(s, widths_of(s), break_offsets_of(s), w, break_offsets_of(s).len() as int).breaks
}

/// The chosen break offsets, computed over the real break opportunities and
/// character widths of the text.
pub(crate) fn get_gettext_breaks(
    chars: &Vec<char>,
    widths: &Vec<usize>,
    ops: &Vec<usize>,
    wrapwidth: usize,
) -> (r: Vec<usize>)
    requires
        widths@.len() == chars@.len(),
        forall|i: int| 0 <= i < widths@.len() ==> widths@[i] <= 3,
        forall|i: int| 0 <= i < ops@.len() ==> #[trigger] ops@[i] <= chars@.len(),
        forall|i: int, j: int| 0 <= i < j < ops@.len() ==> ops@[i] < ops@[j],
    ensures
        r@.map_values(|x: usize| x as int) == gt_state(
            chars@,
            widths@,
            ops@,
            wrapwidth as int,
            ops@.len() as int,
        ).breaks,
        forall|k: int| 0 <= k < r@.len() ==> #[trigger] r@[k] <= chars@.len(),
        forall|k1: int, k2: int| 0 <= k1 < k2 < r@.len() ==> r@[k1] <= r@[k2],
{
    let n = ops.len();
    let len = chars.len();
    let mut accum: u128 = 0;
    let mut acb: usize = 0;
    let mut lbw: u128 = 0;
    let mut pew: usize = 0;
    let mut lastb: usize = 0;
    let mut breaks: Vec<usize> = Vec::new();
    let mut lbi: usize = 0;
    proof {
        assert(breaks@.map_values(|x: usize| x as int) =~= Seq::<int>::empty());
    }
    while lbi < n
        invariant
            n == ops@.len(),
            len == chars@.len(),
            widths@.len() == chars@.len(),
            forall|i: int| 0 <= i < widths@.len() ==> widths@[i] <= 3,
            forall|i: int| 0 <= i < ops@.len() ==> #[trigger] ops@[i] <= chars@.len(),
            forall|i: int, j: int| 0 <= i < j < ops@.len() ==> ops@[i] < ops@[j],
            lbi <= n,
            accum as int == gt_state(chars@, widths@, ops@, wrapwidth as int, lbi as int).accum,
            acb as int == gt_state(chars@, widths@, ops@, wrapwidth as int, lbi as int).acb,
            lbw as int == gt_state(chars@, widths@, ops@, wrapwidth as int, lbi as int).lbw,
            pew as int == gt_state(chars@, widths@, ops@, wrapwidth as int, lbi as int).pew,
            lastb as int == gt_state(chars@, widths@, ops@, wrapwidth as int, lbi as int).lastb,
            breaks@.map_values(|x: usize| x as int) == gt_state(
                chars@,
                widths@,
                ops@,
                wrapwidth as int,
                lbi as int,
            ).breaks,
            accum as int <= 3 * chars@.len(),
            lbw as int <= 3 * chars@.len(),
            acb <= len,
            lastb <= len,
            forall|k: int| 0 <= k < breaks@.len() ==> #[trigger] breaks@[k] <= lastb,
            forall|k1: int, k2: int| 0 <= k1 < k2 < breaks@.len() ==> breaks@[k1] <= breaks@[k2],
        decreases n - lbi,
    {
        let ghost st = gt_state(chars@, widths@, ops@, wrapwidth as int, lbi as int);
        let lb = ops[lbi];
        if accum < lb as u128 {
            let a_idx = accum as usize;
            let add = range_width(widths, a_idx, lb);
            proof {
                lemma_sum_range_bound(widths@, a_idx as int, lb as int);
            }
            accum = accum + add;
            acb = lb - 1;
        } else {
            proof {
                assert(sum_range(widths@, accum as int, lb as int) == 0);
            }
        }
        if lbi + 1 < n {
            let next = ops[lbi + 1];
            let add2 = range_width(widths, acb, next);
            proof {
                lemma_sum_range_bound(widths@, acb as int, next as int);
            }
            let mut partial: u128 = accum + add2;
            let pab = if acb < next {
                next - 1
            } else {
                acb
            };
            let mut lbx = lb;
            if lbi + 2 == n {
                if pew > 0 {
                    lbx = if lbx >= pew {
                        lbx - pew
                    } else {
                        0
                    };
                    partial = if partial >= pew as u128 {
                        partial - pew as u128
                    } else {
                        0
                    };
                }
            } else {
                if pab < len && chars[pab] == ' ' {
                    let run = ws_run_count(chars, pab);
                    pew = run;
                    lbx = if lbx >= run {
                        lbx - run
                    } else {
                        0
                    };
                    partial = if partial >= run as u128 {
                        partial - run as u128
                    } else {
                        0
                    };
                }
            }
            let width = if partial >= lbw {
                partial - lbw
            } else {
                0
            };
            if width > wrapwidth as u128 {
                let b = if lbx > lastb {
                    lbx
                } else {
                    lastb
                };
                let ghost prev_map = breaks@.map_values(|x: usize| x as int);
                breaks.push(b);
                lastb = b;
                lbw = accum;
                proof {
                    assert(breaks@.map_values(|x: usize| x as int) =~= prev_map.push(b as int));
                }
            }
        }
        lbi = lbi + 1;
        proof {
            let st2 = gt_state(chars@, widths@, ops@, wrapwidth as int, lbi as int);
            assert(st2 == gt_step(chars@, widths@, ops@, wrapwidth as int, st, lbi - 1));
        }
    }
    breaks
}

} // verus!

verus! {

/// The fragments `wrap` produces: a text within its budget (or a budget of
/// zero) stays whole; otherwise the text is cut at the chosen break offsets.
pub open spec fn wrap_fragments(s: Seq<char>, w: int) -> Seq<Seq<char>> {
    if w <= 0 || seq_width(s) <= w {
        seq![s]
    } else {
        frags_from(s, gettext_breaks(s, w), 0)
    }
}

/// Wrap a text into lines at Unicode line break opportunities, reproducing
/// the layout decisions of the reference gettext tooling.
pub fn wrap(text: &str, wrapwidth: usize) -> (r: Vec<String>)
    ensures
        r@.map_values(|t: String| t@) == wrap_fragments(text@, wrapwidth as int),
        r@.len() >= 1,
        concat_all(r@.map_values(|t: String| t@)) == text@,
        seq_width(text@) <= wrapwidth ==> r@.map_values(|t: String| t@) == seq![text@],
{
    let chars = str_chars(text);
    let total = chars_display_width(&chars);
    if wrapwidth == 0 || total <= wrapwidth as u128 {
        let mut out: Vec<String> = Vec::new();
        out.push(text.to_owned());
        proof {
            assert(out@.map_values(|t: String| t@) =~= seq![text@]);
            assert(seq![text@].skip(1) =~= Seq::<Seq<char>>::empty());
            assert(concat_all(Seq::<Seq<char>>::empty()) == Seq::<char>::empty());
            assert(concat_all(seq![text@]) =~= text@);
        }
        return out;
    }
    let widths = char_widths(&chars);
    let ops = line_break_offsets(text);
    let breaks = get_gettext_breaks(&chars, &widths, &ops, wrapwidth);
    let frag_vecs = slice_fragments(&chars, &breaks);
    let r = fragment_strings(&frag_vecs);
    proof {
        assert(breaks@.map_values(|b: usize| b as int) == gettext_breaks(
            text@,
            wrapwidth as int,
        ));
        lemma_frags_concat(chars@, breaks@.map_values(|b: usize| b as int), 0);
        assert(chars@.subrange(0, chars@.len() as int) =~= text@);
        assert(frags_from(chars@, breaks@.map_values(|b: usize| b as int), 0).len() >= 1) by {
            lemma_frags_len(chars@, breaks@.map_values(|b: usize| b as int), 0);
        }
    }
    r
}

/// Cutting yields one fragment more than there are breaks.
pub proof fn lemma_frags_len(s: Seq<char>, breaks: Seq<int>, prev: int)
    ensures
        frags_from(s, breaks, prev).len() == breaks.len() + 1,
    decreases breaks.len(),
{
    if breaks.len() > 0 {
        lemma_frags_len(s, breaks.skip(1), breaks[0]);
    }
}

/// The fragment vectors as strings.
fn fragment_strings(frags: &Vec<Vec<char>>) -> (r: Vec<String>)
    ensures
        r@.map_values(|t: String| t@) == frags@.map_values(|v: Vec<char>| v@),
{
    let n = frags.len();
    let mut out: Vec<String> = Vec::new();
    let mut i: usize = 0;
    while i < n
        invariant
            n == frags@.len(),
            i <= n,
            out@.map_values(|t: String| t@) == frags@.map_values(|v: Vec<char>| v@).take(i as int),
        decreases n - i,
    {
        let ghost prev = out@.map_values(|t: String| t@);
        let s = chars_to_string(&frags[i]);
        out.push(s);
        proof {
            assert(out@.map_values(|t: String| t@) =~= prev.push(frags@[i as int]@));
            assert(frags@.map_values(|v: Vec<char>| v@).take(i + 1 as int) =~= frags@.map_values(
                |v: Vec<char>| v@,
            ).take(i as int).push(frags@[i as int]@));
        }
        i = i + 1;
    }
    proof {
        assert(frags@.map_values(|v: Vec<char>| v@).take(n as int) =~= frags@.map_values(
            |v: Vec<char>| v@,
        ));
    }
    out
}

/// The running state of the plain break computation.
pub struct PlainState {
    pub lastb: int,
    pub breaks: Seq<int>,
}

/// The plain break computation at one opportunity: when the line from the
/// last chosen break to the next opportunity overflows the budget, break at
/// the current opportunity.
pub open spec fn plain_step(
    ws: Seq<usize>,
    ops: Seq<usize>,
    w: int,
    st: PlainState,
    lbi: int,
) -> PlainState {
    if lbi >= ops.len() - 1 {
        st
    } else {
        let lb = ops[lbi] as int;
        let next = ops[lbi + 1] as int;
        if sum_range(ws, st.lastb, next) > w {
            PlainState { lastb: lb, breaks: st.breaks.push(lb) }
        } else {
            st
        }
    }
}

/// The plain state after the first `i` opportunities were processed.
pub open spec fn plain_state(ws: Seq<usize>, ops: Seq<usize>, w: int, i: int) -> PlainState
    decreases i,
{
    if i <= 0 {
        PlainState { lastb: 0, breaks: Seq::empty() }
    } else {
        plain_step(ws, ops, w, plain_state(ws, ops, w, i - 1), i - 1)
    }
}

/// The break offsets the plain computation chooses for a text and budget.
pub open spec fn plain_breaks(s: Seq<char>, w: int) -> Seq<int> {
    plain_state(widths_of(s), break_offsets_of(s), w, break_offsets_of(s).len() as int).breaks
}

/// The fragments `wrap_plain` produces.
pub open spec fn plain_fragments(s: Seq<char>, w: int) -> Seq<Seq<char>> {
    if w <= 0 || seq_width(s) <= w {
        seq![s]
    } else {
        frags_from(s, plain_breaks(s, w), 0)
    }
}

/// The chosen plain break offsets, over the real break opportunities and
/// character widths of the text.
pub(crate) fn get_plain_breaks(
    chars: &Vec<char>,
    widths: &Vec<usize>,
    ops: &Vec<usize>,
    wrapwidth: usize,
) -> (r: Vec<usize>)
    requires
        widths@.len() == chars@.len(),
        forall|i: int| 0 <= i < widths@.len() ==> widths@[i] <= 3,
        forall|i: int| 0 <= i < ops@.len() ==> #[trigger] ops@[i] <= chars@.len(),
        forall|i: int, j: int| 0 <= i < j < ops@.len() ==> ops@[i] < ops@[j],
    ensures
        r@.map_values(|x: usize| x as int) == plain_state(
            widths@,
            ops@,
            wrapwidth as int,
            ops@.len() as int,
        ).breaks,
        forall|k: int| 0 <= k < r@.len() ==> #[trigger] r@[k] <= chars@.len(),
        forall|k1: int, k2: int| 0 <= k1 < k2 < r@.len() ==> r@[k1] <= r@[k2],
{
    let n = ops.len();
    let len = chars.len();
    let mut lastb: usize = 0;
    let mut breaks: Vec<usize> = Vec::new();
    let mut lbi: usize = 0;
    proof {
        assert(breaks@.map_values(|x: usize| x as int) =~= Seq::<int>::empty());
    }
    while lbi < n
        invariant
            n == ops@.len(),
            len == chars@.len(),
            widths@.len() == chars@.len(),
            forall|i: int| 0 <= i < widths@.len() ==> widths@[i] <= 3,
            forall|i: int| 0 <= i < ops@.len() ==> #[trigger] ops@[i] <= chars@.len(),
            forall|i: int, j: int| 0 <= i < j < ops@.len() ==> ops@[i] < ops@[j],
            lbi <= n,
            lastb as int == plain_state(widths@, ops@, wrapwidth as int, lbi as int).lastb,
            breaks@.map_values(|x: usize| x as int) == plain_state(
                widths@,
                ops@,
                wrapwidth as int,
                lbi as int,
            ).breaks,
            lastb <= len,
            lbi < n ==> lastb <= ops@[lbi as int],
            forall|k: int| 0 <= k < breaks@.len() ==> #[trigger] breaks@[k] <= lastb,
            forall|k1: int, k2: int| 0 <= k1 < k2 < breaks@.len() ==> breaks@[k1] <= breaks@[k2],
        decreases n - lbi,
    {
        let ghost st = plain_state(widths@, ops@, wrapwidth as int, lbi as int);
        if lbi + 1 < n {
            let lb = ops[lbi];
            let next = ops[lbi + 1];
            let width = range_width(widths, lastb, next);
            if width > wrapwidth as u128 {
                let ghost prev_map = breaks@.map_values(|x: usize| x as int);
                breaks.push(lb);
                lastb = lb;
                proof {
                    assert(breaks@.map_values(|x: usize| x as int) =~= prev_map.push(lb as int));
                }
            }
        }
        lbi = lbi + 1;
        proof {
            let st2 = plain_state(widths@, ops@, wrapwidth as int, lbi as int);
            assert(st2 == plain_step(widths@, ops@, wrapwidth as int, st, lbi - 1));
        }
    }
    breaks
}

/// A fragment of the plain cut respects the width budget: it fits in display
/// columns, or it holds no break opportunity strictly inside it (a single
/// unbreakable token is kept whole, never hard-split).
pub open spec fn plain_piece_ok(s: Seq<char>, w: int, frag: Seq<char>, k: int) -> bool {
    seq_width(frag) <= w || (forall|j: int|
        0 <= j < break_offsets_of(s).len() ==> !(plain_bounds(s, w)[k] < #[trigger] break_offsets_of(
            s,
        )[j] < plain_bounds(s, w)[k + 1]))
}

/// Wrap a text into lines at Unicode line break opportunities, breaking
/// exactly at the opportunity that would overflow the budget. For a budget
/// of at least one column, every fragment respects the budget except a
/// single unbreakable token, which is kept whole.
pub fn wrap_plain(text: &str, wrapwidth: usize) -> (r: Vec<String>)
    ensures
        r@.map_values(|t: String| t@) == plain_fragments(text@, wrapwidth as int),
        r@.len() >= 1,
        concat_all(r@.map_values(|t: String| t@)) == text@,
        seq_width(text@) <= wrapwidth ==> r@.map_values(|t: String| t@) == seq![text@],
        wrapwidth >= 1 ==> forall|k: int|
            0 <= k < r@.len() ==> plain_piece_ok(
                text@,
                wrapwidth as int,
                (#[trigger] r@[k])@,
                k,
            ),
{
    let chars = str_chars(text);
    let total = chars_display_width(&chars);
    if wrapwidth == 0 || total <= wrapwidth as u128 {
        let mut out: Vec<String> = Vec::new();
        out.push(text.to_owned());
        proof {
            assert(out@.map_values(|t: String| t@) =~= seq![text@]);
            assert(seq![text@].skip(1) =~= Seq::<Seq<char>>::empty());
            assert(concat_all(Seq::<Seq<char>>::empty()) == Seq::<char>::empty());
            assert(concat_all(seq![text@]) =~= text@);
            if wrapwidth >= 1 {
                assert(seq_width(text@) <= wrapwidth as int);
                assert(forall|k: int|
                    0 <= k < out@.len() ==> plain_piece_ok(
                        text@,
                        wrapwidth as int,
                        (#[trigger] out@[k])@,
                        k,
                    ));
            }
        }
        return out;
    }
    let widths = char_widths(&chars);
    let ops = line_break_offsets(text);
    let breaks = get_plain_breaks(&chars, &widths, &ops, wrapwidth);
    let frag_vecs = slice_fragments(&chars, &breaks);
    let r = fragment_strings(&frag_vecs);
    proof {
        assert(breaks@.map_values(|b: usize| b as int) == plain_breaks(text@, wrapwidth as int));
        lemma_frags_concat(chars@, breaks@.map_values(|b: usize| b as int), 0);
        assert(chars@.subrange(0, chars@.len() as int) =~= text@);
        lemma_frags_len(chars@, breaks@.map_values(|b: usize| b as int), 0);
        if wrapwidth >= 1 {
            assert forall|k: int| 0 <= k < r@.len() implies plain_piece_ok(
                text@,
                wrapwidth as int,
                (#[trigger] r@[k])@,
                k,
            ) by {
                assert(r@[k]@ == r@.map_values(|t: String| t@)[k]);
                lemma_plain_fragments_fit(text@, wrapwidth as int, k);
            }
        }
    }
    r
}

} // verus!

verus! {

/// The two wrapping policies of the crate: the gettext-parity one, and the
/// plain greedy one.
#[derive(Clone, Copy, PartialEq, Eq, Structural)]
pub enum WrapPolicy {
    Gettext,
    Plain,
}

/// The fragments the chosen policy produces.
pub open spec fn policy_fragments(p: WrapPolicy, s: Seq<char>, w: int) -> Seq<Seq<char>> {
    match p {
        WrapPolicy::Gettext => wrap_fragments(s, w),
        WrapPolicy::Plain => plain_fragments(s, w),
    }
}

/// Wrap under the chosen policy.
pub fn wrap_with(p: WrapPolicy, text: &str, wrapwidth: usize) -> (r: Vec<String>)
    ensures
        r@.map_values(|t: String| t@) == policy_fragments(p, text@, wrapwidth as int),
        r@.len() >= 1,
        concat_all(r@.map_values(|t: String| t@)) == text@,
{
    match p {
        WrapPolicy::Gettext => wrap(text, wrapwidth),
        WrapPolicy::Plain => wrap_plain(text, wrapwidth),
    }
}

} // verus!

verus! {

/// A cut piece is acceptable: it fits the budget, or no break opportunity
/// lies strictly inside it (a single unbreakable token is kept whole).
pub open spec fn piece_fits(ws: Seq<usize>, ops: Seq<usize>, w: int, a: int, b: int) -> bool {
    sum_range(ws, a, b) <= w || (forall|j: int|
        0 <= j < ops.len() ==> !(a < #[trigger] ops[j] < b))
}

/// The cut offsets of the plain policy with the ends of the text added.
pub open spec fn plain_bounds(s: Seq<char>, w: int) -> Seq<int> {
    seq![0] + plain_breaks(s, w) + seq![s.len() as int]
}

/// The width of a piece of the text is the sum of the widths of its
/// characters.
pub proof fn lemma_width_subrange(s: Seq<char>, a: int, b: int)
    requires
        0 <= a <= b <= s.len(),
    ensures
        seq_width(s.subrange(a, b)) == sum_range(widths_of(s), a, b),
    decreases b - a,
{
    if a >= b {
        assert(s.subrange(a, b) =~= Seq::<char>::empty());
        assert(seq_width(Seq::<char>::empty()) == 0);
    } else {
        let sub = s.subrange(a, b);
        assert(sub[0] == s[a]);
        assert(sub.skip(1) =~= s.subrange(a + 1, b));
        lemma_width_subrange(s, a + 1, b);
        assert(widths_of(s)[a] == char_width_of(s[a]));
    }
}

/// The piece at position `k` of the cut runs from the break before it to the
/// break after it.
pub proof fn lemma_frags_index(s: Seq<char>, breaks: Seq<int>, prev: int, k: int)
    requires
        0 <= k <= breaks.len(),
    ensures
        frags_from(s, breaks, prev).len() == breaks.len() + 1,
        frags_from(s, breaks, prev)[k] == s.subrange(
            (if k == 0 {
                prev
            } else {
                breaks[k - 1]
            }),
            (if k == breaks.len() {
                s.len() as int
            } else {
                breaks[k]
            }),
        ),
    decreases breaks.len(),
{
    lemma_frags_len(s, breaks, prev);
    if breaks.len() == 0 {
    } else if k == 0 {
        assert(frags_from(s, breaks, prev)[0] == s.subrange(prev, breaks[0]));
    } else {
        lemma_frags_index(s, breaks.skip(1), breaks[0], k - 1);
        assert(frags_from(s, breaks, prev)[k] == frags_from(s, breaks.skip(1), breaks[0])[k - 1]);
        if k - 1 == 0 {
        } else {
            assert(breaks.skip(1)[k - 2] == breaks[k - 1]);
        }
        if k == breaks.len() {
        } else {
            assert(breaks.skip(1)[k - 1] == breaks[k]);
        }
    }
}

/// The pieces between the chosen breaks of the plain computation are
/// acceptable: each fits the budget or holds no opportunity strictly inside.
/// The final piece is measured against the final opportunity instead.
proof fn lemma_plain_state_fits(ws: Seq<usize>, ops: Seq<usize>, w: int, i: int)
    requires
        forall|j1: int, j2: int| 0 <= j1 < j2 < ops.len() ==> ops[j1] < ops[j2],
        0 <= i <= ops.len(),
    ensures
        plain_state(ws, ops, w, i).lastb >= 0,
        plain_state(ws, ops, w, i).breaks.len() == 0 ==> plain_state(ws, ops, w, i).lastb == 0,
        plain_state(ws, ops, w, i).breaks.len() > 0 ==> plain_state(ws, ops, w, i).breaks.last()
            == plain_state(ws, ops, w, i).lastb,
        forall|k: int|
            0 <= k < (seq![0] + plain_state(ws, ops, w, i).breaks).len() - 1 ==> #[trigger] piece_fits(
                ws,
                ops,
                w,
                (seq![0] + plain_state(ws, ops, w, i).breaks)[k],
                (seq![0] + plain_state(ws, ops, w, i).breaks)[k + 1],
            ),
        i < ops.len() ==> piece_fits(ws, ops, w, plain_state(ws, ops, w, i).lastb, ops[i] as int),
        i == ops.len() && i > 0 ==> piece_fits(
            ws,
            ops,
            w,
            plain_state(ws, ops, w, i).lastb,
            ops[i - 1] as int,
        ),
    decreases i,
{
    if i == 0 {
        let st = plain_state(ws, ops, w, 0);
        assert(st.breaks =~= Seq::<int>::empty());
        assert((seq![0] + st.breaks).len() == 1);
        if ops.len() > 0 {
            assert(piece_fits(ws, ops, w, 0, ops[0] as int)) by {
                assert(forall|j: int| 0 <= j < ops.len() ==> !(0 < #[trigger] ops[j] < ops[0]))
                    by {
                    assert(forall|j: int| 0 < j < ops.len() ==> ops[0] < #[trigger] ops[j]);
                }
            }
        }
    } else {
        lemma_plain_state_fits(ws, ops, w, i - 1);
        let st = plain_state(ws, ops, w, i - 1);
        let st2 = plain_state(ws, ops, w, i);
        assert(st2 == plain_step(ws, ops, w, st, i - 1));
        if i - 1 >= ops.len() - 1 {
            assert(st2 == st);
            if i == ops.len() && i > 0 {
                assert(piece_fits(ws, ops, w, st2.lastb, ops[i - 1] as int));
            }
        } else {
            let lb = ops[i - 1] as int;
            let next = ops[i] as int;
            if sum_range(ws, st.lastb, next) > w {
                // a break is chosen at the current opportunity, closing the
                // piece from the last break to here
                assert(st2.lastb == lb);
                assert(st2.breaks == st.breaks.push(lb));
                let old_b = seq![0] + st.breaks;
                let new_b = seq![0] + st2.breaks;
                assert(new_b =~= old_b.push(lb));
                assert(piece_fits(ws, ops, w, st.lastb, lb));
                assert(old_b.last() == st.lastb);
                assert forall|k: int| 0 <= k < new_b.len() - 1 implies #[trigger] piece_fits(
                    ws,
                    ops,
                    w,
                    new_b[k],
                    new_b[k + 1],
                ) by {
                    if k < old_b.len() - 1 {
                        assert(new_b[k] == old_b[k]);
                        assert(new_b[k + 1] == old_b[k + 1]);
                    } else {
                        assert(new_b[k] == st.lastb);
                        assert(new_b[k + 1] == lb);
                    }
                }
                assert(piece_fits(ws, ops, w, st2.lastb, next)) by {
                    assert(forall|j: int| 0 <= j < ops.len() ==> !(lb < #[trigger] ops[j] < next))
                        by {
                        assert(forall|j: int| i <= j < ops.len() ==> next <= #[trigger] ops[j]);
                        assert(forall|j: int| 0 <= j < i ==> #[trigger] ops[j] <= lb);
                    }
                }
            } else {
                assert(st2 == PlainState { lastb: st.lastb, breaks: st.breaks });
                assert(st2.lastb == st.lastb && st2.breaks == st.breaks);
                assert(piece_fits(ws, ops, w, st2.lastb, next));
            }
        }
    }
}

/// Each fragment of the plain cut fits the budget in display columns, except
/// a fragment that holds no break opportunity strictly inside it: a single
/// unbreakable token is kept whole, never split.
pub proof fn lemma_plain_fragments_fit(s: Seq<char>, w: int, k: int)
    requires
        forall|j1: int, j2: int|
            0 <= j1 < j2 < break_offsets_of(s).len() ==> break_offsets_of(s)[j1]
                < break_offsets_of(s)[j2],
        forall|j: int|
            0 <= j < break_offsets_of(s).len() ==> #[trigger] break_offsets_of(s)[j] <= s.len(),
        s.len() > 0 ==> break_offsets_of(s).len() > 0 && break_offsets_of(s)[break_offsets_of(
            s,
        ).len() - 1] == s.len(),
        w >= 1,
        seq_width(s) > w,
        0 <= k < plain_fragments(s, w).len(),
    ensures
        seq_width(plain_fragments(s, w)[k]) <= w || (forall|j: int|
            0 <= j < break_offsets_of(s).len() ==> !(plain_bounds(s, w)[k] < #[trigger] break_offsets_of(
                s,
            )[j] < plain_bounds(s, w)[k + 1])),
{
    let ws = widths_of(s);
    let ops = break_offsets_of(s);
    let n = ops.len() as int;
    let breaks = plain_breaks(s, w);
    lemma_plain_state_fits(ws, ops, w, n);
    let st = plain_state(ws, ops, w, n);
    assert(breaks == st.breaks);
    // the text is non-empty, for its width exceeds the positive budget
    assert(s.len() > 0) by {
        if s.len() == 0 {
            assert(seq_width(s) == 0);
        }
    }
    // bounds of the cut: breaks are ordered opportunities within the text
    lemma_plain_breaks_shape(ws, ops, w, n);
    let bounds = plain_bounds(s, w);
    assert(bounds =~= (seq![0] + st.breaks).push(s.len() as int));
    assert(plain_fragments(s, w) == frags_from(s, breaks, 0));
    lemma_frags_len(s, breaks, 0);
    lemma_frags_index(s, breaks, 0, k);
    let a = bounds[k];
    let b = bounds[k + 1];
    assert(plain_fragments(s, w)[k] == s.subrange(a, b)) by {
        if k == 0 {
        } else {
            assert(bounds[k] == breaks[k - 1]);
        }
        if k == breaks.len() {
        } else {
            assert(bounds[k + 1] == breaks[k]);
        }
    }
    assert(0 <= a <= b <= s.len());
    lemma_width_subrange(s, a, b);
    // every piece but the last is acceptable by the state invariant; the
    // last runs to the final opportunity, which is the end of the text
    if k < breaks.len() {
        assert((seq![0] + st.breaks)[k] == a);
        assert((seq![0] + st.breaks)[k + 1] == b);
        assert(piece_fits(ws, ops, w, a, b));
    } else {
        assert(a == st.lastb);
        assert(b == s.len() as int);
        assert(ops[n - 1] == s.len());
        assert(piece_fits(ws, ops, w, a, b));
    }
}

/// The chosen plain breaks are ordered and lie within the text.
proof fn lemma_plain_breaks_shape(ws: Seq<usize>, ops: Seq<usize>, w: int, i: int)
    requires
        forall|j1: int, j2: int| 0 <= j1 < j2 < ops.len() ==> ops[j1] < ops[j2],
        0 <= i <= ops.len(),
    ensures
        plain_state(ws, ops, w, i).lastb >= 0,
        i < ops.len() ==> plain_state(ws, ops, w, i).lastb <= ops[i],
        i == ops.len() && i > 0 ==> plain_state(ws, ops, w, i).lastb <= ops[i - 1],
        plain_state(ws, ops, w, i).breaks.len() == 0 ==> plain_state(ws, ops, w, i).lastb == 0,
        plain_state(ws, ops, w, i).breaks.len() > 0 ==> plain_state(ws, ops, w, i).breaks.last()
            == plain_state(ws, ops, w, i).lastb,
        forall|k1: int, k2: int|
            0 <= k1 < k2 < plain_state(ws, ops, w, i).breaks.len() ==> plain_state(
                ws,
                ops,
                w,
                i,
            ).breaks[k1] <= plain_state(ws, ops, w, i).breaks[k2],
        forall|k: int|
            0 <= k < plain_state(ws, ops, w, i).breaks.len() ==> 0 <= #[trigger] plain_state(
                ws,
                ops,
                w,
                i,
            ).breaks[k] <= plain_state(ws, ops, w, i).lastb,
    decreases i,
{
    if i > 0 {
        lemma_plain_breaks_shape(ws, ops, w, i - 1);
        let st = plain_state(ws, ops, w, i - 1);
        let st2 = plain_state(ws, ops, w, i);
        assert(st2 == plain_step(ws, ops, w, st, i - 1));
        if i - 1 < ops.len() - 1 && sum_range(ws, st.lastb, ops[i] as int) > w {
            assert(st2.breaks == st.breaks.push(ops[i - 1] as int));
            assert(st.lastb <= ops[i - 1]);
        }
    }
}

} // verus!
