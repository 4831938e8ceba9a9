//! The compact PO entry: plural translations held positionally, so that the
//! plural index is the position in the list. Serialization uses the plain
//! wrapping policy, measures comment lines in display columns, and puts the
//! translator comment under `# ` and the machine comment under `#. `.

use crate::entry::default_msgstr_block;
use crate::entry::eot_key;
use crate::entry::maybe_msgid_msgctxt_eot_split;
use crate::entry::opt_view;
use crate::entry::MsgidEotMsgctxt;
use crate::entry::Translated;
use crate::field::field_block;
use crate::field::render_field;
use crate::render::append_comment_block;
use crate::render::append_flags_line;
use crate::render::append_occ_block;
use crate::render::comment_block;
use crate::render::flags_line;
use crate::render::occ_block;
use crate::render::Measure;
use crate::strutil::dec_digits;
use crate::strutil::pair_views;
use crate::strutil::str_lines;
use crate::strutil::trim_end_str;
use crate::strutil::usize_to_string;
use crate::twrapper::WrapPolicy;
use vstd::prelude::*;
use vstd::string::*;

verus! {

/// The mathematical value of a compact `POEntry`.
pub struct POEntryView {
    pub msgid: Seq<char>,
    pub msgstr: Option<Seq<char>>,
    pub msgid_plural: Option<Seq<char>>,
    pub msgstr_plural: Seq<Seq<char>>,
    pub msgctxt: Option<Seq<char>>,
    pub obsolete: bool,
    pub comment: Option<Seq<char>>,
    pub tcomment: Option<Seq<char>>,
    pub occurrences: Seq<(Seq<char>, Seq<char>)>,
    pub flags: Seq<Seq<char>>,
    pub previous_msgid: Option<Seq<char>>,
    pub previous_msgid_plural: Option<Seq<char>>,
    pub previous_msgctxt: Option<Seq<char>>,
    pub linenum: usize,
}

/// PO file entry representing a message, with positional plural forms.
pub struct POEntry {
    /// untranslated string
    pub msgid: String,
    /// translated string
    pub msgstr: Option<String>,
    /// untranslated string for plural form
    pub msgid_plural: Option<String>,
    /// translated strings for plural form, in plural-index order
    pub msgstr_plural: Vec<String>,
    /// context
    pub msgctxt: Option<String>,
    /// the entry is marked as obsolete
    pub obsolete: bool,
    /// generated comments for machines
    pub comment: Option<String>,
    /// generated comments for translators
    pub tcomment: Option<String>,
    /// files and lines from which the translations are taken
    pub occurrences: Vec<(String, String)>,
    /// flags indicating the state, i.e. fuzzy
    pub flags: Vec<String>,
    /// previous untranslated string
    pub previous_msgid: Option<String>,
    /// previous untranslated string for plural form
    pub previous_msgid_plural: Option<String>,
    /// previous context
    pub previous_msgctxt: Option<String>,
    /// line number in the file or content
    pub linenum: usize,
}

impl View for POEntry {
    type V = POEntryView;

    open spec fn view(&self) -> POEntryView {
        POEntryView {
            msgid: self.msgid@,
            msgstr: opt_view(self.msgstr),
            msgid_plural: opt_view(self.msgid_plural),
            msgstr_plural: self.msgstr_plural@.map_values(|t: String| t@),
            msgctxt: opt_view(self.msgctxt),
            obsolete: self.obsolete,
            comment: opt_view(self.comment),
            tcomment: opt_view(self.tcomment),
            occurrences: pair_views(self.occurrences@),
            flags: self.flags@.map_values(|t: String| t@),
            previous_msgid: opt_view(self.previous_msgid),
            previous_msgid_plural: opt_view(self.previous_msgid_plural),
            previous_msgctxt: opt_view(self.previous_msgctxt),
            linenum: self.linenum,
        }
    }
}

/// Whether a compact entry has the `fuzzy` flag.
pub open spec fn fuzzy_flag(e: POEntryView) -> bool {
    e.flags.contains("fuzzy"@)
}

/// Whether a positional plural set is non-empty with every form non-empty.
pub open spec fn plural_forms_translated(forms: Seq<Seq<char>>) -> bool {
    forms.len() > 0 && (forall|i: int| 0 <= i < forms.len() ==> (#[trigger] forms[i]).len() > 0)
}

/// Whether a compact entry counts as translated: not obsolete, not fuzzy,
/// and carrying either a non-empty singular translation or a non-empty
/// plural set in which every form is non-empty.
pub open spec fn translated_value(e: POEntryView) -> bool {
    &&& !e.obsolete
    &&& !fuzzy_flag(e)
    &&& (crate::entry::singular_translated(e.msgstr) || plural_forms_translated(e.msgstr_plural))
}

/// The positional plural msgstr blocks, the plural index of each form being
/// its position.
pub open spec fn positional_plural_blocks(
    values: Seq<Seq<char>>,
    delflag: Seq<char>,
    w: int,
    base: int,
) -> Seq<char>
    decreases values.len(),
{
    if values.len() == 0 {
        Seq::empty()
    } else {
        field_block(WrapPolicy::Plain, "msgstr"@, delflag, values[0], dec_digits(base), w)
            + positional_plural_blocks(values.skip(1), delflag, w, base + 1)
    }
}

proof fn lemma_positional_push(values: Seq<Seq<char>>, x: Seq<char>, delflag: Seq<char>, w: int, base: int)
    ensures
        positional_plural_blocks(values.push(x), delflag, w, base) == positional_plural_blocks(
            values,
            delflag,
            w,
            base,
        ) + field_block(
            WrapPolicy::Plain,
            "msgstr"@,
            delflag,
            x,
            dec_digits(base + values.len()),
            w,
        ),
    decreases values.len(),
{
    if values.len() == 0 {
        assert(values.push(x)[0] == x);
        assert(values.push(x).skip(1) =~= Seq::<Seq<char>>::empty());
        assert(positional_plural_blocks(Seq::<Seq<char>>::empty(), delflag, w, base + 1)
            == Seq::<char>::empty());
        assert(positional_plural_blocks(values.push(x), delflag, w, base)
            =~= positional_plural_blocks(values, delflag, w, base) + field_block(
            WrapPolicy::Plain,
            "msgstr"@,
            delflag,
            x,
            dec_digits(base),
            w,
        ));
    } else {
        assert(values.push(x)[0] == values[0]);
        assert(values.push(x).skip(1) =~= values.skip(1).push(x));
        lemma_positional_push(values.skip(1), x, delflag, w, base + 1);
        assert(field_block(WrapPolicy::Plain, "msgstr"@, delflag, values[0], dec_digits(base), w) + (
        positional_plural_blocks(values.skip(1), delflag, w, base + 1) + field_block(
            WrapPolicy::Plain,
            "msgstr"@,
            delflag,
            x,
            dec_digits(base + values.len()),
            w,
        )) =~= (field_block(WrapPolicy::Plain, "msgstr"@, delflag, values[0], dec_digits(base), w)
            + positional_plural_blocks(values.skip(1), delflag, w, base + 1)) + field_block(
            WrapPolicy::Plain,
            "msgstr"@,
            delflag,
            x,
            dec_digits(base + values.len()),
            w,
        ));
    }
}

/// The serialized core of a compact entry.
pub open spec fn core_block(e: POEntryView, w: int, delflag: Seq<char>) -> Seq<char> {
    (match e.msgctxt {
        Option::Some(c) => field_block(WrapPolicy::Plain, "msgctxt"@, delflag, c, Seq::empty(), w),
        Option::None => Seq::empty(),
    }) + field_block(WrapPolicy::Plain, "msgid"@, delflag, e.msgid, Seq::empty(), w) + (
    match e.msgid_plural {
        Option::Some(p) => field_block(WrapPolicy::Plain, "msgid_plural"@, delflag, p, Seq::empty(), w),
        Option::None => Seq::empty(),
    }) + (if e.msgstr_plural.len() == 0 {
        default_msgstr_block(WrapPolicy::Plain, e.msgstr, delflag, w)
    } else {
        positional_plural_blocks(e.msgstr_plural, delflag, w, 0)
    })
}

/// The serialized form of a compact PO entry: translator comment under `# `,
/// machine comment under `#. `, occurrences (suppressed when obsolete),
/// flags, previous context and msgids, then the core fields.
pub open spec fn render(e: POEntryView, w: int) -> Seq<char> {
    let prev_prefix = if e.obsolete {
        "#~| "@
    } else {
        "#| "@
    };
    (match e.tcomment {
        Option::Some(c) => comment_block(WrapPolicy::Plain, Measure::Columns, "# "@, str_lines(c), w),
        Option::None => Seq::empty(),
    }) + (match e.comment {
        Option::Some(c) => comment_block(WrapPolicy::Plain, Measure::Columns, "#. "@, str_lines(c), w),
        Option::None => Seq::empty(),
    }) + (if !e.obsolete && e.occurrences.len() > 0 {
        occ_block(WrapPolicy::Plain, Measure::Columns, e.occurrences, w)
    } else {
        Seq::empty()
    }) + (if e.flags.len() > 0 {
        flags_line(e.flags)
    } else {
        Seq::empty()
    }) + (match e.previous_msgctxt {
        Option::Some(c) => field_block(WrapPolicy::Plain, "msgctxt"@, prev_prefix, c, Seq::empty(), w),
        Option::None => Seq::empty(),
    }) + (match e.previous_msgid {
        Option::Some(p) => field_block(WrapPolicy::Plain, "msgid"@, prev_prefix, p, Seq::empty(), w),
        Option::None => Seq::empty(),
    }) + (match e.previous_msgid_plural {
        Option::Some(p) => field_block(WrapPolicy::Plain, "msgid"@, prev_prefix, p, Seq::empty(), w)
            + "\n"@,
        Option::None => Seq::empty(),
    }) + core_block(
        e,
        w,
        (if e.obsolete {
            "#~ "@
        } else {
            ""@
        }),
    )
}

impl POEntry {
    /// A fresh entry at the given source line, with every field empty.
    pub fn new(linenum: usize) -> (r: POEntry)
        ensures
            r.msgid@ == Seq::<char>::empty(),
            r.msgstr matches Option::None,
            r.msgid_plural matches Option::None,
            r.msgstr_plural@.len() == 0,
            r.msgctxt matches Option::None,
            r.obsolete == false,
            r.comment matches Option::None,
            r.tcomment matches Option::None,
            r.occurrences@.len() == 0,
            r.flags@.len() == 0,
            r.previous_msgid matches Option::None,
            r.previous_msgid_plural matches Option::None,
            r.previous_msgctxt matches Option::None,
            r.linenum == linenum,
    {
        POEntry {
            msgid: String::new(),
            msgstr: Option::None,
            msgid_plural: Option::None,
            msgstr_plural: Vec::new(),
            msgctxt: Option::None,
            obsolete: false,
            comment: Option::None,
            tcomment: Option::None,
            occurrences: Vec::new(),
            flags: Vec::new(),
            previous_msgid: Option::None,
            previous_msgid_plural: Option::None,
            previous_msgctxt: Option::None,
            linenum,
        }
    }

    /// Whether the entry carries the `fuzzy` flag.
    pub fn fuzzy(&self) -> (r: bool)
        ensures
            r == fuzzy_flag(self@),
    {
        let n = self.flags.len();
        let mut i: usize = 0;
        let needle = String::from_str("fuzzy");
        while i < n
            invariant
                n == self.flags@.len(),
                i <= n,
                needle@ == "fuzzy"@,
                forall|j: int| 0 <= j < i ==> self.flags@[j]@ != "fuzzy"@,
            decreases n - i,
        {
            if self.flags[i] == needle {
                proof {
                    assert(self@.flags[i as int] == self.flags@[i as int]@);
                }
                return true;
            }
            i = i + 1;
        }
        proof {
            assert(!fuzzy_flag(self@)) by {
                if self@.flags.contains("fuzzy"@) {
                    let j = choose|j: int|
                        0 <= j < self@.flags.len() && self@.flags[j] == "fuzzy"@;
                    assert(self.flags@[j]@ == "fuzzy"@);
                }
            }
        }
        false
    }

    /// Replace every field with the other entry's field.
    pub fn merge(&mut self, other: POEntry)
        ensures
            final (self)@ == other@,
    {
        self.msgid = other.msgid;
        self.msgstr = other.msgstr;
        self.msgid_plural = other.msgid_plural;
        self.msgstr_plural = other.msgstr_plural;
        self.msgctxt = other.msgctxt;
        self.obsolete = other.obsolete;
        self.comment = other.comment;
        self.tcomment = other.tcomment;
        self.occurrences = other.occurrences;
        self.flags = other.flags;
        self.previous_msgctxt = other.previous_msgctxt;
        self.previous_msgid = other.previous_msgid;
        self.previous_msgid_plural = other.previous_msgid_plural;
        self.linenum = other.linenum;
    }

    /// The serialized entry at the given wrap width.
    #[verifier::rlimit(60)]
    pub fn to_string_with_wrapwidth(&self, wrapwidth: usize) -> (r: String)
        ensures
            r@ == render(self@, wrapwidth as int),
    {
        let ghost w = wrapwidth as int;
        let ghost pp = (if self@.obsolete {
            "#~| "@
        } else {
            "#| "@
        });
        let ghost df = (if self@.obsolete {
            "#~ "@
        } else {
            ""@
        });
        let ghost g1 = (match self@.tcomment {
            Option::Some(c) => comment_block(WrapPolicy::Plain, Measure::Columns, "# "@, str_lines(c), w),
            Option::None => Seq::<char>::empty(),
        });
        let ghost g2 = (match self@.comment {
            Option::Some(c) => comment_block(WrapPolicy::Plain, Measure::Columns, "#. "@, str_lines(c), w),
            Option::None => Seq::<char>::empty(),
        });
        let ghost g3 = (if !self@.obsolete && self@.occurrences.len() > 0 {
            occ_block(WrapPolicy::Plain, Measure::Columns, self@.occurrences, w)
        } else {
            Seq::<char>::empty()
        });
        let ghost g4 = (if self@.flags.len() > 0 {
            flags_line(self@.flags)
        } else {
            Seq::<char>::empty()
        });
        let ghost g5 = (match self@.previous_msgctxt {
            Option::Some(c) => field_block(WrapPolicy::Plain, "msgctxt"@, pp, c, Seq::empty(), w),
            Option::None => Seq::<char>::empty(),
        });
        let ghost g6 = (match self@.previous_msgid {
            Option::Some(c) => field_block(WrapPolicy::Plain, "msgid"@, pp, c, Seq::empty(), w),
            Option::None => Seq::<char>::empty(),
        });
        let ghost g7 = (match self@.previous_msgid_plural {
            Option::Some(c) => field_block(WrapPolicy::Plain, "msgid"@, pp, c, Seq::empty(), w) + "\n"@,
            Option::None => Seq::<char>::empty(),
        });
        let ghost g8 = core_block(self@, w, df);
        proof {
            reveal_strlit("");
            assert(""@ =~= Seq::<char>::empty());
        }
        let mut ret = String::new();
        match &self.tcomment {
            Option::Some(c) => {
                append_comment_block(
                    &mut ret,
                    WrapPolicy::Plain,
                    Measure::Columns,
                    "# ",
                    c.as_str(),
                    wrapwidth,
                );
                proof {
                    assert(ret@ =~= g1);
                }
            },
            Option::None => {
                proof {
                    assert(ret@ =~= g1);
                }
            },
        }
        match &self.comment {
            Option::Some(c) => {
                append_comment_block(
                    &mut ret,
                    WrapPolicy::Plain,
                    Measure::Columns,
                    "#. ",
                    c.as_str(),
                    wrapwidth,
                );
                proof {
                    assert(ret@ =~= g1 + g2);
                }
            },
            Option::None => {
                proof {
                    assert(ret@ =~= g1 + g2);
                }
            },
        }
        if !self.obsolete && self.occurrences.len() > 0 {
            append_occ_block(
                &mut ret,
                WrapPolicy::Plain,
                Measure::Columns,
                &self.occurrences,
                wrapwidth,
            );
            proof {
                assert(ret@ =~= g1 + g2 + g3);
            }
        } else {
            proof {
                assert(ret@ =~= g1 + g2 + g3);
            }
        }
        if self.flags.len() > 0 {
            append_flags_line(&mut ret, &self.flags);
            proof {
                assert(ret@ =~= g1 + g2 + g3 + g4);
            }
        } else {
            proof {
                assert(ret@ =~= g1 + g2 + g3 + g4);
            }
        }
        let prev_prefix: &str = if self.obsolete {
            "#~| "
        } else {
            "#| "
        };
        match &self.previous_msgctxt {
            Option::Some(c) => {
                let f = render_field(
                    WrapPolicy::Plain,
                    "msgctxt",
                    prev_prefix,
                    c.as_str(),
                    "",
                    wrapwidth,
                );
                ret.append(f.as_str());
                proof {
                    assert(ret@ =~= g1 + g2 + g3 + g4 + g5);
                }
            },
            Option::None => {
                proof {
                    assert(ret@ =~= g1 + g2 + g3 + g4 + g5);
                }
            },
        }
        match &self.previous_msgid {
            Option::Some(p) => {
                let f = render_field(
                    WrapPolicy::Plain,
                    "msgid",
                    prev_prefix,
                    p.as_str(),
                    "",
                    wrapwidth,
                );
                ret.append(f.as_str());
                proof {
                    assert(ret@ =~= g1 + g2 + g3 + g4 + g5 + g6);
                }
            },
            Option::None => {
                proof {
                    assert(ret@ =~= g1 + g2 + g3 + g4 + g5 + g6);
                }
            },
        }
        match &self.previous_msgid_plural {
            Option::Some(p) => {
                let f = render_field(
                    WrapPolicy::Plain,
                    "msgid",
                    prev_prefix,
                    p.as_str(),
                    "",
                    wrapwidth,
                );
                ret.append(f.as_str());
                ret.append("\n");
                proof {
                    assert(ret@ =~= g1 + g2 + g3 + g4 + g5 + g6 + g7);
                }
            },
            Option::None => {
                proof {
                    assert(ret@ =~= g1 + g2 + g3 + g4 + g5 + g6 + g7);
                }
            },
        }
        let delflag: &str = if self.obsolete {
            "#~ "
        } else {
            ""
        };
        self.append_core(&mut ret, delflag, wrapwidth);
        proof {
            assert(ret@ =~= g1 + g2 + g3 + g4 + g5 + g6 + g7 + g8);
            assert(g1 + g2 + g3 + g4 + g5 + g6 + g7 + g8 == render(self@, wrapwidth as int));
        }
        ret
    }

    /// The serialized entry at the default wrap width of 78 columns.
    pub fn to_string(&self) -> (r: String)
        ensures
            r@ == render(self@, 78),
    {
        self.to_string_with_wrapwidth(78)
    }

    /// Append the core fields of the entry.
    fn append_core(&self, ret: &mut String, delflag: &str, wrapwidth: usize)
        ensures
            final (ret)@ == old(ret)@ + core_block(self@, wrapwidth as int, delflag@),
    {
        let ghost w = wrapwidth as int;
        let ghost g1 = (match self@.msgctxt {
            Option::Some(c) => field_block(WrapPolicy::Plain, "msgctxt"@, delflag@, c, Seq::empty(), w),
            Option::None => Seq::<char>::empty(),
        });
        let ghost g2 = field_block(WrapPolicy::Plain, "msgid"@, delflag@, self@.msgid, Seq::empty(), w);
        let ghost g3 = (match self@.msgid_plural {
            Option::Some(p) => field_block(WrapPolicy::Plain, "msgid_plural"@, delflag@, p, Seq::empty(), w),
            Option::None => Seq::<char>::empty(),
        });
        let ghost g4 = (if self@.msgstr_plural.len() == 0 {
            default_msgstr_block(WrapPolicy::Plain, self@.msgstr, delflag@, w)
        } else {
            positional_plural_blocks(self@.msgstr_plural, delflag@, w, 0)
        });
        proof {
            reveal_strlit("");
            assert(""@ =~= Seq::<char>::empty());
        }
        match &self.msgctxt {
            Option::Some(ctx) => {
                let f = render_field(WrapPolicy::Plain, "msgctxt", delflag, ctx.as_str(), "", wrapwidth);
                ret.append(f.as_str());
                proof {
                    assert(ret@ =~= old(ret)@ + g1);
                }
            },
            Option::None => {
                proof {
                    assert(ret@ =~= old(ret)@ + g1);
                }
            },
        }
        let f = render_field(WrapPolicy::Plain, "msgid", delflag, self.msgid.as_str(), "", wrapwidth);
        ret.append(f.as_str());
        proof {
            assert(ret@ =~= old(ret)@ + g1 + g2);
        }
        match &self.msgid_plural {
            Option::Some(p) => {
                let f2 = render_field(WrapPolicy::Plain, "msgid_plural", delflag, p.as_str(), "", wrapwidth);
                ret.append(f2.as_str());
                proof {
                    assert(ret@ =~= old(ret)@ + g1 + g2 + g3);
                }
            },
            Option::None => {
                proof {
                    assert(ret@ =~= old(ret)@ + g1 + g2 + g3);
                }
            },
        }
        if self.msgstr_plural.len() == 0 {
            let msgstr: &str = match &self.msgstr {
                Option::Some(m) => m.as_str(),
                Option::None => "",
            };
            proof {
                assert(msgstr@ == crate::entry::opt_or_empty(self@.msgstr));
            }
            let trimmed = trim_end_str(msgstr);
            let f3 = render_field(WrapPolicy::Plain, "msgstr", delflag, trimmed.as_str(), "", wrapwidth);
            ret.append(f3.as_str());
            proof {
                assert(ret@ =~= old(ret)@ + g1 + g2 + g3 + g4);
            }
        } else {
            let ghost base = ret@;
            let ghost vv = self@.msgstr_plural;
            let n = self.msgstr_plural.len();
            let mut k: usize = 0;
            proof {
                assert(vv.take(0) =~= Seq::<Seq<char>>::empty());
                assert(base + positional_plural_blocks(vv.take(0), delflag@, w, 0) =~= base);
            }
            while k < n
                invariant
                    n == self.msgstr_plural@.len(),
                    k <= n,
                    vv == self@.msgstr_plural,
                    ret@ == base + positional_plural_blocks(vv.take(k as int), delflag@, w, 0),
                    w == wrapwidth as int,
                decreases n - k,
            {
                let ghost prev = ret@;
                let idx = usize_to_string(k);
                let f4 = render_field(
                    WrapPolicy::Plain,
                    "msgstr",
                    delflag,
                    self.msgstr_plural[k].as_str(),
                    idx.as_str(),
                    wrapwidth,
                );
                ret.append(f4.as_str());
                proof {
                    assert(vv[k as int] == self.msgstr_plural@[k as int]@);
                    lemma_positional_push(vv.take(k as int), vv[k as int], delflag@, w, 0);
                    assert(vv.take(k + 1 as int) =~= vv.take(k as int).push(vv[k as int]));
                    assert(base + (positional_plural_blocks(vv.take(k as int), delflag@, w, 0)
                        + field_block(
                        WrapPolicy::Plain,
                        "msgstr"@,
                        delflag@,
                        vv[k as int],
                        dec_digits(k as int),
                        w,
                    )) =~= prev + field_block(
                        WrapPolicy::Plain,
                        "msgstr"@,
                        delflag@,
                        vv[k as int],
                        dec_digits(k as int),
                        w,
                    ));
                }
                k = k + 1;
            }
            proof {
                assert(vv.take(n as int) =~= vv);
                assert(ret@ =~= old(ret)@ + g1 + g2 + g3 + g4);
            }
        }
        proof {
            assert(old(ret)@ + g1 + g2 + g3 + g4 =~= old(ret)@ + core_block(self@, w, delflag@));
        }
    }
}

impl Translated for POEntry {
    fn translated(&self) -> (r: bool)
        ensures
            r == translated_value(self@),
    {
        if self.obsolete {
            return false;
        }
        if self.fuzzy() {
            return false;
        }
        let singular = match &self.msgstr {
            Option::Some(s) => s.as_str().unicode_len() > 0,
            Option::None => false,
        };
        if singular {
            return true;
        }
        proof {
            assert(!crate::entry::singular_translated(self@.msgstr));
        }
        let n = self.msgstr_plural.len();
        if n == 0 {
            return false;
        }
        let mut i: usize = 0;
        while i < n
            invariant
                n == self.msgstr_plural@.len(),
                n > 0,
                i <= n,
                !crate::entry::singular_translated(self@.msgstr),
                !self@.obsolete,
                !fuzzy_flag(self@),
                forall|j: int| 0 <= j < i ==> (#[trigger] self@.msgstr_plural[j]).len() > 0,
            decreases n - i,
        {
            if self.msgstr_plural[i].as_str().unicode_len() == 0 {
                proof {
                    assert(self@.msgstr_plural[i as int] == self.msgstr_plural@[i as int]@);
                    assert(!translated_value(self@));
                }
                return false;
            }
            proof {
                assert(self@.msgstr_plural[i as int] == self.msgstr_plural@[i as int]@);
            }
            i = i + 1;
        }
        true
    }
}

impl MsgidEotMsgctxt for POEntry {
    fn msgid_eot_msgctxt(&self) -> (r: String)
        ensures
            r@ == eot_key(self@.msgid, self@.msgctxt),
    {
        maybe_msgid_msgctxt_eot_split(self.msgid.as_str(), &self.msgctxt)
    }
}

/// A fuzzy compact entry is never translated, whatever its translation
/// fields hold.
pub proof fn lemma_fuzzy_untranslated(e: POEntryView)
    requires
        fuzzy_flag(e),
    ensures
        !translated_value(e),
{
}

/// Serializing an obsolete compact entry ignores its occurrences entirely.
pub proof fn lemma_obsolete_suppresses_occurrences(e: POEntryView, w: int)
    requires
        e.obsolete,
    ensures
        render(e, w) == render((POEntryView { occurrences: Seq::empty(), ..e }), w),
{
}

} // verus!
