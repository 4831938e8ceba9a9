//! The translation-unit data model: `MOEntry`, the reduced runtime-oriented
//! entry, and `POEntry`, the authoring-oriented entry with comments, flags,
//! source occurrences and obsolescence, together with their serialization to
//! PO file text.
//!
//! Plural translations are held as pairs of a string index and a translated
//! string; serialization emits them in ascending numeric index order. The pair
//! `(msgid, msgctxt)` is the logical identity key of an entry, rendered as
//! `msgctxt`, an EOT byte and `msgid` when a context is present.

use crate::field::field_block;
use crate::field::render_field;
use crate::render::append_comment_block;
use crate::render::append_flags_line;
use crate::render::append_metadata_msgstr;
use crate::render::append_occ_block;
use crate::render::append_plural_blocks;
use crate::render::comment_block;
use crate::render::flags_line;
use crate::render::metadata_msgstr_block;
use crate::render::occ_block;
use crate::render::plural_blocks;
use crate::render::Measure;
use crate::strutil::pair_views;
use crate::strutil::sort_pairs;
use crate::strutil::str_lines;
use crate::strutil::trim_end_str;
use crate::strutil::trimmed_end;
use crate::twrapper::WrapPolicy;
use vstd::prelude::*;
use vstd::string::*;

verus! {

/// The view of an optional string.
pub open spec fn opt_view(o: Option<String>) -> Option<Seq<char>> {
    match o {
        Option::Some(s) => Option::Some(s@),
        Option::None => Option::None,
    }
}

/// The text of an optional string, empty when absent.
pub open spec fn opt_or_empty(o: Option<Seq<char>>) -> Seq<char> {
    match o {
        Option::Some(s) => s,
        Option::None => Seq::empty(),
    }
}

/// Provides `translated`: whether an entry carries a complete translation.
pub trait Translated {
    fn translated(&self) -> bool;
}

/// Provides `msgid_eot_msgctxt`: the canonical lookup key of an entry,
/// `msgctxt` + EOT + `msgid` when a context is present, else `msgid` alone.
pub trait MsgidEotMsgctxt {
    fn msgid_eot_msgctxt(&self) -> String;
}

/// The lookup key of a message: context, EOT byte and msgid when a context
/// is present, the msgid alone otherwise.
pub open spec fn eot_key(msgid: Seq<char>, msgctxt: Option<Seq<char>>) -> Seq<char> {
    match msgctxt {
        Option::Some(c) => c + seq!['\u{4}'] + msgid,
        Option::None => msgid,
    }
}

/// The lookup key of a msgid under an optional context.
pub fn maybe_msgid_msgctxt_eot_split(msgid: &str, msgctxt: &Option<String>) -> (r: String)
    ensures
        r@ == eot_key(msgid@, opt_view(*msgctxt)),
{
    match msgctxt {
        Option::Some(ctx) => {
            let mut ret = ctx.clone();
            ret.append("\u{4}");
            ret.append(msgid);
            proof {
                reveal_strlit("\u{4}");
                assert("\u{4}"@ =~= seq!['\u{4}']);
            }
            ret
        },
        Option::None => msgid.to_owned(),
    }
}

/// The mathematical value of an `MOEntry`.
pub struct MOEntryView {
    pub msgid: Seq<char>,
    pub msgstr: Option<Seq<char>>,
    pub msgid_plural: Option<Seq<char>>,
    pub msgstr_plural: Option<Seq<(Seq<char>, Seq<char>)>>,
    pub msgctxt: Option<Seq<char>>,
}

/// MO file entry representing a message: only the content needed to
/// translate a program at runtime. Plural translations are pairs of a string
/// index and a translated string.
pub struct MOEntry {
    /// untranslated string
    pub msgid: String,
    /// translated string
    pub msgstr: Option<String>,
    /// untranslated string for plural form
    pub msgid_plural: Option<String>,
    /// translated strings for plural form, keyed by string index
    pub msgstr_plural: Option<Vec<(String, String)>>,
    /// context
    pub msgctxt: Option<String>,
}

impl View for MOEntry {
    type V = MOEntryView;

    open spec fn view(&self) -> MOEntryView {
        MOEntryView {
            msgid: self.msgid@,
            msgstr: opt_view(self.msgstr),
            msgid_plural: opt_view(self.msgid_plural),
            msgstr_plural: match self.msgstr_plural {
                Option::Some(v) => Option::Some(pair_views(v@)),
                Option::None => Option::None,
            },
            msgctxt: opt_view(self.msgctxt),
        }
    }
}

/// Whether a singular translation is present and non-empty.
pub open spec fn singular_translated(msgstr: Option<Seq<char>>) -> bool {
    match msgstr {
        Option::Some(s) => s.len() > 0,
        Option::None => false,
    }
}

/// Whether an indexed plural set is non-empty with every form non-empty.
pub open spec fn plural_translated(ps: Seq<(Seq<char>, Seq<char>)>) -> bool {
    ps.len() > 0 && (forall|i: int| 0 <= i < ps.len() ==> (#[trigger] ps[i].1).len() > 0)
}

/// Whether an MO-level entry counts as translated: a non-empty singular
/// translation, or a non-empty plural set in which every form is non-empty.
pub open spec fn mo_translated(e: MOEntryView) -> bool {
    ||| singular_translated(e.msgstr)
    ||| (match e.msgstr_plural {
        Option::Some(ps) => plural_translated(ps),
        Option::None => false,
    })
}

/// The msgstr block of an ordinary entry: the trimmed translation as one
/// rendered `msgstr` field.
pub open spec fn default_msgstr_block(
    policy: WrapPolicy,
    msgstr: Option<Seq<char>>,
    delflag: Seq<char>,
    w: int,
) -> Seq<char> {
    field_block(policy, "msgstr"@, delflag, trimmed_end(opt_or_empty(msgstr)), Seq::empty(), w)
}

/// How the msgstr of an entry is rendered: as an ordinary wrapped field, or
/// as the metadata block that keeps each header line on its own quoted line.
#[derive(Clone, Copy, PartialEq, Eq, Structural)]
pub enum MsgstrFormatter {
    Default,
    Metadata,
}

/// The msgstr block under the chosen formatter.
pub open spec fn msgstr_block(
    fmt: MsgstrFormatter,
    policy: WrapPolicy,
    msgstr: Option<Seq<char>>,
    delflag: Seq<char>,
    w: int,
) -> Seq<char> {
    match fmt {
        MsgstrFormatter::Default => default_msgstr_block(policy, msgstr, delflag, w),
        MsgstrFormatter::Metadata => metadata_msgstr_block(opt_or_empty(msgstr)),
    }
}

/// The serialized core of an entry: optional context, msgid, optional plural
/// msgid, then either the indexed plural msgstr blocks in ascending numeric
/// index order or the singular msgstr block.
pub open spec fn mo_entry_block(
    policy: WrapPolicy,
    e: MOEntryView,
    w: int,
    delflag: Seq<char>,
    fmt: MsgstrFormatter,
) -> Seq<char> {
    (match e.msgctxt {
        Option::Some(c) => field_block(policy, "msgctxt"@, delflag, c, Seq::empty(), w),
        Option::None => Seq::empty(),
    }) + field_block(policy, "msgid"@, delflag, e.msgid, Seq::empty(), w) + (match e.msgid_plural {
        Option::Some(p) => field_block(policy, "msgid_plural"@, delflag, p, Seq::empty(), w),
        Option::None => Seq::empty(),
    }) + (match e.msgstr_plural {
        Option::Some(ps) => plural_blocks(policy, sort_pairs(ps), delflag, w),
        Option::None => msgstr_block(fmt, policy, e.msgstr, delflag, w),
    })
}

/// Render the core fields of an entry under the given formatter.
pub(crate) fn mo_entry_to_string_with_msgstr_formatter(
    entry: &MOEntry,
    wrapwidth: usize,
    delflag: &str,
    fmt: MsgstrFormatter,
) -> (r: String)
    ensures
        r@ == mo_entry_block(
            WrapPolicy::Gettext,
            entry@,
            wrapwidth as int,
            delflag@,
            fmt,
        ),
{
    let ghost w = wrapwidth as int;
    let ghost g1 = (match entry@.msgctxt {
        Option::Some(c) => field_block(WrapPolicy::Gettext, "msgctxt"@, delflag@, c, Seq::empty(), w),
        Option::None => Seq::<char>::empty(),
    });
    let ghost g2 = field_block(WrapPolicy::Gettext, "msgid"@, delflag@, entry@.msgid, Seq::empty(), w);
    let ghost g3 = (match entry@.msgid_plural {
        Option::Some(p) => field_block(WrapPolicy::Gettext, "msgid_plural"@, delflag@, p, Seq::empty(), w),
        Option::None => Seq::<char>::empty(),
    });
    let ghost g4 = (match entry@.msgstr_plural {
        Option::Some(ps) => plural_blocks(WrapPolicy::Gettext, sort_pairs(ps), delflag@, w),
        Option::None => msgstr_block(fmt, WrapPolicy::Gettext, entry@.msgstr, delflag@, w),
    });
    proof {
        reveal_strlit("");
        assert(""@ =~= Seq::<char>::empty());
    }
    let mut ret = String::new();
    match &entry.msgctxt {
        Option::Some(ctx) => {
            let f = render_field(WrapPolicy::Gettext, "msgctxt", delflag, ctx.as_str(), "", wrapwidth);
            ret.append(f.as_str());
            proof {
                assert(ret@ =~= g1);
            }
        },
        Option::None => {
            proof {
                assert(ret@ =~= g1);
            }
        },
    }
    let f = render_field(WrapPolicy::Gettext, "msgid", delflag, entry.msgid.as_str(), "", wrapwidth);
    ret.append(f.as_str());
    proof {
        assert(ret@ =~= g1 + g2);
    }
    match &entry.msgid_plural {
        Option::Some(p) => {
            let f2 = render_field(WrapPolicy::Gettext, "msgid_plural", delflag, p.as_str(), "", wrapwidth);
            ret.append(f2.as_str());
            proof {
                assert(ret@ =~= g1 + g2 + g3);
            }
        },
        Option::None => {
            proof {
                assert(ret@ =~= g1 + g2 + g3);
            }
        },
    }
    match &entry.msgstr_plural {
        Option::Some(pairs) => {
            append_plural_blocks(&mut ret, WrapPolicy::Gettext, pairs, delflag, wrapwidth);
            proof {
                assert(entry@.msgstr_plural == Option::Some(pair_views(pairs@)));
                assert(ret@ =~= g1 + g2 + g3 + g4);
            }
        },
        Option::None => {
            let msgstr: &str = match &entry.msgstr {
                Option::Some(m) => m.as_str(),
                Option::None => "",
            };
            proof {
                assert(msgstr@ == opt_or_empty(entry@.msgstr));
            }
            match fmt {
                MsgstrFormatter::Default => {
                    let trimmed = trim_end_str(msgstr);
                    let f3 = render_field(
                        WrapPolicy::Gettext,
                        "msgstr",
                        delflag,
                        trimmed.as_str(),
                        "",
                        wrapwidth,
                    );
                    ret.append(f3.as_str());
                    proof {
                        assert(ret@ =~= g1 + g2 + g3 + g4);
                    }
                },
                MsgstrFormatter::Metadata => {
                    append_metadata_msgstr(&mut ret, msgstr);
                    proof {
                        assert(ret@ =~= g1 + g2 + g3 + g4);
                    }
                },
            }
        },
    }
    proof {
        assert(g1 + g2 + g3 + g4 == mo_entry_block(
            WrapPolicy::Gettext,
            entry@,
            wrapwidth as int,
            delflag@,
            fmt,
        ));
    }
    ret
}

/// The serialized form of an MO entry at the given wrap width.
pub open spec fn mo_render(e: MOEntryView, w: int, delflag: Seq<char>) -> Seq<char> {
    mo_entry_block(WrapPolicy::Gettext, e, w, delflag, MsgstrFormatter::Default)
}

/// Render an entry's core fields with the ordinary msgstr formatter.
pub(crate) fn mo_entry_to_string(entry: &MOEntry, wrapwidth: usize, delflag: &str) -> (r: String)
    ensures
        r@ == mo_render(entry@, wrapwidth as int, delflag@),
{
    mo_entry_to_string_with_msgstr_formatter(entry, wrapwidth, delflag, MsgstrFormatter::Default)
}

/// Converts a metadata entry wrapped in an [`MOEntry`] to its string
/// representation: the catalog header must never be word-wrapped, so each
/// header line stays on its own quoted line.
pub fn mo_metadata_entry_to_string(entry: &MOEntry) -> (r: String)
    ensures
        r@ == mo_entry_block(
            WrapPolicy::Gettext,
            entry@,
            78,
            Seq::<char>::empty(),
            MsgstrFormatter::Metadata,
        ),
{
    let r = mo_entry_to_string_with_msgstr_formatter(entry, 78, "", MsgstrFormatter::Metadata);
    proof {
        reveal_strlit("");
        assert(""@ =~= Seq::<char>::empty());
    }
    r
}

impl MOEntry {
    /// Create an entry from its five fields.
    pub fn new(
        msgid: String,
        msgstr: Option<String>,
        msgid_plural: Option<String>,
        msgstr_plural: Option<Vec<(String, String)>>,
        msgctxt: Option<String>,
    ) -> (r: MOEntry)
        ensures
            r.msgid@ == msgid@,
            opt_view(r.msgstr) == opt_view(msgstr),
            opt_view(r.msgid_plural) == opt_view(msgid_plural),
            (match r.msgstr_plural {
                Option::Some(v) => msgstr_plural matches Option::Some(w) && pair_views(v@)
                    == pair_views(w@),
                Option::None => msgstr_plural matches Option::None,
            }),
            opt_view(r.msgctxt) == opt_view(msgctxt),
    {
        MOEntry { msgid, msgstr, msgid_plural, msgstr_plural, msgctxt }
    }

    /// The serialized entry at the given wrap width.
    pub fn to_string_with_wrapwidth(&self, wrapwidth: usize) -> (r: String)
        ensures
            r@ == mo_render(self@, wrapwidth as int, Seq::<char>::empty()),
    {
        let r = mo_entry_to_string(self, wrapwidth, "");
        proof {
            reveal_strlit("");
            assert(""@ =~= Seq::<char>::empty());
        }
        r
    }

    /// The serialized entry at the default wrap width of 78 columns.
    pub fn to_string(&self) -> (r: String)
        ensures
            r@ == mo_render(self@, 78, Seq::<char>::empty()),
    {
        self.to_string_with_wrapwidth(78)
    }

    /// Replace every field with the other entry's field.
    pub fn merge(&mut self, other: MOEntry)
        ensures
            final (self)@ == other@,
    {
        self.msgid = other.msgid;
        self.msgstr = other.msgstr;
        self.msgid_plural = other.msgid_plural;
        self.msgstr_plural = other.msgstr_plural;
        self.msgctxt = other.msgctxt;
    }

    /// An MO entry carrying the shared fields of a PO entry; the PO-only
    /// fields have no place in the MO form and are dropped.
    pub fn from(entry: &POEntry) -> (r: MOEntry)
        ensures
            r@ == (MOEntryView {
                msgid: entry.msgid@,
                msgstr: opt_view(entry.msgstr),
                msgid_plural: opt_view(entry.msgid_plural),
                msgstr_plural: (if entry.msgstr_plural@.len() == 0 {
                    Option::<Seq<(Seq<char>, Seq<char>)>>::None
                } else {
                    Option::Some(pair_views(entry.msgstr_plural@))
                }),
                msgctxt: opt_view(entry.msgctxt),
            }),
    {
        let msgstr_plural: Option<Vec<(String, String)>> = if entry.msgstr_plural.len() == 0 {
            Option::None
        } else {
            Option::Some(clone_pairs(&entry.msgstr_plural))
        };
        MOEntry {
            msgid: entry.msgid.clone(),
            msgstr: clone_opt(&entry.msgstr),
            msgid_plural: clone_opt(&entry.msgid_plural),
            msgstr_plural,
            msgctxt: clone_opt(&entry.msgctxt),
        }
    }
}

/// A copy of an optional string with the same text.
pub(crate) fn clone_opt(o: &Option<String>) -> (r: Option<String>)
    ensures
        opt_view(r) == opt_view(*o),
{
    match o {
        Option::Some(s) => Option::Some(s.clone()),
        Option::None => Option::None,
    }
}

/// A copy of a pair list with the same texts.
pub(crate) fn clone_pairs(v: &Vec<(String, String)>) -> (r: Vec<(String, String)>)
    ensures
        pair_views(r@) == pair_views(v@),
{
    let n = v.len();
    let mut out: Vec<(String, String)> = Vec::new();
    let mut i: usize = 0;
    while i < n
        invariant
            n == v@.len(),
            i <= n,
            pair_views(out@) == pair_views(v@).take(i as int),
        decreases n - i,
    {
        let ghost prev = pair_views(out@);
        out.push((v[i].0.clone(), v[i].1.clone()));
        proof {
            assert(pair_views(out@) =~= prev.push(pair_views(v@)[i as int]));
            assert(pair_views(v@).take(i + 1 as int) =~= prev.push(pair_views(v@)[i as int]));
        }
        i = i + 1;
    }
    proof {
        assert(pair_views(v@).take(n as int) =~= pair_views(v@));
    }
    out
}

impl Translated for MOEntry {
    fn translated(&self) -> (r: bool)
        ensures
            r == mo_translated(self@),
    {
        let singular = match &self.msgstr {
            Option::Some(s) => s.as_str().unicode_len() > 0,
            Option::None => false,
        };
        if singular {
            return true;
        }
        proof {
            assert(!singular_translated(self@.msgstr));
        }
        match &self.msgstr_plural {
            Option::Some(ps) => {
                let n = ps.len();
                if n == 0 {
                    return false;
                }
                let mut i: usize = 0;
                while i < n
                    invariant
                        n == ps@.len(),
                        n > 0,
                        i <= n,
                        !singular_translated(self@.msgstr),
                        self@.msgstr_plural == Option::Some(pair_views(ps@)),
                        forall|j: int|
                            0 <= j < i ==> (#[trigger] pair_views(ps@)[j].1).len() > 0,
                    decreases n - i,
                {
                    if ps[i].1.as_str().unicode_len() == 0 {
                        proof {
                            assert(pair_views(ps@)[i as int].1 == ps@[i as int].1@);
                            assert(ps@[i as int].1@.len() == 0);
                            assert(!mo_translated(self@));
                        }
                        return false;
                    }
                    proof {
                        assert(pair_views(ps@)[i as int].1 == ps@[i as int].1@);
                    }
                    i = i + 1;
                }
                true
            },
            Option::None => false,
        }
    }
}

impl MsgidEotMsgctxt for MOEntry {
    fn msgid_eot_msgctxt(&self) -> (r: String)
        ensures
            r@ == eot_key(self@.msgid, self@.msgctxt),
    {
        maybe_msgid_msgctxt_eot_split(self.msgid.as_str(), &self.msgctxt)
    }
}

/// The mathematical value of a `POEntry`.
pub struct POEntryView {
    pub msgid: Seq<char>,
    pub msgstr: Option<Seq<char>>,
    pub msgid_plural: Option<Seq<char>>,
    pub msgstr_plural: Seq<(Seq<char>, Seq<char>)>,
    pub msgctxt: Option<Seq<char>>,
    pub obsolete: bool,
    pub comment: Option<Seq<char>>,
    pub tcomment: Option<Seq<char>>,
    pub occurrences: Seq<(Seq<char>, Seq<char>)>,
    pub flags: Seq<Seq<char>>,
    pub previous_msgid: Option<Seq<char>>,
    pub previous_msgid_plural: Option<Seq<char>>,
    pub previous_msgctxt: Option<Seq<char>>,
    pub linenum: usize,
}

/// PO file entry representing a message, with everything a PO file stores.
pub struct POEntry {
    /// untranslated string
    pub msgid: String,
    /// translated string
    pub msgstr: Option<String>,
    /// untranslated string for plural form
    pub msgid_plural: Option<String>,
    /// translated strings for plural form, keyed by string index
    pub msgstr_plural: Vec<(String, String)>,
    /// context
    pub msgctxt: Option<String>,
    /// the entry is marked as obsolete
    pub obsolete: bool,
    /// generated comments for machines
    pub comment: Option<String>,
    /// generated comments for translators
    pub tcomment: Option<String>,
    /// files and lines from which the translations are taken
    pub occurrences: Vec<(String, String)>,
    /// flags indicating the state, i.e. fuzzy
    pub flags: Vec<String>,
    /// previous untranslated string
    pub previous_msgid: Option<String>,
    /// previous untranslated string for plural form
    pub previous_msgid_plural: Option<String>,
    /// previous context
    pub previous_msgctxt: Option<String>,
    /// line number in the file or content
    pub linenum: usize,
}

impl View for POEntry {
    type V = POEntryView;

    open spec fn view(&self) -> POEntryView {
        POEntryView {
            msgid: self.msgid@,
            msgstr: opt_view(self.msgstr),
            msgid_plural: opt_view(self.msgid_plural),
            msgstr_plural: pair_views(self.msgstr_plural@),
            msgctxt: opt_view(self.msgctxt),
            obsolete: self.obsolete,
            comment: opt_view(self.comment),
            tcomment: opt_view(self.tcomment),
            occurrences: pair_views(self.occurrences@),
            flags: self.flags@.map_values(|t: String| t@),
            previous_msgid: opt_view(self.previous_msgid),
            previous_msgid_plural: opt_view(self.previous_msgid_plural),
            previous_msgctxt: opt_view(self.previous_msgctxt),
            linenum: self.linenum,
        }
    }
}

/// Whether a PO entry has the `fuzzy` flag: derived from the flag list, not
/// stored separately.
pub open spec fn po_fuzzy(e: POEntryView) -> bool {
    e.flags.contains("fuzzy"@)
}

/// Whether a PO entry counts as translated: not obsolete, not fuzzy, and
/// carrying either a non-empty singular translation or a non-empty plural
/// set in which every form is non-empty.
pub open spec fn po_translated(e: POEntryView) -> bool {
    &&& !e.obsolete
    &&& !po_fuzzy(e)
    &&& (singular_translated(e.msgstr) || plural_translated(e.msgstr_plural))
}

/// The MO view of a PO entry: the shared fields, with an empty plural list
/// becoming an absent plural set.
pub open spec fn mo_view_of_po(e: POEntryView) -> MOEntryView {
    MOEntryView {
        msgid: e.msgid,
        msgstr: e.msgstr,
        msgid_plural: e.msgid_plural,
        msgstr_plural: (if e.msgstr_plural.len() == 0 {
            Option::<Seq<(Seq<char>, Seq<char>)>>::None
        } else {
            Option::Some(e.msgstr_plural)
        }),
        msgctxt: e.msgctxt,
    }
}

/// The serialized form of a PO entry: translator comment, machine comment,
/// occurrences (suppressed for an obsolete entry), flags, previous context
/// and msgids, then the core fields, prefixed `#~ ` when obsolete.
pub open spec fn po_render(e: POEntryView, w: int) -> Seq<char> {
    let prev_prefix = if e.obsolete {
        "#~| "@
    } else {
        "#| "@
    };
    (match e.tcomment {
        Option::Some(c) => comment_block(
            WrapPolicy::Gettext,
            Measure::Graphemes,
            "#. "@,
            str_lines(c),
            w,
        ),
        Option::None => Seq::empty(),
    }) + (match e.comment {
        Option::Some(c) => comment_block(
            WrapPolicy::Gettext,
            Measure::Graphemes,
            "# "@,
            str_lines(c),
            w,
        ),
        Option::None => Seq::empty(),
    }) + (if !e.obsolete && e.occurrences.len() > 0 {
        occ_block(WrapPolicy::Gettext, Measure::Graphemes, e.occurrences, w)
    } else {
        Seq::empty()
    }) + (if e.flags.len() > 0 {
        flags_line(e.flags)
    } else {
        Seq::empty()
    }) + (match e.previous_msgctxt {
        Option::Some(c) => field_block(WrapPolicy::Gettext, "msgctxt"@, prev_prefix, c, Seq::empty(), w),
        Option::None => Seq::empty(),
    }) + (match e.previous_msgid {
        Option::Some(p) => field_block(WrapPolicy::Gettext, "msgid"@, prev_prefix, p, Seq::empty(), w),
        Option::None => Seq::empty(),
    }) + (match e.previous_msgid_plural {
        Option::Some(p) => field_block(WrapPolicy::Gettext, "msgid"@, prev_prefix, p, Seq::empty(), w)
            + "\n"@,
        Option::None => Seq::empty(),
    }) + mo_render(
        mo_view_of_po(e),
        w,
        (if e.obsolete {
            "#~ "@
        } else {
            ""@
        }),
    )
}

impl POEntry {
    /// A fresh entry at the given source line, with every field empty.
    pub fn new(linenum: usize) -> (r: POEntry)
        ensures
            r.msgid@ == Seq::<char>::empty(),
            r.msgstr matches Option::None,
            r.msgid_plural matches Option::None,
            r.msgstr_plural@.len() == 0,
            r.msgctxt matches Option::None,
            r.obsolete == false,
            r.comment matches Option::None,
            r.tcomment matches Option::None,
            r.occurrences@.len() == 0,
            r.flags@.len() == 0,
            r.previous_msgid matches Option::None,
            r.previous_msgid_plural matches Option::None,
            r.previous_msgctxt matches Option::None,
            r.linenum == linenum,
    {
        POEntry {
            msgid: String::new(),
            msgstr: Option::None,
            msgid_plural: Option::None,
            msgstr_plural: Vec::new(),
            msgctxt: Option::None,
            obsolete: false,
            comment: Option::None,
            tcomment: Option::None,
            occurrences: Vec::new(),
            flags: Vec::new(),
            previous_msgid: Option::None,
            previous_msgid_plural: Option::None,
            previous_msgctxt: Option::None,
            linenum,
        }
    }

    /// Whether the entry carries the `fuzzy` flag.
    pub fn fuzzy(&self) -> (r: bool)
        ensures
            r == po_fuzzy(self@),
    {
        let n = self.flags.len();
        let mut i: usize = 0;
        let needle = String::from_str("fuzzy");
        while i < n
            invariant
                n == self.flags@.len(),
                i <= n,
                needle@ == "fuzzy"@,
                forall|j: int| 0 <= j < i ==> self.flags@[j]@ != "fuzzy"@,
            decreases n - i,
        {
            if self.flags[i] == needle {
                proof {
                    assert(self@.flags[i as int] == self.flags@[i as int]@);
                }
                return true;
            }
            i = i + 1;
        }
        proof {
            assert(!po_fuzzy(self@)) by {
                if self@.flags.contains("fuzzy"@) {
                    let j = choose|j: int|
                        0 <= j < self@.flags.len() && self@.flags[j] == "fuzzy"@;
                    assert(self.flags@[j]@ == "fuzzy"@);
                }
            }
        }
        false
    }

    /// Replace every field with the other entry's field.
    pub fn merge(&mut self, other: POEntry)
        ensures
            final (self)@ == other@,
    {
        self.msgid = other.msgid;
        self.msgstr = other.msgstr;
        self.msgid_plural = other.msgid_plural;
        self.msgstr_plural = other.msgstr_plural;
        self.msgctxt = other.msgctxt;
        self.obsolete = other.obsolete;
        self.comment = other.comment;
        self.tcomment = other.tcomment;
        self.occurrences = other.occurrences;
        self.flags = other.flags;
        self.previous_msgctxt = other.previous_msgctxt;
        self.previous_msgid = other.previous_msgid;
        self.previous_msgid_plural = other.previous_msgid_plural;
        self.linenum = other.linenum;
    }

    /// The serialized entry at the given wrap width.
    #[verifier::rlimit(60)]
    pub fn to_string_with_wrapwidth(&self, wrapwidth: usize) -> (r: String)
        ensures
            r@ == po_render(self@, wrapwidth as int),
    {
        let ghost w = wrapwidth as int;
        let ghost pp = (if self@.obsolete {
            "#~| "@
        } else {
            "#| "@
        });
        let ghost g1 = (match self@.tcomment {
            Option::Some(c) => comment_block(WrapPolicy::Gettext, Measure::Graphemes, "#. "@, str_lines(c), w),
            Option::None => Seq::<char>::empty(),
        });
        let ghost g2 = (match self@.comment {
            Option::Some(c) => comment_block(WrapPolicy::Gettext, Measure::Graphemes, "# "@, str_lines(c), w),
            Option::None => Seq::<char>::empty(),
        });
        let ghost g3 = (if !self@.obsolete && self@.occurrences.len() > 0 {
            occ_block(WrapPolicy::Gettext, Measure::Graphemes, self@.occurrences, w)
        } else {
            Seq::<char>::empty()
        });
        let ghost g4 = (if self@.flags.len() > 0 {
            flags_line(self@.flags)
        } else {
            Seq::<char>::empty()
        });
        let ghost g5 = (match self@.previous_msgctxt {
            Option::Some(c) => field_block(WrapPolicy::Gettext, "msgctxt"@, pp, c, Seq::empty(), w),
            Option::None => Seq::<char>::empty(),
        });
        let ghost g6 = (match self@.previous_msgid {
            Option::Some(c) => field_block(WrapPolicy::Gettext, "msgid"@, pp, c, Seq::empty(), w),
            Option::None => Seq::<char>::empty(),
        });
        let ghost g7 = (match self@.previous_msgid_plural {
            Option::Some(c) => field_block(WrapPolicy::Gettext, "msgid"@, pp, c, Seq::empty(), w) + "\n"@,
            Option::None => Seq::<char>::empty(),
        });
        let ghost g8 = mo_render(
            mo_view_of_po(self@),
            w,
            (if self@.obsolete {
                "#~ "@
            } else {
                ""@
            }),
        );
        proof {
            reveal_strlit("");
            assert(""@ =~= Seq::<char>::empty());
        }
        let mut ret = String::new();
        match &self.tcomment {
            Option::Some(c) => {
                append_comment_block(
                    &mut ret,
                    WrapPolicy::Gettext,
                    Measure::Graphemes,
                    "#. ",
                    c.as_str(),
                    wrapwidth,
                );
                proof {
                    assert(ret@ =~= g1);
                }
            },
            Option::None => {
                proof {
                    assert(ret@ =~= g1);
                }
            },
        }
        match &self.comment {
            Option::Some(c) => {
                append_comment_block(
                    &mut ret,
                    WrapPolicy::Gettext,
                    Measure::Graphemes,
                    "# ",
                    c.as_str(),
                    wrapwidth,
                );
                proof {
                    assert(ret@ =~= g1 + g2);
                }
            },
            Option::None => {
                proof {
                    assert(ret@ =~= g1 + g2);
                }
            },
        }
        if !self.obsolete && self.occurrences.len() > 0 {
            append_occ_block(
                &mut ret,
                WrapPolicy::Gettext,
                Measure::Graphemes,
                &self.occurrences,
                wrapwidth,
            );
            proof {
                assert(ret@ =~= g1 + g2 + g3);
            }
        } else {
            proof {
                assert(ret@ =~= g1 + g2 + g3);
            }
        }
        if self.flags.len() > 0 {
            append_flags_line(&mut ret, &self.flags);
            proof {
                assert(ret@ =~= g1 + g2 + g3 + g4);
            }
        } else {
            proof {
                assert(ret@ =~= g1 + g2 + g3 + g4);
            }
        }
        let prev_prefix: &str = if self.obsolete {
            "#~| "
        } else {
            "#| "
        };
        match &self.previous_msgctxt {
            Option::Some(c) => {
                let f = render_field(
                    WrapPolicy::Gettext,
                    "msgctxt",
                    prev_prefix,
                    c.as_str(),
                    "",
                    wrapwidth,
                );
                ret.append(f.as_str());
                proof {
                    assert(ret@ =~= g1 + g2 + g3 + g4 + g5);
                }
            },
            Option::None => {
                proof {
                    assert(ret@ =~= g1 + g2 + g3 + g4 + g5);
                }
            },
        }
        match &self.previous_msgid {
            Option::Some(p) => {
                let f = render_field(
                    WrapPolicy::Gettext,
                    "msgid",
                    prev_prefix,
                    p.as_str(),
                    "",
                    wrapwidth,
                );
                ret.append(f.as_str());
                proof {
                    assert(ret@ =~= g1 + g2 + g3 + g4 + g5 + g6);
                }
            },
            Option::None => {
                proof {
                    assert(ret@ =~= g1 + g2 + g3 + g4 + g5 + g6);
                }
            },
        }
        match &self.previous_msgid_plural {
            Option::Some(p) => {
                let f = render_field(
                    WrapPolicy::Gettext,
                    "msgid",
                    prev_prefix,
                    p.as_str(),
                    "",
                    wrapwidth,
                );
                ret.append(f.as_str());
                ret.append("\n");
                proof {
                    assert(ret@ =~= g1 + g2 + g3 + g4 + g5 + g6 + g7);
                }
            },
            Option::None => {
                proof {
                    assert(ret@ =~= g1 + g2 + g3 + g4 + g5 + g6 + g7);
                }
            },
        }
        let mo = MOEntry::from(self);
        let delflag: &str = if self.obsolete {
            "#~ "
        } else {
            ""
        };
        let core = mo_entry_to_string(&mo, wrapwidth, delflag);
        ret.append(core.as_str());
        proof {
            assert(mo@ == mo_view_of_po(self@));
            assert(ret@ =~= g1 + g2 + g3 + g4 + g5 + g6 + g7 + g8);
            assert(g1 + g2 + g3 + g4 + g5 + g6 + g7 + g8 == po_render(self@, wrapwidth as int));
        }
        ret
    }

    /// The serialized entry at the default wrap width of 78 columns.
    pub fn to_string(&self) -> (r: String)
        ensures
            r@ == po_render(self@, 78),
    {
        self.to_string_with_wrapwidth(78)
    }
}

impl POEntry {
    /// A PO entry carrying the shared fields of an MO entry; the PO-only
    /// fields start out empty, so the conversion back from the MO form never
    /// recovers them.
    pub fn from(mo_entry: &MOEntry) -> (r: POEntry)
        ensures
            r.msgid@ == mo_entry.msgid@,
            opt_view(r.msgstr) == opt_view(mo_entry.msgstr),
            opt_view(r.msgid_plural) == opt_view(mo_entry.msgid_plural),
            pair_views(r.msgstr_plural@) == (match mo_entry.msgstr_plural {
                Option::Some(v) => pair_views(v@),
                Option::None => Seq::<(Seq<char>, Seq<char>)>::empty(),
            }),
            opt_view(r.msgctxt) == opt_view(mo_entry.msgctxt),
            r.obsolete == false,
            r.comment matches Option::None,
            r.tcomment matches Option::None,
            r.occurrences@.len() == 0,
            r.flags@.len() == 0,
            r.previous_msgid matches Option::None,
            r.previous_msgid_plural matches Option::None,
            r.previous_msgctxt matches Option::None,
            r.linenum == 0,
    {
        let mut entry = POEntry::new(0);
        entry.msgid = mo_entry.msgid.clone();
        entry.msgstr = clone_opt(&mo_entry.msgstr);
        entry.msgid_plural = clone_opt(&mo_entry.msgid_plural);
        entry.msgstr_plural = match &mo_entry.msgstr_plural {
            Option::Some(plural) => clone_pairs(plural),
            Option::None => Vec::new(),
        };
        entry.msgctxt = clone_opt(&mo_entry.msgctxt);
        proof {
            if entry.msgstr_plural@.len() == 0 {
                assert(pair_views(entry.msgstr_plural@) =~= Seq::<(Seq<char>, Seq<char>)>::empty());
            }
        }
        entry
    }
}

impl Translated for POEntry {
    fn translated(&self) -> (r: bool)
        ensures
            r == po_translated(self@),
    {
        if self.obsolete {
            return false;
        }
        if self.fuzzy() {
            return false;
        }
        let singular = match &self.msgstr {
            Option::Some(s) => s.as_str().unicode_len() > 0,
            Option::None => false,
        };
        if singular {
            return true;
        }
        proof {
            assert(!singular_translated(self@.msgstr));
        }
        let n = self.msgstr_plural.len();
        if n == 0 {
            return false;
        }
        let mut i: usize = 0;
        while i < n
            invariant
                n == self.msgstr_plural@.len(),
                n > 0,
                i <= n,
                !singular_translated(self@.msgstr),
                !self@.obsolete,
                !po_fuzzy(self@),
                forall|j: int|
                    0 <= j < i ==> (#[trigger] pair_views(self.msgstr_plural@)[j].1).len() > 0,
            decreases n - i,
        {
            if self.msgstr_plural[i].1.as_str().unicode_len() == 0 {
                proof {
                    assert(self@.msgstr_plural == pair_views(self.msgstr_plural@));
                    assert(pair_views(self.msgstr_plural@)[i as int].1
                        == self.msgstr_plural@[i as int].1@);
                    assert(self.msgstr_plural@[i as int].1@.len() == 0);
                    assert(!po_translated(self@));
                }
                return false;
            }
            proof {
                assert(pair_views(self.msgstr_plural@)[i as int].1
                    == self.msgstr_plural@[i as int].1@);
            }
            i = i + 1;
        }
        true
    }
}

impl MsgidEotMsgctxt for POEntry {
    fn msgid_eot_msgctxt(&self) -> (r: String)
        ensures
            r@ == eot_key(self@.msgid, self@.msgctxt),
    {
        maybe_msgid_msgctxt_eot_split(self.msgid.as_str(), &self.msgctxt)
    }
}

/// Converts a metadata entry wrapped in a [`POEntry`] to its string
/// representation, with a `#, fuzzy` line first when the catalog metadata is
/// marked fuzzy.
pub fn po_metadata_entry_to_string(entry: &POEntry, metadata_is_fuzzy: bool) -> (r: String)
    ensures
        r@ == (if metadata_is_fuzzy {
            "#, fuzzy\n"@
        } else {
            Seq::<char>::empty()
        }) + mo_entry_block(
            WrapPolicy::Gettext,
            mo_view_of_po(entry@),
            78,
            Seq::<char>::empty(),
            MsgstrFormatter::Metadata,
        ),
{
    let mut ret = String::new();
    if metadata_is_fuzzy {
        ret.append("#, fuzzy\n");
    }
    let mo = MOEntry::from(entry);
    let body = mo_metadata_entry_to_string(&mo);
    ret.append(body.as_str());
    proof {
        assert(mo@ == mo_view_of_po(entry@));
        assert(ret@ =~= (if metadata_is_fuzzy {
            "#, fuzzy\n"@
        } else {
            Seq::<char>::empty()
        }) + mo_entry_block(
            WrapPolicy::Gettext,
            mo_view_of_po(entry@),
            78,
            Seq::<char>::empty(),
            MsgstrFormatter::Metadata,
        ));
    }
    ret
}

/// A fuzzy entry is never translated, whatever its translation fields hold:
/// the `fuzzy` flag alone decides.
pub proof fn lemma_fuzzy_untranslated(e: POEntryView)
    requires
        po_fuzzy(e),
    ensures
        !po_translated(e),
{
}

/// Serializing an obsolete entry ignores its occurrences entirely: the
/// output equals that of the same entry with no occurrences at all.
pub proof fn lemma_obsolete_suppresses_occurrences(e: POEntryView, w: int)
    requires
        e.obsolete,
    ensures
        po_render(e, w) == po_render(
            (POEntryView { occurrences: Seq::empty(), ..e }),
            w,
        ),
{
}

} // verus!
