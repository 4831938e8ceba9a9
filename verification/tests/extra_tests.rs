use rspolib::escape;
use rspolib::maybe_msgid_msgctxt_eot_split;
use rspolib::mo_metadata_entry_to_string;
use rspolib::po_metadata_entry_to_string;
use rspolib::unescape;
use rspolib::unescape_except_double_quotes;
use rspolib::unicode::display_width;
use rspolib::wrap_plain;
use rspolib::MOEntry;
use rspolib::MsgidEotMsgctxt;
use rspolib::POEntry;
use rspolib::POStringField;
use rspolib::Translated;

#[test]
fn round_trip_scenario() {
    let mut entry = POEntry::new(0);
    entry.msgid = "msgid".to_string();
    entry.msgstr = Some("msgstr".to_string());
    entry.msgctxt = Some("msgctxt".to_string());
    entry.flags.push("fuzzy".to_string());
    let expected = "#, fuzzy\nmsgctxt \"msgctxt\"\nmsgid \"msgid\"\nmsgstr \"msgstr\"\n";
    assert_eq!(entry.to_string_with_wrapwidth(78), expected);
}

#[test]
fn plural_scenario() {
    let mut entry = POEntry::new(0);
    entry.msgid = "msgid".to_string();
    entry.msgid_plural = Some("msgid_plural".to_string());
    entry.msgstr_plural = vec![
        ("0".to_string(), "plural 1".to_string()),
        ("1".to_string(), "plural 2".to_string()),
    ];
    let expected = "msgid \"msgid\"\nmsgid_plural \"msgid_plural\"\nmsgstr[0] \"plural 1\"\nmsgstr[1] \"plural 2\"\n";
    assert_eq!(entry.to_string(), expected);

    let mut dense = rspolib::poentry::POEntry::new(0);
    dense.msgid = "msgid".to_string();
    dense.msgid_plural = Some("msgid_plural".to_string());
    dense.msgstr_plural = vec!["plural 1".to_string(), "plural 2".to_string()];
    assert_eq!(dense.to_string(), expected);
}

#[test]
fn escape_scenario() {
    assert_eq!(escape("a\"b\nc"), "a\\\"b\\nc");
}

#[test]
fn escape_unescape_round_trip() {
    let original = "foo \\ bar \"baz\" \\\\ end";
    assert_eq!(unescape(&escape(original)), original);

    // the round trip also restores the raw control characters
    let control = "a\tb\nc\rd\u{B}e\u{8}f\u{C}g\\";
    assert_eq!(unescape(&escape(control)), control);
}

#[test]
fn unescape_decodes_letter_escapes() {
    // a backslash followed by a recognized code decodes to the character
    assert_eq!(unescape("a\\tb"), "a\tb");
    assert_eq!(unescape("\\n"), "\n");
    assert_eq!(unescape("\\v\\b\\f"), "\u{B}\u{8}\u{C}");
    // an unrecognized code keeps its backslash, and so does a trailing one
    assert_eq!(unescape("a\\xb"), "a\\xb");
    assert_eq!(unescape("end\\"), "end\\");
}

#[test]
fn unescape_except_double_quotes_keeps_quotes() {
    let text = "a\\\"b\\\\c\\td";
    let expected = "a\\\"b\\c\\td";
    assert_eq!(unescape_except_double_quotes(text), expected);
}

#[test]
fn translated_is_a_disjunction() {
    // an empty singular translation beside a complete plural set still
    // counts as translated: either side of the disjunction suffices
    let moentry = MOEntry::new(
        "msgid".to_string(),
        Some("".to_string()),
        Some("msgid_plural".to_string()),
        Some(vec![
            ("0".to_string(), "one".to_string()),
            ("1".to_string(), "many".to_string()),
        ]),
        None,
    );
    assert_eq!(moentry.translated(), true);

    let mut poentry = POEntry::new(0);
    poentry.msgstr = Some("".to_string());
    poentry.msgstr_plural = vec![("0".to_string(), "one".to_string())];
    assert_eq!(poentry.translated(), true);
}

#[test]
fn plural_indices_order_numerically() {
    let mut entry = POEntry::new(0);
    entry.msgid = "msgid".to_string();
    entry.msgstr_plural = vec![
        ("10".to_string(), "ten".to_string()),
        ("2".to_string(), "two".to_string()),
    ];
    assert_eq!(
        entry.to_string(),
        "msgid \"msgid\"\nmsgstr[2] \"two\"\nmsgstr[10] \"ten\"\n"
    );
}

#[test]
fn translated_plural_with_one_empty_form() {
    let moentry = MOEntry::new(
        "msgid".to_string(),
        None,
        None,
        Some(vec![
            ("0".to_string(), "one".to_string()),
            ("1".to_string(), "".to_string()),
            ("2".to_string(), "many".to_string()),
        ]),
        None,
    );
    assert_eq!(moentry.translated(), false);
}

#[test]
fn fuzzy_entry_is_untranslated() {
    let mut entry = POEntry::new(0);
    entry.msgstr = Some("a real translation".to_string());
    entry.flags = vec!["fuzzy".to_string()];
    assert_eq!(entry.fuzzy(), true);
    assert_eq!(entry.translated(), false);
}

#[test]
fn obsolete_suppresses_occurrences() {
    let mut entry = POEntry::new(0);
    entry.msgid = "msgid".to_string();
    entry.obsolete = true;
    entry.occurrences.push(("file1.rs".to_string(), "1".to_string()));
    entry.occurrences.push(("file2.rs".to_string(), "2".to_string()));
    let output = entry.to_string();
    assert!(!output.contains("#: "));
    entry.obsolete = false;
    let output = entry.to_string();
    assert!(output.contains("#: file1.rs:1 file2.rs:2"));
}

#[test]
fn metadata_entry_to_string() {
    let entry = MOEntry::new(
        "".to_string(),
        Some("Project-Id-Version: 1.0\nLanguage: en\n".to_string()),
        None,
        None,
        None,
    );
    let expected = "msgid \"\"\nmsgstr \"\"\n\"Project-Id-Version: 1.0\\n\"\n\"Language: en\\n\"\n";
    assert_eq!(mo_metadata_entry_to_string(&entry), expected);
}

#[test]
fn po_metadata_entry_fuzzy() {
    let mut entry = POEntry::new(0);
    entry.msgstr = Some("Language: en\n".to_string());
    let with_fuzzy = po_metadata_entry_to_string(&entry, true);
    let expected = "#, fuzzy\nmsgid \"\"\nmsgstr \"\"\n\"Language: en\\n\"\n";
    assert_eq!(with_fuzzy, expected);
    let without = po_metadata_entry_to_string(&entry, false);
    let expected = "msgid \"\"\nmsgstr \"\"\n\"Language: en\\n\"\n";
    assert_eq!(without, expected);
}

#[test]
fn msgid_eot_msgctxt_key() {
    assert_eq!(
        maybe_msgid_msgctxt_eot_split("msgid", &Some("ctx".to_string())),
        "ctx\u{4}msgid"
    );
    assert_eq!(maybe_msgid_msgctxt_eot_split("msgid", &None), "msgid");

    let entry = MOEntry::new(
        "msgid".to_string(),
        None,
        None,
        None,
        Some("msgctxt".to_string()),
    );
    assert_eq!(entry.msgid_eot_msgctxt(), "msgctxt\u{4}msgid");
}

#[test]
fn display_width_counts_columns() {
    assert_eq!(display_width("abc"), 3);
    assert_eq!(display_width(""), 0);
    // a wide CJK glyph takes two columns
    assert_eq!(display_width("\u{4F60}"), 2);
    // a control character takes none
    assert_eq!(display_width("\t"), 0);
}

#[test]
fn comment_width_counts_graphemes() {
    let mut entry = POEntry::new(0);
    entry.tcomment = Some("áááááááá".to_string());
    let expected = "#. áááááááá\nmsgid \"\"\nmsgstr \"\"\n";
    assert_eq!(entry.to_string_with_wrapwidth(10), expected);
}

#[test]
fn wrap_plain_breaks_at_opportunities() {
    let text = "This is a test of the emergency broadcast system.";
    let wrapped = wrap_plain(text, 10);
    assert_eq!(
        wrapped,
        vec!["This is a ", "test of ", "the ", "emergency ", "broadcast ", "system."]
    );
    // a fitting text stays whole
    assert_eq!(wrap_plain(text, 100), vec![text]);
}

#[test]
fn po_string_field_renders_one_field() {
    let field = POStringField::new("msgid", "", "hello", "", 78);
    assert_eq!(field.to_string(), "msgid \"hello\"\n");
    let indexed = POStringField::new("msgstr", "", "hola", "1", 78);
    assert_eq!(indexed.to_string(), "msgstr[1] \"hola\"\n");
}

#[test]
fn positional_plural_indices_above_nine() {
    let mut dense = rspolib::poentry::POEntry::new(0);
    dense.msgid = "msgid".to_string();
    dense.msgid_plural = Some("msgid_plural".to_string());
    let mut forms: Vec<String> = Vec::new();
    let names = [
        "v0", "v1", "v2", "v3", "v4", "v5", "v6", "v7", "v8", "v9", "v10", "v11",
    ];
    for name in names {
        forms.push(name.to_string());
    }
    dense.msgstr_plural = forms;
    let output = dense.to_string();
    assert!(output.contains("msgstr[9] \"v9\"\n"));
    assert!(output.contains("msgstr[10] \"v10\"\n"));
    assert!(output.contains("msgstr[11] \"v11\"\n"));
}
#[test]
fn poentry_from_moentry() {
    let moentry = MOEntry::new(
        "msgid".to_string(),
        Some("msgstr".to_string()),
        Some("msgid_plural".to_string()),
        Some(vec![("0".to_string(), "msgstr_plural".to_string())]),
        Some("msgctxt".to_string()),
    );
    let poentry = POEntry::from(&moentry);
    assert_eq!(poentry.msgid, "msgid");
    assert_eq!(poentry.msgstr, Some("msgstr".to_string()));
    assert_eq!(poentry.msgid_plural, Some("msgid_plural".to_string()));
    assert_eq!(
        poentry.msgstr_plural,
        vec![("0".to_string(), "msgstr_plural".to_string())]
    );
    assert_eq!(poentry.msgctxt, Some("msgctxt".to_string()));
    assert_eq!(poentry.obsolete, false);
    assert_eq!(poentry.comment, None);
}

#[test]
fn po_mo_round_trip_loses_po_fields() {
    let mut entry = POEntry::new(3);
    entry.msgid = "msgid".to_string();
    entry.msgstr = Some("msgstr".to_string());
    entry.comment = Some("a machine comment".to_string());
    entry.flags.push("fuzzy".to_string());
    entry.occurrences.push(("file.rs".to_string(), "1".to_string()));

    let back = POEntry::from(&MOEntry::from(&entry));
    assert_eq!(back.msgid, "msgid");
    assert_eq!(back.msgstr, Some("msgstr".to_string()));
    // the MO form has no room for the PO-only fields
    assert_eq!(back.comment, None);
    assert_eq!(back.flags, vec![] as Vec<String>);
    assert_eq!(back.occurrences, vec![] as Vec<(String, String)>);
    assert_eq!(back.linenum, 0);
}
#[test]
fn msgstr_trailing_whitespace_is_trimmed() {
    let mut entry = POEntry::new(0);
    entry.msgid = "msgid".to_string();
    entry.msgstr = Some("msgstr  \t".to_string());
    assert_eq!(entry.to_string(), "msgid \"msgid\"\nmsgstr \"msgstr\"\n");
}

#[test]
fn multi_line_comments_prefix_each_line() {
    let mut entry = POEntry::new(0);
    entry.tcomment = Some("first line\nsecond line".to_string());
    entry.comment = Some("machine".to_string());
    assert_eq!(
        entry.to_string(),
        "#. first line\n#. second line\n# machine\nmsgid \"\"\nmsgstr \"\"\n"
    );
}

#[test]
fn metadata_strips_carriage_returns() {
    let entry = MOEntry::new(
        "".to_string(),
        Some("A: 1\r\nB: 2\r\n".to_string()),
        None,
        None,
        None,
    );
    assert_eq!(
        mo_metadata_entry_to_string(&entry),
        "msgid \"\"\nmsgstr \"\"\n\"A: 1\\n\"\n\"B: 2\\n\"\n"
    );
}

#[test]
fn dense_entry_eot_key() {
    let mut entry = rspolib::poentry::POEntry::new(0);
    entry.msgid = "msgid".to_string();
    entry.msgctxt = Some("ctx".to_string());
    assert_eq!(entry.msgid_eot_msgctxt(), "ctx\u{4}msgid");
}
