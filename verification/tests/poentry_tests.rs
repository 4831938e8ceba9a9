use rspolib::poentry::POEntry;
use rspolib::Translated;

#[test]
fn poentry_poentry_constructor() {

    let poentry = POEntry::new(7);

    assert_eq!(poentry.linenum, 7);
    assert_eq!(poentry.msgid, "");
    assert_eq!(poentry.msgstr, None);
    assert_eq!(poentry.msgid_plural, None);
    assert_eq!(poentry.msgstr_plural, vec![] as Vec<String>);
    assert_eq!(poentry.msgctxt, None);
}

#[test]
fn poentry_poentry_fuzzy() {

    let non_fuzzy_entry = POEntry::new(0);
    assert_eq!(non_fuzzy_entry.fuzzy(), false);

    let mut fuzzy_entry = POEntry::new(0);
    fuzzy_entry.flags.push("fuzzy".to_string());
    assert_eq!(fuzzy_entry.fuzzy(), true);
}

#[test]
fn poentry_poentry_translated() {

    // obsolete means untranslated
    let mut obsolete_entry = POEntry::new(0);
    obsolete_entry.obsolete = true;
    assert_eq!(obsolete_entry.translated(), false);

    // fuzzy means untranslated
    let mut fuzzy_entry = POEntry::new(0);
    fuzzy_entry.flags.push("fuzzy".to_string());
    assert_eq!(fuzzy_entry.translated(), false);

    // no msgstr means untranslated
    let no_msgstr_entry = POEntry::new(0);
    assert_eq!(no_msgstr_entry.translated(), false);

    // empty msgstr means untranslated
    let mut empty_msgstr_entry = POEntry::new(0);
    empty_msgstr_entry.msgstr = Some("".to_string());
    assert_eq!(empty_msgstr_entry.translated(), false);

    // with msgstr means translated
    let mut translated_entry = POEntry::new(0);
    translated_entry.msgstr = Some("msgstr".to_string());
    assert_eq!(translated_entry.translated(), true);

    // empty msgstr_plural means untranslated
    let mut empty_msgstr_plural_entry = POEntry::new(0);
    empty_msgstr_plural_entry.msgstr_plural = vec![];
    assert_eq!(empty_msgstr_plural_entry.translated(), false);

    // with empty msgstr_plural means untranslated
    let mut empty_msgstr_plural_entry = POEntry::new(0);
    empty_msgstr_plural_entry.msgstr_plural = vec!["".to_string()];
    assert_eq!(empty_msgstr_plural_entry.translated(), false);

    // with msgstr_plural means translated
    let mut translated_plural_entry = POEntry::new(0);
    translated_plural_entry.msgstr_plural = vec!["msgstr_plural".to_string()];
    assert_eq!(translated_plural_entry.translated(), true);
}

#[test]
fn poentry_poentry_merge() {

    let mut poentry = POEntry::new(0);
    poentry.msgid = "msgid".to_string();
    poentry.msgstr = Some("msgstr".to_string());
    poentry.msgid_plural = Some("msgid_plural".to_string());
    poentry.msgstr_plural = vec!["msgstr_plural".to_string()];

    let mut other = POEntry::new(0);
    other.msgid = "other_msgid".to_string();
    other.msgstr = Some("other_msgstr".to_string());
    other.msgid_plural = Some("other_msgid_plural".to_string());
    other.msgstr_plural = vec!["other_msgstr_plural".to_string()];

    poentry.merge(other);

    assert_eq!(poentry.msgid, "other_msgid");
    assert_eq!(poentry.msgstr, Some("other_msgstr".to_string()));
    assert_eq!(poentry.msgid_plural, Some("other_msgid_plural".to_string()));
    assert_eq!(poentry.msgstr_plural, vec!["other_msgstr_plural".to_string()]);
}

#[test]
fn poentry_poentry_to_string() {
    let mut entry = POEntry::new(0);
    let expected = "msgid \"\"\nmsgstr \"\"\n";
    assert_eq!(entry.to_string(), expected);
    entry.msgid = "msgid".to_string();
    let expected = "msgid \"msgid\"\nmsgstr \"\"\n";
    assert_eq!(entry.to_string(), expected);
    entry.msgstr = Some("msgstr".to_string());
    let expected = "msgid \"msgid\"\nmsgstr \"msgstr\"\n";
    assert_eq!(entry.to_string(), expected);
    entry.msgid_plural = Some("msgid_plural".to_string());
    let expected = "msgid \"msgid\"\nmsgid_plural \"msgid_plural\"\nmsgstr \"msgstr\"\n";
    assert_eq!(entry.to_string(), expected);
    entry.msgstr = None;
    let expected = "msgid \"msgid\"\nmsgid_plural \"msgid_plural\"\nmsgstr \"\"\n";
    assert_eq!(entry.to_string(), expected);
    entry.msgstr_plural = vec!["plural 1".to_string(), "plural 2".to_string()];
    let expected = "msgid \"msgid\"\nmsgid_plural \"msgid_plural\"\nmsgstr[0] \"plural 1\"\nmsgstr[1] \"plural 2\"\n";
    assert_eq!(entry.to_string(), expected);
    entry.msgctxt = Some("msgctxt".to_string());
    let expected = "msgctxt \"msgctxt\"\nmsgid \"msgid\"\nmsgid_plural \"msgid_plural\"\nmsgstr[0] \"plural 1\"\nmsgstr[1] \"plural 2\"\n";
    assert_eq!(entry.to_string(), expected);
    entry.flags.push("fuzzy".to_string());
    let expected = "#, fuzzy\nmsgctxt \"msgctxt\"\nmsgid \"msgid\"\nmsgid_plural \"msgid_plural\"\nmsgstr[0] \"plural 1\"\nmsgstr[1] \"plural 2\"\n";
    assert_eq!(entry.to_string(), expected);
    entry.flags.push("python-format".to_string());
    let expected = "#, fuzzy, python-format\nmsgctxt \"msgctxt\"\nmsgid \"msgid\"\nmsgid_plural \"msgid_plural\"\nmsgstr[0] \"plural 1\"\nmsgstr[1] \"plural 2\"\n";
    assert_eq!(entry.to_string(), expected);
    entry.comment = Some("comment".to_string());
    let expected = "#. comment\n#, fuzzy, python-format\nmsgctxt \"msgctxt\"\nmsgid \"msgid\"\nmsgid_plural \"msgid_plural\"\nmsgstr[0] \"plural 1\"\nmsgstr[1] \"plural 2\"\n";
    assert_eq!(entry.to_string(), expected);
    entry.tcomment = Some("translator comment".to_string());
    let expected = "# translator comment\n#. comment\n#, fuzzy, python-format\nmsgctxt \"msgctxt\"\nmsgid \"msgid\"\nmsgid_plural \"msgid_plural\"\nmsgstr[0] \"plural 1\"\nmsgstr[1] \"plural 2\"\n";
    assert_eq!(entry.to_string(), expected);
    entry.obsolete = true;
    let expected = "# translator comment\n#. comment\n#, fuzzy, python-format\n#~ msgctxt \"msgctxt\"\n#~ msgid \"msgid\"\n#~ msgid_plural \"msgid_plural\"\n#~ msgstr[0] \"plural 1\"\n#~ msgstr[1] \"plural 2\"\n";
    assert_eq!(entry.to_string(), expected);
    entry.occurrences.push(("file1.rs".to_string(), "1".to_string()));
    entry.occurrences.push(("file2.rs".to_string(), "2".to_string()));
    let expected = "# translator comment\n#. comment\n#, fuzzy, python-format\n#~ msgctxt \"msgctxt\"\n#~ msgid \"msgid\"\n#~ msgid_plural \"msgid_plural\"\n#~ msgstr[0] \"plural 1\"\n#~ msgstr[1] \"plural 2\"\n";
    assert_eq!(entry.to_string(), expected);
    entry.obsolete = false;
    let expected = "# translator comment\n#. comment\n#: file1.rs:1 file2.rs:2\n#, fuzzy, python-format\nmsgctxt \"msgctxt\"\nmsgid \"msgid\"\nmsgid_plural \"msgid_plural\"\nmsgstr[0] \"plural 1\"\nmsgstr[1] \"plural 2\"\n";
    assert_eq!(entry.to_string(), expected);
    entry.msgstr = Some("msgstr".to_string());
    entry.comment = Some("comment".to_string());
    entry.tcomment = Some("translator comment".to_string());
    entry.flags.push("rspolib".to_string());
    let expected = "# translator comment\n#. comment\n#: file1.rs:1 file2.rs:2\n#, fuzzy, python-format, rspolib\nmsgctxt \"msgctxt\"\nmsgid \"msgid\"\nmsgid_plural \"msgid_plural\"\nmsgstr[0] \"plural 1\"\nmsgstr[1] \"plural 2\"\n";
    assert_eq!(entry.to_string(), expected);
    entry.previous_msgctxt = Some("A previous msgctxt".to_string());
    let expected = "# translator comment\n#. comment\n#: file1.rs:1 file2.rs:2\n#, fuzzy, python-format, rspolib\n#| msgctxt \"A previous msgctxt\"\nmsgctxt \"msgctxt\"\nmsgid \"msgid\"\nmsgid_plural \"msgid_plural\"\nmsgstr[0] \"plural 1\"\nmsgstr[1] \"plural 2\"\n";
    assert_eq!(entry.to_string(), expected);
    entry.previous_msgid = Some("A previous msgid".to_string());
    let expected = "# translator comment\n#. comment\n#: file1.rs:1 file2.rs:2\n#, fuzzy, python-format, rspolib\n#| msgctxt \"A previous msgctxt\"\n#| msgid \"A previous msgid\"\nmsgctxt \"msgctxt\"\nmsgid \"msgid\"\nmsgid_plural \"msgid_plural\"\nmsgstr[0] \"plural 1\"\nmsgstr[1] \"plural 2\"\n";
    assert_eq!(entry.to_string(), expected);
}

#[test]
fn poentry_multiline_format() {
    let mut entry = POEntry::new(0);
    // simple msgid wrapping
    entry.msgid = "  A long long long long long long long long long long long long long long long msgid".to_string();
    let expected = "msgid \"\"\n\"  A long long long long long long long long long long long long long long \"\n\"long msgid\"\nmsgstr \"\"\n";
    assert_eq!(entry.to_string(), expected);
    entry.msgid = "A long long long long long long long long long long long long long long long long long long long long long long long long long long long long long long long long long long long long long long long long long long long long msgid".to_string();
    let expected = "msgid \"\"\n\"A long long long long long long long long long long long long long long long \"\n\"long long long long long long long long long long long long long long long \"\n\"long long long long long long long long long long long long long long msgid\"\nmsgstr \"\"\n";
    assert_eq!(entry.to_string(), expected);
    // include newlines in msgid
    entry.msgid = "A long long long long\nlong long long long\nlong long long\nlong long long long lo\nng long msgid".to_string();
    let expected = "msgid \"\"\n\"A long long long long\\nlong long long long\\nlong long long\\nlong long long \"\n\"long lo\\nng long msgid\"\nmsgstr \"\"\n";
    assert_eq!(entry.to_string(), expected);
}

#[test]
fn poentry_format_escapes() {
    let mut entry = POEntry::new(0);
    entry.msgid = "aa\"bb".to_string();
    assert_eq!(entry.to_string(), "msgid \"aa\\\"bb\"\nmsgstr \"\"\n");
    entry.msgid = "aa\nbb".to_string();
    assert_eq!(entry.to_string(), "msgid \"aa\\nbb\"\nmsgstr \"\"\n");
    entry.msgid = "aa\tbb".to_string();
    assert_eq!(entry.to_string(), "msgid \"aa\\tbb\"\nmsgstr \"\"\n");
    entry.msgid = "aa\rbb".to_string();
    assert_eq!(entry.to_string(), "msgid \"aa\\rbb\"\nmsgstr \"\"\n");
    entry.msgid = "aa\\bb".to_string();
    assert_eq!(entry.to_string(), "msgid \"aa\\bb\"\nmsgstr \"\"\n");
}
