//! The inline building blocks of a wiki-text paragraph and their HTML
//! rendering: plain text, wiki links, inline links, styled text and
//! preformatted code.

use crate::strutil::trimmed;
use vstd::prelude::*;
use vstd::string::*;

verus! {

/// The target of a link: a raw URL or the name of a wiki page.
pub enum Link {
    Url(String),
    WikilinkTarget(String),
}

/// The text of a link target.
pub open spec fn link_text(target: Link) -> Seq<char> {
    match target {
        Link::Url(s) => s@,
        Link::WikilinkTarget(s) => s@,
    }
}

/// A link written in wiki syntax, with an optional display title.
pub struct Wikilink {
    pub target: Link,
    pub title: String,
}

/// A link written inline, with an optional display title.
pub struct Inlinelink {
    pub target: Link,
    pub title: String,
}

/// A run of plain text.
pub struct PlainText {
    pub content: String,
}

/// The text styles a paragraph fragment can carry.
pub enum Style {
    Italic,
}

/// A styled run of text.
pub struct FormattedText {
    pub style: Style,
    pub content: String,
}

/// A preformatted code block.
pub struct Code {
    pub content: String,
}

/// Provides `to_html`: the HTML rendering of one paragraph fragment.
pub trait Paragraph {
    fn to_html(&self) -> String;
}

/// The anchor tag of a link: the target as the reference, and the title as
/// the text, falling back to the target when the title is empty.
pub open spec fn anchor_html(link: Seq<char>, title: Seq<char>) -> Seq<char> {
    "<a href='"@ + link + "'>"@ + (if title.len() == 0 {
        link
    } else {
        title
    }) + "</a> "@
}

fn render_anchor(link: &str, title: &str) -> (r: String)
    ensures
        r@ == anchor_html(link@, title@),
{
    let mut ret = String::new();
    ret.append("<a href='");
    ret.append(link);
    ret.append("'>");
    if title.unicode_len() == 0 {
        ret.append(link);
    } else {
        ret.append(title);
    }
    ret.append("</a> ");
    proof {
        assert(ret@ =~= anchor_html(link@, title@));
    }
    ret
}

impl Paragraph for PlainText {
    /// The content followed by a single space.
    fn to_html(&self) -> (r: String)
        ensures
            r@ == self.content@ + " "@,
    {
        let mut ret = self.content.clone();
        ret.append(" ");
        ret
    }
}

impl Paragraph for Wikilink {
    /// An anchor to the target, titled by the title or the target itself.
    fn to_html(&self) -> (r: String)
        ensures
            r@ == anchor_html(link_text(self.target), self.title@),
    {
        let link: &str = match &self.target {
            Link::WikilinkTarget(l) => l.as_str(),
            Link::Url(l) => l.as_str(),
        };
        render_anchor(link, self.title.as_str())
    }
}

impl Paragraph for Inlinelink {
    /// An anchor to the whitespace-trimmed target.
    fn to_html(&self) -> (r: String)
        ensures
            r@ == anchor_html(trimmed(link_text(self.target)), self.title@),
    {
        let link: &str = match &self.target {
            Link::WikilinkTarget(l) => l.as_str(),
            Link::Url(l) => l.as_str(),
        };
        let trimmed_link = crate::strutil::trim_str(link);
        render_anchor(trimmed_link.as_str(), self.title.as_str())
    }
}

impl Paragraph for FormattedText {
    /// The content inside the tag of its style, followed by a space.
    fn to_html(&self) -> (r: String)
        ensures
            r@ == "<em>"@ + self.content@ + "</em> "@,
    {
        let mut ret = String::new();
        match self.style {
            Style::Italic => {
                ret.append("<em>");
                ret.append(self.content.as_str());
                ret.append("</em> ");
            },
        }
        proof {
            assert(ret@ =~= "<em>"@ + self.content@ + "</em> "@);
        }
        ret
    }
}

impl Paragraph for Code {
    /// The content inside a `pre` tag.
    fn to_html(&self) -> (r: String)
        ensures
            r@ == "<pre>"@ + self.content@ + "</pre>"@,
    {
        let mut ret = String::new();
        ret.append("<pre>");
        ret.append(self.content.as_str());
        ret.append("</pre>");
        proof {
            assert(ret@ =~= "<pre>"@ + self.content@ + "</pre>"@);
        }
        ret
    }
}

} // verus!
