//! Message records and how a record is presented.

use vstd::prelude::*;

verus! {

/// Who wrote a message.
#[derive(Clone, Copy, PartialEq, Eq, Debug, Structural)]
pub enum MessageRole {
    Human,
    Assistant,
    System,
}

/// One record of the message log.
///
/// `content` is the full text; `displayed` is what is shown now, a prefix of
/// `content` while a typing reveal runs and `content` itself otherwise.
/// `pending` marks the placeholder that stands for an awaited reply.
pub struct MessageData {
    pub id: u64,
    pub role: MessageRole,
    pub content: String,
    pub displayed: String,
    pub animated: bool,
    pub pending: bool,
}

/// CSS class of a message of the given role.
pub open spec fn spec_role_class(role: MessageRole) -> Seq<char> {
    match role {
        MessageRole::Human => "message-human"@,
        MessageRole::Assistant => "message-assistant"@,
        MessageRole::System => "message-system"@,
    }
}

/// Header shown above a message of the given role.
pub open spec fn spec_role_name(role: MessageRole) -> Seq<char> {
    match role {
        MessageRole::Human => "You"@,
        MessageRole::Assistant => "Assistant"@,
        MessageRole::System => "System"@,
    }
}

/// Markup appended to a message while its text is still being revealed.
pub open spec fn cursor_markup() -> Seq<char> {
    "<span class=\"cursor\">|</span>"@
}

/// The markup of a message body: the rendered text, then the cursor while
/// the reveal runs.
pub open spec fn spec_body_markup(rendered: Seq<char>, animated: bool) -> Seq<char> {
    if animated {
        rendered + cursor_markup()
    } else {
        rendered
    }
}

/// What the markdown renderer makes of a text.
pub uninterp spec fn markdown_html_of(text: Seq<char>) -> Seq<char>;

/// Relies on pulldown_cmark's `Parser::new_ext`, with the strikethrough and
/// table extensions, and `html::push_html` into an empty string: the markup
/// is a function of the text alone.
#[verifier::external_body]
fn render_markdown(text: &str) -> (r: String)
    ensures
        r@ == markdown_html_of(text@),
{
    let mut options = pulldown_cmark::Options::empty();
    options.insert(pulldown_cmark::Options::ENABLE_STRIKETHROUGH);
    options.insert(pulldown_cmark::Options::ENABLE_TABLES);
    let parser = pulldown_cmark::Parser::new_ext(text, options);
    let mut out = String::new();
    pulldown_cmark::html::push_html(&mut out, parser);
    out
}

/// CSS class of a message of the given role.
pub fn role_class(role: MessageRole) -> (r: &'static str)
    ensures
        r@ == spec_role_class(role),
{
    match role {
        MessageRole::Human => "message-human",
        MessageRole::Assistant => "message-assistant",
        MessageRole::System => "message-system",
    }
}

/// Header shown above a message of the given role.
pub fn role_name(role: MessageRole) -> (r: &'static str)
    ensures
        r@ == spec_role_name(role),
{
    match role {
        MessageRole::Human => "You",
        MessageRole::Assistant => "Assistant",
        MessageRole::System => "System",
    }
}

/// Class list of the element that holds a message of the given role.
pub fn container_class(role: MessageRole) -> (r: String)
    ensures
        r@ == "message "@ + spec_role_class(role),
{
    let mut r = String::from_str("message ");
    r.append(role_class(role));
    r
}

/// Body markup from an already rendered text.
pub fn body_markup(rendered: String, animated: bool) -> (r: String)
    ensures
        r@ == spec_body_markup(rendered@, animated),
{
    if animated {
        let mut r = rendered;
        r.append("<span class=\"cursor\">|</span>");
        r
    } else {
        rendered
    }
}

impl MessageData {
    /// Markup of what the message shows now.
    pub fn markup(&self) -> (r: String)
        ensures
            r@ == spec_body_markup(markdown_html_of(self.displayed@), self.animated),
    {
        let rendered = render_markdown(self.displayed.as_str());
        body_markup(rendered, self.animated)
    }
}

} // verus!
