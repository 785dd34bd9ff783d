//! Chat messages as JSON text, built piece by piece.

use crate::text::{decimal, spec_decimal};
use vstd::prelude::*;
use vstd::string::*;

verus! {

/// The colours of chat text.
#[derive(Clone, Copy, Debug, PartialEq, Eq, PartialOrd, Ord, Structural)]
pub enum Color {
    Black,
    DarkBlue,
    DarkGreen,
    DarkCyan,
    DarkRed,
    Purple,
    Gold,
    Gray,
    DarkGray,
    Blue,
    BrightGreen,
    Cyan,
    Red,
    Pink,
    Yellow,
    White,
}

impl Color {
    /// The name of the colour in chat JSON.
    pub open spec fn spec_name(self) -> Seq<char> {
        match self {
            Color::Black => "black"@,
            Color::DarkBlue => "dark_blue"@,
            Color::DarkGreen => "dark_green"@,
            Color::DarkCyan => "dark_aqua"@,
            Color::DarkRed => "dark_red"@,
            Color::Purple => "dark_purple"@,
            Color::Gold => "gold"@,
            Color::Gray => "gray"@,
            Color::DarkGray => "dark_gray"@,
            Color::Blue => "blue"@,
            Color::BrightGreen => "green"@,
            Color::Cyan => "aqua"@,
            Color::Red => "red"@,
            Color::Pink => "light_purple"@,
            Color::Yellow => "yellow"@,
            Color::White => "white"@,
        }
    }

    /// The name of the colour in chat JSON.
    pub fn name(&self) -> (r: &'static str)
        ensures
            r@ == self.spec_name(),
    {
        match self {
            Color::Black => "black",
            Color::DarkBlue => "dark_blue",
            Color::DarkGreen => "dark_green",
            Color::DarkCyan => "dark_aqua",
            Color::DarkRed => "dark_red",
            Color::Purple => "dark_purple",
            Color::Gold => "gold",
            Color::Gray => "gray",
            Color::DarkGray => "dark_gray",
            Color::Blue => "blue",
            Color::BrightGreen => "green",
            Color::Cyan => "aqua",
            Color::Red => "red",
            Color::Pink => "light_purple",
            Color::Yellow => "yellow",
            Color::White => "white",
        }
    }
}

/// A chat message under construction, as values: the JSON written so far
/// and what the builder remembers of it.
pub struct ChatView {
    pub json: Seq<char>,
    /// Nothing was written into the current component yet.
    pub first: bool,
    /// No extra component was opened yet.
    pub first_extra: bool,
    pub click_event_defined: bool,
    pub hover_event_defined: bool,
    /// The current component has no text yet.
    pub is_first_text: bool,
    pub extra_exists: bool,
}

impl ChatView {
    /// The builder before anything was added.
    pub open spec fn start() -> ChatView {
        ChatView {
            json: "{"@,
            first: true,
            first_extra: true,
            click_event_defined: false,
            hover_event_defined: false,
            is_first_text: true,
            extra_exists: false,
        }
    }

    /// The builder after `entry` was written into the current component,
    /// behind a comma where something stands there already.
    pub open spec fn with_entry(self, entry: Seq<char>) -> ChatView {
        ChatView {
            json: if self.first {
                self.json + entry
            } else {
                self.json + ","@ + entry
            },
            first: false,
            ..self
        }
    }

    /// The builder after a new extra component was opened.
    pub open spec fn extra(self) -> ChatView {
        let separated = if !self.first || !self.extra_exists {
            self.json + ","@
        } else {
            self.json
        };
        ChatView {
            json: if self.first_extra {
                separated + "\"extra\":[{"@
            } else {
                separated + "},{"@
            },
            first: true,
            first_extra: false,
            click_event_defined: false,
            hover_event_defined: false,
            is_first_text: true,
            extra_exists: true,
        }
    }

    /// The builder after a text was added: into the current component where
    /// it has none, into a new extra component where it has one.
    pub open spec fn text(self, v: Seq<char>) -> ChatView {
        let base = if self.is_first_text {
            self
        } else {
            (ChatView { first: true, ..self }).extra()
        };
        ChatView { is_first_text: false, ..base.with_entry("\"text\":\""@ + v + "\""@) }
    }

    /// The builder after a colour was set.
    pub open spec fn color(self, color: Color) -> ChatView {
        if color == Color::Black {
            self.with_entry("\"color\":0"@)
        } else {
            self.with_entry("\"color\":\""@ + color.spec_name() + "\""@)
        }
    }

    /// The builder after a click event with the given action was asked for:
    /// only the first one of a component counts.
    pub open spec fn click(self, action: Seq<char>, value: Seq<char>) -> ChatView {
        if self.click_event_defined {
            self
        } else {
            ChatView {
                click_event_defined: true,
                ..self.with_entry(
                    "\"clickEvent\":{\"action\":\""@ + action + "\",\"value\":\""@ + value
                        + "\"}"@,
                )
            }
        }
    }

    /// The builder after a hover event with the given action was asked for:
    /// only the first one of a component counts.
    pub open spec fn hover(self, action: Seq<char>, value: Seq<char>) -> ChatView {
        if self.hover_event_defined {
            self
        } else {
            ChatView {
                hover_event_defined: true,
                ..self.with_entry(
                    "\"hoverEvent\":{\"action\":\""@ + action + "\",\"value\":\""@ + value
                        + "\"}"@,
                )
            }
        }
    }

    /// The finished JSON text.
    pub open spec fn finish(self) -> Seq<char> {
        if self.first_extra {
            self.json + "}"@
        } else {
            self.json + "}]"@ + "}"@
        }
    }
}

/// Whether a link begins with `http`.
pub open spec fn spec_is_link(url: Seq<char>) -> bool {
    url.len() >= 4 && url[0] == 'h' && url[1] == 't' && url[2] == 't' && url[3] == 'p'
}

/// Whether a link begins with `http`.
pub fn is_link(url: &str) -> (b: bool)
    ensures
        b == spec_is_link(url@),
{
    url.unicode_len() >= 4 && url.get_char(0) == 'h' && url.get_char(1) == 't' && url.get_char(2)
        == 't' && url.get_char(3) == 'p'
}

/// A chat message under construction.
pub struct Chat {
    json: String,
    first: bool,
    first_extra: bool,
    click_event_defined: bool,
    hover_event_defined: bool,
    is_first_text: bool,
    extra_exists: bool,
}

impl View for Chat {
    type V = ChatView;

    closed spec fn view(&self) -> ChatView {
        ChatView {
            json: self.json@,
            first: self.first,
            first_extra: self.first_extra,
            click_event_defined: self.click_event_defined,
            hover_event_defined: self.hover_event_defined,
            is_first_text: self.is_first_text,
            extra_exists: self.extra_exists,
        }
    }
}

impl Chat {
    /// A builder that holds nothing yet.
    pub fn new() -> (chat: Self)
        ensures
            chat@ == ChatView::start(),
    {
        Self {
            json: String::from_str("{"),
            first: true,
            first_extra: true,
            click_event_defined: false,
            hover_event_defined: false,
            is_first_text: true,
            extra_exists: false,
        }
    }

    /// Makes room for an entry in the current component.
    fn separate(&mut self)
        ensures
            final(self)@ == old(self)@.with_entry(Seq::empty()),
    {
        if !self.first {
            self.json.append(",");
        }
        self.first = false;
        assert(self.json@ =~= old(self)@.with_entry(Seq::empty()).json);
    }

    /// Writes an entry of three parts into the current component.
    fn entry(&mut self, head: &str, value: &str, tail: &str)
        ensures
            final(self)@ == old(self)@.with_entry(head@ + value@ + tail@),
    {
        self.separate();
        self.json.append(head);
        self.json.append(value);
        self.json.append(tail);
        assert(self.json@ =~= old(self)@.with_entry(head@ + value@ + tail@).json);
    }

    /// Adds a text. A component holds one text: a second one opens a new
    /// extra component.
    pub fn text(self, v: &str) -> (chat: Self)
        ensures
            chat@ == self@.text(v@),
    {
        let mut chat = self;
        if !chat.is_first_text {
            chat.first = true;
            chat = chat.extra();
        }
        chat.is_first_text = false;
        chat.entry("\"text\":\"", v, "\"");
        chat
    }

    /// Makes the component bold.
    pub fn bold(self) -> (chat: Self)
        ensures
            chat@ == self@.with_entry("\"bold\":true"@),
    {
        let mut chat = self;
        chat.entry("\"bold\":true", "", "");
        proof {
            reveal_strlit("");
            assert("\"bold\":true"@ + ""@ + ""@ =~= "\"bold\":true"@);
        }
        chat
    }

    /// Makes the component italic.
    pub fn italic(self) -> (chat: Self)
        ensures
            chat@ == self@.with_entry("\"italic\":true"@),
    {
        let mut chat = self;
        chat.entry("\"italic\":true", "", "");
        proof {
            reveal_strlit("");
            assert("\"italic\":true"@ + ""@ + ""@ =~= "\"italic\":true"@);
        }
        chat
    }

    /// Underlines the component.
    pub fn underlined(self) -> (chat: Self)
        ensures
            chat@ == self@.with_entry("\"underlined\":true"@),
    {
        let mut chat = self;
        chat.entry("\"underlined\":true", "", "");
        proof {
            reveal_strlit("");
            assert("\"underlined\":true"@ + ""@ + ""@ =~= "\"underlined\":true"@);
        }
        chat
    }

    /// Strikes the component through.
    pub fn strikethrough(self) -> (chat: Self)
        ensures
            chat@ == self@.with_entry("\"strikethrough\":true"@),
    {
        let mut chat = self;
        chat.entry("\"strikethrough\":true", "", "");
        proof {
            reveal_strlit("");
            assert("\"strikethrough\":true"@ + ""@ + ""@ =~= "\"strikethrough\":true"@);
        }
        chat
    }

    /// Makes the component unreadable.
    pub fn obfuscated(self) -> (chat: Self)
        ensures
            chat@ == self@.with_entry("\"obfuscated\":true"@),
    {
        let mut chat = self;
        chat.entry("\"obfuscated\":true", "", "");
        proof {
            reveal_strlit("");
            assert("\"obfuscated\":true"@ + ""@ + ""@ =~= "\"obfuscated\":true"@);
        }
        chat
    }

    /// Takes the formatting of the parent away from the component.
    pub fn reset(self) -> (chat: Self)
        ensures
            chat@ == self@.with_entry("\"reset\":true"@),
    {
        let mut chat = self;
        chat.entry("\"reset\":true", "", "");
        proof {
            reveal_strlit("");
            assert("\"reset\":true"@ + ""@ + ""@ =~= "\"reset\":true"@);
        }
        chat
    }

    /// Sets the colour of the component.
    pub fn color(self, color: Color) -> (chat: Self)
        ensures
            chat@ == self@.color(color),
    {
        let mut chat = self;
        if color == Color::Black {
            chat.entry("\"color\":0", "", "");
            proof {
                reveal_strlit("");
                assert("\"color\":0"@ + ""@ + ""@ =~= "\"color\":0"@);
            }
        } else {
            chat.entry("\"color\":\"", color.name(), "\"");
        }
        chat
    }

    /// Writes a click event, unless the component has one.
    fn click(&mut self, action: &str, value: &str)
        ensures
            final(self)@ == old(self)@.click(action@, value@),
    {
        if self.click_event_defined {
            return ;
        }
        self.click_event_defined = true;
        self.separate();
        self.json.append("\"clickEvent\":{\"action\":\"");
        self.json.append(action);
        self.json.append("\",\"value\":\"");
        self.json.append(value);
        self.json.append("\"}");
        assert(self.json@ =~= old(self)@.click(action@, value@).json);
    }

    /// Writes a hover event, unless the component has one.
    fn hover(&mut self, action: &str, value: &str)
        ensures
            final(self)@ == old(self)@.hover(action@, value@),
    {
        if self.hover_event_defined {
            return ;
        }
        self.hover_event_defined = true;
        self.separate();
        self.json.append("\"hoverEvent\":{\"action\":\"");
        self.json.append(action);
        self.json.append("\",\"value\":\"");
        self.json.append(value);
        self.json.append("\"}");
        assert(self.json@ =~= old(self)@.hover(action@, value@).json);
    }

    /// Opens `url` on a click. Where the component has no click event yet,
    /// the link must begin with `http`.
    pub fn click_url(self, url: &str) -> (chat: Self)
        requires
            !self@.click_event_defined ==> spec_is_link(url@),
        ensures
            chat@ == self@.click("open_url"@, url@),
    {
        let mut chat = self;
        chat.click("open_url", url);
        chat
    }

    /// Runs `command` on a click.
    pub fn click_run_command(self, command: &str) -> (chat: Self)
        ensures
            chat@ == self@.click("run_command"@, command@),
    {
        let mut chat = self;
        chat.click("run_command", command);
        chat
    }

    /// Puts `command` into the chat input on a click.
    pub fn click_suggest_command(self, command: &str) -> (chat: Self)
        ensures
            chat@ == self@.click("suggest_command"@, command@),
    {
        let mut chat = self;
        chat.click("suggest_command", command);
        chat
    }

    /// Puts the number of a book page into the chat input on a click.
    pub fn click_change_book_page(self, page_to: usize) -> (chat: Self)
        ensures
            chat@ == self@.click("suggest_command"@, spec_decimal(page_to as nat)),
    {
        let mut chat = self;
        let page = decimal(page_to as u64);
        chat.click("suggest_command", page.as_str());
        chat
    }

    /// Shows a text while the pointer is over the component.
    pub fn hover_show_text(self, v: &str) -> (chat: Self)
        ensures
            chat@ == self@.hover("show_text"@, v@),
    {
        let mut chat = self;
        chat.hover("show_text", v);
        chat
    }

    /// Shows another chat message while the pointer is over the component.
    pub fn hover_show_text_chat(self, v: Chat) -> (chat: Self)
        ensures
            chat@ == self@.hover("show_text"@, v@.finish()),
    {
        let mut chat = self;
        let text = v.finish();
        chat.hover("show_text", text.as_str());
        chat
    }

    /// Shows an item while the pointer is over the component.
    pub fn hover_show_item(self, v: &str) -> (chat: Self)
        ensures
            chat@ == self@.hover("show_item"@, v@),
    {
        let mut chat = self;
        chat.hover("show_item", v);
        chat
    }

    /// Shows an entity while the pointer is over the component.
    pub fn hover_show_entity(self, v: &str) -> (chat: Self)
        ensures
            chat@ == self@.hover("show_entity"@, v@),
    {
        let mut chat = self;
        chat.hover("show_entity", v);
        chat
    }

    /// Shows an achievement while the pointer is over the component.
    pub fn hover_show_achievement(self, v: &str) -> (chat: Self)
        ensures
            chat@ == self@.hover("show_achievement"@, v@),
    {
        let mut chat = self;
        chat.hover("show_achievement", v);
        chat
    }

    /// Opens a new extra component; what is added next goes into it.
    pub fn extra(self) -> (chat: Self)
        ensures
            chat@ == self@.extra(),
    {
        let mut chat = self;
        if !chat.first || !chat.extra_exists {
            chat.json.append(",");
        }
        chat.hover_event_defined = false;
        chat.click_event_defined = false;
        chat.first = true;
        chat.is_first_text = true;
        chat.extra_exists = true;
        if chat.first_extra {
            chat.first_extra = false;
            chat.json.append("\"extra\":[{");
        } else {
            chat.json.append("},{");
        }
        chat
    }

    /// Adds a text of one blank: room between two components.
    pub fn space(self) -> (chat: Self)
        ensures
            chat@ == self@.text(" "@),
    {
        self.text(" ")
    }

    /// Closes what is open and gives the JSON text.
    pub fn finish(self) -> (json: String)
        ensures
            json@ == self@.finish(),
    {
        let mut chat = self;
        if !chat.first_extra {
            chat.json.append("}]");
        }
        chat.json.append("}");
        chat.json
    }
}

} // verus!
