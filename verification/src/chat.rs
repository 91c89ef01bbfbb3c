//! Interpretation of one line typed at the interactive chat prompt.
//!
//! A line is empty, a slash command, a request to leave, or a prompt for the model.
//! Sampling values given to `/temp`, `/min-p`, `/top-p` and `/rep` are floating-point and
//! are handed back as typed, for the caller to parse.

use vstd::prelude::*;
use crate::minifier::code::{spec_to_lowercase, to_lowercase};
use crate::text::{
    eq_ignore_ascii_case, parse_usize, spec_eq_ignore_ascii_case, spec_join_space, spec_parse_usize,
    spec_split_ws, spec_strings, spec_trim, split_ws, string_of, chars_of, trim, push_str,
};

verus! {

/// A recognised slash command.
#[derive(Debug, Clone, PartialEq, Eq)]
pub enum SlashCommand {
    /// `/help` or `/h`.
    Help,
    /// `/stats`.
    Stats,
    /// `/clear`: reset the history and redraw the screen.
    Clear,
    /// `/reset`: reset the history.
    Reset,
    /// `/system [text]`: the new system prompt (the words joined by single spaces), or
    /// `None` to show the current one.
    System(Option<String>),
    /// `/temp [value]`.
    Temp(Option<String>),
    /// `/min-p [value]`.
    MinP(Option<String>),
    /// `/top-p [value]`.
    TopP(Option<String>),
    /// `/top-k [value]`: `Some(None)` when the value is not an integer.
    TopK(Option<Option<usize>>),
    /// `/rep [value]`.
    Rep(Option<String>),
    /// `/thinking`: toggle thinking instructions.
    Thinking,
}

/// Mathematical form of a slash command.
pub enum SlashCommandView {
    Help,
    Stats,
    Clear,
    Reset,
    System(Option<Seq<char>>),
    Temp(Option<Seq<char>>),
    MinP(Option<Seq<char>>),
    TopP(Option<Seq<char>>),
    TopK(Option<Option<usize>>),
    Rep(Option<Seq<char>>),
    Thinking,
}

/// The view of an optional string.
pub open spec fn spec_opt_str(o: Option<String>) -> Option<Seq<char>> {
    match o {
        Some(s) => Some(s@),
        None => None,
    }
}

impl View for SlashCommand {
    type V = SlashCommandView;

    open spec fn view(&self) -> SlashCommandView {
        match self {
            SlashCommand::Help => SlashCommandView::Help,
            SlashCommand::Stats => SlashCommandView::Stats,
            SlashCommand::Clear => SlashCommandView::Clear,
            SlashCommand::Reset => SlashCommandView::Reset,
            SlashCommand::System(o) => SlashCommandView::System(spec_opt_str(*o)),
            SlashCommand::Temp(o) => SlashCommandView::Temp(spec_opt_str(*o)),
            SlashCommand::MinP(o) => SlashCommandView::MinP(spec_opt_str(*o)),
            SlashCommand::TopP(o) => SlashCommandView::TopP(spec_opt_str(*o)),
            SlashCommand::TopK(o) => SlashCommandView::TopK(*o),
            SlashCommand::Rep(o) => SlashCommandView::Rep(spec_opt_str(*o)),
            SlashCommand::Thinking => SlashCommandView::Thinking,
        }
    }
}

/// The argument word of a command, if one was given.
pub open spec fn spec_arg(words: Seq<Seq<char>>) -> Option<Seq<char>> {
    if words.len() > 1 { Some(words[1]) } else { None }
}

/// The command named by the lower-cased first word `name`, with the line's `words`.
pub open spec fn spec_slash(words: Seq<Seq<char>>, name: Seq<char>) -> Option<SlashCommandView> {
    if name == "/help"@ || name == "/h"@ {
        Some(SlashCommandView::Help)
    } else if name == "/stats"@ {
        Some(SlashCommandView::Stats)
    } else if name == "/clear"@ {
        Some(SlashCommandView::Clear)
    } else if name == "/reset"@ {
        Some(SlashCommandView::Reset)
    } else if name == "/system"@ {
        Some(SlashCommandView::System(if words.len() > 1 { Some(spec_join_space(words.skip(1))) } else { None }))
    } else if name == "/temp"@ {
        Some(SlashCommandView::Temp(spec_arg(words)))
    } else if name == "/min-p"@ {
        Some(SlashCommandView::MinP(spec_arg(words)))
    } else if name == "/top-p"@ {
        Some(SlashCommandView::TopP(spec_arg(words)))
    } else if name == "/top-k"@ {
        Some(SlashCommandView::TopK(if words.len() > 1 { Some(spec_parse_usize(words[1])) } else { None }))
    } else if name == "/rep"@ {
        Some(SlashCommandView::Rep(spec_arg(words)))
    } else if name == "/thinking"@ {
        Some(SlashCommandView::Thinking)
    } else {
        None
    }
}

/// The command a line names: its words, the first one lower-cased.
pub open spec fn spec_slash_of(cmd: Seq<char>) -> Option<SlashCommandView> {
    let words = spec_split_ws(cmd);
    if words.len() > 0 {
        spec_slash(words, spec_to_lowercase(words[0]))
    } else {
        None
    }
}

/// The view of an optional command.
pub open spec fn spec_opt_cmd(o: Option<SlashCommand>) -> Option<SlashCommandView> {
    match o {
        Some(c) => Some(c@),
        None => None,
    }
}

/// `words[1..]` joined with single spaces.
fn join_rest(words: &Vec<String>) -> (r: String)
    requires
        words@.len() > 1,
    ensures
        r@ == spec_join_space(spec_strings(words@).skip(1)),
{
    let ghost ws = spec_strings(words@);
    let mut r = String::new();
    push_str(&mut r, words[1].as_str());
    proof { assert(ws.skip(1).take(1) =~= seq![ws[1]]); }
    let mut i: usize = 2;
    while i < words.len()
        invariant
            2 <= i <= words@.len(),
            ws == spec_strings(words@),
            r@ == spec_join_space(ws.skip(1).take(i - 1)),
        decreases words@.len() - i,
    {
        proof {
            assert(ws.skip(1).take(i as int).drop_last() =~= ws.skip(1).take(i - 1));
        }
        push_str(&mut r, " ");
        push_str(&mut r, words[i].as_str());
        proof {
            reveal_strlit(" ");
            assert(r@ =~= spec_join_space(ws.skip(1).take(i - 1)) + seq![' '] + ws[i as int]);
        }
        i += 1;
    }
    proof { assert(ws.skip(1).take(i - 1) =~= ws.skip(1)); }
    r
}

/// The argument word, if any.
fn arg_of(words: &Vec<String>) -> (r: Option<String>)
    ensures
        spec_opt_str(r) == spec_arg(spec_strings(words@)),
{
    if words.len() > 1 {
        let c = chars_of(words[1].as_str());
        Some(string_of(c.as_slice()))
    } else {
        None
    }
}

/// Recognises a slash command; `None` when the first word names none.
pub fn parse_slash_command(cmd: &str) -> (r: Option<SlashCommand>)
    ensures
        spec_opt_cmd(r) == spec_slash_of(cmd@),
{
    let words = split_ws(cmd);
    if words.len() == 0 {
        return None;
    }
    let ghost ws = spec_strings(words@);
    proof { assert(ws[0] == words@[0]@); }
    let name = to_lowercase(words[0].as_str());
    let n = name.as_str();
    if crate::text::str_eq(n, "/help") || crate::text::str_eq(n, "/h") {
        Some(SlashCommand::Help)
    } else if crate::text::str_eq(n, "/stats") {
        Some(SlashCommand::Stats)
    } else if crate::text::str_eq(n, "/clear") {
        Some(SlashCommand::Clear)
    } else if crate::text::str_eq(n, "/reset") {
        Some(SlashCommand::Reset)
    } else if crate::text::str_eq(n, "/system") {
        if words.len() > 1 {
            Some(SlashCommand::System(Some(join_rest(&words))))
        } else {
            Some(SlashCommand::System(None))
        }
    } else if crate::text::str_eq(n, "/temp") {
        Some(SlashCommand::Temp(arg_of(&words)))
    } else if crate::text::str_eq(n, "/min-p") {
        Some(SlashCommand::MinP(arg_of(&words)))
    } else if crate::text::str_eq(n, "/top-p") {
        Some(SlashCommand::TopP(arg_of(&words)))
    } else if crate::text::str_eq(n, "/top-k") {
        if words.len() > 1 {
            proof { assert(ws[1] == words@[1]@); }
            Some(SlashCommand::TopK(Some(parse_usize(words[1].as_str()))))
        } else {
            Some(SlashCommand::TopK(None))
        }
    } else if crate::text::str_eq(n, "/rep") {
        Some(SlashCommand::Rep(arg_of(&words)))
    } else if crate::text::str_eq(n, "/thinking") {
        Some(SlashCommand::Thinking)
    } else {
        None
    }
}

/// What a line typed at the prompt asks for.
#[derive(Debug, Clone, PartialEq, Eq)]
pub enum ChatInput {
    /// Nothing but white space: prompt again.
    Empty,
    /// A slash command to carry out.
    Command(SlashCommand),
    /// Leave the chat.
    Exit,
    /// Text (trimmed) to send to the model.
    Prompt(String),
}

/// Mathematical form of a classified line.
pub enum ChatInputView {
    Empty,
    Command(SlashCommandView),
    Exit,
    Prompt(Seq<char>),
}

impl View for ChatInput {
    type V = ChatInputView;

    open spec fn view(&self) -> ChatInputView {
        match self {
            ChatInput::Empty => ChatInputView::Empty,
            ChatInput::Command(c) => ChatInputView::Command(c@),
            ChatInput::Exit => ChatInputView::Exit,
            ChatInput::Prompt(s) => ChatInputView::Prompt(s@),
        }
    }
}

/// How a typed line is read: after trimming, an empty line is skipped; a line starting
/// with `/` that names a command runs it; `/exit`, `/quit`, `exit` and `quit` in any ASCII
/// case leave; anything else, unknown slash commands included, is a prompt.
pub open spec fn spec_classify(line: Seq<char>) -> ChatInputView {
    let t = spec_trim(line);
    if t.len() == 0 {
        ChatInputView::Empty
    } else if t[0] == '/' && spec_slash_of(t) is Some {
        ChatInputView::Command(spec_slash_of(t)->0)
    } else if t[0] == '/' && (spec_eq_ignore_ascii_case(t, "/exit"@) || spec_eq_ignore_ascii_case(t, "/quit"@)) {
        ChatInputView::Exit
    } else if spec_eq_ignore_ascii_case(t, "exit"@) || spec_eq_ignore_ascii_case(t, "quit"@) {
        ChatInputView::Exit
    } else {
        ChatInputView::Prompt(t)
    }
}

/// Classifies one line typed at the chat prompt.
pub fn classify_input(line: &str) -> (r: ChatInput)
    ensures
        r@ == spec_classify(line@),
{
    let lc = chars_of(line);
    let t = string_of(trim(lc.as_slice()));
    let ts = t.as_str();
    let tc = chars_of(ts);
    if tc.len() == 0 {
        return ChatInput::Empty;
    }
    if tc[0] == '/' {
        match parse_slash_command(ts) {
            Some(c) => {
                return ChatInput::Command(c);
            },
            None => {
                if eq_ignore_ascii_case(ts, "/exit") || eq_ignore_ascii_case(ts, "/quit") {
                    return ChatInput::Exit;
                }
            },
        }
    }
    if eq_ignore_ascii_case(ts, "exit") || eq_ignore_ascii_case(ts, "quit") {
        return ChatInput::Exit;
    }
    ChatInput::Prompt(t)
}

} // verus!
