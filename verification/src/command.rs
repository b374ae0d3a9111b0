//! The commands that a user types, and the messages they become.

use crate::message::{Message, MessageView};
use crate::text::{chars_of, starts_with, trim_bounds, trimmed};
use vstd::prelude::*;

verus! {

/// What a line typed by the user asks for.
#[derive(Debug, PartialEq, Eq)]
pub enum Command {
    /// Send the file at this path.
    File(String),
    /// Send the image at this path.
    Image(String),
    /// Send this text.
    Text(String),
    /// Leave the chat.
    Quit,
}

/// A command as a mathematical value.
pub enum CommandView {
    File(Seq<char>),
    Image(Seq<char>),
    Text(Seq<char>),
    Quit,
}

impl View for Command {
    type V = CommandView;

    open spec fn view(&self) -> CommandView {
        match self {
            Command::File(path) => CommandView::File(path@),
            Command::Image(path) => CommandView::Image(path@),
            Command::Text(text) => CommandView::Text(text@),
            Command::Quit => CommandView::Quit,
        }
    }
}

/// Why a command did not become a message.
#[derive(Debug, PartialEq, Eq)]
pub enum CommandError {
    /// Leaving the chat is nothing to send.
    QuitNotSendable,
    /// The path names no file.
    WeirdPath,
    /// The file could not be read; the text says why.
    Io(String),
}

/// An error of a command as a mathematical value.
pub enum CommandErrorView {
    QuitNotSendable,
    WeirdPath,
    Io(Seq<char>),
}

impl View for CommandError {
    type V = CommandErrorView;

    open spec fn view(&self) -> CommandErrorView {
        match self {
            CommandError::QuitNotSendable => CommandErrorView::QuitNotSendable,
            CommandError::WeirdPath => CommandErrorView::WeirdPath,
            CommandError::Io(reason) => CommandErrorView::Io(reason@),
        }
    }
}

impl CommandErrorView {
    /// The sentence that describes the error.
    pub open spec fn text(self) -> Seq<char> {
        match self {
            CommandErrorView::QuitNotSendable => "Quit is not sendable command"@,
            CommandErrorView::WeirdPath => "weird path"@,
            CommandErrorView::Io(reason) => reason,
        }
    }
}

impl CommandError {
    /// The sentence that describes the error.
    pub fn to_string(&self) -> (r: String)
        ensures
            r@ == self@.text(),
    {
        match self {
            CommandError::QuitNotSendable => String::from_str("Quit is not sendable command"),
            CommandError::WeirdPath => String::from_str("weird path"),
            CommandError::Io(reason) => reason.clone(),
        }
    }
}

/// The command that a line stands for.
///
/// A line that begins with `.quit` leaves the chat. One that begins with
/// `.file` or `.image` sends the file or image whose path is the rest of the
/// line without the white space around it. Any other line is text to send
/// as it stands.
pub open spec fn parsed(line: Seq<char>) -> CommandView {
    if ".quit"@.is_prefix_of(line) {
        CommandView::Quit
    } else if ".file"@.is_prefix_of(line) {
        CommandView::File(trimmed(line.subrange(".file"@.len() as int, line.len() as int)))
    } else if ".image"@.is_prefix_of(line) {
        CommandView::Image(trimmed(line.subrange(".image"@.len() as int, line.len() as int)))
    } else {
        CommandView::Text(line)
    }
}

/// The characters of `path` after its last `/`.
pub open spec fn last_segment(path: Seq<char>) -> Seq<char>
    decreases path.len(),
{
    if path.len() == 0 || path.last() == '/' {
        Seq::empty()
    } else {
        last_segment(path.drop_last()).push(path.last())
    }
}

/// The final component of a path whose components are separated by `/`.
///
/// Empty components and components that are a single `.` do not count. A
/// path without a component that counts ends in its root `/` where it begins
/// with one, and in `.` otherwise; the empty path has no final component.
pub open spec fn final_component(path: Seq<char>) -> Option<Seq<char>>
    decreases path.len(),
{
    if path.len() == 0 {
        None
    } else if path.last() == '/' {
        match final_component(path.drop_last()) {
            Some(component) => Some(component),
            None => Some(seq!['/']),
        }
    } else if last_segment(path) == seq!['.'] {
        match final_component(path.drop_last()) {
            Some(component) => Some(component),
            None => Some(seq!['.']),
        }
    } else {
        Some(last_segment(path))
    }
}

/// The last segment of a path is its tail from the last `/` on.
proof fn lemma_last_segment(path: Seq<char>, start: int)
    requires
        0 <= start <= path.len(),
        start > 0 ==> path[start - 1] == '/',
        forall|j: int| start <= j < path.len() ==> path[j] != '/',
    ensures
        last_segment(path) == path.subrange(start, path.len() as int),
    decreases path.len() - start,
{
    if start == path.len() {
        assert(path.subrange(start, path.len() as int) =~= Seq::<char>::empty());
    } else {
        let init = path.drop_last();
        lemma_last_segment(init, start);
        assert(init.subrange(start, init.len() as int).push(path.last()) =~= path.subrange(
            start,
            path.len() as int,
        ));
    }
}

/// Where the final component of `path` stands in it: `Some((a, b))` for the
/// characters from `a` up to `b`, `None` where the path has no component
/// that counts.
fn component_bounds(path: &[char]) -> (r: Option<(usize, usize)>)
    ensures
        match r {
            Some((a, b)) => a < b <= path@.len() && final_component(path@) == Some(
                path@.subrange(a as int, b as int),
            ),
            None => if path@.len() == 0 {
                final_component(path@) is None
            } else {
                final_component(path@) == Some(seq![path@[0]]) && (path@[0] == '/' || path@[0]
                    == '.')
            },
        },
{
    let mut end: usize = path.len();
    assert(path@.subrange(0, end as int) =~= path@);
    while end > 0
        invariant
            end <= path@.len(),
            end > 0 ==> final_component(path@) == final_component(path@.subrange(0, end as int)),
            end == 0 && path@.len() > 0 ==> final_component(path@) == Some(seq![path@[0]]) && (
            path@[0] == '/' || path@[0] == '.'),
        decreases end,
    {
        let ghost prefix = path@.subrange(0, end as int);
        proof {
            assert(prefix.drop_last() =~= path@.subrange(0, end - 1));
            assert(prefix.last() == path@[end - 1]);
        }
        if path[end - 1] == '/' {
            end -= 1;
            continue ;
        }
        let mut start: usize = end;
        while start > 0 && path[start - 1] != '/'
            invariant
                start <= end <= path@.len(),
                forall|j: int| start <= j < end ==> path@[j] != '/',
            decreases start,
        {
            start -= 1;
        }
        proof {
            lemma_last_segment(prefix, start as int);
            assert(prefix.subrange(start as int, end as int) =~= path@.subrange(
                start as int,
                end as int,
            ));
        }
        let ghost segment = path@.subrange(start as int, end as int);
        if end - start == 1 && path[start] == '.' {
            assert(segment =~= seq!['.']);
            end -= 1;
            continue ;
        }
        proof {
            if segment == seq!['.'] {
                assert(segment.len() == 1);
                assert(segment[0] == path@[start as int]);
            }
        }
        return Some((start, end));
    }
    None
}

/// The name under which the file at `path` is sent: the path's final
/// component.
pub fn display_name(path: &str) -> (r: Option<String>)
    ensures
        match r {
            Some(name) => final_component(path@) == Some(name@),
            None => final_component(path@) is None,
        },
{
    let chars = chars_of(path);
    match component_bounds(chars.as_slice()) {
        Some((a, b)) => Some(String::from_str(path.substring_char(a, b))),
        None => {
            if chars.len() == 0 {
                None
            } else if chars[0] == '/' {
                proof {
                    reveal_strlit("/");
                    assert("/"@ =~= seq!['/']);
                }
                Some(String::from_str("/"))
            } else {
                proof {
                    reveal_strlit(".");
                    assert("."@ =~= seq!['.']);
                }
                Some(String::from_str("."))
            }
        },
    }
}

/// What reading a file gave, as a mathematical value: the content, or the
/// reason why there is none.
pub open spec fn read_view(content: Result<Vec<u8>, String>) -> Result<Seq<u8>, Seq<char>> {
    match content {
        Ok(bytes) => Ok(bytes@),
        Err(reason) => Err(reason@),
    }
}

/// The name and the content under which the file at `path` is sent, given
/// what reading it gave.
pub open spec fn file_data_of(path: Seq<char>, content: Result<Seq<u8>, Seq<char>>) -> Result<
    (Seq<char>, Seq<u8>),
    CommandErrorView,
> {
    match final_component(path) {
        None => Err(CommandErrorView::WeirdPath),
        Some(name) => match content {
            Ok(bytes) => Ok((name, bytes)),
            Err(reason) => Err(CommandErrorView::Io(reason)),
        },
    }
}

/// The message that a command becomes, given what reading the command's
/// file gave. A command without a file does not look at `content`.
pub open spec fn converted(command: CommandView, content: Result<Seq<u8>, Seq<char>>) -> Result<
    MessageView,
    CommandErrorView,
> {
    match command {
        CommandView::Text(text) => Ok(MessageView::Text(text)),
        CommandView::File(path) => match file_data_of(path, content) {
            Ok((name, bytes)) => Ok(MessageView::File(name, bytes)),
            Err(e) => Err(e),
        },
        CommandView::Image(path) => match file_data_of(path, content) {
            Ok((_, bytes)) => Ok(MessageView::Image(bytes)),
            Err(e) => Err(e),
        },
        CommandView::Quit => Err(CommandErrorView::QuitNotSendable),
    }
}

/// The name and the content under which the file at `path` is sent, given
/// what reading the file gave.
///
/// A path without a final component is refused before the outcome of the
/// reading is looked at.
pub fn file_data(path: &str, content: Result<Vec<u8>, String>) -> (r: Result<
    (String, Vec<u8>),
    CommandError,
>)
    ensures
        match r {
            Ok((name, bytes)) => file_data_of(path@, read_view(content)) == Ok::<
                (Seq<char>, Seq<u8>),
                CommandErrorView,
            >((name@, bytes@)),
            Err(e) => file_data_of(path@, read_view(content)) == Err::<
                (Seq<char>, Seq<u8>),
                CommandErrorView,
            >(e@),
        },
{
    match display_name(path) {
        None => Err(CommandError::WeirdPath),
        Some(name) => match content {
            Ok(bytes) => Ok((name, bytes)),
            Err(reason) => Err(CommandError::Io(reason)),
        },
    }
}

impl Command {
    /// The command that the line `item` stands for. Every line stands for
    /// one.
    pub fn try_from(item: &str) -> (r: Result<Command, CommandError>)
        ensures
            r is Ok,
            r->Ok_0@ == parsed(item@),
    {
        let chars = chars_of(item);
        let quit = chars_of(".quit");
        let file = chars_of(".file");
        let image = chars_of(".image");
        if starts_with(chars.as_slice(), quit.as_slice()) {
            Ok(Command::Quit)
        } else if starts_with(chars.as_slice(), file.as_slice()) {
            let (a, b) = trim_bounds(chars.as_slice(), file.len());
            Ok(Command::File(String::from_str(item.substring_char(a, b))))
        } else if starts_with(chars.as_slice(), image.as_slice()) {
            let (a, b) = trim_bounds(chars.as_slice(), image.len());
            Ok(Command::Image(String::from_str(item.substring_char(a, b))))
        } else {
            Ok(Command::Text(String::from_str(item)))
        }
    }

    /// The path of the file whose content the command sends, where it sends
    /// one.
    pub fn path(&self) -> (r: Option<&String>)
        ensures
            match self@ {
                CommandView::File(path) => r is Some && r->0@ == path,
                CommandView::Image(path) => r is Some && r->0@ == path,
                CommandView::Text(_) => r is None,
                CommandView::Quit => r is None,
            },
    {
        match self {
            Command::File(path) => Some(path),
            Command::Image(path) => Some(path),
            Command::Text(_) => None,
            Command::Quit => None,
        }
    }

    /// The message that the command becomes, given what reading the file at
    /// `path()` gave.
    ///
    /// Text goes out as it stands. A file goes out under the final component
    /// of its path, an image without a name; either fails where the path has
    /// no final component or the file could not be read. Leaving the chat is
    /// nothing to send. A command without a file does not look at `content`.
    pub fn try_into(self, content: Result<Vec<u8>, String>) -> (r: Result<Message, CommandError>)
        ensures
            match r {
                Ok(message) => converted(self@, read_view(content)) == Ok::<
                    MessageView,
                    CommandErrorView,
                >(message@),
                Err(e) => converted(self@, read_view(content)) == Err::<
                    MessageView,
                    CommandErrorView,
                >(e@),
            },
    {
        match self {
            Command::Text(text) => Ok(Message::Text(text)),
            Command::File(path) => match file_data(path.as_str(), content) {
                Ok((name, bytes)) => Ok(Message::File(name, bytes)),
                Err(e) => Err(e),
            },
            Command::Image(path) => match file_data(path.as_str(), content) {
                Ok((_, bytes)) => Ok(Message::Image(bytes)),
                Err(e) => Err(e),
            },
            Command::Quit => Err(CommandError::QuitNotSendable),
        }
    }
}

} // verus!
