//! The decisions of the interactive client.
//!
//! The client is a handful of units that pass values along queues: one reads
//! the user's lines, one reads the network, one routes, one downloads, one
//! writes. What each unit decides is a function here; running the units and
//! touching the terminal, the socket and the disk is left to the program.

use crate::command::{
    converted, read_view, Command, CommandError, CommandErrorView, CommandView, parsed,
};
use crate::frame::frame_of;
use crate::message::{ChatLibError, Message, MessageView};
use crate::text::{chars_of, views_of};
use std::collections::VecDeque;
use vstd::prelude::*;

verus! {

/// Something for the client to act on: a command that the user typed or a
/// message that arrived.
#[derive(Debug, PartialEq, Eq)]
pub enum Event {
    Command(Command),
    Message(Message),
}

/// An event as a mathematical value.
pub enum EventView {
    Command(CommandView),
    Message(MessageView),
}

impl View for Event {
    type V = EventView;

    open spec fn view(&self) -> EventView {
        match self {
            Event::Command(command) => EventView::Command(command@),
            Event::Message(message) => EventView::Message(message@),
        }
    }
}

/// Whether a line goes on in the next one: it ends in a backslash.
pub open spec fn is_continued(line: Seq<char>) -> bool {
    line.len() > 0 && line.last() == '\\'
}

/// Joins the lines of the input into logical lines.
///
/// A line that ends in a backslash goes on in the next one: the backslash
/// gives way to a line break and the next line follows. The joiner holds
/// what it has of a logical line that is not complete yet.
#[derive(Debug, PartialEq, Eq)]
pub struct LineIterator {
    pending: String,
}

impl View for LineIterator {
    type V = Seq<char>;

    /// The part of the current logical line that has been fed so far.
    closed spec fn view(&self) -> Seq<char> {
        self.pending@
    }
}

impl LineIterator {
    /// A joiner at the start of a logical line.
    pub fn new() -> (r: Self)
        ensures
            r@ == Seq::<char>::empty(),
    {
        LineIterator { pending: String::new() }
    }

    /// Takes the next line of the input and gives the logical line that it
    /// completes, if it completes one.
    pub fn feed(&mut self, line: &str) -> (r: Option<String>)
        ensures
            match r {
                Some(logical) => !is_continued(line@) && logical@ == old(self)@ + line@
                    && final(self)@ == Seq::<char>::empty(),
                None => is_continued(line@) && final(self)@ == old(self)@ + line@.drop_last()
                    + seq!['\n'],
            },
    {
        let chars = chars_of(line);
        let n: usize = chars.len();
        if n > 0 && chars[n - 1] == '\\' {
            self.pending.append(line.substring_char(0, n - 1));
            self.pending.append("\n");
            proof {
                reveal_strlit("\n");
                assert("\n"@ =~= seq!['\n']);
                assert(line@.subrange(0, n - 1) =~= line@.drop_last());
            }
            None
        } else {
            let mut logical = String::new();
            core::mem::swap(&mut self.pending, &mut logical);
            logical.append(line);
            assert(Seq::<char>::empty() + old(self)@ =~= old(self)@);
            Some(logical)
        }
    }

    /// Takes what reading the next line of the input gave and gives what the
    /// reader of logical lines gets for it, if anything yet.
    ///
    /// A line that was read is fed: it completes a logical line or is held
    /// for the next. A line that could not be read is handed on as the error
    /// it is, and what was held of a logical line is forgotten.
    pub fn next(&mut self, raw_line: Result<String, String>) -> (r: Option<Result<String, String>>)
        ensures
            match raw_line {
                Ok(line) => if is_continued(line@) {
                    r is None && final(self)@ == old(self)@ + line@.drop_last() + seq!['\n']
                } else {
                    r matches Some(Ok(logical)) && logical@ == old(self)@ + line@ && final(self)@
                        == Seq::<char>::empty()
                },
                Err(reason) => r matches Some(Err(passed)) && passed@ == reason@ && final(self)@
                    == Seq::<char>::empty(),
            },
    {
        match raw_line {
            Ok(line) => match self.feed(line.as_str()) {
                Some(logical) => Some(Ok(logical)),
                None => None,
            },
            Err(reason) => {
                self.interrupt();
                Some(Err(reason))
            },
        }
    }

    /// Forgets the logical line that is not complete: the input ended or
    /// failed in the middle of it.
    pub fn interrupt(&mut self)
        ensures
            final(self)@ == Seq::<char>::empty(),
    {
        self.pending = String::new();
    }
}

/// The logical lines that the lines of `lines` make up. A last logical line
/// that is not complete is left out.
pub open spec fn logical_lines(lines: Seq<Seq<char>>) -> Seq<Seq<char>> {
    joined_from(lines, Seq::empty())
}

/// The logical lines that the lines of `lines` make up after `pending`, the
/// part of a logical line that came before them.
pub open spec fn joined_from(lines: Seq<Seq<char>>, pending: Seq<char>) -> Seq<Seq<char>>
    decreases lines.len(),
{
    if lines.len() == 0 {
        Seq::empty()
    } else if is_continued(lines.first()) {
        joined_from(lines.drop_first(), pending + lines.first().drop_last() + seq!['\n'])
    } else {
        seq![pending + lines.first()] + joined_from(lines.drop_first(), Seq::empty())
    }
}

/// The logical lines that the lines of `lines` make up.
pub fn join_lines(lines: &Vec<String>) -> (r: Vec<String>)
    ensures
        views_of(r@) == logical_lines(views_of(lines@)),
{
    let mut joiner = LineIterator::new();
    let mut out: Vec<String> = Vec::new();
    let mut i: usize = 0;
    let ghost all = views_of(lines@);
    assert(all.subrange(0, all.len() as int) =~= all);
    assert(views_of(out@) =~= Seq::<Seq<char>>::empty());
    while i < lines.len()
        invariant
            i <= lines@.len(),
            all == views_of(lines@),
            logical_lines(all) == views_of(out@) + joined_from(
                all.subrange(i as int, all.len() as int),
                joiner@,
            ),
        decreases lines@.len() - i,
    {
        let ghost rest = all.subrange(i as int, all.len() as int);
        let ghost before = views_of(out@);
        proof {
            assert(rest.first() == lines@[i as int]@);
            assert(rest.drop_first() =~= all.subrange(i + 1, all.len() as int));
        }
        match joiner.feed(lines[i].as_str()) {
            Some(logical) => {
                out.push(logical);
                proof {
                    assert(views_of(out@) =~= before + seq![logical@]);
                    let tail = joined_from(rest.drop_first(), Seq::empty());
                    assert(before + (seq![logical@] + tail) =~= (before + seq![logical@]) + tail);
                }
            },
            None => {},
        }
        i += 1;
    }
    assert(views_of(out@) + Seq::<Seq<char>>::empty() =~= views_of(out@));
    out
}

/// The command that a line of the input stands for, or the reason why the
/// line could not be read.
pub fn get_command(raw_line: Result<String, String>) -> (r: Result<Command, String>)
    ensures
        match raw_line {
            Ok(line) => r is Ok && r->Ok_0@ == parsed(line@),
            Err(reason) => r is Err && r->Err_0@ == reason@,
        },
{
    match raw_line {
        Ok(line) => match Command::try_from(line.as_str()) {
            Ok(command) => Ok(command),
            Err(e) => Err(e.to_string()),
        },
        Err(reason) => Err(reason),
    }
}

/// What the unit that reads the user's lines does with one line.
#[derive(Debug, PartialEq, Eq)]
pub enum ReaderStep {
    /// Pass the event on and read the next line.
    Forward(Event),
    /// Pass the event on and stop reading.
    Last(Event),
    /// Tell the user why the line could not be read, and read the next.
    Report(String),
}

/// What the unit that reads the user's lines does with a line, given the
/// command that the line stands for or the reason why it could not be read.
///
/// A command is passed on; the command to leave is the last one passed on. A
/// line that could not be read goes to the user as an error, past the unit
/// that routes.
pub fn reader_step(command: Result<Command, String>) -> (r: ReaderStep)
    ensures
        match command {
            Ok(c) => if c@ is Quit {
                r matches ReaderStep::Last(e) && e@ == EventView::Command(c@)
            } else {
                r matches ReaderStep::Forward(e) && e@ == EventView::Command(c@)
            },
            Err(reason) => r matches ReaderStep::Report(text) && text@ == reason@,
        },
{
    match command {
        Ok(Command::Quit) => ReaderStep::Last(Event::Command(Command::Quit)),
        Ok(c) => ReaderStep::Forward(Event::Command(c)),
        Err(reason) => ReaderStep::Report(reason),
    }
}

/// What the unit that reads the network does with the outcome of reading
/// one frame: the event to pass on, or nothing where the frame could not be
/// read. The client does not connect anew, so nothing means that it ends.
pub fn network_step(read: Result<Message, ChatLibError>) -> (r: Option<Event>)
    ensures
        match read {
            Ok(message) => r is Some && r->0@ == EventView::Message(message@),
            Err(_) => r is None,
        },
{
    match read {
        Ok(message) => Some(Event::Message(message)),
        Err(_) => None,
    }
}

/// Where the unit that routes sends an event.
#[derive(Debug, PartialEq, Eq)]
pub enum Routed {
    /// Show this line to the user.
    Display(String),
    /// Hand the message to the unit that downloads.
    Download(Message),
    /// Send the command over the network.
    Send(Command),
    /// Stop routing.
    Stop,
}

/// The line that shows a text message to the user.
pub open spec fn shown(text: Seq<char>) -> Seq<char> {
    "> "@ + text
}

/// Where an event goes: a text that arrived is shown, any other message
/// that arrived is downloaded, the command to leave stops the routing, and
/// any other command is sent.
pub fn route(event: Event) -> (r: Routed)
    ensures
        match event@ {
            EventView::Message(MessageView::Text(text)) => r matches Routed::Display(line)
                && line@ == shown(text),
            EventView::Message(m) => r matches Routed::Download(message) && message@ == m,
            EventView::Command(CommandView::Quit) => r is Stop,
            EventView::Command(c) => r matches Routed::Send(command) && command@ == c,
        },
{
    match event {
        Event::Message(Message::Text(text)) => Routed::Display(
            String::from_str("> ").concat(text.as_str()),
        ),
        Event::Message(message) => Routed::Download(message),
        Event::Command(Command::Quit) => Routed::Stop,
        Event::Command(command) => Routed::Send(command),
    }
}

/// What sending a command comes to, given what reading the command's file
/// gave: the bytes that go out, or the sentence that says why none do.
pub open spec fn sent(command: CommandView, content: Result<Seq<u8>, Seq<char>>) -> Result<
    Seq<u8>,
    Seq<char>,
> {
    match converted(command, content) {
        Ok(m) => if m.representable() {
            Ok(frame_of(m.encoding()))
        } else {
            Err(ChatLibError::ComposeError.text())
        },
        Err(e) => Err(e.text()),
    }
}

/// Makes the message of a command, given what reading the command's file
/// gave, and writes its frame to the back of `stream`. Where that fails,
/// nothing is written and the sentence that says why is handed back.
pub fn send_message(
    command: Command,
    content: Result<Vec<u8>, String>,
    stream: &mut VecDeque<u8>,
) -> (r: Result<(), String>)
    ensures
        match sent(command@, read_view(content)) {
            Ok(bytes) => r is Ok && final(stream)@ == old(stream)@ + bytes,
            Err(reason) => r is Err && r->Err_0@ == reason && final(stream)@ == old(stream)@,
        },
{
    match command.try_into(content) {
        Ok(message) => match message.write_to_stream(stream) {
            Ok(_) => Ok(()),
            Err(e) => Err(e.to_string()),
        },
        Err(e) => Err(e.to_string()),
    }
}

/// One of the two places to which the client writes for the user.
#[derive(Debug, Clone, Copy, PartialEq, Eq, Structural)]
pub enum Sink {
    /// Where what went well is written.
    Output,
    /// Where what went wrong is written.
    Error,
}

/// The characters that are written for an outcome: what went well as it
/// stands, what went wrong in red; a line break ends either.
pub open spec fn rendered(item: Result<Seq<char>, Seq<char>>) -> Seq<char> {
    match item {
        Ok(out) => out + "\n"@,
        Err(out) => "\x1b[0;31m"@ + out + "\x1b[0m"@ + "\n"@,
    }
}

/// What the unit that writes does with an outcome: the place to write to,
/// and the characters to write there before flushing.
pub fn render(item: Result<String, String>) -> (r: (Sink, String))
    ensures
        match item {
            Ok(out) => r.0 == Sink::Output && r.1@ == rendered(Ok(out@)),
            Err(out) => r.0 == Sink::Error && r.1@ == rendered(Err(out@)),
        },
{
    match item {
        Ok(out) => (Sink::Output, out.concat("\n")),
        Err(out) => (
            Sink::Error,
            String::from_str("\x1b[0;31m").concat(out.as_str()).concat("\x1b[0m").concat("\n"),
        ),
    }
}

/// A file for the client to store, and what to tell the user once it is
/// stored.
#[derive(Debug, PartialEq, Eq)]
pub struct Download {
    /// The directory to store the file in, below the working directory.
    pub directory: String,
    /// The name of the file in that directory.
    pub file_name: String,
    /// What the file holds.
    pub content: Vec<u8>,
    /// The line that tells the user of the stored file.
    pub report: String,
}

/// A download as a mathematical value.
pub struct DownloadView {
    pub directory: Seq<char>,
    pub file_name: Seq<char>,
    pub content: Seq<u8>,
    pub report: Seq<char>,
}

impl View for Download {
    type V = DownloadView;

    open spec fn view(&self) -> DownloadView {
        DownloadView {
            directory: self.directory@,
            file_name: self.file_name@,
            content: self.content@,
            report: self.report@,
        }
    }
}

/// The PNG file that shows the picture of the image file `image`, or the
/// reason why `image` is no picture that could be read.
pub uninterp spec fn png_of(image: Seq<u8>) -> Result<Seq<u8>, Seq<char>>;

/// Reads an image with the `image` crate and writes it anew as a PNG file:
/// `Reader::new` on the bytes, `with_guessed_format` to tell the format from
/// what the bytes begin with, `decode`, and `write_to` with the PNG format.
/// The outcome depends on the bytes alone and is what `png_of` names; an
/// error of any of the steps comes back as the text it prints as.
#[verifier::external_body]
fn convert(orig_buf: Vec<u8>) -> (r: Result<Vec<u8>, String>)
    ensures
        read_view(r) == png_of(orig_buf@),
{
    let mut output_buf: Vec<u8> = Vec::new();
    let reader = image::io::Reader::new(std::io::Cursor::new(orig_buf));
    let guessed = reader.with_guessed_format().map_err(|e| e.to_string())?;
    let img = guessed.decode().map_err(|e| e.to_string())?;
    let mut sink = std::io::Cursor::new(&mut output_buf);
    img.write_to(&mut sink, image::ImageOutputFormat::Png).map_err(|e| e.to_string())?;
    Ok(output_buf)
}

/// `chrono::offset::Local::now` printed with `to_string`: the moment of the
/// call in local time. Nothing is promised of the text.
#[verifier::external_body]
fn local_now() -> String {
    chrono::offset::Local::now().to_string()
}

/// What the client tells the user before it stores a message: the name of a
/// file, or that an image came. A text is not stored and not announced.
pub open spec fn announced(message: MessageView) -> Option<Seq<char>> {
    match message {
        MessageView::File(name, _) => Some("downloading "@ + name),
        MessageView::Image(_) => Some("downloading an image"@),
        MessageView::Text(_) => None,
    }
}

/// What the client tells the user before it stores `message`.
pub fn announcement(message: &Message) -> (r: Option<String>)
    ensures
        match r {
            Some(line) => announced(message@) == Some(line@),
            None => announced(message@) is None,
        },
{
    match message {
        Message::File(name, _) => Some(String::from_str("downloading ").concat(name.as_str())),
        Message::Image(_) => Some(String::from_str("downloading an image")),
        Message::Text(_) => None,
    }
}

/// How a file that arrived is stored: under its own name in `files`.
pub open spec fn file_download(name: Seq<char>, content: Seq<u8>) -> DownloadView {
    DownloadView {
        directory: "files"@,
        file_name: name,
        content,
        report: "> "@ + name + " downloaded"@,
    }
}

/// How an image that arrived is stored: as a PNG file in `images`, named
/// after the moment `timestamp` at which it is stored.
pub open spec fn image_download(png: Seq<u8>, timestamp: Seq<char>) -> DownloadView {
    DownloadView {
        directory: "images"@,
        file_name: timestamp + ".png"@,
        content: png,
        report: "image downloaded as "@ + (timestamp + ".png"@),
    }
}

/// How a message that arrived is stored, given what the conversion of its
/// content to PNG gave and the moment at which it is stored. Only an image
/// looks at the conversion and the moment. A text cannot be stored.
pub open spec fn download_of(
    message: MessageView,
    png: Result<Seq<u8>, Seq<char>>,
    timestamp: Seq<char>,
) -> Result<DownloadView, Seq<char>> {
    match message {
        MessageView::File(name, content) => Ok(file_download(name, content)),
        MessageView::Image(_) => match png {
            Ok(bytes) => Ok(image_download(bytes, timestamp)),
            Err(reason) => Err(reason),
        },
        MessageView::Text(_) => Err("cannot download"@),
    }
}

/// What the conversion to PNG gives for the content of a message: that of
/// an image's content, and for any other message an empty file that nobody
/// looks at.
pub open spec fn conversion_of(message: MessageView) -> Result<Seq<u8>, Seq<char>> {
    match message {
        MessageView::Image(content) => png_of(content),
        _ => Ok(Seq::empty()),
    }
}

/// Whether `r` is the outcome `expected` of planning a download.
pub open spec fn is_download(
    r: Result<Download, String>,
    expected: Result<DownloadView, Seq<char>>,
) -> bool {
    match r {
        Ok(download) => expected == Ok::<DownloadView, Seq<char>>(download@),
        Err(reason) => expected == Err::<DownloadView, Seq<char>>(reason@),
    }
}

/// How `message` is stored, given what the conversion of its content to PNG
/// gave and the moment at which it is stored.
pub fn plan_download(message: Message, png: Result<Vec<u8>, String>, timestamp: &str) -> (r:
    Result<Download, String>)
    ensures
        is_download(r, download_of(message@, read_view(png), timestamp@)),
{
    match message {
        Message::File(name, content) => {
            let report = String::from_str("> ").concat(name.as_str()).concat(" downloaded");
            Ok(Download { directory: String::from_str("files"), file_name: name, content, report })
        },
        Message::Image(_) => match png {
            Ok(bytes) => {
                let file_name = String::from_str(timestamp).concat(".png");
                let report = String::from_str("image downloaded as ").concat(file_name.as_str());
                Ok(
                    Download {
                        directory: String::from_str("images"),
                        file_name,
                        content: bytes,
                        report,
                    },
                )
            },
            Err(reason) => Err(reason),
        },
        Message::Text(_) => Err(String::from_str("cannot download")),
    }
}

/// How `message` is stored at the moment `timestamp`: a file as it came, an
/// image converted to PNG.
pub fn download_at(message: Message, timestamp: &str) -> (r: Result<Download, String>)
    ensures
        is_download(r, download_of(message@, conversion_of(message@), timestamp@)),
{
    match message {
        Message::Image(content) => {
            let png = convert(content);
            plan_download(Message::Image(Vec::new()), png, timestamp)
        },
        other => plan_download(other, Ok(Vec::new()), timestamp),
    }
}

/// How `message` is stored now: as `download_at` says for the moment of the
/// call, whatever the clock gave for it.
pub fn download(message: Message) -> (r: Result<Download, String>)
    ensures
        exists|timestamp: Seq<char>|
            is_download(r, #[trigger] download_of(message@, conversion_of(message@), timestamp)),
{
    let timestamp = local_now();
    download_at(message, timestamp.as_str())
}

} // verus!
