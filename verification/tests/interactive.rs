use chat::command::Command;
use chat::interactive::{
    announcement, download, download_at, get_command, join_lines, network_step, plan_download,
    reader_step, render, route, send_message, Download, Event, LineIterator, ReaderStep, Routed,
    Sink,
};
use chat::message::{ChatLibError, Message};
use std::collections::VecDeque;

fn lines(items: &[&str]) -> Vec<String> {
    items.iter().map(|s| s.to_string()).collect()
}

fn red_pixel_bmp() -> Vec<u8> {
    let mut bytes = vec![b'B', b'M', 58, 0, 0, 0, 0, 0, 0, 0, 54, 0, 0, 0];
    bytes.extend_from_slice(&[40, 0, 0, 0, 1, 0, 0, 0, 1, 0, 0, 0, 1, 0, 24, 0]);
    bytes.extend_from_slice(&[0, 0, 0, 0, 4, 0, 0, 0, 0x13, 0x0B, 0, 0, 0x13, 0x0B, 0, 0]);
    bytes.extend_from_slice(&[0, 0, 0, 0, 0, 0, 0, 0]);
    bytes.extend_from_slice(&[0, 0, 255, 0]);
    bytes
}

const PNG_SIGNATURE: [u8; 8] = [0x89, b'P', b'N', b'G', 0x0D, 0x0A, 0x1A, 0x0A];

#[test]
fn plain_line_is_a_logical_line() {
    let mut joiner = LineIterator::new();
    assert_eq!(joiner.feed("hello"), Some("hello".to_string()));
    assert_eq!(joiner.feed(""), Some(String::new()));
}

#[test]
fn backslash_joins_the_next_line() {
    let mut joiner = LineIterator::new();
    assert_eq!(joiner.feed("first\\"), None);
    assert_eq!(joiner.feed("second\\"), None);
    assert_eq!(joiner.feed("third"), Some("first\nsecond\nthird".to_string()));
    assert_eq!(joiner.feed("alone"), Some("alone".to_string()));
}

#[test]
fn only_the_last_backslash_is_a_marker() {
    let mut joiner = LineIterator::new();
    assert_eq!(joiner.feed("a\\\\"), None);
    assert_eq!(joiner.feed("\\"), None);
    assert_eq!(joiner.feed("b\\c"), Some("a\\\n\nb\\c".to_string()));
}

#[test]
fn interrupted_line_is_forgotten() {
    let mut joiner = LineIterator::new();
    assert_eq!(joiner.feed("lost\\"), None);
    joiner.interrupt();
    assert_eq!(joiner.feed("kept"), Some("kept".to_string()));
}

#[test]
fn lines_are_joined_into_logical_lines() {
    assert_eq!(join_lines(&lines(&["a\\", "b", "c"])), lines(&["a\nb", "c"]));
    assert_eq!(join_lines(&lines(&[])), lines(&[]));
    assert_eq!(join_lines(&lines(&["x", "y"])), lines(&["x", "y"]));
    assert_eq!(join_lines(&lines(&[".file \\", "a.txt"])), lines(&[".file \na.txt"]));
}

#[test]
fn unfinished_last_line_is_left_out() {
    assert_eq!(join_lines(&lines(&["a", "b\\"])), lines(&["a"]));
    assert_eq!(join_lines(&lines(&["b\\", "c\\"])), lines(&[]));
}

#[test]
fn line_that_was_read_is_parsed() {
    assert_eq!(get_command(Ok(".quit".to_string())), Ok(Command::Quit));
    assert_eq!(get_command(Ok("hi".to_string())), Ok(Command::Text("hi".to_string())));
    assert_eq!(
        get_command(Ok(".file  x.txt".to_string())),
        Ok(Command::File("x.txt".to_string()))
    );
}

#[test]
fn line_that_was_not_read_is_an_error() {
    assert_eq!(
        get_command(Err("stream did not contain valid UTF-8".to_string())),
        Err("stream did not contain valid UTF-8".to_string())
    );
}

#[test]
fn reader_passes_commands_on_and_stops_at_quit() {
    assert_eq!(
        reader_step(Ok(Command::Text("a".to_string()))),
        ReaderStep::Forward(Event::Command(Command::Text("a".to_string())))
    );
    assert_eq!(
        reader_step(Ok(Command::Image("i.png".to_string()))),
        ReaderStep::Forward(Event::Command(Command::Image("i.png".to_string())))
    );
    assert_eq!(reader_step(Ok(Command::Quit)), ReaderStep::Last(Event::Command(Command::Quit)));
    assert_eq!(reader_step(Err("bad".to_string())), ReaderStep::Report("bad".to_string()));
}

#[test]
fn text_that_arrived_is_shown() {
    assert_eq!(
        route(Event::Message(Message::Text("hello".to_string()))),
        Routed::Display("> hello".to_string())
    );
}

#[test]
fn files_and_images_that_arrived_are_downloaded() {
    let file = Message::File("f".to_string(), vec![1]);
    assert_eq!(route(Event::Message(file.clone())), Routed::Download(file));
    let image = Message::Image(vec![2]);
    assert_eq!(route(Event::Message(image.clone())), Routed::Download(image));
}

#[test]
fn commands_are_sent_and_quit_stops() {
    assert_eq!(route(Event::Command(Command::Quit)), Routed::Stop);
    assert_eq!(
        route(Event::Command(Command::Text("t".to_string()))),
        Routed::Send(Command::Text("t".to_string()))
    );
    assert_eq!(
        route(Event::Command(Command::File("p".to_string()))),
        Routed::Send(Command::File("p".to_string()))
    );
}

#[test]
fn sent_text_is_one_frame() {
    let mut stream = VecDeque::new();
    assert_eq!(send_message(Command::Text("hello".to_string()), Ok(Vec::new()), &mut stream), Ok(()));
    assert_eq!(Message::read_from_stream(&mut stream), Ok(Message::Text("hello".to_string())));
    assert!(stream.is_empty());
}

#[test]
fn sent_file_carries_name_and_content() {
    let mut stream = VecDeque::new();
    let command = Command::File("docs/report.txt".to_string());
    assert_eq!(send_message(command, Ok(vec![1, 2, 3]), &mut stream), Ok(()));
    assert_eq!(
        Message::read_from_stream(&mut stream),
        Ok(Message::File("report.txt".to_string(), vec![1, 2, 3]))
    );
}

#[test]
fn missing_file_sends_nothing() {
    let mut stream: VecDeque<u8> = VecDeque::from(vec![1, 2]);
    let command = Command::try_from(".file ./missing.txt").unwrap();
    let outcome = send_message(command, Err("No such file or directory".to_string()), &mut stream);
    assert_eq!(outcome, Err("No such file or directory".to_string()));
    assert_eq!(stream, VecDeque::from(vec![1, 2]));
}

#[test]
fn quit_sends_nothing() {
    let mut stream = VecDeque::new();
    assert_eq!(
        send_message(Command::Quit, Ok(Vec::new()), &mut stream),
        Err("Quit is not sendable command".to_string())
    );
    assert!(stream.is_empty());
}

#[test]
fn success_is_written_plain_and_failure_in_red() {
    assert_eq!(render(Ok("> hello".to_string())), (Sink::Output, "> hello\n".to_string()));
    assert_eq!(
        render(Err("weird path".to_string())),
        (Sink::Error, "\u{1b}[0;31mweird path\u{1b}[0m\n".to_string())
    );
    assert_eq!(render(Ok(String::new())), (Sink::Output, "\n".to_string()));
}

#[test]
fn downloads_are_announced() {
    assert_eq!(
        announcement(&Message::File("a.txt".to_string(), vec![])),
        Some("downloading a.txt".to_string())
    );
    assert_eq!(announcement(&Message::Image(vec![])), Some("downloading an image".to_string()));
    assert_eq!(announcement(&Message::Text("t".to_string())), None);
}

#[test]
fn file_is_stored_under_its_name() {
    let plan = download_at(Message::File("a.txt".to_string(), vec![1, 2]), "now").unwrap();
    assert_eq!(
        plan,
        Download {
            directory: "files".to_string(),
            file_name: "a.txt".to_string(),
            content: vec![1, 2],
            report: "> a.txt downloaded".to_string(),
        }
    );
}

#[test]
fn text_cannot_be_downloaded() {
    assert_eq!(
        download_at(Message::Text("t".to_string()), "now"),
        Err("cannot download".to_string())
    );
    assert_eq!(download(Message::Text("t".to_string())), Err("cannot download".to_string()));
}

#[test]
fn converted_image_is_stored_under_the_timestamp() {
    let plan = plan_download(Message::Image(vec![9]), Ok(vec![1, 2, 3]), "2024-05-06 07:08:09");
    assert_eq!(
        plan,
        Ok(Download {
            directory: "images".to_string(),
            file_name: "2024-05-06 07:08:09.png".to_string(),
            content: vec![1, 2, 3],
            report: "image downloaded as 2024-05-06 07:08:09.png".to_string(),
        })
    );
}

#[test]
fn failed_conversion_is_reported() {
    assert_eq!(
        plan_download(Message::Image(vec![9]), Err("no picture".to_string()), "t"),
        Err("no picture".to_string())
    );
    assert_eq!(
        plan_download(Message::Text("x".to_string()), Ok(vec![]), "t"),
        Err("cannot download".to_string())
    );
    assert_eq!(
        plan_download(Message::File("n".to_string(), vec![5]), Err("unused".to_string()), "t"),
        Ok(Download {
            directory: "files".to_string(),
            file_name: "n".to_string(),
            content: vec![5],
            report: "> n downloaded".to_string(),
        })
    );
}

#[test]
fn image_is_converted_to_png() {
    let plan = download_at(Message::Image(red_pixel_bmp()), "stamp").unwrap();
    assert_eq!(plan.directory, "images");
    assert_eq!(plan.file_name, "stamp.png");
    assert_eq!(plan.report, "image downloaded as stamp.png");
    assert_eq!(plan.content[0..8], PNG_SIGNATURE);
    assert_ne!(plan.content, red_pixel_bmp());
    let decoded = image::load_from_memory(&plan.content).unwrap().to_rgb8();
    assert_eq!(decoded.dimensions(), (1, 1));
    assert_eq!(decoded.get_pixel(0, 0).0, [255, 0, 0]);
}

#[test]
fn bytes_that_are_no_image_are_reported() {
    let outcome = download_at(Message::Image(vec![1, 2, 3, 4]), "stamp");
    assert!(matches!(outcome, Err(reason) if !reason.is_empty()));
    let truncated = download_at(Message::Image(red_pixel_bmp()[0..30].to_vec()), "stamp");
    assert!(matches!(truncated, Err(reason) if !reason.is_empty()));
}

#[test]
fn image_downloaded_now_is_named_after_the_clock() {
    let plan = download(Message::Image(red_pixel_bmp())).unwrap();
    assert_eq!(plan.directory, "images");
    assert!(plan.file_name.ends_with(".png"));
    assert!(plan.file_name.len() > ".png".len());
    assert_eq!(plan.report, format!("image downloaded as {}", plan.file_name));
    assert_eq!(plan.content[0..8], PNG_SIGNATURE);
}

#[test]
fn network_passes_messages_on_and_ends_on_failure() {
    assert_eq!(
        network_step(Ok(Message::Image(vec![1]))),
        Some(Event::Message(Message::Image(vec![1])))
    );
    assert_eq!(network_step(Err(ChatLibError::ReadError)), None);
    assert_eq!(network_step(Err(ChatLibError::ComposeError)), None);
}

#[test]
fn reader_of_logical_lines_gets_lines_and_errors() {
    let mut joiner = LineIterator::new();
    assert_eq!(joiner.next(Ok("a\\".to_string())), None);
    assert_eq!(joiner.next(Ok("b".to_string())), Some(Ok("a\nb".to_string())));
    assert_eq!(joiner.next(Ok("held\\".to_string())), None);
    assert_eq!(joiner.next(Err("broken".to_string())), Some(Err("broken".to_string())));
    assert_eq!(joiner.next(Ok("fresh".to_string())), Some(Ok("fresh".to_string())));
}
