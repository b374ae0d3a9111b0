use chat::command::Command;
use chat::interactive::{
    announcement, download_at, get_command, reader_step, render, route, send_message, Event,
    ReaderStep, Routed, Sink,
};
use chat::message::Message;
use chat::server::{after_read, Event as ServerEvent, PeerAddr, Registry, StoredData};
use std::collections::VecDeque;

fn address(port: u16) -> PeerAddr {
    PeerAddr::V4 { ip: 0x7F00_0001, port }
}

/// A server with the clients of the given ports; each client's handle is its
/// port.
fn server_with(ports: &[u16]) -> Registry<u16> {
    let mut registry = Registry::new();
    for port in ports {
        registry.dispatch(StoredData {
            address: address(*port),
            stream: *port,
            event: ServerEvent::Connected,
        });
    }
    registry
}

/// Runs what a client wrote through the server and gives what the server
/// writes to each client, by port.
fn relay(registry: &mut Registry<u16>, from: u16, wire: &mut VecDeque<u8>) -> Vec<(u16, VecDeque<u8>)> {
    let mut written: Vec<(u16, VecDeque<u8>)> = Vec::new();
    loop {
        let (event, done) = after_read(Message::read_from_stream(wire));
        let jobs =
            registry.dispatch(StoredData { address: address(from), stream: from, event });
        for job in jobs {
            if !written.iter().any(|(port, _)| *port == job.stream) {
                written.push((job.stream, VecDeque::new()));
            }
            let place = written.iter_mut().find(|(port, _)| *port == job.stream).unwrap();
            job.message.write_to_stream(&mut place.1).unwrap();
        }
        if done {
            return written;
        }
    }
}

/// What a client that typed `line` puts on the wire, or the line that its
/// error sink receives.
fn typed(line: &str, file: Result<Vec<u8>, String>) -> Result<VecDeque<u8>, String> {
    let event = match reader_step(get_command(Ok(line.to_string()))) {
        ReaderStep::Forward(event) => event,
        ReaderStep::Last(event) => event,
        ReaderStep::Report(reason) => return Err(render(Err(reason)).1),
    };
    match route(event) {
        Routed::Send(command) => {
            let mut wire = VecDeque::new();
            match send_message(command, file, &mut wire) {
                Ok(()) => Ok(wire),
                Err(reason) => {
                    assert!(wire.is_empty());
                    let (sink, text) = render(Err(reason));
                    assert_eq!(sink, Sink::Error);
                    Err(text)
                }
            }
        }
        other => panic!("not sent: {:?}", other),
    }
}

#[test]
fn text_from_one_client_is_shown_to_the_others() {
    let mut registry = server_with(&[1, 2, 3]);
    let mut wire = typed("hello", Ok(Vec::new())).unwrap();
    let written = relay(&mut registry, 1, &mut wire);
    let ports: Vec<u16> = written.iter().map(|(port, _)| *port).collect();
    assert_eq!(ports, vec![2, 3]);
    for (_, mut incoming) in written {
        let message = Message::read_from_stream(&mut incoming).unwrap();
        assert!(incoming.is_empty());
        match route(Event::Message(message)) {
            Routed::Display(line) => {
                assert_eq!(render(Ok(line)), (Sink::Output, "> hello\n".to_string()));
            }
            other => panic!("not shown: {:?}", other),
        }
    }
}

#[test]
fn sender_gets_no_copy_of_its_own_text() {
    let mut registry = server_with(&[1, 2, 3]);
    let mut wire = typed("hello", Ok(Vec::new())).unwrap();
    let written = relay(&mut registry, 1, &mut wire);
    assert!(written.iter().all(|(port, _)| *port != 1));
    assert_eq!(written.len(), 2);
    assert!(!registry.contains(address(1)));
}

#[test]
fn missing_file_reaches_the_error_sink_and_not_the_wire() {
    let outcome = typed(".file ./missing.txt", Err("No such file or directory (os error 2)".to_string()));
    let line = outcome.unwrap_err();
    assert_eq!(line, "\u{1b}[0;31mNo such file or directory (os error 2)\u{1b}[0m\n");
    assert!(line.trim().len() > 0);
}

#[test]
fn image_from_one_client_is_stored_as_png_by_the_other() {
    let mut bmp = vec![b'B', b'M', 58, 0, 0, 0, 0, 0, 0, 0, 54, 0, 0, 0];
    bmp.extend_from_slice(&[40, 0, 0, 0, 1, 0, 0, 0, 1, 0, 0, 0, 1, 0, 24, 0]);
    bmp.extend_from_slice(&[0, 0, 0, 0, 4, 0, 0, 0, 0x13, 0x0B, 0, 0, 0x13, 0x0B, 0, 0]);
    bmp.extend_from_slice(&[0, 0, 0, 0, 0, 0, 0, 0, 0, 255, 0, 0]);
    let mut registry = server_with(&[1, 2]);
    let mut wire = typed(".image ./pic.bmp", Ok(bmp)).unwrap();
    let mut written = relay(&mut registry, 1, &mut wire);
    assert_eq!(written.len(), 1);
    let (port, mut incoming) = written.pop().unwrap();
    assert_eq!(port, 2);
    let message = Message::read_from_stream(&mut incoming).unwrap();
    let message = match route(Event::Message(message)) {
        Routed::Download(message) => message,
        other => panic!("not downloaded: {:?}", other),
    };
    assert_eq!(
        render(Ok(announcement(&message).unwrap())),
        (Sink::Output, "downloading an image\n".to_string())
    );
    let plan = download_at(message, "2024-01-02 03:04:05 +00:00").unwrap();
    assert_eq!(plan.directory, "images");
    assert!(plan.file_name.ends_with(".png"));
    assert_eq!(plan.content[0..4], [0x89, b'P', b'N', b'G']);
    let (sink, line) = render(Ok(plan.report));
    assert_eq!(sink, Sink::Output);
    assert!(line.contains("downloaded"));
}

#[test]
fn file_from_one_client_is_stored_by_the_other() {
    let mut registry = server_with(&[1, 2]);
    let mut wire = typed(".file docs/notes.txt", Ok(b"to do".to_vec())).unwrap();
    let mut written = relay(&mut registry, 2, &mut wire);
    let (port, mut incoming) = written.pop().unwrap();
    assert_eq!(port, 1);
    let message = Message::read_from_stream(&mut incoming).unwrap();
    assert_eq!(announcement(&message), Some("downloading notes.txt".to_string()));
    let plan = download_at(message, "unused").unwrap();
    assert_eq!((plan.directory.as_str(), plan.file_name.as_str()), ("files", "notes.txt"));
    assert_eq!(plan.content, b"to do".to_vec());
    assert_eq!(plan.report, "> notes.txt downloaded");
}

#[test]
fn client_that_stops_in_a_frame_is_forgotten() {
    let mut registry = server_with(&[1, 2]);
    let mut wire = typed("whole", Ok(Vec::new())).unwrap();
    wire.extend([0u8, 0, 0, 9, 1, 2]);
    let written = relay(&mut registry, 2, &mut wire);
    assert_eq!(written.len(), 1);
    assert!(!registry.contains(address(2)));
    assert!(registry.contains(address(1)));
    let mut next = typed("anyone?", Ok(Vec::new())).unwrap();
    let later = relay(&mut registry, 1, &mut next);
    assert!(later.is_empty());
}

#[test]
fn quit_stops_reader_and_router() {
    match reader_step(get_command(Ok(".quit".to_string()))) {
        ReaderStep::Last(event) => assert_eq!(route(event), Routed::Stop),
        other => panic!("reader goes on: {:?}", other),
    }
    assert_eq!(Command::try_from(".quit"), Ok(Command::Quit));
}
