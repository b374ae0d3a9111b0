use chat::command::{display_name, file_data, Command, CommandError};
use chat::message::Message;
use chat::text::{char_is_whitespace, chars_of, starts_with, trim_bounds};
use std::path::Path;

fn parse(line: &str) -> Command {
    Command::try_from(line).unwrap()
}

#[test]
fn quit_is_recognised() {
    assert_eq!(parse(".quit"), Command::Quit);
}

#[test]
fn file_command_holds_the_path() {
    assert_eq!(parse(".file ./report.txt"), Command::File("./report.txt".to_string()));
}

#[test]
fn file_command_is_sent_under_its_display_name() {
    let command = parse(".file ./report.txt");
    assert_eq!(command.path(), Some(&"./report.txt".to_string()));
    assert_eq!(
        command.try_into(Ok(vec![1, 2, 3])),
        Ok(Message::File("report.txt".to_string(), vec![1, 2, 3]))
    );
}

#[test]
fn image_command_holds_the_path() {
    assert_eq!(parse(".image ./a/pic.jpg"), Command::Image("./a/pic.jpg".to_string()));
    assert_eq!(
        parse(".image ./a/pic.jpg").try_into(Ok(vec![0xFF, 0xD8])),
        Ok(Message::Image(vec![0xFF, 0xD8]))
    );
}

#[test]
fn any_other_line_is_text() {
    for line in ["hello", "", " .quit", "quit", ". file x", ".fil", ".imag e", "a .file b", "\\.quit"] {
        assert_eq!(parse(line), Command::Text(line.to_string()));
        assert_eq!(parse(line).try_into(Ok(Vec::new())), Ok(Message::Text(line.to_string())));
    }
}

#[test]
fn prefix_alone_decides() {
    assert_eq!(parse(".quit now"), Command::Quit);
    assert_eq!(parse(".quitter"), Command::Quit);
    assert_eq!(parse(".files"), Command::File("s".to_string()));
    assert_eq!(parse(".file"), Command::File(String::new()));
    assert_eq!(parse(".images  x y "), Command::Image("s  x y".to_string()));
}

#[test]
fn path_is_trimmed_at_both_ends() {
    assert_eq!(parse(".file \t a b.txt \u{a0}\u{3000}"), Command::File("a b.txt".to_string()));
    assert_eq!(parse(".image\u{2003}pic.png\n"), Command::Image("pic.png".to_string()));
    assert_eq!(parse(".file    "), Command::File(String::new()));
}

#[test]
fn quit_is_not_sendable() {
    let error = Command::Quit.try_into(Ok(Vec::new())).unwrap_err();
    assert_eq!(error, CommandError::QuitNotSendable);
    assert_eq!(error.to_string(), "Quit is not sendable command");
    assert_eq!(Command::Quit.path(), None);
}

#[test]
fn unreadable_file_is_an_error() {
    let error = parse(".file ./missing.txt")
        .try_into(Err("No such file or directory (os error 2)".to_string()))
        .unwrap_err();
    assert_eq!(error, CommandError::Io("No such file or directory (os error 2)".to_string()));
    assert_eq!(error.to_string(), "No such file or directory (os error 2)");
    let image = parse(".image nowhere.png").try_into(Err("denied".to_string()));
    assert_eq!(image, Err(CommandError::Io("denied".to_string())));
}

#[test]
fn empty_path_is_weird_before_the_file_is_looked_at() {
    assert_eq!(parse(".file").try_into(Ok(vec![1])), Err(CommandError::WeirdPath));
    assert_eq!(parse(".image ").try_into(Err("io".to_string())), Err(CommandError::WeirdPath));
    assert_eq!(CommandError::WeirdPath.to_string(), "weird path");
}

#[test]
fn file_data_is_name_and_content() {
    assert_eq!(
        file_data("dir/sub/name.bin", Ok(vec![7])),
        Ok(("name.bin".to_string(), vec![7]))
    );
    assert_eq!(file_data("", Ok(vec![7])), Err(CommandError::WeirdPath));
    assert_eq!(file_data("x", Err("gone".to_string())), Err(CommandError::Io("gone".to_string())));
}

#[test]
fn display_name_is_the_final_component() {
    let cases = [
        ("report.txt", Some("report.txt")),
        ("./report.txt", Some("report.txt")),
        ("/abs/report.txt", Some("report.txt")),
        ("a/b/", Some("b")),
        ("a/b//", Some("b")),
        ("a/b/.", Some("b")),
        ("a/b/./", Some("b")),
        ("a/..", Some("..")),
        ("..", Some("..")),
        ("...", Some("...")),
        (".", Some(".")),
        ("./", Some(".")),
        ("./.", Some(".")),
        ("/", Some("/")),
        ("//", Some("/")),
        ("/.", Some("/")),
        ("/./", Some("/")),
        ("", None),
        ("a.", Some("a.")),
        (".a", Some(".a")),
        ("d\u{11b}l\u{e1}/\u{10d}aj.txt", Some("\u{10d}aj.txt")),
    ];
    for (path, expected) in cases {
        assert_eq!(display_name(path), expected.map(|s| s.to_string()));
    }
}

#[test]
fn display_name_is_what_the_system_calls_the_last_component() {
    if std::path::MAIN_SEPARATOR != '/' {
        return;
    }
    let alphabet = ['a', '.', '/', 'b'];
    let mut paths = vec![String::new()];
    let mut frontier = vec![String::new()];
    for _ in 0..6 {
        let mut next = Vec::new();
        for p in &frontier {
            for c in alphabet {
                let mut q = p.clone();
                q.push(c);
                next.push(q);
            }
        }
        paths.extend(next.iter().cloned());
        frontier = next;
    }
    for path in paths {
        let expected = Path::new(&path)
            .components()
            .last()
            .map(|component| component.as_os_str().to_str().unwrap().to_string());
        assert_eq!(display_name(&path), expected);
    }
}

#[test]
fn white_space_is_what_the_language_calls_white_space() {
    let mut code: u32 = 0;
    while code <= 0x10FFFF {
        if let Some(c) = char::from_u32(code) {
            assert_eq!(char_is_whitespace(c), c.is_whitespace());
        }
        code += 1;
    }
}

#[test]
fn trimming_is_what_the_language_calls_trimming() {
    let samples = [
        "",
        " ",
        "a",
        "  a  ",
        "\t\na b\r\n",
        "\u{a0}x\u{2028}",
        " \u{3000} ",
        "x \u{200b} ",
        "\u{85}\u{1680}mid dle\u{205f}",
    ];
    for s in samples {
        let chars: Vec<char> = s.chars().collect();
        let (a, b) = trim_bounds(&chars, 0);
        let trimmed: String = chars[a..b].iter().collect();
        assert_eq!(trimmed, s.trim());
    }
}

#[test]
fn trimming_starts_where_it_is_told() {
    let chars: Vec<char> = ".file  x ".chars().collect();
    assert_eq!(trim_bounds(&chars, 5), (7, 8));
    assert_eq!(trim_bounds(&chars, 9), (9, 9));
    let blank: Vec<char> = "ab   ".chars().collect();
    assert_eq!(trim_bounds(&blank, 2), (5, 5));
}

#[test]
fn characters_and_prefixes() {
    assert_eq!(chars_of("a\u{e9}\u{1F600}"), vec!['a', '\u{e9}', '\u{1F600}']);
    assert_eq!(chars_of(""), Vec::<char>::new());
    assert!(starts_with(&['a', 'b', 'c'], &['a', 'b']));
    assert!(starts_with(&['a'], &[]));
    assert!(starts_with(&['a'], &['a']));
    assert!(!starts_with(&['a'], &['a', 'b']));
    assert!(!starts_with(&['a', 'b'], &['b']));
}
