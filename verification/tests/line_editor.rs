use solx::config::Config;
use solx::edit_line::{EditLine, MAX_LINE};
use solx::editor::{
    character_len, escape_key, insert_character, BoundedLine, EditNext, Editor, Input,
};
use solx::error::Error;
use solx::history::{CommandHistory, MAX_HISTORY};

/// What a terminal shows and gives back for some bytes and, where it waits for more, nothing.
fn type_bytes(history: &mut CommandHistory, bytes: &[u8]) -> (Vec<u8>, EditNext) {
    let mut editor = Editor::new("> ", history);
    let mut output = Vec::new();
    let mut next = EditNext::Read;
    for byte in bytes {
        let action = editor.read_tty_line(history, Input::Byte(*byte));
        output.extend_from_slice(action.output.as_slice());
        next = action.next;
        if !matches!(next, EditNext::Read | EditNext::ReadSoon) {
            break;
        }
    }
    (output, next)
}

fn typed(history: &mut CommandHistory, bytes: &[u8]) -> String {
    match type_bytes(history, bytes).1 {
        EditNext::Line(line) => line,
        _ => panic!("no line"),
    }
}

#[test]
fn edits_recalled_commands_without_changing_history() {
    let mut history = CommandHistory::default();
    history.remember("help", &["help".into()]);
    let mut line = EditLine::new();
    line.replace("draft");
    line.replace(history.older(line.text()).unwrap());
    assert_eq!(line.cursor(), 4);
    line.left();
    line.left();
    assert!(line.insert("X"));
    assert_eq!(line.text(), "heXlp");
    line.backspace();
    assert_eq!(line.text(), "help");
    line.delete();
    assert_eq!(line.text(), "hep");
    assert!(line.insert("l"));
    line.right();
    assert_eq!(line.text(), "help");
    assert_eq!(line.cursor(), 4);
    assert_eq!(history.older("").unwrap(), "help");
    line.replace(history.newer().unwrap());
    assert_eq!(line.text(), "draft");
    assert_eq!(line.cursor(), 5);
}

#[test]
fn editing_at_boundaries_is_a_noop() {
    let mut line = EditLine::new();
    line.left();
    line.right();
    line.backspace();
    line.delete();
    assert_eq!(line.cursor(), 0);
    assert_eq!(line.text(), "");
    line.insert("ab");
    line.right();
    line.delete();
    assert_eq!(line.text(), "ab");
    assert_eq!(line.cursor(), 2);
    line.left();
    line.left();
    line.left();
    line.backspace();
    assert_eq!(line.text(), "ab");
    assert_eq!(line.cursor(), 0);
    line.delete();
    assert_eq!(line.text(), "b");
}

#[test]
fn edits_utf8_on_character_boundaries() {
    let mut line = EditLine::new();
    line.insert("aé界🦀z");
    line.left();
    line.left();
    assert_eq!(line.cursor(), "aé界".len());
    line.delete();
    assert_eq!(line.text(), "aé界z");
    line.backspace();
    assert_eq!(line.text(), "aéz");
    line.left();
    assert_eq!(line.cursor(), 1);
    line.insert("ö");
    line.right();
    assert_eq!(line.text(), "aöéz");
    assert_eq!(line.cursor(), "aöé".len());
}

#[test]
fn editing_never_grows_beyond_the_line_limit() {
    let mut line = EditLine::new();
    let capacity = line.capacity();
    line.insert(&"x".repeat(MAX_LINE));
    line.left();
    assert!(!line.insert("y"));
    assert_eq!(line.cursor(), MAX_LINE - 1);
    assert_eq!(line.len(), MAX_LINE);
    line.delete();
    assert!(!line.insert("é"));
    assert!(line.insert("y"));
    assert_eq!(line.capacity(), capacity);
    assert!(line.text().ends_with('y'));
}

#[test]
fn escape_decoder_consumes_delete_and_ignores_unknown_sequences() {
    for (sequence, expected) in [
        (&b"[A"[..], Some(b'A')),
        (&b"[B"[..], Some(b'B')),
        (&b"[C"[..], Some(b'C')),
        (&b"[D"[..], Some(b'D')),
        (&b"OC"[..], Some(b'C')),
        (&b"OD"[..], Some(b'D')),
        (&b"[3~"[..], Some(b'X')),
        (&b"[1;5D"[..], None),
        (&b"[200~"[..], None),
        (&b"[3"[..], None),
    ] {
        assert_eq!(escape_key(sequence), (expected, sequence.len()));
    }
    let mut endless = vec![b'['];
    endless.extend_from_slice(&[b'1'; 100]);
    assert_eq!(escape_key(&endless), (None, 17));
}

#[test]
fn character_decoder_rejects_invalid_input_and_preserves_controls() {
    let mut line = EditLine::new();
    assert!(insert_character(&mut line, &[0xc3, 0xa9]));
    assert_eq!(line.text(), "é");
    assert!(!insert_character(&mut line, &[0xe0, 0x80, 0x80]));
    assert_eq!(character_len(0xff), None);
    assert_eq!(line.text(), "é");
    // A character that is broken off rings the bell, and what came begins another key.
    let mut history = CommandHistory::default();
    let mut editor = Editor::new("", &mut history);
    editor.read_tty_line(&mut history, Input::Byte(0xc3));
    let action = editor.read_tty_line(&mut history, Input::Nothing);
    assert_eq!(action.output.as_slice(), [7]);
    for byte in [b'\n', 3, b'x'] {
        let mut editor = Editor::new("", &mut history);
        editor.read_tty_line(&mut history, Input::Byte(0xc3));
        let action = editor.read_tty_line(&mut history, Input::Byte(byte));
        assert_eq!(action.output.as_slice()[0], 7);
        match byte {
            b'x' => assert!(matches!(action.next, EditNext::Read)),
            _ => assert!(matches!(action.next, EditNext::Line(_))),
        }
    }
}

#[test]
fn redraw_restores_cursor_between_prefix_and_suffix() {
    let mut line = EditLine::new();
    line.insert("héllo");
    line.left();
    line.left();
    assert_eq!(
        line.redraw("solx> ").as_slice(),
        "\r\x1b[2Ksolx> hél\x1b7lo\x1b8".as_bytes()
    );
    line.right();
    line.right();
    assert_eq!(
        line.redraw("solx> ").as_slice(),
        "\r\x1b[2Ksolx> héllo".as_bytes()
    );
}

#[test]
fn recalls_recent_commands_and_restores_draft() {
    let mut history = CommandHistory::default();
    history.remember("list --wallet main", &[]);
    history.remember("history --wallet main", &[]);
    assert_eq!(history.older("unfinished"), Some("history --wallet main"));
    assert_eq!(history.older(""), Some("list --wallet main"));
    assert_eq!(history.newer(), Some("history --wallet main"));
    assert_eq!(history.newer(), Some("unfinished"));
}

#[test]
fn never_recalls_imports_or_inline_secrets() {
    let mut history = CommandHistory::default();
    history.remember("import test --base58 secret", &[]);
    history.remember("alias --mnemonic secret", &[]);
    history.remember("export main --private-key", &[]);
    assert_eq!(history.older(""), None);
}

#[test]
fn aliases_cannot_hide_exports_from_history() {
    let mut config = Config::default();
    config.aliases.insert(
        "reveal".into(),
        vec!["export".into(), "main".into(), "--private-key".into()],
    );
    let mut history = CommandHistory::default();
    history.remember("reveal", &config.expand_alias(&["reveal".into()]).unwrap());
    assert!(history.older("").is_none());
    history.remember("list", &["list".into()]);
    assert_eq!(history.older(""), Some("list"));
}

#[test]
fn aliases_cannot_hide_imports_from_history() {
    let mut config = Config::default();
    config.aliases.insert(
        "imp".into(),
        vec!["import".into(), "old".into(), "--base58".into()],
    );
    config.aliases.insert("ls".into(), vec!["list".into()]);
    let mut history = CommandHistory::default();
    let resolved = config
        .expand_alias(&["imp".into(), "secret".into()])
        .unwrap();
    history.remember("imp secret", &resolved);
    assert!(history.older("").is_none());
    history.remember("ls", &config.expand_alias(&["ls".into()]).unwrap());
    assert_eq!(history.older(""), Some("ls"));
    assert_eq!(history.older(""), Some("ls"));
}

#[test]
fn history_is_bounded_and_leaves_out_repetitions() {
    let mut history = CommandHistory::default();
    history.remember("  \r\n", &[]);
    for i in 0..MAX_HISTORY + 3 {
        history.remember(&format!("command {i}\n"), &[]);
        history.remember(&format!("command {i}"), &[]);
    }
    let mut recalled = Vec::new();
    for _ in 0..MAX_HISTORY + 10 {
        recalled.push(history.older("").unwrap().to_owned());
    }
    assert_eq!(recalled[0], format!("command {}", MAX_HISTORY + 2));
    assert_eq!(recalled[MAX_HISTORY - 1], "command 3");
    assert_eq!(recalled[MAX_HISTORY], "command 3");
}

#[test]
fn the_editor_reads_keys() {
    let mut history = CommandHistory::default();
    assert_eq!(typed(&mut history, b"ab\x1b[Dc\r"), "acb");
    assert_eq!(typed(&mut history, b"ab\x08c\n"), "ac");
    assert_eq!(typed(&mut history, b"ab\x1b[D\x1b[3~\x1b[C!\r"), "a!");
    assert_eq!(typed(&mut history, "h\u{e9}\r".as_bytes()), "hé");
    let (output, next) = type_bytes(&mut history, b"x\x03");
    assert!(output.ends_with(b"^C\r\n"));
    assert!(matches!(next, EditNext::Line(line) if line.is_empty()));
    assert!(matches!(
        type_bytes(&mut history, b"\x04").1,
        EditNext::Closed
    ));
    // In the middle of a line the key does nothing.
    assert_eq!(typed(&mut history, b"a\x04b\r"), "ab");
    history.remember("first", &[]);
    history.remember("second", &[]);
    assert_eq!(typed(&mut history, b"dr\x1b[A\x1b[A!\r"), "first!");
    assert_eq!(typed(&mut history, b"dr\x1b[A\x1b[B!\r"), "dr!");
    let mut editor = Editor::new("", &mut history);
    editor.read_tty_line(&mut history, Input::Byte(b'a'));
    let action = editor.read_tty_line(&mut history, Input::End);
    assert!(matches!(action.next, EditNext::Fail(Error::TerminalClosed)));
}

#[test]
fn bounded_lines_do_not_depend_on_how_they_come() {
    fn read(parts: &[&[u8]]) -> Result<Option<String>, Error> {
        let mut line = BoundedLine::new();
        for part in parts {
            let (used, complete) = line.feed(part);
            if complete {
                assert_eq!(part[used - 1], b'\n');
                break;
            }
            assert_eq!(used, part.len());
        }
        line.finish()
    }
    assert_eq!(read(&[]).unwrap(), None);
    assert_eq!(read(&[b"ab\ncd"]).unwrap().unwrap(), "ab\n");
    assert_eq!(read(&[b"a", b"b\n", b"c"]).unwrap().unwrap(), "ab\n");
    assert_eq!(read(&[b"ab"]).unwrap().unwrap(), "ab");
    let long = vec![b'x'; MAX_LINE];
    assert_eq!(read(&[&long]).unwrap().unwrap().len(), MAX_LINE);
    assert_eq!(read(&[&long, b"\n"]).unwrap_err(), Error::LineTooLong);
    assert_eq!(
        read(&[&long, b"yy", b"\n"]).unwrap_err().message(),
        "command line exceeds 4096 bytes"
    );
    assert_eq!(read(&[&[0xff, b'\n']]).unwrap_err(), Error::LineNotUtf8);
}
