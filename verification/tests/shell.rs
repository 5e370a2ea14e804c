use rust_os::filesystem::FileSystem;
use rust_os::framebuffer::{
    init_framebuffer_writer, FrameBufferInfo, FrameBufferWriter, PixelFormat, Screen,
};
use rust_os::task::keyboard::{Decoded, Key, KeyDecoder, RawKey};
use rust_os::task::shell::{
    autocomplete, cmd_cat, cmd_ls, command, complete, execute_command, help, parse_command,
    scancode_received, Command, Completion, Game, Received, Shell, COMMAND_COUNT,
};
use rust_os::wasm_game::{
    code_of, guest_color, handle_scancode, host_clear_color, host_draw_cell,
    host_framebuffer_height, host_framebuffer_width, host_grid_height, host_grid_width,
    host_init_cell_size, host_println, host_put_pixel, host_reset_cursor, is_game_running,
    print_length, process_pending_keys, to_channel, to_extent, to_guest_number, GameState,
};

const WIDTH: usize = 400;
const HEIGHT: usize = 300;

fn info() -> FrameBufferInfo {
    FrameBufferInfo {
        width: WIDTH,
        height: HEIGHT,
        stride: WIDTH,
        bytes_per_pixel: 1,
        pixel_format: PixelFormat::U8,
    }
}

fn screen() -> Screen {
    let mut screen = Screen::new();
    init_framebuffer_writer(&mut screen, vec![0; WIDTH * HEIGHT], info());
    screen
}

/// What the display shows after `text` was written to an empty one.
fn shows(text: &str) -> Vec<u8> {
    let mut writer = FrameBufferWriter::new(vec![0; WIDTH * HEIGHT], info()).unwrap();
    writer.write_str(text);
    writer.buffer().clone()
}

fn header(name: &str, size: usize, kind: u8) -> Vec<u8> {
    let mut block = vec![0u8; 512];
    block[..name.len()].copy_from_slice(name.as_bytes());
    let digits = format!("{:011o}", size);
    block[124..135].copy_from_slice(digits.as_bytes());
    block[156] = kind;
    block[257..262].copy_from_slice(b"ustar");
    block
}

fn filesystem() -> Option<FileSystem> {
    let mut image = Vec::new();
    let entries: [(&str, &[u8], u8); 6] = [
        ("readme.txt", b"Hi there\n", b'0'),
        ("docs/", b"", b'5'),
        ("docs/a.txt", b"alpha", b'0'),
        ("docs/b.txt", b"beta beta", b'0'),
        ("data/", b"", b'5'),
        ("link", b"", b'2'),
    ];
    for (name, contents, kind) in entries {
        image.extend(header(name, contents.len(), kind));
        image.extend_from_slice(contents);
        while image.len() % 512 != 0 {
            image.push(0);
        }
    }
    image.extend(vec![0u8; 1024]);
    Some(FileSystem::from_tar(image).unwrap())
}

/// The scancodes of set 1 that type a character on the US layout.
fn scancodes(text: &str) -> Vec<u8> {
    let mut codes = Vec::new();
    for c in text.chars() {
        let make = match c {
            'a' => 0x1e, 'b' => 0x30, 'c' => 0x2e, 'd' => 0x20, 'e' => 0x12, 'f' => 0x21,
            'h' => 0x23, 'i' => 0x17, 'k' => 0x25, 'l' => 0x26, 'm' => 0x32, 'n' => 0x31,
            'o' => 0x18, 'p' => 0x19, 'r' => 0x13, 's' => 0x1f, 't' => 0x14, 'v' => 0x2f,
            'w' => 0x11, 'x' => 0x2d, 'y' => 0x15, ' ' => 0x39, '/' => 0x35, '.' => 0x34,
            '\n' => 0x1c, '\t' => 0x0f, '\x08' => 0x0e,
            other => panic!("no scancode for {other:?}"),
        };
        codes.push(make);
        codes.push(make | 0x80);
    }
    codes
}

#[test]
fn lines_are_parsed_by_their_words() {
    assert!(matches!(parse_command(""), Command::Nothing));
    assert!(matches!(parse_command(" \t\u{a0} "), Command::Nothing));
    assert!(matches!(parse_command("help"), Command::Help));
    assert!(matches!(parse_command("  help  me"), Command::Help));
    assert!(matches!(parse_command("version"), Command::Version));
    assert!(matches!(parse_command("clear"), Command::Clear));
    assert!(matches!(parse_command("snake"), Command::Start(Game::Snake)));
    assert!(matches!(parse_command("cowsay moo"), Command::Start(Game::Cowsay)));
    assert!(matches!(parse_command("ls"), Command::List(p) if p == "/"));
    assert!(matches!(parse_command("ls  docs  more"), Command::List(p) if p == "docs"));
    assert!(matches!(parse_command("cat"), Command::Usage));
    assert!(matches!(parse_command("cat\treadme.txt"), Command::Show(p) if p == "readme.txt"));
    assert!(matches!(parse_command("echo hi"), Command::Unknown(w) if w == "echo"));
    assert!(matches!(parse_command("helper"), Command::Unknown(w) if w == "helper"));
    assert!(matches!(parse_command("Help"), Command::Unknown(w) if w == "Help"));
}

#[test]
fn the_commands_and_their_help() {
    let names: Vec<&str> = (0..COMMAND_COUNT).map(command).collect();
    assert_eq!(names, ["help", "echo", "cat", "ls", "version", "clear", "snake", "cowsay"]);
    assert_eq!(
        help(),
        "Available commands: help, echo, cat, ls, version, clear, snake, cowsay\n"
    );
}

#[test]
fn ls_and_cat_say_what_the_file_system_says() {
    let mut fs = filesystem();
    assert_eq!(cmd_ls("/", &fs), "data/\ndocs/\nlink\nreadme.txt  (9 bytes)\n");
    assert_eq!(cmd_ls("docs", &fs), "a.txt  (5 bytes)\nb.txt  (9 bytes)\n");
    assert_eq!(cmd_ls("data", &fs), "(empty)\n");
    assert_eq!(cmd_ls("nowhere", &fs), "(empty)\n");
    assert_eq!(cmd_ls("../x", &fs), "ls: ../x: InvalidPathTraversal\n");
    assert_eq!(cmd_ls("/", &None), "ls: filesystem not initialized\n");
    assert_eq!(cmd_cat("readme.txt", &mut fs), "Hi there\n");
    assert_eq!(cmd_cat("/docs/b.txt", &mut fs), "beta beta");
    assert_eq!(cmd_cat("missing", &mut fs), "cat: missing: NotFound\n");
    assert_eq!(cmd_cat("a/..", &mut fs), "cat: a/..: InvalidPathTraversal\n");
    assert_eq!(cmd_cat("x", &mut None), "cat: filesystem not initialized\n");
    assert!(fs.is_some());
}

#[test]
fn commands_write_to_the_display() {
    let mut fs = filesystem();
    let cases = [
        ("", ""),
        ("version", "RustOS v0.1.0\n"),
        ("help", "Available commands: help, echo, cat, ls, version, clear, snake, cowsay\n"),
        ("cat", "Usage: cat <file>\n"),
        ("frob it", "Unknown command: 'frob'. Type 'help' for a list of commands.\n"),
        ("echo hi", "Unknown command: 'echo'. Type 'help' for a list of commands.\n"),
        ("ls docs", "a.txt  (5 bytes)\nb.txt  (9 bytes)\n"),
        ("cat readme.txt", "Hi there\n"),
    ];
    for (line, said) in cases {
        let mut screen = screen();
        assert_eq!(execute_command(line, &mut screen, &mut fs), None);
        assert_eq!(screen.buffer().unwrap(), &shows(said), "{line}");
    }
    let mut screen = screen();
    execute_command("help", &mut screen, &mut fs);
    assert_eq!(execute_command("clear", &mut screen, &mut fs), None);
    assert_eq!(screen.buffer().unwrap(), &shows(""));
    execute_command("help", &mut screen, &mut fs);
    assert_eq!(execute_command("snake", &mut screen, &mut fs), Some(Game::Snake));
    assert_eq!(screen.buffer().unwrap(), &shows(""));
    assert_eq!(execute_command("cowsay", &mut screen, &mut fs), Some(Game::Cowsay));
}

#[test]
fn commands_are_completed() {
    let fs = filesystem();
    assert!(matches!(complete("he", &fs), Completion::Extend(t) if t == "lp "));
    assert!(matches!(complete("help", &fs), Completion::Extend(t) if t == " "));
    assert!(matches!(complete("  v", &None), Completion::Extend(t) if t == "ersion "));
    assert!(matches!(complete("x", &fs), Completion::Nothing));
    assert!(matches!(complete("c", &fs), Completion::Choices(t) if t == "\ncat clear cowsay \n> c"));
    assert!(matches!(
        complete("", &fs),
        Completion::Choices(t) if t == "\nhelp echo cat ls version clear snake cowsay \n> "
    ));
}

#[test]
fn paths_are_completed() {
    let fs = filesystem();
    assert!(matches!(complete("cat r", &fs), Completion::Extend(t) if t == "eadme.txt"));
    assert!(matches!(complete("ls do", &fs), Completion::Extend(t) if t == "cs/"));
    assert!(matches!(complete("cat docs/a", &fs), Completion::Extend(t) if t == ".txt"));
    assert!(matches!(complete("cat /docs/b.txt", &fs), Completion::Extend(t) if t.is_empty()));
    assert!(matches!(complete("cat zz", &fs), Completion::Nothing));
    assert!(matches!(complete("cat nowhere/a", &fs), Completion::Nothing));
    assert!(matches!(complete("cat ../a", &fs), Completion::Nothing));
    assert!(matches!(complete("cat r", &None), Completion::Nothing));
    assert!(matches!(
        complete("ls d", &fs),
        Completion::Choices(t) if t == "\ndata/ docs/ \n> ls d"
    ));
    assert!(matches!(
        complete("cat ", &fs),
        Completion::Choices(t) if t == "\ndata/ docs/ link readme.txt \n> cat "
    ));
    assert!(matches!(
        complete("cat docs/", &fs),
        Completion::Choices(t) if t == "\na.txt b.txt \n> cat docs/"
    ));
    assert!(matches!(complete("help ", &fs), Completion::Choices(_)));
}

#[test]
fn completion_goes_to_the_line_and_the_display() {
    let fs = filesystem();
    let mut screen = screen();
    let mut line = String::from("cat do");
    autocomplete(&mut line, &mut screen, &fs);
    assert_eq!(line, "cat docs/");
    assert_eq!(screen.buffer().unwrap(), &shows("cs/"));
    autocomplete(&mut line, &mut screen, &fs);
    assert_eq!(line, "cat docs/");
    assert_eq!(screen.buffer().unwrap(), &shows("cs/\na.txt b.txt \n> cat docs/"));
    let mut other = String::from("zz");
    autocomplete(&mut other, &mut screen, &fs);
    assert_eq!(other, "zz");
}

#[test]
fn keys_build_the_line() {
    let mut fs = filesystem();
    let mut screen = screen();
    let mut shell = Shell::new();
    shell.prompt(&mut screen);
    for c in "lsx".chars() {
        assert_eq!(shell.key_pressed(Key::Unicode(c), &mut screen, &mut fs), None);
    }
    assert_eq!(shell.key_pressed(Key::Raw(RawKey::ArrowUp), &mut screen, &mut fs), None);
    assert_eq!(shell.key_pressed(Key::Unicode('\x08'), &mut screen, &mut fs), None);
    assert_eq!(screen.buffer().unwrap(), &shows("> lsx\x08"));
    assert_eq!(shell.key_pressed(Key::Unicode('\n'), &mut screen, &mut fs), None);
    assert_eq!(
        screen.buffer().unwrap(),
        &shows("> lsx\x08\ndata/\ndocs/\nlink\nreadme.txt  (9 bytes)\n> ")
    );
    // the line is empty again: backspace does nothing, return runs nothing
    let before = screen.buffer().unwrap().clone();
    assert_eq!(shell.key_pressed(Key::Unicode('\x08'), &mut screen, &mut fs), None);
    assert_eq!(screen.buffer().unwrap(), &before);
    for c in "ver\t\n".chars() {
        assert_eq!(shell.key_pressed(Key::Unicode(c), &mut screen, &mut fs), None);
    }
    assert_eq!(
        screen.buffer().unwrap(),
        &shows("> lsx\x08\ndata/\ndocs/\nlink\nreadme.txt  (9 bytes)\n> version \nRustOS v0.1.0\n> ")
    );
}

#[test]
fn a_game_is_started_without_the_prompt() {
    let mut fs = None;
    let mut screen = screen();
    let mut shell = Shell::new();
    shell.prompt(&mut screen);
    for c in "snake".chars() {
        shell.key_pressed(Key::Unicode(c), &mut screen, &mut fs);
    }
    assert_eq!(shell.key_pressed(Key::Unicode('\n'), &mut screen, &mut fs), Some(Game::Snake));
    assert_eq!(screen.buffer().unwrap(), &shows(""));
    shell.prompt(&mut screen);
    assert_eq!(screen.buffer().unwrap(), &shows("> "));
    assert_eq!(shell.key_pressed(Key::Unicode('\n'), &mut screen, &mut fs), None);
    assert_eq!(screen.buffer().unwrap(), &shows("> \n> "));
}

#[test]
fn scancodes_are_decoded() {
    let mut decoder = KeyDecoder::new();
    assert_eq!(decoder.decode(0x1e), Decoded::Key(Key::Unicode('a')));
    assert_eq!(decoder.decode(0x9e), Decoded::Nothing);
    assert_eq!(decoder.decode(0x2a), Decoded::Key(Key::Raw(RawKey::Other(decoder_code_of_lshift()))));
    assert_eq!(decoder.decode(0x1e), Decoded::Key(Key::Unicode('A')));
    assert_eq!(decoder.decode(0xaa), Decoded::Nothing);
    assert_eq!(decoder.decode(0xe0), Decoded::Nothing);
    assert_eq!(decoder.decode(0x48), Decoded::Key(Key::Raw(RawKey::ArrowUp)));
    assert_eq!(decoder.decode(0xe0), Decoded::Nothing);
    assert_eq!(decoder.decode(0x50), Decoded::Key(Key::Raw(RawKey::ArrowDown)));
    assert_eq!(decoder.decode(0xe0), Decoded::Nothing);
    assert_eq!(decoder.decode(0x4b), Decoded::Key(Key::Raw(RawKey::ArrowLeft)));
    assert_eq!(decoder.decode(0xe0), Decoded::Nothing);
    assert_eq!(decoder.decode(0x4d), Decoded::Key(Key::Raw(RawKey::ArrowRight)));
    assert_eq!(decoder.decode(0x1c), Decoded::Key(Key::Unicode('\n')));
    assert_eq!(decoder.decode(0x0e), Decoded::Key(Key::Unicode('\x08')));
    assert_eq!(decoder.decode(0x01), Decoded::Key(Key::Unicode('\x1b')));
    assert_eq!(decoder.decode(0x3b), Decoded::Key(Key::Raw(RawKey::Other(pc_keyboard::KeyCode::F1 as u8))));
}

#[test]
fn decoders_fed_the_same_agree() {
    let fed = [0x2a, 0x1e, 0xaa, 0xe0, 0x48, 0x1e, 0x9e, 0xe0, 0xc8, 0x3a, 0x10, 0x01, 0xff];
    let mut one = KeyDecoder::new();
    let mut other = KeyDecoder::new();
    let first: Vec<Decoded> = fed.iter().map(|&code| one.decode(code)).collect();
    let second: Vec<Decoded> = fed.iter().map(|&code| other.decode(code)).collect();
    assert_eq!(first, second);
    assert_eq!(first[1], Decoded::Key(Key::Unicode('A')));
    assert_eq!(first[5], Decoded::Key(Key::Unicode('a')));
    // what a scancode amounts to hangs on what was fed before it
    let mut fresh = KeyDecoder::new();
    assert_eq!(fresh.decode(0x48), Decoded::Key(Key::Unicode('8')));
    assert_eq!(first[4], Decoded::Key(Key::Raw(RawKey::ArrowUp)));
}

fn decoder_code_of_lshift() -> u8 {
    pc_keyboard::KeyCode::LShift as u8
}

#[test]
fn scancodes_reach_the_shell_or_the_game() {
    let mut fs = filesystem();
    let mut screen = screen();
    let mut shell = Shell::new();
    let mut game = GameState::new();
    let mut decoder = KeyDecoder::new();
    shell.prompt(&mut screen);
    let mut started = Vec::new();
    for code in scancodes("cat re\t\nsnake\n") {
        let received =
            scancode_received(&mut shell, &mut game, &mut decoder, &mut screen, &mut fs, code);
        if let Some(g) = received.start {
            started.push(g);
        }
    }
    assert_eq!(started, vec![Game::Snake]);
    assert_eq!(screen.buffer().unwrap(), &shows(""));
    game.start();
    assert!(is_game_running(&game));
    // while the game runs, keys wait for the guest and the shell sees none
    let mut seen = Vec::new();
    for code in scancodes("wd") {
        let received =
            scancode_received(&mut shell, &mut game, &mut decoder, &mut screen, &mut fs, code);
        assert_eq!(received.start, None);
        seen.push(received.decoded);
    }
    assert_eq!(
        seen,
        vec![
            Decoded::Key(Key::Unicode('w')),
            Decoded::Nothing,
            Decoded::Key(Key::Unicode('d')),
            Decoded::Nothing,
        ]
    );
    assert_eq!(screen.buffer().unwrap(), &shows(""));
    assert_eq!(process_pending_keys(&mut game), Some(b'd'));
    assert_eq!(process_pending_keys(&mut game), None);
    // escape ends the game and brings the prompt back
    assert_eq!(
        scancode_received(&mut shell, &mut game, &mut decoder, &mut screen, &mut fs, 0x01),
        Received { decoded: Decoded::Key(Key::Unicode('\x1b')), start: None }
    );
    assert!(!is_game_running(&game));
    assert_eq!(screen.buffer().unwrap(), &shows("> "));
    for code in scancodes("version\n") {
        scancode_received(&mut shell, &mut game, &mut decoder, &mut screen, &mut fs, code);
    }
    assert_eq!(screen.buffer().unwrap(), &shows("> version\nRustOS v0.1.0\n> "));
}

#[test]
fn keys_of_the_game() {
    assert_eq!(code_of(Key::Unicode('a')), 97);
    assert_eq!(code_of(Key::Unicode('\u{263a}')), 0x3a);
    assert_eq!(code_of(Key::Raw(RawKey::ArrowUp)), 88);
    assert_eq!(code_of(Key::Raw(RawKey::ArrowDown)), 102);
    assert_eq!(code_of(Key::Raw(RawKey::ArrowLeft)), 101);
    assert_eq!(code_of(Key::Raw(RawKey::ArrowRight)), 103);
    assert_eq!(code_of(Key::Raw(RawKey::Backspace)), 8);
    assert_eq!(code_of(Key::Raw(RawKey::Return)), 10);
    assert_eq!(code_of(Key::Raw(RawKey::Other(42))), 42);
    let mut game = GameState::new();
    let mut decoder = KeyDecoder::new();
    let mut screen = screen();
    game.start();
    assert_eq!(handle_scancode(&mut game, &mut decoder, &mut screen, 0xe0), Decoded::Nothing);
    assert_eq!(process_pending_keys(&mut game), None);
    handle_scancode(&mut game, &mut decoder, &mut screen, 0x48);
    handle_scancode(&mut game, &mut decoder, &mut screen, 0x1e);
    assert_eq!(process_pending_keys(&mut game), Some(97));
    game.key_pressed(&mut screen, Key::Raw(RawKey::ArrowLeft));
    assert!(is_game_running(&game));
    game.key_pressed(&mut screen, Key::Raw(RawKey::Escape));
    assert!(!is_game_running(&game));
    assert_eq!(process_pending_keys(&mut game), Some(101));
}

#[test]
fn guests_numbers() {
    assert_eq!(to_channel(0), 0);
    assert_eq!(to_channel(255), 255);
    assert_eq!(to_channel(256), 0);
    assert_eq!(to_channel(0x1234), 0x34);
    assert_eq!(to_channel(-1), 255);
    assert_eq!(to_channel(-256), 0);
    assert_eq!(to_channel(-257), 255);
    assert_eq!(to_channel(i32::MIN), 0);
    assert_eq!(to_channel(i32::MAX), 255);
    for v in [-70000, -513, -255, -2, 1, 300, 65535, 1 << 30] {
        assert_eq!(to_channel(v), v as u8);
    }
    assert_eq!(to_extent(17), 17);
    assert_eq!(to_extent(-1), usize::MAX);
    assert_eq!(to_guest_number(1920), 1920);
    assert_eq!(to_guest_number(usize::MAX), i32::MAX);
    assert_eq!(guest_color(256 + 1, -1, 2).g, 255);
    assert_eq!(print_length(-1), 256);
    assert_eq!(print_length(0), 0);
    assert_eq!(print_length(255), 255);
    assert_eq!(print_length(256), 256);
    assert_eq!(print_length(100_000), 256);
}

#[test]
fn host_functions_draw_on_the_display() {
    let mut screen = Screen::new();
    // nothing happens before the framebuffer is known
    host_put_pixel(&mut screen, 1, 1, 255, 255, 255);
    host_draw_cell(&mut screen, 0, 0, 4, 1, 1, 1);
    host_clear_color(&mut screen, 9, 9, 9);
    host_reset_cursor(&mut screen);
    host_println(&mut screen, b"hello".to_vec());
    assert_eq!(host_framebuffer_width(&screen), 0);
    assert_eq!(host_framebuffer_height(&screen), 0);
    assert_eq!(host_grid_width(&screen), 0);
    assert!(screen.buffer().is_none());
    init_framebuffer_writer(
        &mut screen,
        vec![0; 64],
        FrameBufferInfo {
            width: 4,
            height: 4,
            stride: 4,
            bytes_per_pixel: 4,
            pixel_format: PixelFormat::Rgb,
        },
    );
    assert_eq!(host_framebuffer_width(&screen), 4);
    assert_eq!(host_framebuffer_height(&screen), 4);
    assert_eq!(host_grid_width(&screen), 0);
    host_init_cell_size(&mut screen, 2);
    host_init_cell_size(&mut screen, 1);
    assert_eq!((host_grid_width(&screen), host_grid_height(&screen)), (2, 2));
    host_put_pixel(&mut screen, 1, 0, 0x101, -1, 3);
    host_put_pixel(&mut screen, -1, 0, 9, 9, 9);
    host_put_pixel(&mut screen, 0, 4, 9, 9, 9);
    host_draw_cell(&mut screen, 1, 1, 2, 7, 8, 9);
    host_draw_cell(&mut screen, -1, 0, 2, 7, 8, 9);
    let mut expected = vec![0u8; 64];
    expected[4..8].copy_from_slice(&[1, 255, 3, 0]);
    for at in [10, 11, 14, 15] {
        expected[at * 4..at * 4 + 4].copy_from_slice(&[7, 8, 9, 0]);
    }
    assert_eq!(screen.buffer().unwrap(), &expected);
    host_clear_color(&mut screen, 1, 2, 3);
    assert_eq!(&screen.buffer().unwrap()[..8], &[1, 2, 3, 0, 1, 2, 3, 0]);
    let mut zero = Screen::new();
    host_init_cell_size(&mut zero, 0);
    init_framebuffer_writer(&mut zero, vec![0; 16], FrameBufferInfo { bytes_per_pixel: 1, ..info_of(4) });
    assert_eq!(host_grid_width(&zero), 0);
}

fn info_of(side: usize) -> FrameBufferInfo {
    FrameBufferInfo {
        width: side,
        height: side,
        stride: side,
        bytes_per_pixel: 4,
        pixel_format: PixelFormat::U8,
    }
}

#[test]
fn guests_print_lines() {
    let mut screen = screen();
    host_println(&mut screen, b"score 3".to_vec());
    host_println(&mut screen, vec![0xff, 0x00]);
    host_println(&mut screen, Vec::new());
    host_println(&mut screen, "né".as_bytes().to_vec());
    assert_eq!(screen.buffer().unwrap(), &shows("score 3\n\nné\n"));
    host_reset_cursor(&mut screen);
    host_println(&mut screen, b"score 3".to_vec());
    assert_eq!(screen.buffer().unwrap(), &shows("score 3\n\nné\n"));
}
