//! The host side of the games that run as WebAssembly guests.
//!
//! A guest is driven by the keys that come in while it runs and draws
//! through the host functions. Which key goes to the guest, when the game
//! ends, and what each host function does to the display is decided here;
//! running the guest is up to whoever owns the interpreter.

use vstd::prelude::*;
use crate::filesystem::string_from_utf8;
use crate::framebuffer::{
    FrameBufferInfo,
    _print,
    clear_color,
    draw_cell,
    filled,
    framebuffer_size,
    grid_of,
    grid_size,
    init_cell_size,
    put_pixel,
    reset_cursor,
    rgb_bytes,
    typed_all,
    with_pixel,
    Console,
    Rgb,
    Screen,
};
use crate::task::keyboard::{decoded, seen_after, Decoded, Key, KeyDecoder, RawKey};

verus! {

/// Longest text, in bytes, that a guest can print at once.
pub const MAX_PRINT_LEN: usize = 256;

/// Whether a key ends the game: the escape key, as a key or as a character.
pub open spec fn is_escape(key: Key) -> bool {
    key == Key::Raw(RawKey::Escape) || key == Key::Unicode('\u{1b}')
}

/// The code that a key is handed to the guest as: the low byte of a
/// character; fixed codes for the arrows, backspace and return; the number
/// of its key code for any other key.
pub open spec fn key_code(key: Key) -> u8 {
    match key {
        Key::Unicode(c) => (c as u32 % 256) as u8,
        Key::Raw(RawKey::ArrowUp) => 88,
        Key::Raw(RawKey::ArrowDown) => 102,
        Key::Raw(RawKey::ArrowLeft) => 101,
        Key::Raw(RawKey::ArrowRight) => 103,
        Key::Raw(RawKey::Backspace) => 8,
        Key::Raw(RawKey::Return) => 10,
        Key::Raw(RawKey::Escape) => 0,
        Key::Raw(RawKey::Other(code)) => code,
    }
}

/// The code that a key is handed to the guest as.
pub fn code_of(key: Key) -> (code: u8)
    ensures
        code == key_code(key),
{
    match key {
        Key::Unicode(c) => ((c as u32) % 256) as u8,
        Key::Raw(RawKey::ArrowUp) => 88,
        Key::Raw(RawKey::ArrowDown) => 102,
        Key::Raw(RawKey::ArrowLeft) => 101,
        Key::Raw(RawKey::ArrowRight) => 103,
        Key::Raw(RawKey::Backspace) => 8,
        Key::Raw(RawKey::Return) => 10,
        Key::Raw(RawKey::Escape) => 0,
        Key::Raw(RawKey::Other(code)) => code,
    }
}

/// The console after a key was pressed while a game runs: black with the
/// prompt after escape, unchanged after any other key.
pub open spec fn console_after_key(info: FrameBufferInfo, console: Console, key: Key) -> Console {
    if is_escape(key) {
        typed_all(
            info,
            Console {
                bytes: filled(
                    console.bytes,
                    info,
                    rgb_bytes(info.pixel_format, Rgb { r: 0, g: 0, b: 0 }),
                    0,
                    0,
                    info.width as int,
                    info.height as int,
                ),
                x: 1,
                y: 1,
            },
            "> "@,
        )
    } else {
        console
    }
}

/// Whether a game runs, and the key that waits to be handed to it.
pub struct GameState {
    running: bool,
    pending_key: Option<u8>,
}

impl GameState {
    /// Whether a game runs.
    pub closed spec fn running(self) -> bool {
        self.running
    }

    /// The code of the key that waits to be handed to the guest.
    pub closed spec fn pending(self) -> Option<u8> {
        self.pending_key
    }

    /// No game runs and no key waits.
    pub fn new() -> (game: GameState)
        ensures
            !game.running(),
            game.pending() is None,
    {
        GameState { running: false, pending_key: None }
    }

    /// A guest was set up: the game runs.
    pub fn start(&mut self)
        ensures
            final(self).running(),
            final(self).pending() == old(self).pending(),
    {
        self.running = true;
    }

    /// A key was pressed while the game runs. Escape ends the game: the
    /// screen goes black and shows the prompt. Any other key waits to be
    /// handed to the guest, in place of one that still waited.
    pub fn key_pressed(&mut self, screen: &mut Screen, key: Key)
        requires
            old(screen).writer() is Some,
        ensures
            final(screen).cell() == old(screen).cell(),
            final(self).running() == (old(self).running() && !is_escape(key)),
            final(self).pending() == if is_escape(key) {
                old(self).pending()
            } else {
                Some(key_code(key))
            },
            final(screen).writer() matches Some(w) && w.info() == old(screen).writer().unwrap().info()
                && w@ == console_after_key(w.info(), old(screen).writer().unwrap()@, key),
    {
        let escape = match key {
            Key::Raw(RawKey::Escape) => true,
            Key::Unicode(c) => c == '\u{1b}',
            _ => false,
        };
        if escape {
            self.running = false;
            clear_color(screen, Rgb { r: 0, g: 0, b: 0 });
            _print(screen, "> ");
        } else {
            self.pending_key = Some(code_of(key));
        }
    }
}

/// Whether a game runs.
pub fn is_game_running(game: &GameState) -> (running: bool)
    ensures
        running == game.running(),
{
    game.running
}

/// Takes a scancode that came in while the game runs: the scancode is fed
/// to the decoder, and where it makes a key press, the key is dealt with as
/// `GameState::key_pressed` says. Returns what the scancode amounts to.
pub fn handle_scancode(
    game: &mut GameState,
    decoder: &mut KeyDecoder,
    screen: &mut Screen,
    scancode: u8,
) -> (what: Decoded)
    requires
        old(screen).writer() is Some,
    ensures
        what == decoded(old(decoder).fed(), old(decoder).seen(), scancode),
        final(decoder).fed() == old(decoder).fed().push(scancode),
        final(decoder).seen() == seen_after(old(decoder).fed(), old(decoder).seen(), scancode),
        final(screen).cell() == old(screen).cell(),
        final(screen).writer() matches Some(w) && w.info() == old(screen).writer().unwrap().info()
            && match what {
            Decoded::Key(key) => {
                &&& final(game).running() == (old(game).running() && !is_escape(key))
                &&& final(game).pending() == if is_escape(key) {
                    old(game).pending()
                } else {
                    Some(key_code(key))
                }
                &&& w@ == console_after_key(w.info(), old(screen).writer().unwrap()@, key)
            },
            _ => {
                &&& final(game).running() == old(game).running()
                &&& final(game).pending() == old(game).pending()
                &&& w@ == old(screen).writer().unwrap()@
            },
        },
{
    let what = decoder.decode(scancode);
    match what {
        Decoded::Key(key) => {
            game.key_pressed(screen, key);
        },
        _ => {},
    }
    what
}

/// Takes the key that waits, for the caller to hand it to the guest.
pub fn process_pending_keys(game: &mut GameState) -> (key: Option<u8>)
    ensures
        key == old(game).pending(),
        final(game).pending() is None,
        final(game).running() == old(game).running(),
{
    game.pending_key.take()
}

/// A guest's number as a colour channel: its low byte.
pub open spec fn channel(v: i32) -> u8 {
    (v % 256) as u8
}

/// A guest's number as a coordinate or a size: itself, or one beyond any
/// screen where it is negative.
pub open spec fn extent(v: i32) -> usize {
    if v < 0 {
        usize::MAX
    } else {
        v as usize
    }
}

/// A size as a guest's number: itself, or the largest number where it is
/// beyond that.
pub open spec fn guest_number(v: usize) -> i32 {
    if v > i32::MAX {
        i32::MAX
    } else {
        v as i32
    }
}

/// A guest's number as a colour channel.
pub fn to_channel(v: i32) -> (c: u8)
    ensures
        c == channel(v),
{
    if v >= 0 {
        (v % 256) as u8
    } else {
        let below: i32 = -(v + 1);
        (255 - below % 256) as u8
    }
}

/// A guest's number as a coordinate or a size.
pub fn to_extent(v: i32) -> (e: usize)
    ensures
        e == extent(v),
{
    if v < 0 {
        usize::MAX
    } else {
        v as usize
    }
}

/// A size as a guest's number.
pub fn to_guest_number(v: usize) -> (n: i32)
    ensures
        n == guest_number(v),
{
    if v > i32::MAX as usize {
        i32::MAX
    } else {
        v as i32
    }
}

/// The colour that a guest names by three numbers.
pub fn guest_color(r: i32, g: i32, b: i32) -> (c: Rgb)
    ensures
        c == (Rgb { r: channel(r), g: channel(g), b: channel(b) }),
{
    Rgb { r: to_channel(r), g: to_channel(g), b: to_channel(b) }
}

/// Host function `put_pixel`: sets one pixel. Does nothing before the
/// framebuffer is known.
pub fn host_put_pixel(screen: &mut Screen, x: i32, y: i32, r: i32, g: i32, b: i32)
    ensures
        final(screen).cell() == old(screen).cell(),
        match old(screen).writer() {
            None => final(screen).writer() is None,
            Some(before) => final(screen).writer() matches Some(w) && w.info() == before.info()
                && w@.x == before@.x && w@.y == before@.y && w@.bytes == if extent(x)
                < before.info().width && extent(y) < before.info().height {
                with_pixel(
                    before@.bytes,
                    before.info(),
                    extent(x) as int,
                    extent(y) as int,
                    rgb_bytes(
                        before.info().pixel_format,
                        Rgb { r: channel(r), g: channel(g), b: channel(b) },
                    ),
                )
            } else {
                before@.bytes
            },
        },
{
    if screen.is_initialized() {
        put_pixel(screen, to_extent(x), to_extent(y), guest_color(r, g, b));
    }
}

/// Host function `draw_cell`: fills one cell of the grid. Does nothing
/// before the framebuffer is known.
pub fn host_draw_cell(
    screen: &mut Screen,
    cx: i32,
    cy: i32,
    cell_size: i32,
    r: i32,
    g: i32,
    b: i32,
)
    ensures
        final(screen).cell() == old(screen).cell(),
        match old(screen).writer() {
            None => final(screen).writer() is None,
            Some(before) => final(screen).writer() matches Some(w) && w.info() == before.info()
                && w@.x == before@.x && w@.y == before@.y && w@.bytes == filled(
                before@.bytes,
                before.info(),
                rgb_bytes(
                    before.info().pixel_format,
                    Rgb { r: channel(r), g: channel(g), b: channel(b) },
                ),
                extent(cx) * extent(cell_size),
                extent(cy) * extent(cell_size),
                extent(cell_size) as int,
                extent(cell_size) as int,
            ),
        },
{
    if screen.is_initialized() {
        draw_cell(
            screen,
            to_extent(cx),
            to_extent(cy),
            to_extent(cell_size),
            guest_color(r, g, b),
        );
    }
}

/// Host function `clear_color`: paints the whole screen. Does nothing
/// before the framebuffer is known.
pub fn host_clear_color(screen: &mut Screen, r: i32, g: i32, b: i32)
    ensures
        final(screen).cell() == old(screen).cell(),
        match old(screen).writer() {
            None => final(screen).writer() is None,
            Some(before) => final(screen).writer() matches Some(w) && w.info() == before.info()
                && w@ == (Console {
                bytes: filled(
                    before@.bytes,
                    w.info(),
                    rgb_bytes(
                        w.info().pixel_format,
                        Rgb { r: channel(r), g: channel(g), b: channel(b) },
                    ),
                    0,
                    0,
                    w.info().width as int,
                    w.info().height as int,
                ),
                x: 1,
                y: 1,
            }),
        },
{
    if screen.is_initialized() {
        clear_color(screen, guest_color(r, g, b));
    }
}

/// Host function `get_framebuffer_width`: `0` before the framebuffer is
/// known.
pub fn host_framebuffer_width(screen: &Screen) -> (width: i32)
    ensures
        width == match screen.writer() {
            Some(w) => guest_number(w.info().width),
            None => 0i32,
        },
{
    if screen.is_initialized() {
        to_guest_number(framebuffer_size(screen).0)
    } else {
        0
    }
}

/// Host function `get_framebuffer_height`: `0` before the framebuffer is
/// known.
pub fn host_framebuffer_height(screen: &Screen) -> (height: i32)
    ensures
        height == match screen.writer() {
            Some(w) => guest_number(w.info().height),
            None => 0i32,
        },
{
    if screen.is_initialized() {
        to_guest_number(framebuffer_size(screen).1)
    } else {
        0
    }
}

/// The grid that a guest is told of: that of the cells of the size that is
/// set, or none before a size other than zero is set and the framebuffer
/// is known.
pub open spec fn guest_grid(screen: Screen) -> Option<(usize, usize)> {
    match (screen.cell(), screen.writer()) {
        (Some(size), Some(w)) => if size > 0 {
            Some(grid_of(w.info(), size))
        } else {
            None
        },
        _ => None,
    }
}

/// The grid that a guest is told of.
fn grid_for_guest(screen: &Screen) -> (grid: Option<(usize, usize)>)
    ensures
        grid == guest_grid(*screen),
{
    match screen.cell_size() {
        Some(size) => if size > 0 && screen.is_initialized() {
            grid_size(screen)
        } else {
            None
        },
        None => None,
    }
}

/// Host function `get_grid_width`: the number of columns of the grid, or
/// `0` where there is no grid yet.
pub fn host_grid_width(screen: &Screen) -> (width: i32)
    ensures
        width == match guest_grid(*screen) {
            Some(grid) => guest_number(grid.0),
            None => 0i32,
        },
{
    match grid_for_guest(screen) {
        Some(grid) => to_guest_number(grid.0),
        None => 0,
    }
}

/// Host function `get_grid_height`: the number of rows of the grid, or `0`
/// where there is no grid yet.
pub fn host_grid_height(screen: &Screen) -> (height: i32)
    ensures
        height == match guest_grid(*screen) {
            Some(grid) => guest_number(grid.1),
            None => 0i32,
        },
{
    match grid_for_guest(screen) {
        Some(grid) => to_guest_number(grid.1),
        None => 0,
    }
}

/// Host function `init_cell_size`: sets the size of the grid's cells,
/// unless it is set already.
pub fn host_init_cell_size(screen: &mut Screen, size: i32)
    ensures
        final(screen).writer() == old(screen).writer(),
        final(screen).cell() == match old(screen).cell() {
            Some(size) => Some(size),
            None => Some(extent(size)),
        },
{
    init_cell_size(screen, to_extent(size));
}

/// Host function `reset_cursor`: puts the cursor at the upper left. Does
/// nothing before the framebuffer is known.
pub fn host_reset_cursor(screen: &mut Screen)
    ensures
        final(screen).cell() == old(screen).cell(),
        match old(screen).writer() {
            None => final(screen).writer() is None,
            Some(before) => final(screen).writer() matches Some(w) && w.info() == before.info()
                && w@ == (Console { bytes: before@.bytes, x: 1, y: 1 }),
        },
{
    if screen.is_initialized() {
        reset_cursor(screen);
    }
}

/// Number of bytes that are read of a text of `len` bytes that a guest
/// prints: all of them up to `MAX_PRINT_LEN`.
pub fn print_length(len: i32) -> (count: usize)
    ensures
        count == if extent(len) < MAX_PRINT_LEN {
            extent(len)
        } else {
            MAX_PRINT_LEN
        },
{
    let len = to_extent(len);
    if len < MAX_PRINT_LEN {
        len
    } else {
        MAX_PRINT_LEN
    }
}

/// Host function `println`, after the text was read from the guest's
/// memory: writes the text and a line feed, if the text is valid UTF-8 and
/// the framebuffer is known; else nothing.
pub fn host_println(screen: &mut Screen, text: Vec<u8>)
    ensures
        final(screen).cell() == old(screen).cell(),
        match old(screen).writer() {
            Some(before) if vstd::utf8::valid_utf8(text@) => final(screen).writer() matches Some(
                w,
            ) && w.info() == before.info() && w@ == typed_all(
                w.info(),
                typed_all(w.info(), before@, vstd::utf8::decode_utf8(text@)),
                "\n"@,
            ),
            _ => final(screen).writer() == old(screen).writer(),
        },
{
    if !screen.is_initialized() {
        return ;
    }
    match string_from_utf8(text) {
        Some(line) => {
            _print(screen, line.as_str());
            _print(screen, "\n");
        },
        None => {},
    }
}

} // verus!
