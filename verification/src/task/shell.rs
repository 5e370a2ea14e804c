//! The command shell: what the keys that are typed lead to.
//!
//! The shell collects the characters of a line, completes commands and
//! paths on request, and carries out the line when it is entered. What it
//! has to say it writes to the display.

use vstd::prelude::*;
use vstd::string::StringExecFns;
use crate::filesystem::error::Error;
use crate::filesystem::path::{name_of, name_start};
use crate::filesystem::{
    dir_listing,
    metadata_views,
    text_result,
    FileMetadata,
    FileSystem,
    FileType,
    MetadataView,
};
use crate::framebuffer::{_print, clear, cleared, typed_all, Console, FrameBufferInfo, Screen};
use crate::task::keyboard::{decoded, seen_after, Decoded, Key, KeyDecoder};
use crate::wasm_game::{
    console_after_key,
    handle_scancode,
    is_escape,
    is_game_running,
    key_code,
    GameState,
};
use crate::text::{
    decimal,
    range_equals,
    range_starts_with,
    starts_with,
    string_pop,
    string_push,
    to_decimal,
    word_ranges,
    words,
};

verus! {

/// Number of commands that the shell knows.
pub const COMMAND_COUNT: usize = 8;

/// The commands that the shell knows, in the order in which it names them.
pub open spec fn commands() -> Seq<Seq<char>> {
    seq!["help"@, "echo"@, "cat"@, "ls"@, "version"@, "clear"@, "snake"@, "cowsay"@]
}

/// The name of command `i`.
pub fn command(i: usize) -> (name: &'static str)
    requires
        i < COMMAND_COUNT,
    ensures
        name@ == commands()[i as int],
{
    if i == 0 {
        "help"
    } else if i == 1 {
        "echo"
    } else if i == 2 {
        "cat"
    } else if i == 3 {
        "ls"
    } else if i == 4 {
        "version"
    } else if i == 5 {
        "clear"
    } else if i == 6 {
        "snake"
    } else {
        "cowsay"
    }
}

/// The games that the shell can start.
#[derive(Clone, Copy, Debug, PartialEq, Eq, Structural)]
pub enum Game {
    Snake,
    Cowsay,
}

/// What a line asks for.
#[derive(Debug)]
pub enum Command {
    /// The line holds no word.
    Nothing,
    Help,
    Version,
    Clear,
    Start(Game),
    /// List the directory at the path.
    List(String),
    /// `cat` without a path.
    Usage,
    /// Show the file at the path.
    Show(String),
    /// The first word is no command.
    Unknown(String),
}

/// What a line asks for, as plain values.
pub enum CommandView {
    Nothing,
    Help,
    Version,
    Clear,
    Start(Game),
    List(Seq<char>),
    Usage,
    Show(Seq<char>),
    Unknown(Seq<char>),
}

impl View for Command {
    type V = CommandView;

    open spec fn view(&self) -> CommandView {
        match self {
            Command::Nothing => CommandView::Nothing,
            Command::Help => CommandView::Help,
            Command::Version => CommandView::Version,
            Command::Clear => CommandView::Clear,
            Command::Start(game) => CommandView::Start(*game),
            Command::List(path) => CommandView::List(path@),
            Command::Usage => CommandView::Usage,
            Command::Show(path) => CommandView::Show(path@),
            Command::Unknown(word) => CommandView::Unknown(word@),
        }
    }
}

/// What a line asks for: its first word is the command, its second the
/// path that `ls` and `cat` work on. `ls` without a path lists the root.
pub open spec fn parsed(line: Seq<char>) -> CommandView {
    let w = words(line);
    if w.len() == 0 {
        CommandView::Nothing
    } else if w[0] == "help"@ {
        CommandView::Help
    } else if w[0] == "version"@ {
        CommandView::Version
    } else if w[0] == "clear"@ {
        CommandView::Clear
    } else if w[0] == "snake"@ {
        CommandView::Start(Game::Snake)
    } else if w[0] == "cowsay"@ {
        CommandView::Start(Game::Cowsay)
    } else if w[0] == "ls"@ {
        CommandView::List(
            if w.len() > 1 {
                w[1]
            } else {
                "/"@
            },
        )
    } else if w[0] == "cat"@ {
        if w.len() > 1 {
            CommandView::Show(w[1])
        } else {
            CommandView::Usage
        }
    } else {
        CommandView::Unknown(w[0])
    }
}

/// What a line asks for.
pub fn parse_command(line: &str) -> (command: Command)
    ensures
        command@ == parsed(line@),
{
    let ranges = word_ranges(line);
    if ranges.len() == 0 {
        return Command::Nothing;
    }
    let (a, b) = ranges[0];
    if range_equals(line, a, b, "help") {
        Command::Help
    } else if range_equals(line, a, b, "version") {
        Command::Version
    } else if range_equals(line, a, b, "clear") {
        Command::Clear
    } else if range_equals(line, a, b, "snake") {
        Command::Start(Game::Snake)
    } else if range_equals(line, a, b, "cowsay") {
        Command::Start(Game::Cowsay)
    } else if range_equals(line, a, b, "ls") {
        if ranges.len() > 1 {
            let (c, d) = ranges[1];
            Command::List(String::from_str(line.substring_char(c, d)))
        } else {
            Command::List(String::from_str("/"))
        }
    } else if range_equals(line, a, b, "cat") {
        if ranges.len() > 1 {
            let (c, d) = ranges[1];
            Command::Show(String::from_str(line.substring_char(c, d)))
        } else {
            Command::Usage
        }
    } else {
        Command::Unknown(String::from_str(line.substring_char(a, b)))
    }
}

/// What `help` says: the commands, separated by commas.
pub open spec fn help_text() -> Seq<char> {
    "Available commands: "@ + "help"@ + ", "@ + "echo"@ + ", "@ + "cat"@ + ", "@ + "ls"@ + ", "@
        + "version"@ + ", "@ + "clear"@ + ", "@ + "snake"@ + ", "@ + "cowsay"@ + "\n"@
}

/// What `version` says.
pub open spec fn version_text() -> Seq<char> {
    "RustOS v0.1.0\n"@
}

/// What `cat` without a path says.
pub open spec fn usage_text() -> Seq<char> {
    "Usage: cat <file>\n"@
}

/// What a line says whose first word is no command.
pub open spec fn unknown_text(word: Seq<char>) -> Seq<char> {
    "Unknown command: '"@ + word + "'. Type 'help' for a list of commands.\n"@
}

/// What starting a game says.
pub open spec fn starting_text(game: Game) -> Seq<char> {
    match game {
        Game::Snake => "Starting Snake...\n"@,
        Game::Cowsay => "Starting Cowsay...\n"@,
    }
}

/// The line of a directory listing for one entry: a directory's name is
/// followed by `/`, a file's by its size.
pub open spec fn entry_line(entry: MetadataView) -> Seq<char> {
    match entry.file_type {
        FileType::Dir => name_of(entry.path) + "/\n"@,
        FileType::File => name_of(entry.path) + "  ("@ + decimal(entry.size as nat) + " bytes)\n"@,
        _ => name_of(entry.path) + "\n"@,
    }
}

/// The lines of a directory listing for the first `n` entries.
pub open spec fn entry_lines(entries: Seq<MetadataView>, n: int) -> Seq<char>
    decreases n,
{
    if n <= 0 {
        Seq::empty()
    } else {
        entry_lines(entries, n - 1) + entry_line(entries[n - 1])
    }
}

/// What `command: path: error` says.
pub open spec fn failure_text(command: Seq<char>, path: Seq<char>, e: Error) -> Seq<char> {
    command + ": "@ + path + ": "@ + e.variant_name() + "\n"@
}

/// What a command says where there is no file system.
pub open spec fn no_filesystem_text(command: Seq<char>) -> Seq<char> {
    command + ": filesystem not initialized\n"@
}

/// What `ls` says for a path, given what the file system said of it,
/// `None` standing for no file system.
pub open spec fn ls_text(
    path: Seq<char>,
    listing: Option<Result<Seq<MetadataView>, Error>>,
) -> Seq<char> {
    match listing {
        Some(Ok(entries)) => if entries.len() == 0 {
            "(empty)\n"@
        } else {
            entry_lines(entries, entries.len() as int)
        },
        Some(Err(e)) => failure_text("ls"@, path, e),
        None => no_filesystem_text("ls"@),
    }
}

/// What `cat` says for a path, given what the file system said of it,
/// `None` standing for no file system.
pub open spec fn cat_text(path: Seq<char>, contents: Option<Result<Seq<char>, Error>>) -> Seq<
    char,
> {
    match contents {
        Some(Ok(text)) => text,
        Some(Err(e)) => failure_text("cat"@, path, e),
        None => no_filesystem_text("cat"@),
    }
}

/// What `help` says.
pub fn help() -> (text: String)
    ensures
        text@ == help_text(),
{
    let mut text = String::from_str("Available commands: ");
    let mut i: usize = 0;
    while i < COMMAND_COUNT
        invariant
            i <= COMMAND_COUNT,
            text@ == "Available commands: "@ + listed(i as int),
        decreases COMMAND_COUNT - i,
    {
        let ghost before = text@;
        if i > 0 {
            text.append(", ");
        }
        text.append(command(i));
        assert(text@ =~= "Available commands: "@ + listed(i as int + 1));
        i = i + 1;
    }
    text.append("\n");
    proof {
        reveal_with_fuel(listed, 9);
        assert(text@ =~= help_text());
    }
    text
}

/// The first `n` commands, separated by commas.
spec fn listed(n: int) -> Seq<char>
    decreases n,
{
    if n <= 0 {
        Seq::empty()
    } else if n == 1 {
        commands()[0]
    } else {
        listed(n - 1) + ", "@ + commands()[n - 1]
    }
}

/// What a line says whose first word is no command.
pub fn unknown(word: &str) -> (text: String)
    ensures
        text@ == unknown_text(word@),
{
    String::from_str("Unknown command: '").concat(word).concat(
        "'. Type 'help' for a list of commands.\n",
    )
}

/// What `command: path: error` says.
pub fn failure(command: &str, path: &str, e: Error) -> (text: String)
    ensures
        text@ == failure_text(command@, path@, e),
{
    String::from_str(command).concat(": ").concat(path).concat(": ").concat(e.name()).concat("\n")
}

/// What a command says where there is no file system.
pub fn no_filesystem(command: &str) -> (text: String)
    ensures
        text@ == no_filesystem_text(command@),
{
    String::from_str(command).concat(": filesystem not initialized\n")
}

/// The line of a directory listing for one entry.
pub fn line_of(entry: &FileMetadata) -> (text: String)
    ensures
        text@ == entry_line(entry@),
{
    let name = String::from_str(entry.name());
    match entry.file_type {
        FileType::Dir => name.concat("/\n"),
        FileType::File => {
            let size = to_decimal(entry.size);
            name.concat("  (").concat(size.as_str()).concat(" bytes)\n")
        },
        _ => name.concat("\n"),
    }
}

/// What `ls` says of the entries of a directory.
pub fn listing(entries: &Vec<FileMetadata>) -> (text: String)
    ensures
        text@ == ls_text(Seq::empty(), Some(Ok(metadata_views(entries@)))),
{
    if entries.len() == 0 {
        return String::from_str("(empty)\n");
    }
    let ghost views = metadata_views(entries@);
    let mut text = String::new();
    let mut i: usize = 0;
    while i < entries.len()
        invariant
            i <= entries.len(),
            views == metadata_views(entries@),
            text@ == entry_lines(views, i as int),
        decreases entries.len() - i,
    {
        let line = line_of(&entries[i]);
        assert(views[i as int] == entries@[i as int]@);
        text.append(line.as_str());
        i = i + 1;
    }
    text
}

/// What the file system says of the directory at `path`; `None` where
/// there is no file system.
pub open spec fn listing_of(filesystem: Option<FileSystem>, path: Seq<char>) -> Option<
    Result<Seq<MetadataView>, Error>,
> {
    match filesystem {
        Some(fs) => Some(dir_listing(fs.entries(), path)),
        None => None,
    }
}

/// What the file system says of the text of the file at `path`; `None`
/// where there is no file system.
pub open spec fn contents_of(filesystem: Option<FileSystem>, path: Seq<char>) -> Option<
    Result<Seq<char>, Error>,
> {
    match filesystem {
        Some(fs) => Some(text_result(fs.image(), fs.entries(), path)),
        None => None,
    }
}

/// The console after a command was carried out. `clear` and the games
/// clear the screen, the games after saying that they start; every other
/// command writes what it has to say.
pub open spec fn executed(
    info: FrameBufferInfo,
    console: Console,
    command: CommandView,
    filesystem: Option<FileSystem>,
) -> Console {
    match command {
        CommandView::Nothing => console,
        CommandView::Help => typed_all(info, console, help_text()),
        CommandView::Version => typed_all(info, console, version_text()),
        CommandView::Clear => cleared(console),
        CommandView::Start(game) => cleared(typed_all(info, console, starting_text(game))),
        CommandView::List(path) => typed_all(
            info,
            console,
            ls_text(path, listing_of(filesystem, path)),
        ),
        CommandView::Usage => typed_all(info, console, usage_text()),
        CommandView::Show(path) => typed_all(
            info,
            console,
            cat_text(path, contents_of(filesystem, path)),
        ),
        CommandView::Unknown(word) => typed_all(info, console, unknown_text(word)),
    }
}

/// The file system is the same as before, if there is one.
pub open spec fn same_filesystem(before: Option<FileSystem>, after: Option<FileSystem>) -> bool {
    match before {
        Some(b) => after matches Some(a) && a.image() == b.image() && a.entries() == b.entries(),
        None => after is None,
    }
}

/// What `ls` says for a path.
pub fn cmd_ls(path: &str, filesystem: &Option<FileSystem>) -> (text: String)
    ensures
        text@ == ls_text(path@, listing_of(*filesystem, path@)),
{
    match filesystem {
        Some(fs) => match fs.read_dir(path) {
            Ok(entries) => listing(&entries),
            Err(e) => failure("ls", path, e),
        },
        None => no_filesystem("ls"),
    }
}

/// What `cat` says for a path.
pub fn cmd_cat(path: &str, filesystem: &mut Option<FileSystem>) -> (text: String)
    ensures
        same_filesystem(*old(filesystem), *final(filesystem)),
        text@ == cat_text(path@, contents_of(*old(filesystem), path@)),
{
    match filesystem.take() {
        Some(mut fs) => {
            let text = match fs.read_to_string(path) {
                Ok(text) => text,
                Err(e) => failure("cat", path, e),
            };
            *filesystem = Some(fs);
            text
        },
        None => no_filesystem("cat"),
    }
}

/// Carries out a line: writes what the command has to say, and returns the
/// game to start, if the line asks for one.
pub fn execute_command(command: &str, screen: &mut Screen, filesystem: &mut Option<FileSystem>) -> (game:
    Option<Game>)
    requires
        old(screen).writer() is Some,
    ensures
        final(screen).cell() == old(screen).cell(),
        same_filesystem(*old(filesystem), *final(filesystem)),
        game == match parsed(command@) {
            CommandView::Start(game) => Some(game),
            _ => None::<Game>,
        },
        final(screen).writer() matches Some(w) && w.info() == old(screen).writer().unwrap().info()
            && w@ == executed(
            w.info(),
            old(screen).writer().unwrap()@,
            parsed(command@),
            *old(filesystem),
        ),
{
    match parse_command(command) {
        Command::Nothing => None,
        Command::Help => {
            _print(screen, help().as_str());
            None
        },
        Command::Version => {
            _print(screen, "RustOS v0.1.0\n");
            None
        },
        Command::Clear => {
            clear(screen);
            None
        },
        Command::Start(game) => {
            match game {
                Game::Snake => _print(screen, "Starting Snake...\n"),
                Game::Cowsay => _print(screen, "Starting Cowsay...\n"),
            }
            clear(screen);
            Some(game)
        },
        Command::List(path) => {
            _print(screen, cmd_ls(path.as_str(), filesystem).as_str());
            None
        },
        Command::Usage => {
            _print(screen, "Usage: cat <file>\n");
            None
        },
        Command::Show(path) => {
            _print(screen, cmd_cat(path.as_str(), filesystem).as_str());
            None
        },
        Command::Unknown(word) => {
            _print(screen, unknown(word.as_str()).as_str());
            None
        },
    }
}

/// Whether the line ends in a blank, so that what is typed next starts a
/// new word.
pub open spec fn new_argument(buffer: Seq<char>) -> bool {
    buffer.len() > 0 && buffer.last() == ' '
}

/// Whether it is the command that is being typed: the line holds no word,
/// or one that is not finished.
pub open spec fn completes_command(buffer: Seq<char>) -> bool {
    let w = words(buffer);
    w.len() == 0 || (w.len() == 1 && !new_argument(buffer))
}

/// Those of the first `n` commands that start with `prefix`, in their order.
pub open spec fn matching_commands(prefix: Seq<char>, n: int) -> Seq<Seq<char>>
    decreases n,
{
    if n <= 0 {
        Seq::empty()
    } else if starts_with(commands()[n - 1], prefix) {
        matching_commands(prefix, n - 1).push(commands()[n - 1])
    } else {
        matching_commands(prefix, n - 1)
    }
}

/// The first `n` names, each followed by a blank.
pub open spec fn spaced(names: Seq<Seq<char>>, n: int) -> Seq<char>
    decreases n,
{
    if n <= 0 {
        Seq::empty()
    } else {
        spaced(names, n - 1) + names[n - 1] + " "@
    }
}

/// What is written where there is more than one way to go on: the choices
/// on a line of their own, and the prompt with the line again.
pub open spec fn choices_text(shown: Seq<char>, buffer: Seq<char>) -> Seq<char> {
    "\n"@ + shown + "\n"@ + "> "@ + buffer
}

/// What a request for completion leads to.
pub enum CompletionView {
    /// Nothing fits.
    Nothing,
    /// One thing fits: the text is added to the line and written.
    Extend(Seq<char>),
    /// More than one thing fits: the text is written, the line stays.
    Choices(Seq<char>),
}

/// What a request for completion leads to.
#[derive(Debug)]
pub enum Completion {
    Nothing,
    Extend(String),
    Choices(String),
}

impl View for Completion {
    type V = CompletionView;

    open spec fn view(&self) -> CompletionView {
        match self {
            Completion::Nothing => CompletionView::Nothing,
            Completion::Extend(text) => CompletionView::Extend(text@),
            Completion::Choices(text) => CompletionView::Choices(text@),
        }
    }
}

/// The completion of the command: the rest of the one command that starts
/// with what is typed, followed by a blank, or all commands that do.
pub open spec fn command_completion(buffer: Seq<char>) -> CompletionView {
    let w = words(buffer);
    let prefix = if w.len() == 0 {
        Seq::empty()
    } else {
        w[0]
    };
    let fitting = matching_commands(prefix, 8);
    if fitting.len() == 1 {
        CompletionView::Extend(
            fitting[0].subrange(prefix.len() as int, fitting[0].len() as int) + " "@,
        )
    } else if fitting.len() > 1 {
        CompletionView::Choices(choices_text(spaced(fitting, fitting.len() as int), buffer))
    } else {
        CompletionView::Nothing
    }
}

/// The word that is being typed: empty after a blank.
pub open spec fn last_argument(buffer: Seq<char>) -> Seq<char> {
    if new_argument(buffer) || words(buffer).len() == 0 {
        Seq::empty()
    } else {
        words(buffer).last()
    }
}

/// The directory in which a path that is being typed is completed: what
/// stands before its last separator, or the root.
pub open spec fn completion_dir(argument: Seq<char>) -> Seq<char> {
    let k = name_start(argument);
    if k <= 1 {
        "/"@
    } else {
        argument.subrange(0, k - 1)
    }
}

/// The start of the name that is being typed: what stands after the last
/// separator of the path.
pub open spec fn completion_prefix(argument: Seq<char>) -> Seq<char> {
    argument.subrange(name_start(argument) as int, argument.len() as int)
}

/// Those of the first `n` entries whose names start with `prefix`, in
/// their order.
pub open spec fn candidates(entries: Seq<MetadataView>, prefix: Seq<char>, n: int) -> Seq<
    MetadataView,
>
    decreases n,
{
    if n <= 0 {
        Seq::empty()
    } else if starts_with(name_of(entries[n - 1].path), prefix) {
        candidates(entries, prefix, n - 1).push(entries[n - 1])
    } else {
        candidates(entries, prefix, n - 1)
    }
}

/// The name that an entry is shown by: a directory's ends in a separator.
pub open spec fn shown_name(entry: MetadataView) -> Seq<char> {
    if entry.file_type == FileType::Dir {
        name_of(entry.path) + "/"@
    } else {
        name_of(entry.path)
    }
}

/// The names that the first `n` entries are shown by, each followed by a
/// blank.
pub open spec fn spaced_entries(entries: Seq<MetadataView>, n: int) -> Seq<char>
    decreases n,
{
    if n <= 0 {
        Seq::empty()
    } else {
        spaced_entries(entries, n - 1) + shown_name(entries[n - 1]) + " "@
    }
}

/// The completion of a path, given what the file system said of the
/// directory: the rest of the one name that starts with what is typed, or
/// all names that do. A directory that cannot be listed has no names;
/// without a file system nothing happens.
pub open spec fn path_completion(
    buffer: Seq<char>,
    listing: Option<Result<Seq<MetadataView>, Error>>,
) -> CompletionView {
    match listing {
        None => CompletionView::Nothing,
        Some(result) => {
            let prefix = completion_prefix(last_argument(buffer));
            let fitting = match result {
                Ok(entries) => candidates(entries, prefix, entries.len() as int),
                Err(_) => Seq::empty(),
            };
            if fitting.len() == 1 {
                CompletionView::Extend(
                    shown_name(fitting[0]).subrange(
                        prefix.len() as int,
                        shown_name(fitting[0]).len() as int,
                    ),
                )
            } else if fitting.len() > 1 {
                CompletionView::Choices(
                    choices_text(spaced_entries(fitting, fitting.len() as int), buffer),
                )
            } else {
                CompletionView::Nothing
            }
        },
    }
}

/// What a request for completion leads to for a line.
pub open spec fn completion(buffer: Seq<char>, filesystem: Option<FileSystem>) -> CompletionView {
    if completes_command(buffer) {
        command_completion(buffer)
    } else {
        path_completion(
            buffer,
            listing_of(filesystem, completion_dir(last_argument(buffer))),
        )
    }
}

/// What is written where there is more than one way to go on.
fn choices(shown: String, buffer: &str) -> (text: String)
    ensures
        text@ == choices_text(shown@, buffer@),
{
    String::from_str("\n").concat(shown.as_str()).concat("\n").concat("> ").concat(buffer)
}

/// The completion of the command whose start is `buffer[from..to]`.
fn complete_command(buffer: &str, from: usize, to: usize) -> (found: Completion)
    requires
        from <= to <= buffer@.len(),
    ensures
        ({
            let prefix = buffer@.subrange(from as int, to as int);
            let fitting = matching_commands(prefix, 8);
            found@ == if fitting.len() == 1 {
                CompletionView::Extend(
                    fitting[0].subrange(prefix.len() as int, fitting[0].len() as int) + " "@,
                )
            } else if fitting.len() > 1 {
                CompletionView::Choices(choices_text(spaced(fitting, fitting.len() as int), buffer@))
            } else {
                CompletionView::Nothing
            }
        }),
{
    let prefix = buffer.substring_char(from, to);
    let mut count: usize = 0;
    let mut only: usize = 0;
    let mut shown = String::new();
    let mut i: usize = 0;
    while i < COMMAND_COUNT
        invariant
            i <= COMMAND_COUNT,
            prefix@ == buffer@.subrange(from as int, to as int),
            count == matching_commands(prefix@, i as int).len(),
            count <= i,
            shown@ == spaced(matching_commands(prefix@, i as int), count as int),
            count > 0 ==> only < COMMAND_COUNT && commands()[only as int] == matching_commands(
                prefix@,
                i as int,
            )[0] && starts_with(commands()[only as int], prefix@),
        decreases COMMAND_COUNT - i,
    {
        let name = command(i);
        let ghost before = matching_commands(prefix@, i as int);
        let len = name.unicode_len();
        assert(name@.subrange(0, len as int) =~= name@);
        if range_starts_with(name, 0, len, prefix) {
            if count == 0 {
                only = i;
            }
            shown.append(name);
            shown.append(" ");
            proof {
                let after = before.push(name@);
                lemma_spaced_prefix(before, after, count as int);
                assert(shown@ =~= spaced(after, count as int + 1));
            }
            count = count + 1;
        }
        i = i + 1;
    }
    if count == 1 {
        let name = command(only);
        let len = name.unicode_len();
        let skip = prefix.unicode_len();
        Completion::Extend(String::from_str(name.substring_char(skip, len)).concat(" "))
    } else if count > 1 {
        Completion::Choices(choices(shown, buffer))
    } else {
        Completion::Nothing
    }
}

/// The blank-separated text of the first `n` names does not depend on what
/// follows them.
proof fn lemma_spaced_prefix(names: Seq<Seq<char>>, more: Seq<Seq<char>>, n: int)
    requires
        n <= names.len() <= more.len(),
        forall|i: int| 0 <= i < names.len() ==> names[i] == more[i],
    ensures
        spaced(names, n) == spaced(more, n),
    decreases n,
{
    if n > 0 {
        lemma_spaced_prefix(names, more, n - 1);
    }
}

proof fn lemma_spaced_entries_prefix(names: Seq<MetadataView>, more: Seq<MetadataView>, n: int)
    requires
        n <= names.len() <= more.len(),
        forall|i: int| 0 <= i < names.len() ==> names[i] == more[i],
    ensures
        spaced_entries(names, n) == spaced_entries(more, n),
    decreases n,
{
    if n > 0 {
        lemma_spaced_entries_prefix(names, more, n - 1);
    }
}

/// Where in `text[from..to]` its last component starts, counted from `from`.
fn name_start_in(text: &str, from: usize, to: usize) -> (k: usize)
    requires
        from <= to <= text@.len(),
    ensures
        k == name_start(text@.subrange(from as int, to as int)),
        k <= to - from,
{
    let ghost t = text@.subrange(from as int, to as int);
    let mut end = to;
    assert(t.subrange(0, to - from) =~= t);
    while end > from && text.get_char(end - 1) != '/'
        invariant
            from <= end <= to <= text@.len(),
            t == text@.subrange(from as int, to as int),
            name_start(t) == name_start(t.subrange(0, end - from)),
        decreases end,
    {
        assert(t.subrange(0, end - from).drop_last() =~= t.subrange(0, end - from - 1));
        end = end - 1;
    }
    end - from
}

/// The names of a directory that start with `prefix`, as a completion.
#[verifier::rlimit(30)]
fn complete_name(buffer: &str, entries: &Vec<FileMetadata>, prefix: &str) -> (found: Completion)
    ensures
        ({
            let fitting = candidates(metadata_views(entries@), prefix@, entries@.len() as int);
            found@ == if fitting.len() == 1 {
                CompletionView::Extend(
                    shown_name(fitting[0]).subrange(
                        prefix@.len() as int,
                        shown_name(fitting[0]).len() as int,
                    ),
                )
            } else if fitting.len() > 1 {
                CompletionView::Choices(
                    choices_text(spaced_entries(fitting, fitting.len() as int), buffer@),
                )
            } else {
                CompletionView::Nothing
            }
        }),
{
    let ghost views = metadata_views(entries@);
    let mut count: usize = 0;
    let mut only: usize = 0;
    let mut shown = String::new();
    let mut i: usize = 0;
    while i < entries.len()
        invariant
            i <= entries.len(),
            views == metadata_views(entries@),
            count == candidates(views, prefix@, i as int).len(),
            count <= i,
            shown@ == spaced_entries(candidates(views, prefix@, i as int), count as int),
            count > 0 ==> only < i && views[only as int] == candidates(views, prefix@, i as int)[0]
                && starts_with(name_of(views[only as int].path), prefix@),
        decreases entries.len() - i,
    {
        let entry = &entries[i];
        assert(views[i as int] == entry@);
        let ghost before = candidates(views, prefix@, i as int);
        let name = entry.name();
        let len = name.unicode_len();
        assert(name@.subrange(0, len as int) =~= name@);
        if range_starts_with(name, 0, len, prefix) {
            if count == 0 {
                only = i;
            }
            shown.append(name);
            match entry.file_type {
                FileType::Dir => {
                    shown.append("/");
                },
                _ => {},
            }
            shown.append(" ");
            proof {
                let after = before.push(entry@);
                lemma_spaced_entries_prefix(before, after, count as int);
                assert(shown@ =~= spaced_entries(after, count as int + 1));
            }
            count = count + 1;
        }
        i = i + 1;
    }
    if count == 1 {
        let entry = &entries[only];
        assert(views[only as int] == entry@);
        let name = entry.name();
        let len = name.unicode_len();
        let skip = prefix.unicode_len();
        let rest = String::from_str(name.substring_char(skip, len));
        let ghost shown_as = shown_name(entry@);
        match entry.file_type {
            FileType::Dir => {
                let text = rest.concat("/");
                assert(text@ =~= shown_as.subrange(skip as int, shown_as.len() as int));
                Completion::Extend(text)
            },
            _ => {
                assert(rest@ =~= shown_as.subrange(skip as int, shown_as.len() as int));
                Completion::Extend(rest)
            },
        }
    } else if count > 1 {
        Completion::Choices(choices(shown, buffer))
    } else {
        Completion::Nothing
    }
}

/// What a request for completion leads to for the line `buffer`.
pub fn complete(buffer: &str, filesystem: &Option<FileSystem>) -> (found: Completion)
    ensures
        found@ == completion(buffer@, *filesystem),
{
    let ranges = word_ranges(buffer);
    let n = buffer.unicode_len();
    let new_arg = n > 0 && buffer.get_char(n - 1) == ' ';
    if ranges.len() == 0 {
        assert(buffer@.subrange(0, 0) =~= Seq::<char>::empty());
        return complete_command(buffer, 0, 0);
    }
    if ranges.len() == 1 && !new_arg {
        let (a, b) = ranges[0];
        return complete_command(buffer, a, b);
    }
    let (a, b) = if new_arg {
        (n, n)
    } else {
        ranges[ranges.len() - 1]
    };
    let ghost argument = buffer@.subrange(a as int, b as int);
    assert(argument =~= last_argument(buffer@));
    let k = name_start_in(buffer, a, b);
    let prefix = buffer.substring_char(a + k, b);
    assert(prefix@ =~= completion_prefix(argument));
    let dir = if k <= 1 {
        "/"
    } else {
        let d = buffer.substring_char(a, a + k - 1);
        assert(d@ =~= argument.subrange(0, k - 1));
        d
    };
    match filesystem {
        None => Completion::Nothing,
        Some(fs) => match fs.read_dir(dir) {
            Ok(entries) => complete_name(buffer, &entries, prefix),
            Err(_) => {
                let none: Vec<FileMetadata> = Vec::new();
                complete_name(buffer, &none, prefix)
            },
        },
    }
}

/// Completes the line on request: where one thing fits, it is added to the
/// line and written; where more than one fits, the choices are written.
pub fn autocomplete(buffer: &mut String, screen: &mut Screen, filesystem: &Option<FileSystem>)
    requires
        old(screen).writer() is Some,
    ensures
        final(screen).cell() == old(screen).cell(),
        final(screen).writer() matches Some(w) && w.info() == old(screen).writer().unwrap().info()
            && match completion(old(buffer)@, *filesystem) {
            CompletionView::Nothing => final(buffer)@ == old(buffer)@ && w@ == old(screen).writer().unwrap()@,
            CompletionView::Extend(text) => final(buffer)@ == old(buffer)@ + text && w@
                == typed_all(w.info(), old(screen).writer().unwrap()@, text),
            CompletionView::Choices(text) => final(buffer)@ == old(buffer)@ && w@ == typed_all(
                w.info(),
                old(screen).writer().unwrap()@,
                text,
            ),
        },
{
    match complete(buffer.as_str(), filesystem) {
        Completion::Nothing => {},
        Completion::Extend(text) => {
            buffer.append(text.as_str());
            _print(screen, text.as_str());
        },
        Completion::Choices(text) => {
            _print(screen, text.as_str());
        },
    }
}

/// The line after a key was pressed: empty after return, shorter by one
/// after backspace, completed after tab, longer by one after any other
/// character; keys without a character leave it alone.
pub open spec fn line_after(line: Seq<char>, key: Key, filesystem: Option<FileSystem>) -> Seq<char> {
    match key {
        Key::Raw(_) => line,
        Key::Unicode(c) => if c == '\n' {
            Seq::empty()
        } else if c == '\x08' {
            if line.len() > 0 {
                line.drop_last()
            } else {
                line
            }
        } else if c == '\t' {
            match completion(line, filesystem) {
                CompletionView::Extend(text) => line + text,
                _ => line,
            }
        } else {
            line.push(c)
        },
    }
}

/// The game that a key starts: the one that the line asks for, if the key
/// is return.
pub open spec fn started_by(line: Seq<char>, key: Key) -> Option<Game> {
    match (key, parsed(line)) {
        (Key::Unicode('\n'), CommandView::Start(game)) => Some(game),
        _ => None,
    }
}

/// The console after a key was pressed. Return writes a line feed and what
/// the command has to say, and then the prompt unless a game is started.
/// Backspace is written if it took a character off the line. Tab writes
/// the completion or the choices. Any other character is written.
pub open spec fn console_after(
    info: FrameBufferInfo,
    console: Console,
    line: Seq<char>,
    key: Key,
    filesystem: Option<FileSystem>,
) -> Console {
    match key {
        Key::Raw(_) => console,
        Key::Unicode(c) => if c == '\n' {
            let done = executed(info, typed_all(info, console, "\n"@), parsed(line), filesystem);
            if started_by(line, key) is Some {
                done
            } else {
                typed_all(info, done, "> "@)
            }
        } else if c == '\x08' {
            if line.len() > 0 {
                typed_all(info, console, seq![c])
            } else {
                console
            }
        } else if c == '\t' {
            match completion(line, filesystem) {
                CompletionView::Nothing => console,
                CompletionView::Extend(text) => typed_all(info, console, text),
                CompletionView::Choices(text) => typed_all(info, console, text),
            }
        } else {
            typed_all(info, console, seq![c])
        },
    }
}

/// The shell: the line that is being typed.
pub struct Shell {
    command_buffer: String,
}

impl Shell {
    /// The line that is being typed.
    pub closed spec fn line(self) -> Seq<char> {
        self.command_buffer@
    }

    /// A shell with an empty line.
    pub fn new() -> (shell: Shell)
        ensures
            shell.line() == Seq::<char>::empty(),
    {
        Shell { command_buffer: String::new() }
    }

    /// Writes the prompt.
    pub fn prompt(&self, screen: &mut Screen)
        requires
            old(screen).writer() is Some,
        ensures
            final(screen).cell() == old(screen).cell(),
            final(screen).writer() matches Some(w) && w.info() == old(screen).writer().unwrap().info()
                && w@ == typed_all(w.info(), old(screen).writer().unwrap()@, "> "@),
    {
        _print(screen, "> ");
    }

    /// A key was pressed.
    ///
    /// Return ends the line: the line is carried out and left empty. Where
    /// it starts a game, the game is returned and the prompt is left to the
    /// caller, to be written once the game is set up; else the prompt is
    /// written. Backspace takes the last character off the line, if there
    /// is one, and is written. Tab completes the line. Any other character
    /// is added to the line and written. Keys without a character do
    /// nothing.
    #[verifier::rlimit(30)]
    pub fn key_pressed(
        &mut self,
        key: Key,
        screen: &mut Screen,
        filesystem: &mut Option<FileSystem>,
    ) -> (game: Option<Game>)
        requires
            old(screen).writer() is Some,
        ensures
            final(screen).cell() == old(screen).cell(),
            same_filesystem(*old(filesystem), *final(filesystem)),
            game == started_by(old(self).line(), key),
            final(self).line() == line_after(old(self).line(), key, *old(filesystem)),
            final(screen).writer() matches Some(w) && w.info() == old(screen).writer().unwrap().info()
                && w@ == console_after(
                w.info(),
                old(screen).writer().unwrap()@,
                old(self).line(),
                key,
                *old(filesystem),
            ),
    {
        match key {
            Key::Raw(_) => None,
            Key::Unicode(c) => {
                if c == '\n' {
                    _print(screen, "\n");
                    let game = execute_command(self.command_buffer.as_str(), screen, filesystem);
                    self.command_buffer = String::new();
                    if game.is_none() {
                        _print(screen, "> ");
                    }
                    game
                } else if c == '\x08' {
                    if self.command_buffer.as_str().unicode_len() > 0 {
                        string_pop(&mut self.command_buffer);
                        let mut text = String::new();
                        string_push(&mut text, c);
                        assert(text@ =~= seq![c]);
                        _print(screen, text.as_str());
                    }
                    None
                } else if c == '\t' {
                    autocomplete(&mut self.command_buffer, screen, filesystem);
                    None
                } else {
                    string_push(&mut self.command_buffer, c);
                    let mut text = String::new();
                    string_push(&mut text, c);
                    assert(text@ =~= seq![c]);
                    _print(screen, text.as_str());
                    None
                }
            },
        }
    }
}

/// What became of a scancode.
#[derive(Clone, Copy, Debug, PartialEq, Eq, Structural)]
pub struct Received {
    /// What the decoder made of the scancode.
    pub decoded: Decoded,
    /// The game to start, where the shell's line asks for one.
    pub start: Option<Game>,
}

/// A scancode came in from the keyboard: it is fed to the decoder, and the
/// key press that it makes, if it makes one, goes to the game while a game
/// runs, and else to the shell.
pub fn scancode_received(
    shell: &mut Shell,
    game: &mut GameState,
    decoder: &mut KeyDecoder,
    screen: &mut Screen,
    filesystem: &mut Option<FileSystem>,
    scancode: u8,
) -> (received: Received)
    requires
        old(screen).writer() is Some,
    ensures
        received.decoded == decoded(old(decoder).fed(), old(decoder).seen(), scancode),
        final(decoder).fed() == old(decoder).fed().push(scancode),
        final(decoder).seen() == seen_after(old(decoder).fed(), old(decoder).seen(), scancode),
        final(screen).cell() == old(screen).cell(),
        same_filesystem(*old(filesystem), *final(filesystem)),
        final(screen).writer() matches Some(w) && w.info() == old(screen).writer().unwrap().info()
            && ({
            let info = w.info();
            let before = old(screen).writer().unwrap()@;
            match received.decoded {
                Decoded::Key(key) => if old(game).running() {
                    &&& received.start is None
                    &&& final(shell).line() == old(shell).line()
                    &&& !final(game).running() == is_escape(key)
                    &&& final(game).pending() == if is_escape(key) {
                        old(game).pending()
                    } else {
                        Some(key_code(key))
                    }
                    &&& w@ == console_after_key(info, before, key)
                } else {
                    &&& received.start == started_by(old(shell).line(), key)
                    &&& final(shell).line() == line_after(old(shell).line(), key, *old(filesystem))
                    &&& !final(game).running()
                    &&& final(game).pending() == old(game).pending()
                    &&& w@ == console_after(info, before, old(shell).line(), key, *old(filesystem))
                },
                _ => {
                    &&& received.start is None
                    &&& final(shell).line() == old(shell).line()
                    &&& final(game).running() == old(game).running()
                    &&& final(game).pending() == old(game).pending()
                    &&& w@ == before
                },
            }
        }),
{
    if is_game_running(game) {
        let decoded = handle_scancode(game, decoder, screen, scancode);
        Received { decoded, start: None }
    } else {
        let decoded = decoder.decode(scancode);
        let start = match decoded {
            Decoded::Key(key) => shell.key_pressed(key, screen, filesystem),
            _ => None,
        };
        Received { decoded, start }
    }
}

} // verus!
