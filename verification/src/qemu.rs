//! Running the kernel in an emulator: how the kernel ends a run, and what
//! the host makes of it.
//!
//! The kernel ends a test run by writing an exit code to the emulator's
//! debug-exit port; the emulator then exits with `(code << 1) | 1`.

use vstd::prelude::*;
use vstd::string::StringExecFns;
use crate::filesystem::path::{is_kept, kept, split};
use crate::text::{range_starts_with, starts_with};

verus! {

/// The exit status of the emulator that stands for success.
pub const SUCCESS_EXIT_CODE: i32 = 33;

/// Port of the emulator's debug-exit device.
pub const DEBUG_EXIT_PORT: u16 = 0xf4;

/// Seconds after which a test run is given up.
pub const TEST_TIMEOUT_SECONDS: u64 = 300;

/// Longest time between two looks at a running emulator, in milliseconds.
pub const POLL_INTERVAL_MILLIS: u64 = 100;

/// What the emulator is run for.
#[derive(Clone, Copy, Debug, Eq, PartialEq, Structural)]
pub enum QemuMode {
    /// With a display, until it is closed.
    Run,
    /// Without a display, and not for longer than the test timeout.
    Test,
}

/// What the kernel reports when it ends a test run.
#[derive(Clone, Copy, Debug, Eq, PartialEq, Structural)]
pub enum QemuExitCode {
    Success,
    Failed,
}

impl QemuExitCode {
    /// The value that the kernel writes to the debug-exit port.
    pub open spec fn port_value(self) -> u32 {
        match self {
            QemuExitCode::Success => 0x10,
            QemuExitCode::Failed => 0x11,
        }
    }

    /// The value that the kernel writes to the debug-exit port.
    pub fn code(self) -> (value: u32)
        ensures
            value == self.port_value(),
    {
        match self {
            QemuExitCode::Success => 0x10,
            QemuExitCode::Failed => 0x11,
        }
    }

    /// The status that the emulator exits with for this code.
    pub fn host_status(self) -> (status: i32)
        ensures
            status == self.port_value() * 2 + 1,
            self == QemuExitCode::Success <==> status == SUCCESS_EXIT_CODE,
    {
        match self {
            QemuExitCode::Success => 33,
            QemuExitCode::Failed => 35,
        }
    }
}

/// The status that the runner exits with, given the emulator's: `0` where
/// the emulator reported success, `1` for any other status and where the
/// emulator was ended by a signal.
pub fn exit_status(emulator_status: Option<i32>) -> (status: i32)
    ensures
        status == if emulator_status == Some(SUCCESS_EXIT_CODE) {
            0i32
        } else {
            1i32
        },
{
    match emulator_status {
        Some(code) => if code == SUCCESS_EXIT_CODE {
            0
        } else {
            1
        },
        None => 1,
    }
}

/// What to do about an emulator that runs against a deadline.
#[derive(Clone, Copy, Debug, Eq, PartialEq, Structural)]
pub enum WaitStep {
    /// It has exited: report its status.
    Finished,
    /// The deadline has passed: kill it and report the timeout.
    TimedOut,
    /// Look again after so many milliseconds.
    Sleep(u64),
}

/// The next step of waiting for the emulator: it is done once it has
/// exited; else it is given up once the deadline has come; else it is
/// looked at again after the time that is left, but no later than after the
/// poll interval. Times are in milliseconds.
pub fn wait_step(exited: bool, now: u64, deadline: u64) -> (step: WaitStep)
    ensures
        step == if exited {
            WaitStep::Finished
        } else if now >= deadline {
            WaitStep::TimedOut
        } else if deadline - now < POLL_INTERVAL_MILLIS {
            WaitStep::Sleep((deadline - now) as u64)
        } else {
            WaitStep::Sleep(POLL_INTERVAL_MILLIS)
        },
{
    if exited {
        WaitStep::Finished
    } else if now >= deadline {
        WaitStep::TimedOut
    } else {
        let left = deadline - now;
        if left < POLL_INTERVAL_MILLIS {
            WaitStep::Sleep(left)
        } else {
            WaitStep::Sleep(POLL_INTERVAL_MILLIS)
        }
    }
}

/// Whether a kernel at `path` is a test binary: the directory it lies in is
/// named `deps`, or its name starts with `rustdoctest`.
pub open spec fn test_binary(path: Seq<char>) -> bool {
    let names = kept(split(path));
    names.len() >= 2 && (names[names.len() - 2] == "deps"@ || starts_with(
        names[names.len() - 2],
        "rustdoctest"@,
    ))
}

/// Takes note of the component `path[start..end]`, if it names something.
fn note_component(
    path: &str,
    start: usize,
    end: usize,
    parent: &mut (usize, usize),
    last: &mut (usize, usize),
    count: &mut usize,
    Ghost(names): Ghost<Seq<Seq<char>>>,
)
    requires
        start <= end <= path@.len(),
        tracks(path@, names, *old(count), *old(parent), *old(last)),
    ensures
        tracks(
            path@,
            if is_kept(path@.subrange(start as int, end as int)) {
                names.push(path@.subrange(start as int, end as int))
            } else {
                names
            },
            *final(count),
            *final(parent),
            *final(last),
        ),
{
    let ghost c = path@.subrange(start as int, end as int);
    let len = end - start;
    let named = if len == 0 {
        false
    } else if len == 1 {
        assert(c[0] == path@[start as int]);
        path.get_char(start) != '.'
    } else {
        true
    };
    assert(named == is_kept(c));
    if named {
        *parent = *last;
        *last = (start, end);
        if *count < 2 {
            *count = *count + 1;
        }
    }
}

/// Whether a kernel at `path` is a test binary: the directory it lies in is
/// named `deps`, or its name starts with `rustdoctest`.
pub fn is_test_binary(path: &str) -> (test: bool)
    ensures
        test == test_binary(path@),
{
    let n = path.unicode_len();
    // The last two components that name something, and how many there are.
    let mut parent: (usize, usize) = (0, 0);
    let mut last: (usize, usize) = (0, 0);
    let mut count: usize = 0;
    let mut start: usize = 0;
    let mut k: usize = 0;
    assert(path@.subrange(0, 0) =~= Seq::<char>::empty());
    assert(split(Seq::<char>::empty()).drop_last() =~= Seq::<Seq<char>>::empty());
    while k < n
        invariant
            n == path@.len(),
            start <= k <= n,
            split(path@.subrange(0, k as int)).len() > 0,
            split(path@.subrange(0, k as int)).last() == path@.subrange(start as int, k as int),
            tracks(
                path@,
                kept(split(path@.subrange(0, k as int)).drop_last()),
                count,
                parent,
                last,
            ),
        decreases n - k,
    {
        let ghost parts = split(path@.subrange(0, k as int));
        let ghost done = parts.drop_last();
        let ghost current = parts.last();
        let ghost after = path@.subrange(0, k as int + 1);
        let c = path.get_char(k);
        proof {
            assert(after.drop_last() =~= path@.subrange(0, k as int));
            assert(after.last() == c);
        }
        if c == '/' {
            note_component(path, start, k, &mut parent, &mut last, &mut count, Ghost(kept(done)));
            proof {
                assert(split(after) == parts.push(Seq::<char>::empty()));
                assert(split(after).drop_last() =~= parts);
                assert(parts =~= done.push(current));
                assert(done.push(current).drop_last() =~= done);
                assert(path@.subrange(k as int + 1, k as int + 1) =~= Seq::<char>::empty());
            }
            start = k + 1;
        } else {
            proof {
                assert(split(after) == parts.update(parts.len() - 1, current.push(c)));
                assert(split(after).drop_last() =~= done);
                assert(current.push(c) =~= path@.subrange(start as int, k as int + 1));
            }
        }
        k = k + 1;
    }
    let ghost parts = split(path@.subrange(0, n as int));
    note_component(
        path,
        start,
        n,
        &mut parent,
        &mut last,
        &mut count,
        Ghost(kept(parts.drop_last())),
    );
    proof {
        assert(path@.subrange(0, n as int) =~= path@);
        assert(parts =~= parts.drop_last().push(parts.last()));
        assert(parts.drop_last().push(parts.last()).drop_last() =~= parts.drop_last());
    }
    let ghost names = kept(split(path@));
    assert(tracks(path@, names, count, parent, last));
    if count < 2 {
        return false;
    }
    let ghost name = path@.subrange(parent.0 as int, parent.1 as int);
    assert(names[names.len() - 2] == name);
    let exact = parent.1 - parent.0 == 4 && range_starts_with(path, parent.0, parent.1, "deps");
    proof {
        reveal_strlit("deps");
        if starts_with(name, "deps"@) && name.len() == 4 {
            assert(name.subrange(0, 4) =~= name);
        }
        if name == "deps"@ {
            assert(name.subrange(0, 4) =~= name);
        }
        assert(exact == (name == "deps"@));
    }
    exact || range_starts_with(path, parent.0, parent.1, "rustdoctest")
}

/// `count` is the number of names, two standing for two or more; `last` is
/// where in `text` the last of them stands and `parent` where the one
/// before it stands.
spec fn tracks(
    text: Seq<char>,
    names: Seq<Seq<char>>,
    count: usize,
    parent: (usize, usize),
    last: (usize, usize),
) -> bool {
    &&& count <= 2
    &&& count < 2 ==> names.len() == count
    &&& count == 2 ==> names.len() >= 2
    &&& count >= 1 ==> last.0 <= last.1 <= text.len() && names[names.len() - 1] == text.subrange(
        last.0 as int,
        last.1 as int,
    )
    &&& count >= 2 ==> parent.0 <= parent.1 <= text.len() && names[names.len() - 2]
        == text.subrange(parent.0 as int, parent.1 as int)
}

/// The arguments that the emulator is started with: the disk image as a
/// raw drive, the debug-exit device, the serial port on standard output,
/// and for a test run no display.
pub open spec fn qemu_arguments(image_path: Seq<char>, mode: QemuMode) -> Seq<Seq<char>> {
    let common = seq![
        "-drive"@,
        "format=raw,file="@ + image_path,
        "-device"@,
        "isa-debug-exit,iobase=0xf4,iosize=0x04"@,
        "-serial"@,
        "stdio"@,
    ];
    if mode == QemuMode::Test {
        common + seq!["-display"@, "none"@]
    } else {
        common
    }
}

/// The arguments that the emulator is started with.
pub fn qemu_args(image_path: &str, mode: QemuMode) -> (args: Vec<String>)
    ensures
        args@.len() == qemu_arguments(image_path@, mode).len(),
        forall|i: int|
            0 <= i < args@.len() ==> (#[trigger] args@[i])@ == qemu_arguments(image_path@, mode)[i],
{
    let mut args: Vec<String> = Vec::new();
    args.push(String::from_str("-drive"));
    args.push(String::from_str("format=raw,file=").concat(image_path));
    args.push(String::from_str("-device"));
    args.push(String::from_str("isa-debug-exit,iobase=0xf4,iosize=0x04"));
    args.push(String::from_str("-serial"));
    args.push(String::from_str("stdio"));
    if mode == QemuMode::Test {
        args.push(String::from_str("-display"));
        args.push(String::from_str("none"));
    }
    args
}

} // verus!
