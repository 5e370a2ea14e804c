use rust_os::qemu::{
    exit_status, is_test_binary, qemu_args, wait_step, QemuExitCode, QemuMode, WaitStep,
    SUCCESS_EXIT_CODE,
};
use rust_os::text::{is_space, range_equals, range_starts_with, to_decimal, word_ranges};

#[test]
fn exit_codes_of_the_emulator() {
    assert_eq!(QemuExitCode::Success.code(), 0x10);
    assert_eq!(QemuExitCode::Failed.code(), 0x11);
    assert_eq!(QemuExitCode::Success.host_status(), SUCCESS_EXIT_CODE);
    assert_eq!(QemuExitCode::Failed.host_status(), 35);
    assert_eq!(exit_status(Some(33)), 0);
    assert_eq!(exit_status(Some(35)), 1);
    assert_eq!(exit_status(Some(0)), 1);
    assert_eq!(exit_status(None), 1);
    assert_ne!(QemuMode::Run, QemuMode::Test);
}

#[test]
fn waiting_for_the_emulator() {
    assert_eq!(wait_step(true, 500, 100), WaitStep::Finished);
    assert_eq!(wait_step(false, 100, 100), WaitStep::TimedOut);
    assert_eq!(wait_step(false, 101, 100), WaitStep::TimedOut);
    assert_eq!(wait_step(false, 0, 300_000), WaitStep::Sleep(100));
    assert_eq!(wait_step(false, 299_900, 300_000), WaitStep::Sleep(100));
    assert_eq!(wait_step(false, 299_901, 300_000), WaitStep::Sleep(99));
    assert_eq!(wait_step(false, 299_999, 300_000), WaitStep::Sleep(1));
}

#[test]
fn test_binaries_are_known_by_their_directory() {
    assert!(is_test_binary("target/x86_64/debug/deps/kernel-0123"));
    assert!(is_test_binary("deps/kernel"));
    assert!(is_test_binary("/tmp/rustdoctestAbC/rust_out"));
    assert!(is_test_binary("rustdoctest/x"));
    assert!(is_test_binary("a/deps//./kernel/"));
    assert!(!is_test_binary("target/debug/kernel"));
    assert!(!is_test_binary("deps"));
    assert!(!is_test_binary("/deps"));
    assert!(!is_test_binary("kernel"));
    assert!(!is_test_binary(""));
    assert!(!is_test_binary("/"));
    assert!(!is_test_binary("deps2/kernel"));
    assert!(!is_test_binary("dep/kernel"));
    assert!(!is_test_binary("xdeps/kernel"));
    assert!(!is_test_binary("target/rustdoctes/kernel"));
    assert!(!is_test_binary("deps/a/kernel"));
}

#[test]
fn arguments_of_the_emulator() {
    assert_eq!(
        qemu_args("target/bios.img", QemuMode::Run),
        vec![
            "-drive",
            "format=raw,file=target/bios.img",
            "-device",
            "isa-debug-exit,iobase=0xf4,iosize=0x04",
            "-serial",
            "stdio",
        ]
    );
    let test = qemu_args("k.img", QemuMode::Test);
    assert_eq!(test.len(), 8);
    assert_eq!(test[1], "format=raw,file=k.img");
    assert_eq!(&test[6..], ["-display", "none"]);
}

#[test]
fn words_and_numbers() {
    assert_eq!(word_ranges(""), vec![]);
    assert_eq!(word_ranges("  "), vec![]);
    assert_eq!(word_ranges("ab"), vec![(0, 2)]);
    assert_eq!(word_ranges(" ab\t\tcde \u{2003}f"), vec![(1, 3), (5, 8), (10, 11)]);
    assert_eq!(word_ranges("é x"), vec![(0, 1), (2, 3)]);
    for c in ['\t', '\n', '\x0b', '\x0c', '\r', ' ', '\u{85}', '\u{a0}', '\u{1680}', '\u{2000}',
        '\u{200a}', '\u{2028}', '\u{2029}', '\u{202f}', '\u{205f}', '\u{3000}', 'a', '\x08',
        '\u{200b}', '\u{180e}', '\u{feff}', '_']
    {
        assert_eq!(is_space(c), c.is_whitespace(), "{c:?}");
    }
    assert!(range_starts_with("hello", 1, 5, "ell"));
    assert!(range_starts_with("hello", 1, 5, ""));
    assert!(!range_starts_with("hello", 1, 3, "ell"));
    assert!(!range_starts_with("hello", 0, 5, "ell"));
    assert!(range_equals("hello", 1, 4, "ell"));
    assert!(!range_equals("hello", 1, 5, "ell"));
    assert_eq!(to_decimal(0), "0");
    assert_eq!(to_decimal(7), "7");
    assert_eq!(to_decimal(10), "10");
    assert_eq!(to_decimal(9075), "9075");
    assert_eq!(to_decimal(usize::MAX), usize::MAX.to_string());
}
