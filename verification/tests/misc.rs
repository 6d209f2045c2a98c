use aw_man::closing::{CloseOnDrop, Closing, QuitStep, SignalStep};
use aw_man::config::{
    default_extraction_threads, default_scroll_amount, default_upscaling_threads,
    empty_path_is_none, empty_string_is_none, half_of, half_threads, half_threads_four,
    startup_commands, zero_is_none, Opt,
};
use aw_man::com::res::Res;
use aw_man::logging::{show_target, shrink_target, stamp};
use aw_man::manager::script::{after_program, split_lines, AfterProgram, ProgramEnd};
use aw_man::number::ParseNumberError;
use aw_man::pattern::Pattern;
use aw_man::socket::{
    answer, answer_text, command_in, socket_path, Answer, CommandEnd, Outgoing,
};
use aw_man::unrar::{extract_arguments, list_arguments, read_files};

fn chars(s: &str) -> Vec<char> {
    s.chars().collect()
}

fn strings(v: &[&str]) -> Vec<String> {
    v.iter().map(|s| s.to_string()).collect()
}

#[test]
fn threads() {
    assert_eq!(half_of(16, 2), 8);
    assert_eq!(half_of(7, 2), 3);
    assert_eq!(half_of(1, 2), 2);
    assert_eq!(half_of(6, 4), 4);
    assert!(half_threads() >= 2);
    assert!(half_threads_four() >= 4);
    assert_eq!(half_threads(), half_of(num_cpus::get(), 2));
    assert_eq!(
        (default_extraction_threads(), default_upscaling_threads(), default_scroll_amount()),
        (2, 1, 300)
    );
}

#[test]
fn empty_settings_are_none() {
    assert_eq!(empty_path_is_none(String::new()), None);
    assert_eq!(empty_path_is_none("/tmp".to_string()), Some("/tmp".to_string()));
    assert_eq!(empty_string_is_none(""), Ok(None));
    assert_eq!(empty_string_is_none("1x2"), Ok(Some(Res { w: 1, h: 2 })));
    assert_eq!(
        empty_string_is_none("huge"),
        Err("\"Expected a string of the form WIDTHxHEIGHT. Example: 3840x2160\"".to_string())
    );
    assert_eq!(zero_is_none(0, 65535), Ok(None));
    assert_eq!(zero_is_none(65535, 65535), Ok(Some(65535)));
    assert_eq!(
        zero_is_none(65536, 65535),
        Err(u16::try_from(65536u64).unwrap_err().to_string())
    );
}

#[test]
fn startup_command_comes_last() {
    let opt = Opt {
        manga: false,
        upscale: false,
        fileset: false,
        show_supported: false,
        show_gpus: false,
        awconf: None,
        command: strings(&["UI off", "Fullscreen"]),
        file_names: Vec::new(),
    };
    let last = "Jump 5".to_string();
    assert_eq!(startup_commands(&opt, Some(&last)), strings(&["UI off", "Fullscreen", "Jump 5"]));
    assert_eq!(startup_commands(&opt, None), strings(&["UI off", "Fullscreen"]));
}

#[test]
fn closing_happens_once() {
    let mut c = Closing::new();
    assert!(!c.closed());
    assert!(c.close());
    assert!(c.closed());
    assert!(!c.close());
}

#[test]
fn only_the_first_fatal_error_is_written() {
    let mut c = Closing::new();
    assert_eq!(c.fatal(42), Some("aw-man_crash_42".to_string()));
    assert_eq!(c.fatal(42), None);
    let mut c = Closing::new();
    c.close();
    assert_eq!(c.fatal(42), None);
}

#[test]
fn second_signal_exits() {
    let mut c = Closing::new();
    assert_eq!(c.signal(), SignalStep::Close);
    assert_eq!(c.signal(), SignalStep::Exit(1));
}

#[test]
fn quitting() {
    let mut c = Closing::new();
    let mut requested = false;
    assert_eq!(c.quit(&mut requested, true), QuitStep::AskManager { command: true });
    assert!(requested && !c.closed());
    assert_eq!(c.quit(&mut requested, true), QuitStep::CloseWindow);
    assert!(c.closed());
    let mut c = Closing::new();
    let mut requested = false;
    assert_eq!(c.quit(&mut requested, false), QuitStep::AskManager { command: false });
    let mut c = Closing::new();
    c.close();
    let mut requested = false;
    assert_eq!(c.quit(&mut requested, true), QuitStep::CloseWindow);
}

#[test]
fn threads_must_not_end_early() {
    let named = CloseOnDrop { thread: Some("manager".to_string()) };
    assert_eq!(named.dropped(true, false), None);
    assert_eq!(named.dropped(false, true), None);
    assert_eq!(
        named.dropped(false, false).unwrap(),
        "CloseOnDrop for manager was dropped without closing::close() being called."
    );
    assert_eq!(
        CloseOnDrop { thread: None }.dropped(false, false).unwrap(),
        "CloseOnDrop for unnamed was dropped without closing::close() being called."
    );
}

#[test]
fn modules_are_shortened() {
    let short = |s: &str| shrink_target(&chars(s)).iter().collect::<String>();
    assert_eq!(short("manager::archive::page::scanned"), "page::scanned");
    assert_eq!(short("manager::archive"), "manager::archive");
    assert_eq!(short("manager"), "manager");
    assert_eq!(short("a:::b::c"), "b::c");
    assert_eq!(show_target("aw_man::gui::layout::x", "aw_man::"), "layout::x");
    assert_eq!(show_target("tokio::runtime::task::x", "aw_man::"), "tokio::runtime::task::x");
}

#[test]
fn stamps() {
    assert_eq!(stamp(0), "0000.000");
    assert_eq!(stamp(12_345), "0012.345");
    assert_eq!(stamp(123_456_007), "123456.007");
}

#[test]
fn socket_paths() {
    assert_eq!(socket_path("/run/user", 17), "/run/user/aw-man17.sock");
}

#[test]
fn messages_are_commands() {
    assert_eq!(command_in(b"  Status \n"), Ok("Status".to_string()));
    assert_eq!(command_in("Open \u{e9}".as_bytes()), Ok("Open \u{e9}".to_string()));
    let bad = [b'a', 0xff];
    let e = std::str::from_utf8(&bad).unwrap_err();
    assert_eq!(command_in(&bad), Err(format!("Unable to parse command {e:?}")));
}

#[test]
fn answers() {
    let text = |end| answer_text(answer(end));
    assert_eq!(text(CommandEnd::Dropped), "\"done\"");
    assert_eq!(text(CommandEnd::Answered("{\"a\":1}".to_string())), "{\"a\":1}");
    assert_eq!(
        text(CommandEnd::NotSent("closed \"channel\"".to_string())),
        "\"Error sending socket commend to Gui: closed \\\"channel\\\"\""
    );
    assert_eq!(answer_text(Answer::Text("a\nb".to_string())), "\"a\\nb\"");
}

#[test]
fn bytes_are_written_in_order() {
    let mut out = Outgoing::new(b"abcdef".to_vec());
    let mut got = Vec::new();
    for n in [2, 0, 3, 1] {
        got.extend_from_slice(&out.rest()[..n]);
        let done = out.wrote(n);
        assert_eq!(done, got.len() == 6);
    }
    assert_eq!(got, b"abcdef");
    assert!(out.rest().is_empty());
}

#[test]
fn unrar_listings() {
    let listing = strings(&[
        "\n",
        "UNRAR 6.21 freeware\n",
        " Attributes      Size     Date    Time   Name\n",
        "----------- ---------  ---------- -----  ----\n",
        "    ..A....     12345  2023-01-02 03:04  chapter 1/page 01.png\n",
        "    ..A....         7  2023-01-02 03:04  a.txt\n",
        "                12352                    2\n",
    ]);
    let files = read_files(&Pattern::file_line(), &listing).unwrap();
    assert_eq!(
        files,
        vec![("chapter 1/page 01.png".to_string(), 12345), ("a.txt".to_string(), 7)]
    );
}

#[test]
fn unrar_sizes_that_cannot_be_read() {
    let line = strings(&["  ..A.... 99999999999999999999 2023-01-02 03:04 a.png\n"]);
    assert_eq!(read_files(&Pattern::file_line(), &line), Err(ParseNumberError::TooLarge));
}

#[test]
fn unrar_arguments() {
    assert_eq!(list_arguments("/a.rar"), strings(&["l", "--", "/a.rar"]));
    assert_eq!(extract_arguments("/a.rar", None), strings(&["p", "-inul", "--", "/a.rar"]));
    assert_eq!(
        extract_arguments("/a.rar", Some("b.png")),
        strings(&["p", "-inul", "--", "/a.rar", "b.png"])
    );
}

#[test]
fn lines_are_split_as_std_splits_them() {
    for s in ["", "a", "a\nb", "a\r\nb\r\n", "a\n\nb", "\n", "a\r", "a\rb\n", "a\r\r\nb"] {
        let expected: Vec<String> = s.lines().map(|l| l.to_string()).collect();
        assert_eq!(split_lines(&chars(s)), expected, "{s:?}");
    }
}

#[test]
fn scripts_ask_for_commands() {
    let out = ProgramEnd::Success("\nNextPage\r\nJump 5\n\n".to_string());
    match after_program("x.sh", true, out) {
        AfterProgram::Run(v) => assert_eq!(v, strings(&["NextPage", "Jump 5"])),
        other => panic!("{other:?}"),
    }
    match after_program("x.sh", false, ProgramEnd::Success("NextPage".to_string())) {
        AfterProgram::Run(v) => assert!(v.is_empty()),
        other => panic!("{other:?}"),
    }
}

#[test]
fn failed_programs_are_reported() {
    let end = ProgramEnd::Failure {
        status: "ExitStatus(1)".to_string(),
        stdout: "out".to_string(),
        stderr: "err".to_string(),
    };
    let pair = |a: &str, b: &str| (a.to_string(), b.to_string());
    match after_program("x.sh", true, end) {
        AfterProgram::Report(v) => assert_eq!(
            v,
            vec![
                pair("error", "Executable x.sh exited with error code ExitStatus(1)"),
                pair("stdout", "out"),
                pair("stderr", "err"),
            ]
        ),
        other => panic!("{other:?}"),
    }
    match after_program("x.sh", false, ProgramEnd::NotStarted("NotFound".to_string())) {
        AfterProgram::Report(v) => assert_eq!(
            v,
            vec![pair("error", "Executable x.sh failed to start with error NotFound")]
        ),
        other => panic!("{other:?}"),
    }
}
