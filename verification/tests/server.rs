//! The server's lifecycle: the beat of the background tasks, admission, shutdown lines.

use steller::inbound::server::{is_shutdown_line, Acceptor, Admission, Tick, Ticker, TICKS};

#[test]
fn a_task_runs_once_per_interval() {
    let mut ticker = Ticker::new();
    for _ in 0..3 {
        for _ in 1..TICKS {
            assert_eq!(ticker.tick(false), Tick::Wait);
        }
        assert_eq!(ticker.tick(false), Tick::Run);
    }
}

#[test]
fn a_task_runs_once_more_on_shutdown() {
    let mut ticker = Ticker::new();
    assert_eq!(ticker.tick(false), Tick::Wait);
    assert_eq!(ticker.tick(true), Tick::RunAndStop);
    let mut at_the_end = Ticker::new();
    for _ in 1..TICKS {
        at_the_end.tick(false);
    }
    assert_eq!(at_the_end.tick(true), Tick::RunAndStop);
}

#[test]
fn session_ids_count_up_from_one() {
    let mut acceptor = Acceptor::new();
    assert_eq!(acceptor.accept(false), Admission::Serve(1));
    assert_eq!(acceptor.accept(false), Admission::Serve(2));
    assert_eq!(acceptor.accept(true), Admission::Close);
    assert_eq!(acceptor.accept(false), Admission::Serve(3));
}

#[test]
fn session_ids_start_over_behind_the_largest() {
    let mut acceptor = Acceptor { last_id: u32::MAX };
    assert_eq!(acceptor.accept(false), Admission::Serve(0));
    assert_eq!(acceptor.accept(false), Admission::Serve(1));
}

#[test]
fn quit_and_exit_ask_to_stop() {
    for line in [
        "quit", "exit", "QUIT", "Exit", "qUiT\n", "  exit \r\n", "\tquit\u{a0}", "\u{3000}exit",
    ] {
        assert!(is_shutdown_line(line), "{line:?}");
    }
    for line in [
        "", "\n", "q", "quits", "quit now", "exit.", "stop", "q uit", "éxit", "qu\u{0131}t",
        "QU\u{130}T",
    ] {
        assert!(!is_shutdown_line(line), "{line:?}");
    }
}

#[test]
fn shutdown_lines_are_trimmed_and_folded_as_std_does_it() {
    for c in (0..=0x3100u32).filter_map(char::from_u32) {
        for line in [
            format!("{c}quit"),
            format!("exit{c}"),
            format!("qu{c}t"),
            format!("{c}xit"),
        ] {
            let word = line.trim().to_lowercase();
            assert_eq!(
                is_shutdown_line(&line),
                word == "quit" || word == "exit",
                "{line:?}"
            );
        }
    }
}
