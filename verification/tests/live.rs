use mstat::frame::Frame;
use mstat::live::{
    collect_fast, collect_slow, parse_live_interval, redraw, resize, Action, Event, FastReadings, Live,
    Signal, ANSI_CLEAR, ANSI_ENTER, ANSI_HOME, ANSI_LEAVE,
};
use mstat::render::{compute_layout, draw, BarFills};
use mstat::sys::{DiskLabel, DiskUsage, MemFigures, MemUsage, SysInfo};

const NO_BARS: BarFills = BarFills { load_1: 0, load_5: 0, load_15: 0, disk: 0, mem: 0 };

fn interval(args: &[&str]) -> u64 {
    let args: Vec<Vec<u8>> = args.iter().map(|a| a.as_bytes().to_vec()).collect();
    parse_live_interval(&args)
}

#[test]
fn live_mode_is_asked_for() {
    assert_eq!(interval(&[]), 0);
    assert_eq!(interval(&["--help", "live", "-live"]), 0);
    assert_eq!(interval(&["--live"]), 2);
    assert_eq!(interval(&["--live=5"]), 5);
}

#[test]
fn interval_without_a_number_is_the_default() {
    assert_eq!(interval(&["--live="]), 2);
    assert_eq!(interval(&["--live=0"]), 2);
    assert_eq!(interval(&["--live=x7s"]), 7);
    assert_eq!(interval(&["--lively"]), 0);
}

#[test]
fn first_live_argument_counts() {
    assert_eq!(interval(&["x", "--live=9", "--live"]), 9);
    assert_eq!(interval(&["--live", "--live=9"]), 2);
}

#[test]
fn escape_sequences() {
    assert_eq!(ANSI_ENTER, "\x1b[?1049h\x1b[?25l\x1b[H");
    assert_eq!(ANSI_LEAVE, "\x1b[?25h\x1b[?1049l");
    assert_eq!(ANSI_CLEAR, "\x1b[2J\x1b[H");
    assert_eq!(ANSI_HOME, "\x1b[H");
}

#[test]
fn slow_data_comes_about_every_thirty_seconds() {
    assert_eq!(Live::new(1).slow_every, 30);
    assert_eq!(Live::new(2).slow_every, 15);
    assert_eq!(Live::new(7).slow_every, 4);
    assert_eq!(Live::new(30).slow_every, 1);
    assert_eq!(Live::new(31).slow_every, 1);
    assert_eq!(Live::new(u64::MAX).slow_every, 1);
}

#[test]
fn ticks_refresh() {
    let mut live = Live::new(10);
    let mut slow: Vec<bool> = Vec::new();
    for _ in 0..7 {
        match live.on_event(Event::Timer) {
            Action::Refresh { slow: s } => slow.push(s),
            _ => panic!("no refresh"),
        }
    }
    assert_eq!(slow, vec![false, false, true, false, false, true, false]);
    assert_eq!(live.tick, 7);
}

#[test]
fn ticks_wrap() {
    let mut live = Live::new(10);
    live.tick = u64::MAX;
    assert!(live.on_event(Event::Timer) == Action::Refresh { slow: true });
    assert_eq!(live.tick, 0);
}

#[test]
fn signals_resize_or_quit() {
    let mut live = Live::new(2);
    assert!(live.on_event(Event::Signal(Signal::Other)) == Action::Ignore);
    assert!(live.on_event(Event::Other) == Action::Ignore);
    assert_eq!(live.prologue(), ANSI_HOME);
    assert!(live.on_event(Event::Signal(Signal::Winch)) == Action::Resize);
    assert!(live.on_event(Event::Timer) == Action::Refresh { slow: false });
    assert_eq!(live.prologue(), ANSI_CLEAR);
    live.begin_round();
    assert_eq!(live.prologue(), ANSI_HOME);
    assert_eq!(live.tick, 1);
    assert!(live.on_event(Event::Signal(Signal::Int)) == Action::Quit);
    assert!(live.on_event(Event::Signal(Signal::Term)) == Action::Quit);
}

#[test]
fn fast_data_is_replaced() {
    let mut info = SysInfo::new();
    info.cpu.freq.push_str("9.99");
    info.mem.used_gb.push_str("8.88");
    info.login.uptime.push_str("7d");
    info.login.time.push_str("then");
    info.cpu.model.push_str("chip");
    let from = FastReadings {
        loadavg: b"1.50 2.50 3.50 1/2 3\n",
        ghz: Some(190),
        mem: MemUsage { total_kb: 100, used_kb: 40 },
        mem_figures: MemFigures { used_gb: 12, total_gb: 34, percent: 4000 },
        uptime_secs: 3660,
    };
    collect_fast(&mut info, &from);
    assert_eq!(info.cpu.load_1.as_str(), "1.50");
    assert_eq!(info.cpu.load_15.as_str(), "3.50");
    assert_eq!(info.cpu.freq.as_str(), "1.90");
    assert_eq!(info.mem.total_kb, 100);
    assert_eq!(info.mem.used_kb, 40);
    assert_eq!(info.mem.percent, 4000);
    assert_eq!(info.mem.used_gb.as_str(), "0.12");
    assert_eq!(info.mem.total_gb.as_str(), "0.34");
    assert_eq!(info.login.uptime.as_str(), "1h 1m");
    assert_eq!(info.login.time.as_str(), "then");
    assert_eq!(info.cpu.model.as_str(), "chip");
    collect_fast(&mut info, &FastReadings { ghz: None, ..from });
    assert_eq!(info.cpu.freq.as_str(), "");
}

#[test]
fn slow_data_is_replaced() {
    let mut info = SysInfo::new();
    let label = DiskLabel { used: 100, of: 200, percent: 5000 };
    collect_slow(&mut info, &DiskUsage::of_zfs(b"1\n1\n", Some(true)), &label);
    assert!(info.disk.zfs);
    assert_eq!(info.disk.health.as_str(), "HEALTH O.K.");
    collect_slow(&mut info, &DiskUsage::of_fs(1048576, 8, 4), &label);
    assert!(!info.disk.zfs);
    assert!(info.disk.health.is_empty());
    assert_eq!(info.disk.label.as_str(), "1.00/2.00 GB [50.00%]");
    assert_eq!(info.disk.used, 4);
    assert_eq!(info.disk.total, 8);
    collect_slow(&mut info, &DiskUsage::Unknown, &label);
    assert!(info.disk.label.is_empty());
    assert_eq!(info.disk.used, 0);
    assert_eq!(info.disk.total, 1);
}

fn shown(f: &Frame) -> String {
    let mut out = vec![0u8; 65536];
    let n = f.write_full(&mut out);
    String::from_utf8(out[..n].to_vec()).unwrap()
}

#[test]
fn redraw_leaves_nothing_behind() {
    let mut info = SysInfo::new();
    let layout = compute_layout(&info, 80, 40);
    let mut frame = draw(&info, &layout, &NO_BARS);
    let before = shown(&frame);
    info.net.hostname.push_str("box");
    redraw(&mut frame, &info, &layout, &NO_BARS);
    assert_ne!(shown(&frame), before);
    assert_eq!(shown(&frame), shown(&draw(&info, &layout, &NO_BARS)));
    let empty = SysInfo::new();
    redraw(&mut frame, &empty, &layout, &NO_BARS);
    assert_eq!(shown(&frame), before);
}

#[test]
fn resize_lays_out_again() {
    let info = SysInfo::new();
    let mut frame = Frame::new(10, 10);
    let layout = resize(&mut frame, &info, 90, 50);
    assert_eq!(layout.tw, 90);
    assert_eq!(layout.th, 50);
    assert_eq!(frame.w, 90);
    assert_eq!(frame.h, 50);
    assert_eq!(frame.row, 0);
    assert!(shown(&frame).chars().all(|c| c == ' ' || c == '\n'));
}
