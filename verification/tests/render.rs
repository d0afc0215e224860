use mstat::frame::Frame;
use mstat::render::{compute_layout, count_rows, draw, render, BarFills};
use mstat::sys::SysInfo;

const NO_BARS: BarFills = BarFills { load_1: 0, load_5: 0, load_15: 0, disk: 0, mem: 0 };

fn text(f: &Frame) -> String {
    let mut out = vec![0u8; 65536];
    let n = f.write_full(&mut out);
    String::from_utf8(out[..n].to_vec()).unwrap()
}

fn sample() -> SysInfo {
    let mut info = SysInfo::new();
    info.os.name.push_str("Debian 13 (trixie) Trixie");
    info.os.kernel.push_str("Linux 6.12.0");
    info.net.hostname.push_str("box");
    info.net.machine_ip.push_str("192.168.1.20");
    info.net.client_ip.push_str("10.0.0.9");
    info.net.dns[0].push_str("192.168.1.1");
    info.net.dns[1].push_str("1.1.1.1");
    info.net.dns_count = 2;
    info.net.user.push_str("ada");
    info.cpu.model.push_str("Some CPU");
    info.cpu.cores_per_socket.push_str("2");
    info.cpu.sockets.push_str("1");
    info.cpu.hypervisor.push_str("Bare Metal");
    info.cpu.freq.push_str("2.49");
    info.disk.label.push_str("12.50/50.00 GB [25.00%]");
    info.mem.used_gb.push_str("0.95");
    info.mem.total_gb.push_str("15.26");
    info.mem.percent = 625;
    info.login.time.push_str("Mar 05 2026 09:07");
    info.login.uptime.push_str("4d 1h 25m");
    info
}

#[test]
fn whole_report() {
    let info = sample();
    let layout = compute_layout(&info, 0, 0);
    let bars = BarFills { load_1: 1, load_5: 2, load_15: 3, disk: 8, mem: 2 };
    let expected = "\
┌──────────────────────────────────────────────────┐
│                  FOSL DISTUTILS                  │
│                  MACHINE REPORT                  │
├───────────────┬──────────────────────────────────┤
│ OS            │ Debian 13 (trixie) Trixie        │
│ KERNEL        │ Linux 6.12.0                     │
├───────────────┼──────────────────────────────────┤
│ HOSTNAME      │ box                              │
│ MACHINE IP    │ 192.168.1.20                     │
│ CLIENT  IP    │ 10.0.0.9                         │
│ DNS  IP 1     │ 192.168.1.1                      │
│ DNS  IP 2     │ 1.1.1.1                          │
│ USER          │ ada                              │
├───────────────┼──────────────────────────────────┤
│ PROCESSOR     │ Some CPU                         │
│ CORES         │ 2 vCPU(s) / 1 Socket(s)          │
│ HYPERVISOR    │ Bare Metal                       │
│ CPU FREQ      │ 2.49 GHz                         │
│ LOAD  1m      │ █░░░░░░░░░░░░░░░░░░░░░░░░░░░░░░░ │
│ LOAD  5m      │ ██░░░░░░░░░░░░░░░░░░░░░░░░░░░░░░ │
│ LOAD 15m      │ ███░░░░░░░░░░░░░░░░░░░░░░░░░░░░░ │
├───────────────┼──────────────────────────────────┤
│ VOLUME        │ 12.50/50.00 GB [25.00%]          │
│ DISK USAGE    │ ████████░░░░░░░░░░░░░░░░░░░░░░░░ │
├───────────────┼──────────────────────────────────┤
│ MEMORY        │ 0.95/15.26 GiB [6.25%]           │
│ USAGE         │ ██░░░░░░░░░░░░░░░░░░░░░░░░░░░░░░ │
├───────────────┼──────────────────────────────────┤
│ LAST LOGIN    │ Mar 05 2026 09:07                │
│ UPTIME        │ 4d 1h 25m                        │
└───────────────┴──────────────────────────────────┘";
    assert_eq!(text(&draw(&info, &layout, &bars)), expected);
}

#[test]
fn optional_rows() {
    let mut info = sample();
    info.disk.zfs = true;
    info.disk.health.push_str("HEALTH O.K.");
    info.login.has_ip = true;
    info.login.ip.push_str("10.0.0.10");
    assert_eq!(count_rows(&info), 33);
    let layout = compute_layout(&info, 0, 0);
    let report = text(&draw(&info, &layout, &NO_BARS));
    let lines: Vec<&str> = report.split('\n').collect();
    assert_eq!(lines.len(), 33);
    assert_eq!(lines[24], "│ ZFS HEALTH    │ HEALTH O.K.                      │");
    assert_eq!(lines[30], "│               │ 10.0.0.10                        │");
}

#[test]
fn row_counts() {
    let mut info = SysInfo::new();
    assert_eq!(count_rows(&info), 29);
    info.net.dns_count = 8;
    assert_eq!(count_rows(&info), 37);
    info.disk.zfs = true;
    assert_eq!(count_rows(&info), 38);
    info.login.has_ip = true;
    assert_eq!(count_rows(&info), 39);
}

#[test]
fn default_layout() {
    let l = compute_layout(&SysInfo::new(), 0, 0);
    assert_eq!((l.nc, l.dc, l.tw, l.th, l.fill), (13, 32, 52, 29, false));
}

#[test]
fn small_terminals_are_filled() {
    let l = compute_layout(&SysInfo::new(), 118, 78);
    assert_eq!((l.dc, l.tw, l.th, l.fill), (98, 118, 78, true));
    let l = compute_layout(&SysInfo::new(), 80, 29);
    assert_eq!((l.dc, l.tw, l.th, l.fill), (60, 80, 29, false));
}

#[test]
fn large_terminals_are_not_filled() {
    let l = compute_layout(&SysInfo::new(), 119, 79);
    assert_eq!((l.dc, l.tw, l.th, l.fill), (32, 52, 29, false));
}

#[test]
fn tiny_terminals_do_not_cut_the_report() {
    let l = compute_layout(&SysInfo::new(), 1, 1);
    assert_eq!((l.dc, l.tw, l.th, l.fill), (20, 40, 29, false));
}

#[test]
fn layout_makes_room_for_the_widest_text() {
    let mut info = SysInfo::new();
    info.cpu.model.push_bytes(&[b'c'; 50]);
    let l = compute_layout(&info, 0, 0);
    assert_eq!((l.dc, l.tw), (50, 70));
    let l = compute_layout(&info, 60, 0);
    assert_eq!((l.dc, l.tw), (50, 70));
    let l = compute_layout(&info, 100, 0);
    assert_eq!((l.dc, l.tw), (80, 100));
}

#[test]
fn layout_counts_characters() {
    let mut info = SysInfo::new();
    info.login.time.push_str("├──────────────────┤");
    let l = compute_layout(&info, 30, 0);
    assert_eq!((l.dc, l.tw), (20, 40));
}

#[test]
fn all_lines_are_as_wide_as_the_layout() {
    let info = sample();
    let layout = compute_layout(&info, 77, 44);
    let report = text(&draw(&info, &layout, &NO_BARS));
    let lines: Vec<&str> = report.split('\n').collect();
    assert_eq!(lines.len(), 44);
    for line in lines {
        assert_eq!(line.chars().count(), 77);
    }
}

#[test]
fn empty_rows_stand_above_the_bottom_edge() {
    let info = sample();
    let layout = compute_layout(&info, 52, 40);
    let report = text(&draw(&info, &layout, &NO_BARS));
    let lines: Vec<&str> = report.split('\n').collect();
    assert_eq!(lines.len(), 40);
    assert_eq!(lines[29], "│ UPTIME        │ 4d 1h 25m                        │");
    for line in &lines[30..39] {
        assert_eq!(*line, "│               │                                  │");
    }
    assert_eq!(lines[39], "└───────────────┴──────────────────────────────────┘");
}

#[test]
fn wide_report_is_cut_off_at_the_grid() {
    let mut info = SysInfo::new();
    info.os.name.push_bytes(&[b'o'; 128]);
    let layout = compute_layout(&info, 0, 0);
    assert_eq!((layout.dc, layout.tw), (128, 148));
    let report = text(&draw(&info, &layout, &NO_BARS));
    for line in report.split('\n') {
        assert_eq!(line.chars().count(), 120);
    }
}

#[test]
fn render_covers_what_was_there() {
    let info = sample();
    let layout = compute_layout(&info, 60, 36);
    let mut f = Frame::new(layout.tw, layout.th);
    for _ in 0..36 {
        f.fill_char('x', 60);
        f.newline();
    }
    f.home();
    render(&mut f, &info, &layout, &NO_BARS);
    assert_eq!(text(&f), text(&draw(&info, &layout, &NO_BARS)));
    assert_eq!(f.row, 36);
}
