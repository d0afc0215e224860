use mstat::collect::{collect, complete_login, Readings};
use mstat::login::{SessionScan, Tm};
use mstat::sys::{CpuSources, DiskLabel, DiskUsage, MemFigures, MemUsage, SysInfo};

const TM: Tm = Tm { mon: 0, mday: 2, year: 126, hour: 3, min: 4 };

fn readings<'a>(utmp: &'a [u8], tty: Option<&'a [u8]>) -> Readings<'a> {
    Readings {
        os_release: b"ID=arch\nVERSION=1\n",
        uname: Some((b"Linux", b"6.1")),
        hostname: Some(b"box\0"),
        machine_ip: Some([10, 0, 0, 2]),
        resolv: b"nameserver 10.0.0.1\n",
        env_user: Some(b"ada"),
        cpu: CpuSources {
            cpuinfo: b"processor\t: 0\nmodel name\t: Chip\n",
            dt_model: b"",
            vendor: b"",
            loadavg: b"0.10 0.20 0.30\n",
        },
        ghz: Some(300),
        disk: DiskUsage::of_fs(1048576, 2048, 1024),
        disk_label: DiskLabel { used: 100, of: 200, percent: 5000 },
        mem: MemUsage { total_kb: 4, used_kb: 3 },
        mem_figures: MemFigures { used_gb: 1, total_gb: 2, percent: 7500 },
        utmp,
        tty,
        login_time: TM,
        uptime_secs: 120,
    }
}

fn login_record(host: &str) -> Vec<u8> {
    let mut rec = vec![0u8; 384];
    rec[0] = 7;
    rec[8..13].copy_from_slice(b"pts/3");
    rec[44..47].copy_from_slice(b"ada");
    rec[76..76 + host.len()].copy_from_slice(host.as_bytes());
    rec[340] = 1;
    rec
}

#[test]
fn everything_is_collected() {
    let mut info = SysInfo::new();
    let utmp = login_record("far.example");
    let found = collect(&mut info, &readings(&utmp, Some(b"/dev/pts/3")));
    assert!(!found.more);
    assert_eq!(info.os.name.as_str(), "Arch 1 ");
    assert_eq!(info.os.kernel.as_str(), "Linux 6.1");
    assert_eq!(info.net.hostname.as_str(), "box");
    assert_eq!(info.net.machine_ip.as_str(), "10.0.0.2");
    assert_eq!(info.net.client_ip.as_str(), "far.example");
    assert_eq!(info.net.dns_count, 1);
    assert_eq!(info.net.dns[0].as_str(), "10.0.0.1");
    assert_eq!(info.net.user.as_str(), "ada");
    assert_eq!(info.cpu.model.as_str(), "Chip");
    assert_eq!(info.cpu.freq.as_str(), "3.00");
    assert_eq!(info.cpu.load_15.as_str(), "0.30\n");
    assert_eq!(info.disk.label.as_str(), "1.00/2.00 GB [50.00%]");
    assert_eq!((info.disk.used, info.disk.total), (1024, 2048));
    assert_eq!((info.mem.used_kb, info.mem.total_kb, info.mem.percent), (3, 4, 7500));
    assert_eq!(info.login.time.as_str(), "Jan 02 2026 03:04");
    assert_eq!(info.login.ip.as_str(), "far.example");
    assert!(info.login.has_ip);
    assert_eq!(info.login.uptime.as_str(), "2m");
}

#[test]
fn complete_login_is_left_alone() {
    let mut info = SysInfo::new();
    let utmp = login_record("far.example");
    collect(&mut info, &readings(&utmp, Some(b"/dev/pts/3")));
    let mut scan = SessionScan::new();
    scan.offer(b"USER=ada\nREALTIME=77000000\nREMOTE_HOST=other\n", b"ada");
    complete_login(&mut info, &scan, &Tm { mday: 30, ..TM }, true);
    assert_eq!(info.login.time.as_str(), "Jan 02 2026 03:04");
    assert_eq!(info.net.client_ip.as_str(), "far.example");
    assert_eq!(info.login.uptime.as_str(), "2m");
}

#[test]
fn session_completes_a_local_login() {
    let mut info = SysInfo::new();
    let utmp = login_record("");
    let found = collect(&mut info, &readings(&utmp, Some(b"/dev/pts/3")));
    assert!(found.more);
    let mut scan = SessionScan::new();
    scan.offer(b"USER=ada\nREALTIME=77000000\nDISPLAY=:1\n", b"ada");
    complete_login(&mut info, &scan, &TM, found.on_terminal);
    assert_eq!(info.net.client_ip.as_str(), ":1");
    assert_eq!(info.login.ip.as_str(), ":1");
    assert!(info.login.has_ip);
}

#[test]
fn session_stands_in_for_missing_records() {
    let mut info = SysInfo::new();
    let found = collect(&mut info, &readings(b"", Some(b"/dev/pts/3")));
    assert!(found.more);
    assert!(info.net.client_ip.is_empty());
    let mut scan = SessionScan::new();
    scan.offer(
        b"USER=ada\nCLASS=user\nREALTIME=1700000000000000\nREMOTE_HOST=10.0.0.5\n",
        b"ada",
    );
    assert_eq!(scan.seconds(), 1700000000);
    complete_login(&mut info, &scan, &TM, found.on_terminal);
    assert_eq!(info.net.client_ip.as_str(), "10.0.0.5");
    assert_eq!(info.login.ip.as_str(), "10.0.0.5");
    assert!(info.login.has_ip);
    assert_eq!(info.login.time.as_str(), "Jan 02 2026 03:04");
}

#[test]
fn address_of_the_records_is_kept() {
    let mut info = SysInfo::new();
    let utmp = login_record("10.0.0.1");
    let found = collect(&mut info, &readings(&utmp, Some(b"/dev/pts/9")));
    assert!(found.more);
    assert!(!found.on_terminal);
    assert_eq!(info.login.ip.as_str(), "10.0.0.1");
    let mut scan = SessionScan::new();
    scan.offer(b"USER=ada\nREALTIME=77000000\nREMOTE_HOST=10.0.0.2\n", b"ada");
    complete_login(&mut info, &scan, &Tm { mday: 30, ..TM }, found.on_terminal);
    assert_eq!(info.net.client_ip.as_str(), "10.0.0.2");
    assert_eq!(info.login.ip.as_str(), "10.0.0.1");
    assert!(info.login.has_ip);
    assert_eq!(info.login.time.as_str(), "Jan 02 2026 03:04");
}

#[test]
fn address_is_replaced_for_a_login_on_the_terminal_without_a_host() {
    let mut info = SysInfo::new();
    let mut utmp = login_record("");
    let mut other = login_record("10.0.0.1");
    other[8..13].copy_from_slice(b"pts/4");
    other[340] = 9;
    utmp.extend(other);
    let found = collect(&mut info, &readings(&utmp, Some(b"/dev/pts/3")));
    assert!(found.more);
    assert!(found.on_terminal);
    assert_eq!(info.login.ip.as_str(), "10.0.0.1");
    let mut scan = SessionScan::new();
    scan.offer(b"USER=ada\nREALTIME=77000000\nREMOTE_HOST=10.0.0.2\n", b"ada");
    complete_login(&mut info, &scan, &TM, found.on_terminal);
    assert_eq!(info.net.client_ip.as_str(), "10.0.0.2");
    assert_eq!(info.login.ip.as_str(), "10.0.0.2");
}

#[test]
fn unknown_remains_are_named() {
    let mut info = SysInfo::new();
    let found = collect(&mut info, &readings(b"", None));
    assert!(found.more);
    complete_login(&mut info, &SessionScan::new(), &TM, found.on_terminal);
    assert_eq!(info.login.time.as_str(), "Unknown");
    assert_eq!(info.net.client_ip.as_str(), "Not connected");
    assert!(!info.login.has_ip);
}

#[test]
fn nobody_is_unknown() {
    let mut info = SysInfo::new();
    let from = Readings { env_user: None, ..readings(b"", None) };
    collect(&mut info, &from);
    assert_eq!(info.net.user.as_str(), "unknown");
}
