use mstat::buf::Buf;
use mstat::login::{
    collect_login, current_tty, current_user, finish_login, format_timestamp, is_session_file,
    latest_login, push_uptime, session_path, utmp_count, SessionScan, Tm, UtmpEntry, UTMP_SIZE,
};
use mstat::sys::SysInfo;

fn record(kind: i16, line: &str, user: &str, host: &str, time: i32) -> Vec<u8> {
    let mut rec = vec![0u8; UTMP_SIZE];
    rec[0..2].copy_from_slice(&kind.to_le_bytes());
    rec[8..8 + line.len()].copy_from_slice(line.as_bytes());
    rec[44..44 + user.len()].copy_from_slice(user.as_bytes());
    rec[76..76 + host.len()].copy_from_slice(host.as_bytes());
    rec[340..344].copy_from_slice(&time.to_le_bytes());
    rec
}

const TM: Tm = Tm { mon: 2, mday: 5, year: 126, hour: 9, min: 7 };

fn stamp(tm: &Tm) -> String {
    let mut b = Buf::<64>::new();
    format_timestamp(tm, &mut b);
    b.as_str().to_string()
}

#[test]
fn timestamps() {
    assert_eq!(stamp(&TM), "Mar 05 2026 09:07");
    assert_eq!(stamp(&Tm { mon: 11, mday: 31, year: 99, hour: 23, min: 59 }), "Dec 31 1999 23:59");
    assert_eq!(stamp(&Tm { mon: 0, mday: 1, year: 70, hour: 0, min: 0 }), "Jan 01 1970 00:00");
}

#[test]
fn months_have_names() {
    let names = [
        "Jan", "Feb", "Mar", "Apr", "May", "Jun", "Jul", "Aug", "Sep", "Oct", "Nov", "Dec", "Jan",
    ];
    for (i, name) in names.iter().enumerate() {
        let text = stamp(&Tm { mon: i as i32, ..TM });
        assert_eq!(&text[..3], *name);
    }
}

#[test]
fn record_fields() {
    let rec = record(7, "pts/0", "ada", "10.0.0.9", 1700000000);
    let e = UtmpEntry::parse(&rec);
    assert_eq!(e.ut_type, 7);
    assert_eq!(e.ut_line, b"pts/0");
    assert_eq!(e.ut_user, b"ada");
    assert_eq!(e.ut_host, b"10.0.0.9");
    assert_eq!(e.ut_tv_sec, 1700000000);
}

#[test]
fn record_numbers_have_a_sign() {
    let rec = record(-2, "", "", "", -5);
    let e = UtmpEntry::parse(&rec);
    assert_eq!(e.ut_type, -2);
    assert_eq!(e.ut_tv_sec, -5);
    assert!(e.ut_user.is_empty());
}

#[test]
fn cut_off_records_do_not_count() {
    assert_eq!(utmp_count(&[]), 0);
    assert_eq!(utmp_count(&[0u8; 383]), 0);
    assert_eq!(utmp_count(&[0u8; 384]), 1);
    assert_eq!(utmp_count(&[0u8; 1000]), 2);
}

#[test]
fn latest_login_is_the_greatest_time() {
    let mut utmp = record(7, "tty1", "ada", "first", 100);
    utmp.extend(record(7, "tty2", "ada", "second", 300));
    utmp.extend(record(7, "tty3", "ada", "third", 300));
    utmp.extend(record(7, "tty4", "bob", "fourth", 900));
    utmp.extend(record(8, "tty5", "ada", "fifth", 900));
    let e = latest_login(&utmp, b"ada").unwrap();
    assert_eq!(e.ut_host, b"second");
    assert_eq!(e.ut_tv_sec, 300);
    assert!(latest_login(&utmp, b"eve").is_none());
    assert!(latest_login(&utmp, b"ad").is_none());
}

#[test]
fn login_at_time_zero_does_not_count() {
    let mut utmp = record(7, "tty1", "ada", "", 0);
    utmp.extend(record(7, "tty1", "ada", "", -7));
    assert!(latest_login(&utmp, b"ada").is_none());
}

#[test]
fn terminals_lose_their_directory() {
    let tty = current_tty(Some(b"/dev/pts/12"));
    assert_eq!(&tty[..6], b"pts/12");
    assert!(tty[6..].iter().all(|&b| b == 0));
    assert_eq!(&current_tty(Some(b"console"))[..8], b"console\0");
    assert_eq!(current_tty(None), [0u8; 32]);
}

#[test]
fn terminals_keep_thirty_one_bytes() {
    let tty = current_tty(Some(&[b'x'; 50]));
    assert_eq!(&tty[..31], &[b'x'; 31]);
    assert_eq!(tty[31], 0);
}

#[test]
fn login_from_the_records() {
    let mut utmp = record(7, "pts/0", "ada", "10.0.0.9", 100);
    utmp.extend(record(7, "pts/1", "ada", "10.0.0.10", 200));
    let mut info = SysInfo::new();
    let tty = current_tty(Some(b"/dev/pts/0"));
    let found = collect_login(&mut info.login, &mut info.net.client_ip, &utmp, &tty, b"ada", &TM);
    assert!(!found.more);
    assert!(found.on_terminal);
    assert_eq!(info.net.client_ip.as_str(), "10.0.0.9");
    assert_eq!(info.login.time.as_str(), "Mar 05 2026 09:07");
    assert_eq!(info.login.ip.as_str(), "10.0.0.10");
    assert!(info.login.has_ip);
}

#[test]
fn first_record_on_the_terminal_names_the_client() {
    let mut utmp = record(7, "pts/0", "ada", "one", 100);
    utmp.extend(record(7, "pts/0", "ada", "two", 200));
    let mut info = SysInfo::new();
    let tty = current_tty(Some(b"/dev/pts/0"));
    collect_login(&mut info.login, &mut info.net.client_ip, &utmp, &tty, b"ada", &TM);
    assert_eq!(info.net.client_ip.as_str(), "one");
    assert_eq!(info.login.ip.as_str(), "two");
}

#[test]
fn local_login_has_no_address() {
    let utmp = record(7, "tty1", "ada", "", 100);
    let mut info = SysInfo::new();
    let tty = current_tty(Some(b"/dev/tty1"));
    let found = collect_login(&mut info.login, &mut info.net.client_ip, &utmp, &tty, b"ada", &TM);
    assert!(found.more);
    assert!(info.net.client_ip.is_empty());
    assert_eq!(info.login.time.as_str(), "Mar 05 2026 09:07");
    assert!(!info.login.has_ip);
}

#[test]
fn no_terminal_is_not_connected() {
    let utmp = record(7, "", "ada", "host", 100);
    let mut info = SysInfo::new();
    let tty = current_tty(None);
    let found = collect_login(&mut info.login, &mut info.net.client_ip, &utmp, &tty, b"ada", &TM);
    assert!(found.more);
    assert!(info.net.client_ip.is_empty());
    assert_eq!(info.login.ip.as_str(), "host");
    finish_login(&mut info.login, &mut info.net.client_ip);
    assert_eq!(info.net.client_ip.as_str(), "Not connected");
}

#[test]
fn no_records_need_session_files() {
    let mut info = SysInfo::new();
    let tty = current_tty(Some(b"/dev/pts/0"));
    let found = collect_login(&mut info.login, &mut info.net.client_ip, b"", &tty, b"ada", &TM);
    assert!(found.more);
    assert!(info.login.time.is_empty());
    assert!(info.net.client_ip.is_empty());
}

#[test]
fn session_file_names() {
    assert!(is_session_file(b"42"));
    assert!(is_session_file(b"c1"));
    assert!(is_session_file(b"ref"));
    assert!(!is_session_file(b"."));
    assert!(!is_session_file(b".."));
    assert!(!is_session_file(b"42.ref"));
    assert!(!is_session_file(b".ref"));
}

#[test]
fn session_paths() {
    let path = session_path(b"42");
    assert_eq!(&path[..25], b"/run/systemd/sessions/42\0");
    assert!(path[24..].iter().all(|&b| b == 0));
    let long = session_path(&[b'x'; 200]);
    assert_eq!(long[126], b'x');
    assert_eq!(long[127], 0);
}

#[test]
fn latest_session_wins() {
    let mut scan = SessionScan::new();
    scan.offer(b"USER=ada\nREALTIME=5000000\nREMOTE_HOST=one\n", b"ada");
    scan.offer(b"USER=ada\nREALTIME=9000000\nREMOTE_HOST=two\nCLASS=user\n", b"ada");
    scan.offer(b"USER=ada\nREALTIME=9000000\nREMOTE_HOST=three\n", b"ada");
    scan.offer(b"USER=bob\nREALTIME=99000000\n", b"ada");
    scan.offer(b"USER=ada\nREALTIME=99000000\nCLASS=greeter\n", b"ada");
    scan.offer(b"REALTIME=99000000\n", b"ada");
    assert_eq!(scan.seconds(), 9);
    let mut info = SysInfo::new();
    scan.finish(&mut info.login, &mut info.net.client_ip, &TM, false);
    assert_eq!(info.login.time.as_str(), "Mar 05 2026 09:07");
    assert_eq!(info.net.client_ip.as_str(), "two");
    assert_eq!(info.login.ip.as_str(), "two");
    assert!(info.login.has_ip);
}

#[test]
fn display_stands_in_for_the_host() {
    let mut scan = SessionScan::new();
    scan.offer(b"USER=ada\nREALTIME=1\nDISPLAY=:0\n", b"ada");
    assert_eq!(scan.seconds(), 0);
    let mut info = SysInfo::new();
    scan.finish(&mut info.login, &mut info.net.client_ip, &TM, false);
    assert_eq!(info.net.client_ip.as_str(), ":0");
    assert_eq!(info.login.ip.as_str(), ":0");
    assert!(info.login.has_ip);
}

#[test]
fn session_changes_nothing_that_is_known() {
    let mut scan = SessionScan::new();
    scan.offer(b"USER=ada\nREALTIME=1\nREMOTE_HOST=far\n", b"ada");
    let mut info = SysInfo::new();
    info.login.time.push_str("then");
    info.net.client_ip.push_str("near");
    scan.finish(&mut info.login, &mut info.net.client_ip, &TM, false);
    assert_eq!(info.login.time.as_str(), "then");
    assert_eq!(info.net.client_ip.as_str(), "near");
    assert!(!info.login.has_ip);
}

#[test]
fn no_session_tells_nothing() {
    let scan = SessionScan::new();
    let mut info = SysInfo::new();
    scan.finish(&mut info.login, &mut info.net.client_ip, &TM, false);
    assert!(info.login.time.is_empty());
    assert!(info.net.client_ip.is_empty());
}

#[test]
fn unknown_login_says_so() {
    let mut info = SysInfo::new();
    finish_login(&mut info.login, &mut info.net.client_ip);
    assert_eq!(info.login.time.as_str(), "Unknown");
    assert_eq!(info.net.client_ip.as_str(), "Not connected");
    finish_login(&mut info.login, &mut info.net.client_ip);
    assert_eq!(info.login.time.as_str(), "Unknown");
    assert_eq!(info.net.client_ip.as_str(), "Not connected");
}

fn uptime(secs: u64) -> String {
    let mut b = Buf::<32>::new();
    push_uptime(&mut b, secs);
    b.as_str().to_string()
}

#[test]
fn uptimes() {
    assert_eq!(uptime(0), "0m");
    assert_eq!(uptime(59), "0m");
    assert_eq!(uptime(60), "1m");
    assert_eq!(uptime(3600), "1h 0m");
    assert_eq!(uptime(7384), "2h 3m");
    assert_eq!(uptime(86400), "1d 0h 0m");
    assert_eq!(uptime(350735), "4d 1h 25m");
}

#[test]
fn uptime_parts_make_up_its_minutes() {
    for secs in [86400u64, 90061, 350735, 864000, 8640059] {
        let text = uptime(secs);
        let parts: Vec<u64> = text
            .split(' ')
            .map(|p| p[..p.len() - 1].parse::<u64>().unwrap())
            .collect();
        assert_eq!(parts.len(), 3);
        assert!(parts[1] < 24 && parts[2] < 60);
        assert_eq!(parts[0] * 1440 + parts[1] * 60 + parts[2], secs / 60);
    }
}

#[test]
fn user_of_the_environment() {
    assert_eq!(current_user(Some(b"ada")).as_str(), "ada");
    assert_eq!(current_user(Some(b"")).as_str(), "");
    assert_eq!(current_user(None).as_str(), "unknown");
    assert_eq!(current_user(Some(&[b'u'; 80])).len(), 63);
}
