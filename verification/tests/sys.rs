use mstat::sys::{
    capitalize_into, collect_cpu, collect_disk, collect_loads, collect_mem, collect_net, collect_os, count_cpus,
    find_number, has_zfs, is_healthy, is_virtual, needs_dt_model, push_default, CpuSources, DiskData,
    DiskLabel, DiskUsage, Freq, FsStat, MemFigures, MemUsage, SysInfo, ZfsOutput,
};
use mstat::buf::Buf;
use mstat::scan::{Decimal, Digits};

const X86: &[u8] = b"processor\t: 0\nmodel name\t: Intel(R) Core(TM) i5-4300U CPU @ 1.90GHz\ncpu MHz\t\t: 2494.222\nphysical id\t: 0\ncpu cores\t: 2\nflags\t\t: fpu vme\n\nprocessor\t: 1\nphysical id\t: 0\n\nprocessor\t: 2\nphysical id\t: 1\n\nprocessor\t: 3\nphysical id\t: 1\n";

const ARM: &[u8] = b"processor\t: 0\nBogoMIPS\t: 108.00\n\nprocessor\t: 1\nBogoMIPS\t: 108.00\n\nModel\t\t: Raspberry Pi 4 Model B Rev 1.1\n";

fn sources<'a>(cpuinfo: &'a [u8], dt_model: &'a [u8], vendor: &'a [u8], loadavg: &'a [u8]) -> CpuSources<'a> {
    CpuSources { cpuinfo, dt_model, vendor, loadavg }
}

fn digits(mut d: Digits) -> String {
    let mut s = String::new();
    while let Some(b) = d.next() {
        s.push(b as char);
    }
    s
}

fn written(d: Decimal) -> (String, String) {
    (digits(d.whole), digits(d.frac))
}

#[test]
fn blank_report() {
    let info = SysInfo::new();
    assert_eq!(info.os.name.as_str(), "");
    assert_eq!(info.net.dns_count, 0);
    assert_eq!(info.cpu.total_cores, 1);
    assert_eq!(info.disk.used, 0);
    assert_eq!(info.disk.total, 1);
    assert!(!info.disk.zfs);
    assert_eq!(info.mem.total_kb, 1);
    assert_eq!(info.mem.percent, 0);
    assert!(!info.login.has_ip);
}

#[test]
fn os_name_and_kernel() {
    let mut info = SysInfo::new();
    let text = b"ID=debian\nVERSION=\"13 (trixie)\"\nVERSION_CODENAME=trixie\n";
    collect_os(&mut info.os, text, Some((b"Linux", b"6.12.0")));
    assert_eq!(info.os.name.as_str(), "Debian 13 (trixie) Trixie");
    assert_eq!(info.os.kernel.as_str(), "Linux 6.12.0");
}

#[test]
fn unknown_os_is_linux() {
    let mut info = SysInfo::new();
    collect_os(&mut info.os, b"", None);
    assert_eq!(info.os.name.as_str(), "Linux  ");
    assert_eq!(info.os.kernel.as_str(), "");
}

#[test]
fn first_letter_is_capitalized() {
    let mut info = SysInfo::new();
    collect_os(&mut info.os, b"ID=9front\nVERSION_CODENAME=Noble\n", None);
    assert_eq!(info.os.name.as_str(), "9Front  Noble");
    let words: [(&[u8], &str); 8] = [
        (b"arch", "Arch"),
        (b"9front", "9Front"),
        (b"_z", "_Z"),
        (b"9Front x", "9Front x"),
        (b"Arch", "Arch"),
        (b"13", "13"),
        (b"", ""),
        (b"a", "A"),
    ];
    for (word, expected) in words {
        let mut b = Buf::<32>::new();
        capitalize_into(word, &mut b);
        assert_eq!(b.as_str(), expected);
    }
}

#[test]
fn capitalized_text_is_cut_off() {
    let mut b = Buf::<4>::new();
    b.push_str("x");
    capitalize_into(b"12ab", &mut b);
    assert_eq!(b.as_str(), "x12A");
}

#[test]
fn long_os_name_is_cut_off() {
    let mut info = SysInfo::new();
    let mut text = b"ID=".to_vec();
    text.extend(vec![b'a'; 200]);
    collect_os(&mut info.os, &text, None);
    assert_eq!(info.os.name.len(), 128);
    assert!(info.os.name.as_str().starts_with("Aaa"));
}

#[test]
fn network_section() {
    let mut info = SysInfo::new();
    let resolv = b"# comment\nsearch lan\nnameserver 192.168.1.1\nnameserver\t10.0.0.53 # x\r\nnameserver \nnameserver2001:db8::1\r\n";
    collect_net(
        &mut info.net,
        Some(b"box\0junk"),
        Some([192, 168, 1, 20]),
        resolv,
        Some(b"ada"),
        b"unknown",
    );
    assert_eq!(info.net.hostname.as_str(), "box");
    assert_eq!(info.net.machine_ip.as_str(), "192.168.1.20");
    assert_eq!(info.net.dns_count, 3);
    assert_eq!(info.net.dns[0].as_str(), "192.168.1.1");
    assert_eq!(info.net.dns[1].as_str(), "10.0.0.53");
    assert_eq!(info.net.dns[2].as_str(), "2001:db8::1");
    assert_eq!(info.net.user.as_str(), "ada");
    assert!(info.net.client_ip.is_empty());
}

#[test]
fn network_defaults() {
    let mut info = SysInfo::new();
    collect_net(&mut info.net, None, None, b"", None, b"unknown");
    assert_eq!(info.net.hostname.as_str(), "Not Defined");
    assert_eq!(info.net.machine_ip.as_str(), "No IP found");
    assert_eq!(info.net.dns_count, 0);
    assert_eq!(info.net.user.as_str(), "unknown");
}

#[test]
fn empty_host_name_is_not_defined() {
    let mut info = SysInfo::new();
    collect_net(&mut info.net, Some(b"\0\0"), Some([0, 0, 0, 0]), b"", Some(b""), b"x");
    assert_eq!(info.net.hostname.as_str(), "Not Defined");
    assert_eq!(info.net.machine_ip.as_str(), "0.0.0.0");
    assert_eq!(info.net.user.as_str(), "");
}

#[test]
fn eight_name_servers_are_kept() {
    let mut info = SysInfo::new();
    let mut text: Vec<u8> = Vec::new();
    for i in 0..12 {
        text.extend(format!("nameserver 10.0.0.{}\n", i).into_bytes());
    }
    collect_net(&mut info.net, None, None, &text, None, b"x");
    assert_eq!(info.net.dns_count, 8);
    assert_eq!(info.net.dns[7].as_str(), "10.0.0.7");
    collect_net(&mut info.net, None, None, b"nameserver 1.1.1.1\n", None, b"x");
    assert_eq!(info.net.dns_count, 8);
    assert_eq!(info.net.dns[7].as_str(), "10.0.0.7");
}

#[test]
fn x86_processor() {
    let mut info = SysInfo::new();
    let from = sources(X86, b"", b"", b"0.52 0.58 1.59 1/467 12345\n");
    collect_cpu(&mut info.cpu, &from, Some(249));
    assert_eq!(info.cpu.model.as_str(), "Intel(R) Core(TM) i5-4300U CPU @ 1.90GHz");
    assert_eq!(info.cpu.cores_per_socket.as_str(), "2");
    assert_eq!(info.cpu.sockets.as_str(), "2");
    assert_eq!(info.cpu.total_cores, 4);
    assert_eq!(info.cpu.freq.as_str(), "2.49");
    assert_eq!(info.cpu.hypervisor.as_str(), "Bare Metal");
    assert_eq!(info.cpu.load_1.as_str(), "0.52");
    assert_eq!(info.cpu.load_5.as_str(), "0.58");
    assert_eq!(info.cpu.load_15.as_str(), "1.59");
    let (load_1, load_5, load_15) = info.cpu.loads();
    assert_eq!(written(load_1), ("0".to_string(), "52".to_string()));
    assert_eq!(written(load_5), ("0".to_string(), "58".to_string()));
    assert_eq!(written(load_15), ("1".to_string(), "59".to_string()));
}

#[test]
fn arm_processor() {
    let mut info = SysInfo::new();
    let from = sources(ARM, b"ignored", b"", b"");
    collect_cpu(&mut info.cpu, &from, None);
    assert_eq!(info.cpu.model.as_str(), "Raspberry Pi 4 Model B Rev 1.1");
    assert_eq!(info.cpu.cores_per_socket.as_str(), "2");
    assert_eq!(info.cpu.sockets.as_str(), "1");
    assert_eq!(info.cpu.total_cores, 2);
    assert_eq!(info.cpu.freq.as_str(), "");
    assert!(info.cpu.load_1.is_empty());
    assert!(!needs_dt_model(ARM));
}

#[test]
fn device_tree_names_the_model() {
    let cpuinfo = b"processor\t: 0\n";
    assert!(needs_dt_model(cpuinfo));
    let mut info = SysInfo::new();
    collect_cpu(&mut info.cpu, &sources(cpuinfo, b"Pine64\0", b"", b""), None);
    assert_eq!(info.cpu.model.as_str(), "Pine64");
    assert_eq!(info.cpu.cores_per_socket.as_str(), "1");
}

#[test]
fn there_is_at_least_one_processor_and_socket() {
    assert_eq!(count_cpus(b""), (1, 1));
    assert_eq!(count_cpus(X86), (4, 2));
    assert_eq!(count_cpus(ARM), (2, 1));
}

#[test]
fn sockets_are_told_apart_by_their_number() {
    let text = b"physical id\t: 7\nphysical id\t: 7\nphysical id : 255\nphysical id : 256\nphysical id\n";
    assert_eq!(count_cpus(text), (1, 2));
}

#[test]
fn hypervisors() {
    let flags = b"flags\t\t: fpu hypervisor lahf\n";
    assert!(is_virtual(flags));
    assert!(is_virtual(b"flags : fpu hypervisor\n"));
    assert!(!is_virtual(b"flags : fpu hypervisor"));
    assert!(!is_virtual(b"flags : fpu\n"));
    let names: [(&[u8], &str); 8] = [
        (b"VMware, Inc.\n", "VMware"),
        (b"QEMU\n", "KVM/QEMU"),
        (b"Microsoft Corporation\n", "Hyper-V"),
        (b"Xen\n", "Xen"),
        (b"Amazon EC2\n", "Amazon/KVM"),
        (b"Google\n", "Google Compute"),
        (b"Innotek\n", "Virtual"),
        (b"", "Virtual"),
    ];
    for (vendor, name) in names {
        let mut info = SysInfo::new();
        collect_cpu(&mut info.cpu, &sources(flags, b"", vendor, b""), None);
        assert_eq!(info.cpu.hypervisor.as_str(), name);
    }
}

#[test]
fn first_reading_of_the_frequency() {
    match Freq::at_start(X86, b"1900000\n") {
        Freq::Mhz(d) => {
            assert_eq!(written(d), ("2494".to_string(), "222".to_string()));
        }
        _ => panic!("no MHz"),
    }
    assert!(matches!(Freq::at_start(ARM, b"1500000\n"), Freq::Khz(1500000)));
    assert!(matches!(Freq::at_start(ARM, b""), Freq::Missing));
}

#[test]
fn later_readings_of_the_frequency() {
    assert!(matches!(Freq::at_tick(b"1900000\n", X86), Freq::Khz(1900000)));
    assert!(matches!(Freq::at_tick(b"", X86), Freq::Mhz(_)));
    assert!(matches!(Freq::at_tick(b"", ARM), Freq::Missing));
}

#[test]
fn loads_are_replaced() {
    let mut info = SysInfo::new();
    collect_loads(&mut info.cpu, b"1.00 2.00 3.00 1/1 1\n");
    collect_loads(&mut info.cpu, b"4.25");
    assert_eq!(info.cpu.load_1.as_str(), "4.25");
    assert!(info.cpu.load_5.is_empty());
    assert!(info.cpu.load_15.is_empty());
    assert_eq!(written(info.cpu.loads().0), ("4".to_string(), "25".to_string()));
    assert_eq!(written(info.cpu.loads().1), (String::new(), String::new()));
}

#[test]
fn zfs_is_looked_for() {
    assert!(has_zfs(b"zroot/ROOT/os / zfs rw 0 0\n"));
    assert!(!has_zfs(b"/dev/sda1 / ext4 rw 0 0\n"));
    assert!(is_healthy(b"pool 'zroot' is healthy\n"));
    assert!(!is_healthy(b"state: DEGRADED\n"));
}

#[test]
fn zfs_usage() {
    let usage = DiskUsage::of_zfs(b"1000\n3000\n", Some(true));
    assert!(matches!(
        usage,
        DiskUsage::Zfs { used: 1000, avail: 3000, total: 4000, healthy: Some(true) }
    ));
    assert!(matches!(
        DiskUsage::of_zfs(b"", None),
        DiskUsage::Zfs { used: 0, avail: 0, total: 0, healthy: None }
    ));
    assert!(matches!(
        DiskUsage::of_zfs(b"18446744073709551615\n2\n", None),
        DiskUsage::Zfs { used: u64::MAX, avail: 2, total: 1, healthy: None }
    ));
}

#[test]
fn file_system_usage() {
    assert!(matches!(
        DiskUsage::of_fs(4096, 1000, 250),
        DiskUsage::Fs { used_bytes: 3072000, total_bytes: 4096000, used_mb: 2, total_mb: 3 }
    ));
    assert!(matches!(
        DiskUsage::of_fs(4096, 0, 0),
        DiskUsage::Fs { used_bytes: 0, total_bytes: 0, used_mb: 0, total_mb: 0 }
    ));
}

#[test]
fn zfs_goes_before_the_root_file_system() {
    let root = FsStat { block: 1048576, blocks: 10, free: 4 };
    let zfs = ZfsOutput { usage: b"5\n6\n", status: Some(b"all pools are healthy: pool 'zroot' is healthy") };
    assert!(matches!(
        DiskUsage::read(Some(zfs), Some(root)),
        DiskUsage::Zfs { used: 5, avail: 6, total: 11, healthy: Some(true) }
    ));
    let ill = ZfsOutput { usage: b"5\n6\n", status: Some(b"DEGRADED") };
    assert!(matches!(
        DiskUsage::read(Some(ill), None),
        DiskUsage::Zfs { used: 5, avail: 6, total: 11, healthy: Some(false) }
    ));
    assert!(matches!(
        DiskUsage::read(None, Some(root)),
        DiskUsage::Fs { used_bytes: 6291456, total_bytes: 10485760, used_mb: 6, total_mb: 10 }
    ));
    assert!(matches!(DiskUsage::read(None, None), DiskUsage::Unknown));
}

#[test]
fn disk_section_of_a_file_system() {
    let mut disk = DiskData::new();
    let label = DiskLabel { used: 1250, of: 5000, percent: 2500 };
    collect_disk(&mut disk, &DiskUsage::of_fs(1048576, 51200, 38400), &label);
    assert_eq!(disk.label.as_str(), "12.50/50.00 GB [25.00%]");
    assert_eq!(disk.used, 12800);
    assert_eq!(disk.total, 51200);
    assert!(!disk.zfs);
    assert!(disk.health.is_empty());
}

#[test]
fn disk_section_of_a_pool() {
    let label = DiskLabel { used: 1, of: 2, percent: 3333 };
    let words: [(Option<bool>, &str); 3] =
        [(Some(true), "HEALTH O.K."), (Some(false), "DEGRADED"), (None, "")];
    for (healthy, word) in words {
        let mut disk = DiskData::new();
        collect_disk(&mut disk, &DiskUsage::of_zfs(b"10\n20\n", healthy), &label);
        assert_eq!(disk.label.as_str(), "0.01/0.02 GB [33.33%]");
        assert_eq!(disk.used, 10);
        assert_eq!(disk.total, 30);
        assert!(disk.zfs);
        assert_eq!(disk.health.as_str(), word);
    }
}

#[test]
fn unknown_disk_changes_nothing() {
    let mut disk = DiskData::new();
    collect_disk(&mut disk, &DiskUsage::Unknown, &DiskLabel { used: 1, of: 2, percent: 3 });
    assert!(disk.label.is_empty());
    assert_eq!(disk.used, 0);
    assert_eq!(disk.total, 1);
}

#[test]
fn memory_usage() {
    let usage = MemUsage::read(b"MemTotal:       16000 kB\nMemFree: 1 kB\nMemAvailable:    6000 kB\n");
    assert_eq!(usage.total_kb, 16000);
    assert_eq!(usage.used_kb, 10000);
}

#[test]
fn memory_usage_is_never_negative() {
    let usage = MemUsage::read(b"MemTotal: 5 kB\nMemAvailable: 6 kB\n");
    assert_eq!(usage.total_kb, 5);
    assert_eq!(usage.used_kb, 0);
    let none = MemUsage::read(b"");
    assert_eq!(none.total_kb, 0);
    assert_eq!(none.used_kb, 0);
}

#[test]
fn memory_section() {
    let mut info = SysInfo::new();
    let usage = MemUsage { total_kb: 16000, used_kb: 10000 };
    collect_mem(&mut info.mem, &usage, &MemFigures { used_gb: 95, total_gb: 1526, percent: 6250 });
    assert_eq!(info.mem.total_kb, 16000);
    assert_eq!(info.mem.used_kb, 10000);
    assert_eq!(info.mem.percent, 6250);
    assert_eq!(info.mem.used_gb.as_str(), "0.95");
    assert_eq!(info.mem.total_gb.as_str(), "15.26");
}

#[test]
fn numbers_of_keys() {
    assert_eq!(find_number(b"REALTIME=1700000000000000\n", "REALTIME", b'='), 1700000000000000);
    assert_eq!(find_number(b"REALTIME=\n", "REALTIME", b'='), 0);
    assert_eq!(find_number(b"", "REALTIME", b'='), 0);
}

#[test]
fn defaults_fill_empty_buffers() {
    let mut b = Buf::<16>::new();
    push_default(&mut b, "none");
    assert_eq!(b.as_str(), "none");
    push_default(&mut b, "other");
    assert_eq!(b.as_str(), "none");
}
