//! What the report shows of a machine, and how it is read from the texts of the system.
//!
//! The collectors take what was read from files and system calls, and fill the sections of a
//! `SysInfo`. Figures that are computed as fractions come in as whole hundredths.

use crate::buf;
use crate::buf::Buf;
use crate::scan;
use crate::scan::{
    contains, cstr_len, find_byte, find_val, parse_u64_b, piece, starts_with, Decimal, Pieces, COLON, CR,
    DOT, EQUALS, LF, SLASH, SPACE, TAB,
};
use vstd::prelude::*;
use vstd::set_lib::*;
use vstd::slice::slice_subrange;
use vstd::utf8::*;

verus! {

/// The most name servers that are kept.
pub const MAX_DNS: usize = 8;

pub struct OsData {
    pub name: Buf<128>,
    pub kernel: Buf<128>,
}

pub struct NetData {
    pub hostname: Buf<128>,
    pub machine_ip: Buf<64>,
    pub client_ip: Buf<64>,
    pub dns: [Buf<64>; MAX_DNS],
    pub dns_count: usize,
    pub user: Buf<64>,
}

/// The load averages are kept as they are written, as far as 128 bytes each.
pub struct CpuData {
    pub model: Buf<128>,
    pub cores_per_socket: Buf<16>,
    pub sockets: Buf<16>,
    pub hypervisor: Buf<64>,
    pub freq: Buf<16>,
    pub load_1: Buf<128>,
    pub load_5: Buf<128>,
    pub load_15: Buf<128>,
    pub total_cores: u64,
}

pub struct DiskData {
    pub label: Buf<64>,
    pub used: u64,
    pub total: u64,
    pub zfs: bool,
    pub health: Buf<32>,
}

/// The percentage is a number of hundredths of a percent.
pub struct MemData {
    pub used_kb: u64,
    pub total_kb: u64,
    pub percent: u64,
    pub used_gb: Buf<16>,
    pub total_gb: Buf<16>,
}

pub struct LoginData {
    pub time: Buf<64>,
    pub ip: Buf<64>,
    pub has_ip: bool,
    pub uptime: Buf<32>,
}

pub struct SysInfo {
    pub os: OsData,
    pub net: NetData,
    pub cpu: CpuData,
    pub disk: DiskData,
    pub mem: MemData,
    pub login: LoginData,
}

impl NetData {
    /// The count counts name servers that are there.
    pub open spec fn wf(&self) -> bool {
        self.dns_count <= MAX_DNS
    }
}

impl DiskData {
    /// Nothing is known of the disk.
    pub open spec fn is_blank(&self) -> bool {
        &&& self.label@ == Seq::<u8>::empty()
        &&& self.used == 0
        &&& self.total == 1
        &&& !self.zfs
        &&& self.health@ == Seq::<u8>::empty()
    }

    /// A section of which nothing is known.
    pub fn new() -> (d: Self)
        ensures
            d.is_blank(),
    {
        DiskData { label: Buf::new(), used: 0, total: 1, zfs: false, health: Buf::new() }
    }
}

impl SysInfo {
    /// Nothing is known of the machine.
    pub open spec fn is_blank(&self) -> bool {
        let none = Seq::<u8>::empty();
        &&& self.os.name@ == none
        &&& self.os.kernel@ == none
        &&& self.net.hostname@ == none
        &&& self.net.machine_ip@ == none
        &&& self.net.client_ip@ == none
        &&& forall|i: int| 0 <= i < MAX_DNS ==> (#[trigger] self.net.dns[i])@ == none
        &&& self.net.dns_count == 0
        &&& self.net.user@ == none
        &&& self.cpu.model@ == none
        &&& self.cpu.cores_per_socket@ == none
        &&& self.cpu.sockets@ == none
        &&& self.cpu.hypervisor@ == none
        &&& self.cpu.freq@ == none
        &&& self.cpu.load_1@ == none
        &&& self.cpu.load_5@ == none
        &&& self.cpu.load_15@ == none
        &&& self.cpu.total_cores == 1
        &&& self.disk.is_blank()
        &&& self.mem.used_kb == 0
        &&& self.mem.total_kb == 1
        &&& self.mem.percent == 0
        &&& self.mem.used_gb@ == none
        &&& self.mem.total_gb@ == none
        &&& self.login.time@ == none
        &&& self.login.ip@ == none
        &&& !self.login.has_ip
        &&& self.login.uptime@ == none
    }

    /// A report of which nothing is known yet.
    pub fn new() -> (s: Self)
        ensures
            s.is_blank(),
    {
        let blank: Buf<64> = Buf::new();
        SysInfo {
            os: OsData { name: Buf::new(), kernel: Buf::new() },
            net: NetData {
                hostname: Buf::new(),
                machine_ip: Buf::new(),
                client_ip: Buf::new(),
                dns: [blank; MAX_DNS],
                dns_count: 0,
                user: Buf::new(),
            },
            cpu: CpuData {
                model: Buf::new(),
                cores_per_socket: Buf::new(),
                sockets: Buf::new(),
                hypervisor: Buf::new(),
                freq: Buf::new(),
                load_1: Buf::new(),
                load_5: Buf::new(),
                load_15: Buf::new(),
                total_cores: 1,
            },
            disk: DiskData::new(),
            mem: MemData {
                used_kb: 0,
                total_kb: 1,
                percent: 0,
                used_gb: Buf::new(),
                total_gb: Buf::new(),
            },
            login: LoginData {
                time: Buf::new(),
                ip: Buf::new(),
                has_ip: false,
                uptime: Buf::new(),
            },
        }
    }
}

/// The value of `key`, or `default` where there is none.
pub open spec fn value_or(content: Seq<u8>, key: &str, sep: u8, default: Seq<u8>) -> Seq<u8> {
    match scan::value_of(content, scan::bytes(key), sep) {
        Some(v) => v,
        None => default,
    }
}

/// The class of the ASCII letters.
pub open spec fn letter() -> scan::ByteClass {
    |b: u8| 65 <= b <= 90 || 97 <= b <= 122
}

/// `s` with its first ASCII letter in upper case, where it has one.
pub open spec fn capitalized(s: Seq<u8>) -> Seq<u8> {
    let i = scan::first_of(s, letter());
    if i < s.len() && 97 <= s[i] {
        s.update(i, (s[i] - 32) as u8)
    } else {
        s
    }
}

/// Appends `src`, with its first ASCII letter in upper case.
pub fn capitalize_into<const N: usize>(src: &[u8], dst: &mut Buf<N>)
    ensures
        final(dst)@ == buf::clip(old(dst)@ + capitalized(src@), N as nat),
{
    broadcast use buf::lemma_clip_append;

    let mut i: usize = 0;
    while i < src.len() && !(65 <= src[i] && src[i] <= 90) && !(97 <= src[i] && src[i] <= 122)
        invariant
            i <= src.len(),
            forall|k: int| 0 <= k < i ==> !letter()(#[trigger] src@[k]),
        decreases src.len() - i,
    {
        i = i + 1;
    }
    proof {
        scan::lemma_first_of(src@, letter(), i as int);
    }
    if i < src.len() && 97 <= src[i] {
        let first: u8 = src[i] - 32;
        let head = slice_subrange(src, 0, i);
        let rest = slice_subrange(src, i + 1, src.len());
        let ghost before = dst@;
        dst.push_bytes(head);
        dst.push_byte(first);
        dst.push_bytes(rest);
        assert(before + head@ + seq![first] + rest@ =~= before + capitalized(src@));
    } else {
        dst.push_bytes(src);
    }
}

/// The name of an operating system, from its os-release file.
pub open spec fn os_name(os_release: Seq<u8>) -> Seq<u8> {
    let none = Seq::<u8>::empty();
    capitalized(value_or(os_release, "ID", EQUALS, scan::bytes("linux"))) + seq![SPACE] + value_or(
        os_release,
        "VERSION",
        EQUALS,
        none,
    ) + seq![SPACE] + capitalized(value_or(os_release, "VERSION_CODENAME", EQUALS, none))
}

impl OsData {
    /// This is what `before` becomes when the system is collected.
    pub open spec fn collects(
        &self,
        before: OsData,
        os_release: Seq<u8>,
        uname: Option<(&[u8], &[u8])>,
    ) -> bool {
        &&& self.name@ == buf::clip(before.name@ + os_name(os_release), 128)
        &&& match uname {
            Some((name, release)) => self.kernel@ == buf::clip(
                before.kernel@ + (name@ + seq![SPACE] + release@),
                128,
            ),
            None => self.kernel@ == before.kernel@,
        }
    }
}

/// Collects the name of the system from its os-release file, and the kernel from the system
/// name and release of `uname`.
pub fn collect_os(data: &mut OsData, os_release: &[u8], uname: Option<(&[u8], &[u8])>)
    ensures
        final(data).collects(*old(data), os_release@, uname),
{
    broadcast use buf::lemma_clip_append;

    let id = match find_val(os_release, "ID".as_bytes(), EQUALS) {
        Some(v) => v,
        None => "linux".as_bytes(),
    };
    let none = slice_subrange(os_release, 0, 0);
    assert(none@ =~= seq![]);
    let ver = match find_val(os_release, "VERSION".as_bytes(), EQUALS) {
        Some(v) => v,
        None => none,
    };
    let code = match find_val(os_release, "VERSION_CODENAME".as_bytes(), EQUALS) {
        Some(v) => v,
        None => none,
    };
    let ghost before = data.name@;
    capitalize_into(id, &mut data.name);
    data.name.push_byte(SPACE);
    data.name.push_bytes(ver);
    data.name.push_byte(SPACE);
    capitalize_into(code, &mut data.name);
    assert(before + capitalized(id@) + seq![SPACE] + ver@ + seq![SPACE] + capitalized(code@)
        =~= before + os_name(os_release@));
    if let Some((name, release)) = uname {
        let ghost before = data.kernel@;
        data.kernel.push_bytes(name);
        data.kernel.push_byte(SPACE);
        data.kernel.push_bytes(release);
        assert(before + name@ + seq![SPACE] + release@ =~= before + (name@ + seq![SPACE]
            + release@));
    }
}

/// The address on a `nameserver` line, where it has one.
pub open spec fn server_on(line: Seq<u8>) -> Option<Seq<u8>> {
    let rest = scan::strip_front(line.skip(10), scan::blank());
    let addr = rest.take(scan::first_of(rest, after_addr()));
    if scan::begins(line, scan::bytes("nameserver")) && addr.len() > 0 {
        Some(addr)
    } else {
        None
    }
}

/// The class of what ends an address: blanks and carriage returns.
pub open spec fn after_addr() -> scan::ByteClass {
    |b: u8| b == SPACE || b == TAB || b == CR
}

/// The addresses on the `nameserver` lines.
pub open spec fn servers_on(lines: Seq<Seq<u8>>) -> Seq<Seq<u8>>
    decreases lines.len(),
{
    if lines.len() == 0 {
        seq![]
    } else {
        match server_on(lines[0]) {
            Some(addr) => seq![addr] + servers_on(lines.drop_first()),
            None => servers_on(lines.drop_first()),
        }
    }
}

/// The name servers that a resolv.conf file names, in its order.
pub open spec fn servers(resolv: Seq<u8>) -> Seq<Seq<u8>> {
    servers_on(scan::split(resolv, LF))
}

/// The address on a `nameserver` line.
fn find_server<'a>(line: &'a [u8]) -> (r: Option<&'a [u8]>)
    ensures
        r matches Some(a) ==> server_on(line@) == Some(a@),
        r is None ==> server_on(line@) is None,
{
    if !starts_with(line, "nameserver".as_bytes()) {
        return None;
    }
    proof {
        lemma_nameserver_len();
    }
    let rest = slice_subrange(line, 10, line.len());
    assert(rest@ =~= line@.skip(10));
    let mut start: usize = 0;
    while start < rest.len() && (rest[start] == SPACE || rest[start] == TAB)
        invariant
            start <= rest.len(),
            forall|k: int| 0 <= k < start ==> scan::blank()(#[trigger] rest@[k]),
        decreases rest.len() - start,
    {
        start = start + 1;
    }
    let ghost tail = rest@.skip(start as int);
    proof {
        scan::lemma_strip_front(rest@, scan::blank(), start as int);
    }
    let mut end: usize = start;
    while end < rest.len() && rest[end] != SPACE && rest[end] != TAB && rest[end] != CR
        invariant
            start <= end <= rest.len(),
            tail == rest@.skip(start as int),
            forall|k: int| 0 <= k < end - start ==> !after_addr()(#[trigger] tail[k]),
        decreases rest.len() - end,
    {
        end = end + 1;
    }
    proof {
        scan::lemma_first_of(tail, after_addr(), end - start);
        assert(tail.take(end - start) =~= rest@.subrange(start as int, end as int));
    }
    if start < end {
        Some(slice_subrange(rest, start, end))
    } else {
        None
    }
}

proof fn lemma_nameserver_len()
    ensures
        scan::bytes("nameserver").len() == 10,
{
    reveal_strlit("nameserver");
    is_ascii_chars_encode_utf8("nameserver"@);
}

/// The C string at the start of `s`.
pub open spec fn cstr(s: Seq<u8>) -> Seq<u8> {
    s.take(scan::first_of(s, scan::only(0)))
}

/// A buffer of `n` bytes that held `s` once `t`, where there is one, is appended.
pub open spec fn appended(s: Seq<u8>, t: Option<Seq<u8>>, n: nat) -> Seq<u8> {
    match t {
        Some(x) => buf::clip(s + x, n),
        None => s,
    }
}

/// The C string at the start of what is there.
pub open spec fn cstr_in(s: Option<&[u8]>) -> Option<Seq<u8>> {
    match s {
        Some(x) => Some(cstr(x@)),
        None => None,
    }
}

/// `s`, or the default text in a buffer of `n` bytes where `s` is empty.
pub open spec fn or_text(s: Seq<u8>, default: &str, n: nat) -> Seq<u8> {
    if s.len() == 0 {
        buf::clip(scan::bytes(default), n)
    } else {
        s
    }
}

/// An address in dotted decimal.
pub open spec fn dotted(ip: Seq<u8>) -> Seq<u8> {
    buf::decimal(ip[0] as nat) + seq![DOT] + buf::decimal(ip[1] as nat) + seq![DOT] + buf::decimal(
        ip[2] as nat,
    ) + seq![DOT] + buf::decimal(ip[3] as nat)
}

/// An address in dotted decimal, where there is one.
pub open spec fn dotted_in(ip: Option<[u8; 4]>) -> Option<Seq<u8>> {
    match ip {
        Some(x) => Some(dotted(x@)),
        None => None,
    }
}

/// How many name servers are kept of `n`, where `count` are there already.
pub open spec fn dns_total(count: nat, n: nat) -> nat {
    if count >= MAX_DNS {
        count
    } else if count + n >= MAX_DNS {
        MAX_DNS as nat
    } else {
        count + n
    }
}

impl NetData {
    /// This is what `before` becomes when name servers are added, as far as there is room.
    pub open spec fn adds_servers(&self, before: NetData, found: Seq<Seq<u8>>) -> bool {
        &&& self.dns_count == dns_total(before.dns_count as nat, found.len())
        &&& forall|i: int|
            0 <= i < MAX_DNS ==> (#[trigger] self.dns[i])@ == (if before.dns_count <= i
                < self.dns_count {
                buf::clip(before.dns[i]@ + found[i - before.dns_count], 64)
            } else {
                before.dns[i]@
            })
    }

    /// This is what `before` becomes when the network is collected, but for the client.
    pub open spec fn collects(
        &self,
        before: NetData,
        hostname: Option<&[u8]>,
        machine_ip: Option<[u8; 4]>,
        resolv: Seq<u8>,
        env_user: Option<&[u8]>,
        user: Seq<u8>,
    ) -> bool {
        &&& self.hostname@ == or_text(
            appended(before.hostname@, cstr_in(hostname), 128),
            "Not Defined",
            128,
        )
        &&& self.machine_ip@ == or_text(
            appended(before.machine_ip@, dotted_in(machine_ip), 64),
            "No IP found",
            64,
        )
        &&& self.adds_servers(before, servers(resolv))
        &&& self.user@ == buf::clip(
            before.user@ + (match env_user {
                Some(u) => u@,
                None => user,
            }),
            64,
        )
    }
}

/// Appends the default text to an empty buffer.
pub fn push_default<const N: usize>(b: &mut Buf<N>, default: &str)
    ensures
        final(b)@ == or_text(old(b)@, default, N as nat),
{
    if b.is_empty() {
        assert(b@ + scan::bytes(default) =~= scan::bytes(default));
        b.push_str(default);
    }
}

/// Appends an address in dotted decimal.
fn push_dotted<const N: usize>(b: &mut Buf<N>, ip: [u8; 4])
    ensures
        final(b)@ == buf::clip(old(b)@ + dotted(ip@), N as nat),
{
    broadcast use buf::lemma_clip_append;

    let ghost before = b@;
    b.push_u64(ip[0] as u64);
    b.push_byte(DOT);
    b.push_u64(ip[1] as u64);
    b.push_byte(DOT);
    b.push_u64(ip[2] as u64);
    b.push_byte(DOT);
    b.push_u64(ip[3] as u64);
    assert(before + buf::decimal(ip@[0] as nat) + seq![DOT] + buf::decimal(ip@[1] as nat) + seq![
        DOT,
    ] + buf::decimal(ip@[2] as nat) + seq![DOT] + buf::decimal(ip@[3] as nat) =~= before + dotted(
        ip@,
    ));
}

/// Appends the name servers of a resolv.conf file, as far as there is room for them.
fn collect_dns(data: &mut NetData, resolv: &[u8])
    ensures
        final(data).hostname == old(data).hostname,
        final(data).machine_ip == old(data).machine_ip,
        final(data).client_ip == old(data).client_ip,
        final(data).user == old(data).user,
        final(data).adds_servers(*old(data), servers(resolv@)),
{
    let ghost all = servers(resolv@);
    let ghost n0 = old(data).dns_count as int;
    let ghost mut done: Seq<Seq<u8>> = seq![];
    let mut lines = Pieces::new(resolv, LF);
    let mut more: bool = true;
    assert(done + servers_on(lines@) =~= all);
    while more && data.dns_count < MAX_DNS
        invariant
            data.hostname == old(data).hostname,
            data.machine_ip == old(data).machine_ip,
            data.client_ip == old(data).client_ip,
            data.user == old(data).user,
            n0 == old(data).dns_count,
            all == servers(resolv@),
            all == done + servers_on(lines@),
            !more ==> done == all,
            data.dns_count == n0 + done.len(),
            done.len() > 0 ==> data.dns_count <= MAX_DNS,
            forall|i: int|
                0 <= i < MAX_DNS ==> (#[trigger] data.dns[i])@ == (if n0 <= i < data.dns_count {
                    buf::clip(old(data).dns[i]@ + done[i - n0], 64)
                } else {
                    old(data).dns[i]@
                }),
        decreases lines@.len() + (if more { 1int } else { 0int }),
    {
        match lines.next() {
            Some(line) => {
                if let Some(addr) = find_server(line) {
                    let at: usize = data.dns_count;
                    let ghost before = data.dns@;
                    data.dns[at].push_bytes(addr);
                    data.dns_count = at + 1;
                    proof {
                        done = done.push(addr@);
                        assert(done + servers_on(lines@) =~= all);
                    }
                }
            },
            None => {
                assert(done + servers_on(lines@) =~= done);
                more = false;
            },
        }
    }
}

/// Collects the host name as `gethostname` writes it, the address of the machine, the name
/// servers of a resolv.conf file, and the user: the one that the environment names, or else
/// `user_bytes`.
pub fn collect_net(
    data: &mut NetData,
    hostname: Option<&[u8]>,
    machine_ip: Option<[u8; 4]>,
    resolv: &[u8],
    env_user: Option<&[u8]>,
    user_bytes: &[u8],
)
    ensures
        final(data).collects(*old(data), hostname, machine_ip, resolv@, env_user, user_bytes@),
        final(data).client_ip == old(data).client_ip,
        old(data).wf() ==> final(data).wf(),
{
    if let Some(raw) = hostname {
        let len: usize = cstr_len(raw);
        let name = slice_subrange(raw, 0, len);
        assert(name@ =~= cstr(raw@));
        data.hostname.push_bytes(name);
    }
    push_default(&mut data.hostname, "Not Defined");
    if let Some(ip) = machine_ip {
        push_dotted(&mut data.machine_ip, ip);
    }
    push_default(&mut data.machine_ip, "No IP found");
    collect_dns(data, resolv);
    match env_user {
        Some(u) => data.user.push_bytes(u),
        None => data.user.push_bytes(user_bytes),
    }
}

/// What is read to describe the processor: `/proc/cpuinfo`, the model of the device tree, the
/// vendor of the machine, and `/proc/loadavg`.
pub struct CpuSources<'a> {
    pub cpuinfo: &'a [u8],
    pub dt_model: &'a [u8],
    pub vendor: &'a [u8],
    pub loadavg: &'a [u8],
}

/// The model that `/proc/cpuinfo` names, which x86 and ARM do on different lines.
pub open spec fn cpuinfo_model(cpuinfo: Seq<u8>) -> Option<Seq<u8>> {
    match scan::value_of(cpuinfo, scan::bytes("model name"), COLON) {
        Some(v) => Some(v),
        None => scan::value_of(cpuinfo, scan::bytes("Model"), COLON),
    }
}

/// The model of the processor, for which the device tree stands in.
pub open spec fn cpu_model(cpuinfo: Seq<u8>, dt_model: Seq<u8>) -> Seq<u8> {
    match cpuinfo_model(cpuinfo) {
        Some(v) => v,
        None => cstr(dt_model),
    }
}

/// The number of lines that begin with `processor`.
pub open spec fn processor_lines(lines: Seq<Seq<u8>>) -> nat
    decreases lines.len(),
{
    if lines.len() == 0 {
        0
    } else {
        (if scan::begins(lines[0], scan::bytes("processor")) {
            1nat
        } else {
            0nat
        }) + processor_lines(lines.drop_first())
    }
}

/// The number of processors, which is at least one.
pub open spec fn cpu_count(cpuinfo: Seq<u8>) -> nat {
    let n = processor_lines(scan::split(cpuinfo, LF));
    if n == 0 {
        1
    } else {
        n
    }
}

/// The socket that a `physical id` line names, of those below 256.
pub open spec fn socket_on(line: Seq<u8>) -> Option<int> {
    let id = scan::u64_value(line.skip(scan::first_of(line, scan::only(COLON)) + 1));
    if scan::begins(line, scan::bytes("physical id")) && line.contains(COLON) && id < 256 {
        Some(id as int)
    } else {
        None
    }
}

/// The sockets that the `physical id` lines name.
pub open spec fn sockets_on(lines: Seq<Seq<u8>>) -> Set<int>
    decreases lines.len(),
{
    if lines.len() == 0 {
        Set::empty()
    } else {
        match socket_on(lines[0]) {
            Some(id) => sockets_on(lines.drop_first()).insert(id),
            None => sockets_on(lines.drop_first()),
        }
    }
}

/// The number of sockets, which is at least one.
pub open spec fn socket_count(cpuinfo: Seq<u8>) -> nat {
    let n = sockets_on(scan::split(cpuinfo, LF)).len();
    if n == 0 {
        1
    } else {
        n
    }
}

/// The flags of the processor tell that it is virtual.
pub open spec fn virtual_cpu(cpuinfo: Seq<u8>) -> bool {
    scan::occurs(cpuinfo, scan::bytes(" hypervisor ")) || scan::occurs(
        cpuinfo,
        scan::bytes(" hypervisor\n"),
    )
}

/// The hypervisor that goes with a vendor of virtual machines.
pub open spec fn vendor_name(vendor: Seq<u8>) -> Seq<char> {
    if scan::occurs(vendor, scan::bytes("VMware")) {
        "VMware"@
    } else if scan::occurs(vendor, scan::bytes("QEMU")) {
        "KVM/QEMU"@
    } else if scan::occurs(vendor, scan::bytes("Microsoft")) {
        "Hyper-V"@
    } else if scan::occurs(vendor, scan::bytes("Xen")) {
        "Xen"@
    } else if scan::occurs(vendor, scan::bytes("Amazon")) {
        "Amazon/KVM"@
    } else if scan::occurs(vendor, scan::bytes("Google")) {
        "Google Compute"@
    } else {
        "Virtual"@
    }
}

/// What the processor runs on.
pub open spec fn hypervisor_name(cpuinfo: Seq<u8>, vendor: Seq<u8>) -> Seq<char> {
    if virtual_cpu(cpuinfo) {
        vendor_name(vendor)
    } else {
        "Bare Metal"@
    }
}

/// Whether the device tree has to be asked for the model of the processor.
pub fn needs_dt_model(cpuinfo: &[u8]) -> (r: bool)
    ensures
        r <==> cpuinfo_model(cpuinfo@) is None,
{
    find_model(cpuinfo).is_none()
}

fn find_model<'a>(cpuinfo: &'a [u8]) -> (r: Option<&'a [u8]>)
    ensures
        r matches Some(v) ==> cpuinfo_model(cpuinfo@) == Some(v@),
        r is None ==> cpuinfo_model(cpuinfo@) is None,
{
    let first = find_val(cpuinfo, "model name".as_bytes(), COLON);
    if first.is_some() {
        return first;
    }
    find_val(cpuinfo, "Model".as_bytes(), COLON)
}

/// Whether the flags of the processor tell that it is virtual.
pub fn is_virtual(cpuinfo: &[u8]) -> (r: bool)
    ensures
        r == virtual_cpu(cpuinfo@),
{
    contains(cpuinfo, " hypervisor ".as_bytes()) || contains(cpuinfo, " hypervisor\n".as_bytes())
}

/// The hypervisor that goes with a vendor of virtual machines.
fn find_vendor(vendor: &[u8]) -> (r: &'static str)
    ensures
        r@ == vendor_name(vendor@),
{
    if contains(vendor, "VMware".as_bytes()) {
        "VMware"
    } else if contains(vendor, "QEMU".as_bytes()) {
        "KVM/QEMU"
    } else if contains(vendor, "Microsoft".as_bytes()) {
        "Hyper-V"
    } else if contains(vendor, "Xen".as_bytes()) {
        "Xen"
    } else if contains(vendor, "Amazon".as_bytes()) {
        "Amazon/KVM"
    } else if contains(vendor, "Google".as_bytes()) {
        "Google Compute"
    } else {
        "Virtual"
    }
}

/// The socket that a `physical id` line names.
fn find_socket(line: &[u8]) -> (r: Option<usize>)
    ensures
        match r {
            Some(id) => socket_on(line@) == Some(id as int) && id < 256,
            None => socket_on(line@) is None,
        },
{
    if !starts_with(line, "physical id".as_bytes()) {
        return None;
    }
    let at: usize = find_byte(line, 0, COLON);
    proof {
        assert(line@.skip(0) =~= line@);
        scan::lemma_first_of_props(line@, scan::only(COLON));
    }
    if at == line.len() {
        assert(!line@.contains(COLON)) by {
            if line@.contains(COLON) {
                let k = choose|k: int| 0 <= k < line@.len() && line@[k] == COLON;
                assert(!scan::only(COLON)(line@[k]));
            }
        }
        return None;
    }
    assert(line@.contains(COLON));
    let rest = slice_subrange(line, at + 1, line.len());
    assert(rest@ =~= line@.skip(at + 1));
    let id: u64 = parse_u64_b(rest);
    if id < 256 {
        Some(id as usize)
    } else {
        None
    }
}

/// A text has no more `processor` lines than bytes.
proof fn lemma_processor_lines_bound(s: Seq<u8>)
    ensures
        processor_lines(scan::split(s, LF)) <= s.len(),
    decreases s.len(),
{
    let lines = scan::split(s, LF);
    let i = scan::first_of(s, scan::only(LF));
    scan::lemma_first_of_props(s, scan::only(LF));
    assert(scan::bytes("processor").len() > 0) by {
        reveal_strlit("processor");
        is_ascii_chars_encode_utf8("processor"@);
    }
    if i < s.len() {
        lemma_processor_lines_bound(s.skip(i + 1));
        assert(lines.drop_first() =~= scan::split(s.skip(i + 1), LF));
    } else {
        assert(lines.drop_first() =~= seq![]);
        assert(processor_lines(seq![]) == 0);
    }
}

/// The number of processors and of sockets that `/proc/cpuinfo` lists.
pub fn count_cpus(cpuinfo: &[u8]) -> (r: (u64, u64))
    ensures
        r.0 == cpu_count(cpuinfo@),
        r.1 == socket_count(cpuinfo@),
{
    let ghost all = scan::split(cpuinfo@, LF);
    let mut seen: [bool; 256] = [false; 256];
    let ghost mut set: Set<int> = Set::empty();
    let mut sockets: u64 = 0;
    let mut cpus: u64 = 0;
    let mut lines = Pieces::new(cpuinfo, LF);
    proof {
        assert(set.union(sockets_on(all)) =~= sockets_on(all));
        lemma_processor_lines_bound(cpuinfo@);
        assert(cpuinfo@.len() == cpuinfo.len());
    }
    loop
        invariant
            all == scan::split(cpuinfo@, LF),
            set.finite(),
            sockets == set.len(),
            forall|i: int| 0 <= i < 256 ==> (#[trigger] seen[i] <==> set.contains(i)),
            forall|i: int| #[trigger] set.contains(i) ==> 0 <= i < 256,
            processor_lines(all) <= u64::MAX,
            processor_lines(all) == cpus + processor_lines(lines@),
            sockets_on(all) == set.union(sockets_on(lines@)),
        ensures
            sockets == set.len(),
            processor_lines(all) == cpus,
            sockets_on(all) == set,
        decreases lines@.len(),
    {
        match lines.next() {
            Some(line) => {
                if starts_with(line, "processor".as_bytes()) {
                    cpus = cpus + 1;
                }
                if let Some(id) = find_socket(line) {
                    if !seen[id] {
                        proof {
                            lemma_int_range(0, 256);
                            lemma_len_subset(set, set_int_range(0, 256));
                        }
                        seen[id] = true;
                        sockets = sockets + 1;
                        proof {
                            set = set.insert(id as int);
                        }
                    }
                }
                assert(sockets_on(all) =~= set.union(sockets_on(lines@)));
            },
            None => {
                assert(set.union(sockets_on(lines@)) =~= set);
                break ;
            },
        }
    }
    (if cpus == 0 { 1 } else { cpus }, if sockets == 0 { 1 } else { sockets })
}

/// A reading of the frequency of the processor.
pub enum Freq<'a> {
    Mhz(Decimal<'a>),
    Khz(u64),
    Missing,
}

impl<'a> Freq<'a> {
    /// This is the `cpu MHz` of `/proc/cpuinfo`.
    pub open spec fn is_mhz_of(&self, cpuinfo: Seq<u8>) -> bool {
        match scan::value_of(cpuinfo, scan::bytes("cpu MHz"), COLON) {
            Some(v) => self matches Freq::Mhz(d) && d.reads(v),
            None => *self is Missing,
        }
    }

    /// This is the number that sysfs gives.
    pub open spec fn is_khz_of(&self, sysfs: Seq<u8>) -> bool {
        if sysfs.len() > 0 {
            self matches Freq::Khz(n) && n == scan::u64_value(sysfs)
        } else {
            *self is Missing
        }
    }

    /// The `cpu MHz` of `/proc/cpuinfo`.
    fn from_cpuinfo(cpuinfo: &'a [u8]) -> (f: Freq<'a>)
        ensures
            f.is_mhz_of(cpuinfo@),
    {
        match find_val(cpuinfo, "cpu MHz".as_bytes(), COLON) {
            Some(v) => Freq::Mhz(Decimal::scan(v)),
            None => Freq::Missing,
        }
    }

    /// The number that sysfs gives.
    fn from_sysfs(sysfs: &[u8]) -> (f: Freq<'a>)
        ensures
            f.is_khz_of(sysfs@),
    {
        if sysfs.len() > 0 {
            Freq::Khz(parse_u64_b(sysfs))
        } else {
            Freq::Missing
        }
    }

    /// The first reading of the frequency: `/proc/cpuinfo`, or else sysfs.
    pub fn at_start(cpuinfo: &'a [u8], sysfs: &[u8]) -> (f: Freq<'a>)
        ensures
            if scan::value_of(cpuinfo@, scan::bytes("cpu MHz"), COLON) is Some {
                f.is_mhz_of(cpuinfo@)
            } else {
                f.is_khz_of(sysfs@)
            },
    {
        match Freq::from_cpuinfo(cpuinfo) {
            Freq::Mhz(d) => Freq::Mhz(d),
            _ => Freq::from_sysfs(sysfs),
        }
    }

    /// A later reading of the frequency: sysfs, or else `/proc/cpuinfo`.
    pub fn at_tick(sysfs: &[u8], cpuinfo: &'a [u8]) -> (f: Freq<'a>)
        ensures
            if sysfs@.len() > 0 {
                f.is_khz_of(sysfs@)
            } else {
                f.is_mhz_of(cpuinfo@)
            },
    {
        match Freq::from_sysfs(sysfs) {
            Freq::Khz(n) => Freq::Khz(n),
            _ => Freq::from_cpuinfo(cpuinfo),
        }
    }
}

impl CpuData {
    /// The loads are the first three fields of `/proc/loadavg`.
    pub open spec fn loads_read(&self, loadavg: Seq<u8>) -> bool {
        &&& self.load_1@ == buf::clip(scan::piece_of(loadavg, SPACE, 0), 128)
        &&& self.load_5@ == buf::clip(scan::piece_of(loadavg, SPACE, 1), 128)
        &&& self.load_15@ == buf::clip(scan::piece_of(loadavg, SPACE, 2), 128)
    }

    /// This is what `before` becomes when the processor is collected.
    pub open spec fn collects(&self, before: CpuData, from: CpuSources, ghz: Option<u64>) -> bool {
        &&& self.model@ == buf::clip(
            before.model@ + cpu_model(from.cpuinfo@, from.dt_model@),
            128,
        )
        &&& self.freq@ == appended(
            before.freq@,
            match ghz {
                Some(n) => Some(buf::decimal_2dp(n as nat)),
                None => None,
            },
            16,
        )
        &&& self.cores_per_socket@ == buf::clip(
            before.cores_per_socket@ + value_or(
                from.cpuinfo@,
                "cpu cores",
                COLON,
                buf::decimal(cpu_count(from.cpuinfo@)),
            ),
            16,
        )
        &&& self.sockets@ == buf::clip(
            before.sockets@ + buf::decimal(socket_count(from.cpuinfo@)),
            16,
        )
        &&& self.total_cores == cpu_count(from.cpuinfo@)
        &&& self.hypervisor@ == buf::clip(
            before.hypervisor@ + encode_utf8(hypervisor_name(from.cpuinfo@, from.vendor@)),
            64,
        )
        &&& self.loads_read(from.loadavg@)
    }
}

/// Collects the load averages.
pub fn collect_loads(data: &mut CpuData, loadavg: &[u8])
    ensures
        final(data).loads_read(loadavg@),
        final(data).model == old(data).model,
        final(data).cores_per_socket == old(data).cores_per_socket,
        final(data).sockets == old(data).sockets,
        final(data).hypervisor == old(data).hypervisor,
        final(data).freq == old(data).freq,
        final(data).total_cores == old(data).total_cores,
{
    data.load_1 = piece_buf(loadavg, 0);
    data.load_5 = piece_buf(loadavg, 1);
    data.load_15 = piece_buf(loadavg, 2);
}

impl CpuData {
    /// The load averages of the last 1, 5 and 15 minutes.
    pub fn loads(&self) -> (r: (Decimal, Decimal, Decimal))
        ensures
            r.0.reads(self.load_1@),
            r.1.reads(self.load_5@),
            r.2.reads(self.load_15@),
    {
        (
            Decimal::scan(self.load_1.as_bytes()),
            Decimal::scan(self.load_5.as_bytes()),
            Decimal::scan(self.load_15.as_bytes()),
        )
    }
}

/// A field of `/proc/loadavg`.
fn piece_buf(loadavg: &[u8], k: usize) -> (b: Buf<128>)
    ensures
        b@ == buf::clip(scan::piece_of(loadavg@, SPACE, k as int), 128),
{
    let field = piece(loadavg, SPACE, k);
    let mut b: Buf<128> = Buf::new();
    assert(b@ + field@ =~= field@);
    b.push_bytes(field);
    b
}

/// Collects what there is to know of the processor. The frequency comes as hundredths of a
/// gigahertz.
pub fn collect_cpu(data: &mut CpuData, from: &CpuSources, ghz: Option<u64>)
    ensures
        final(data).collects(*old(data), *from, ghz),
{
    match find_model(from.cpuinfo) {
        Some(v) => {
            data.model.push_bytes(v);
        },
        None => {
            let end: usize = cstr_len(from.dt_model);
            let name = slice_subrange(from.dt_model, 0, end);
            assert(name@ =~= cstr(from.dt_model@));
            data.model.push_bytes(name);
        },
    }
    if let Some(n) = ghz {
        data.freq.push_2dp(n);
    }
    let (cpus, sockets) = count_cpus(from.cpuinfo);
    match find_val(from.cpuinfo, "cpu cores".as_bytes(), COLON) {
        Some(v) => data.cores_per_socket.push_bytes(v),
        None => data.cores_per_socket.push_u64(cpus),
    }
    data.sockets.push_u64(sockets);
    data.total_cores = cpus;
    if is_virtual(from.cpuinfo) {
        data.hypervisor.push_str(find_vendor(from.vendor));
    } else {
        data.hypervisor.push_str("Bare Metal");
    }
    collect_loads(data, from.loadavg);
}

/// Whether a ZFS file system is mounted.
pub fn has_zfs(mounts: &[u8]) -> (r: bool)
    ensures
        r == scan::occurs(mounts@, scan::bytes("zfs")),
{
    contains(mounts, "zfs".as_bytes())
}

/// Whether `zpool status -x` reports a healthy pool.
pub fn is_healthy(status: &[u8]) -> (r: bool)
    ensures
        r == scan::occurs(status@, scan::bytes("is healthy")),
{
    contains(status, "is healthy".as_bytes())
}

/// What `zfs get` wrote of a pool, and what `zpool status` wrote, where it could be run.
#[derive(Clone, Copy)]
pub struct ZfsOutput<'a> {
    pub usage: &'a [u8],
    pub status: Option<&'a [u8]>,
}

/// A file system: the size of a block, and how many blocks there are and are free.
#[derive(Clone, Copy)]
pub struct FsStat {
    pub block: u64,
    pub blocks: u64,
    pub free: u64,
}

/// The use of a disk. That of a ZFS pool is in bytes and may come with its health; that of
/// another file system is in bytes and in whole mebibytes.
pub enum DiskUsage {
    Zfs { used: u64, avail: u64, total: u64, healthy: Option<bool> },
    Fs { used_bytes: u64, total_bytes: u64, used_mb: u64, total_mb: u64 },
    Unknown,
}

impl DiskUsage {
    /// The use of a ZFS pool, from the two lines that `zfs get` writes for what is used and
    /// what is available. The sum wraps at 2 to the 64.
    pub fn of_zfs(output: &[u8], healthy: Option<bool>) -> (u: DiskUsage)
        ensures
            u == zfs_usage(output@, healthy),
    {
        let used: u64 = parse_u64_b(piece(output, LF, 0));
        let avail: u64 = parse_u64_b(piece(output, LF, 1));
        DiskUsage::Zfs { used, avail, total: used.wrapping_add(avail), healthy }
    }

    /// The use of a file system of `blocks` blocks of `block` bytes, of which `free` are free.
    /// The numbers of bytes wrap at 2 to the 64.
    pub fn of_fs(block: u64, blocks: u64, free: u64) -> (u: DiskUsage)
        ensures
            u == fs_usage(block as int, blocks as int, free as int),
    {
        let total_bytes: u64 = blocks.wrapping_mul(block);
        let used_bytes: u64 = total_bytes.wrapping_sub(free.wrapping_mul(block));
        assert((blocks - free) * block == blocks * block - free * block) by (nonlinear_arith);
        DiskUsage::Fs {
            used_bytes,
            total_bytes,
            used_mb: used_bytes / 0x10_0000,
            total_mb: total_bytes / 0x10_0000,
        }
    }

    /// The use of the disk: that of the ZFS pool where `zfs get` gave it, whose health `zpool
    /// status` tells, or else that of the root file system where it is known.
    pub fn read(zfs: Option<ZfsOutput>, root: Option<FsStat>) -> (u: DiskUsage)
        ensures
            u == disk_usage(zfs, root),
    {
        match zfs {
            Some(z) => {
                let healthy: Option<bool> = match z.status {
                    Some(status) => Some(is_healthy(status)),
                    None => None,
                };
                DiskUsage::of_zfs(z.usage, healthy)
            },
            None => match root {
                Some(r) => DiskUsage::of_fs(r.block, r.blocks, r.free),
                None => DiskUsage::Unknown,
            },
        }
    }
}

/// The use of the disk, of which the ZFS pool goes before the root file system.
pub open spec fn disk_usage(zfs: Option<ZfsOutput>, root: Option<FsStat>) -> DiskUsage {
    match zfs {
        Some(z) => zfs_usage(
            z.usage@,
            match z.status {
                Some(status) => Some(scan::occurs(status@, scan::bytes("is healthy"))),
                None => None,
            },
        ),
        None => match root {
            Some(r) => fs_usage(r.block as int, r.blocks as int, r.free as int),
            None => DiskUsage::Unknown,
        },
    }
}

/// The use of a ZFS pool, from the two lines that `zfs get` writes for it.
pub open spec fn zfs_usage(output: Seq<u8>, healthy: Option<bool>) -> DiskUsage {
    let used = scan::u64_value(scan::piece_of(output, LF, 0));
    let avail = scan::u64_value(scan::piece_of(output, LF, 1));
    DiskUsage::Zfs {
        used: used as u64,
        avail: avail as u64,
        total: ((used + avail) % 0x1_0000_0000_0000_0000) as u64,
        healthy,
    }
}

/// The use of a file system of `blocks` blocks of `block` bytes, of which `free` are free.
pub open spec fn fs_usage(block: int, blocks: int, free: int) -> DiskUsage {
    let used = (blocks - free) * block % 0x1_0000_0000_0000_0000;
    let total = blocks * block % 0x1_0000_0000_0000_0000;
    DiskUsage::Fs {
        used_bytes: used as u64,
        total_bytes: total as u64,
        used_mb: (used / 0x10_0000) as u64,
        total_mb: (total / 0x10_0000) as u64,
    }
}

/// The figures of a disk label in hundredths: what is used and what it is compared with, in
/// gibibytes, and the percentage.
#[derive(Clone, Copy)]
pub struct DiskLabel {
    pub used: u64,
    pub of: u64,
    pub percent: u64,
}

/// The text of a disk label.
pub open spec fn disk_label(label: DiskLabel) -> Seq<u8> {
    buf::decimal_2dp(label.used as nat) + seq![SLASH] + buf::decimal_2dp(label.of as nat)
        + scan::bytes(" GB [") + buf::decimal_2dp(label.percent as nat) + scan::bytes("%]")
}

/// What is said of the health of a ZFS pool, where it is known.
pub open spec fn health_text(healthy: Option<bool>) -> Option<Seq<u8>> {
    match healthy {
        Some(true) => Some(scan::bytes("HEALTH O.K.")),
        Some(false) => Some(scan::bytes("DEGRADED")),
        None => None,
    }
}

impl DiskData {
    /// This is what `before` becomes when the use of the disk is collected.
    pub open spec fn collects(&self, before: DiskData, usage: DiskUsage, label: DiskLabel) -> bool {
        let labelled = buf::clip(before.label@ + disk_label(label), 64);
        match usage {
            DiskUsage::Zfs { used, avail, total, healthy } => {
                &&& self.label@ == labelled
                &&& self.used == used
                &&& self.total == total
                &&& self.zfs
                &&& self.health@ == appended(before.health@, health_text(healthy), 32)
            },
            DiskUsage::Fs { used_bytes, total_bytes, used_mb, total_mb } => {
                &&& self.label@ == labelled
                &&& self.used == used_mb
                &&& self.total == total_mb
                &&& self.zfs == before.zfs
                &&& self.health == before.health
            },
            DiskUsage::Unknown => *self == before,
        }
    }
}

/// Collects the use of the disk.
pub fn collect_disk(data: &mut DiskData, usage: &DiskUsage, label: &DiskLabel)
    ensures
        final(data).collects(*old(data), *usage, *label),
{
    broadcast use buf::lemma_clip_append;

    match usage {
        DiskUsage::Zfs { used, avail, total, healthy } => {
            push_disk_label(&mut data.label, label);
            data.used = *used;
            data.total = *total;
            data.zfs = true;
            match healthy {
                Some(true) => data.health.push_str("HEALTH O.K."),
                Some(false) => data.health.push_str("DEGRADED"),
                None => {},
            }
        },
        DiskUsage::Fs { used_bytes, total_bytes, used_mb, total_mb } => {
            push_disk_label(&mut data.label, label);
            data.used = *used_mb;
            data.total = *total_mb;
        },
        DiskUsage::Unknown => {},
    }
}

/// Appends the text of a disk label.
fn push_disk_label<const N: usize>(b: &mut Buf<N>, label: &DiskLabel)
    ensures
        final(b)@ == buf::clip(old(b)@ + disk_label(*label), N as nat),
{
    broadcast use buf::lemma_clip_append;

    let ghost before = b@;
    b.push_2dp(label.used);
    b.push_byte(SLASH);
    b.push_2dp(label.of);
    b.push_str(" GB [");
    b.push_2dp(label.percent);
    b.push_str("%]");
    assert(before + buf::decimal_2dp(label.used as nat) + seq![SLASH] + buf::decimal_2dp(
        label.of as nat,
    ) + scan::bytes(" GB [") + buf::decimal_2dp(label.percent as nat) + scan::bytes("%]")
        =~= before + disk_label(*label));
}

/// The use of the memory in kibibytes.
#[derive(Clone, Copy)]
pub struct MemUsage {
    pub total_kb: u64,
    pub used_kb: u64,
}

/// The number that `key` has in a text of lines `key: number`, or 0 where it has none.
pub open spec fn number_of(content: Seq<u8>, key: &str, sep: u8) -> nat {
    match scan::value_of(content, scan::bytes(key), sep) {
        Some(v) => scan::u64_value(v),
        None => 0,
    }
}

/// The number that `key` has.
pub fn find_number(content: &[u8], key: &str, sep: u8) -> (n: u64)
    ensures
        n == number_of(content@, key, sep),
{
    match find_val(content, key.as_bytes(), sep) {
        Some(v) => parse_u64_b(v),
        None => 0,
    }
}

impl MemUsage {
    /// The use of the memory that `/proc/meminfo` gives. Where it gives more available than
    /// total, nothing is in use.
    pub fn read(meminfo: &[u8]) -> (u: MemUsage)
        ensures
            u.total_kb == number_of(meminfo@, "MemTotal", COLON),
            u.used_kb == (if number_of(meminfo@, "MemAvailable", COLON) <= u.total_kb {
                u.total_kb - number_of(meminfo@, "MemAvailable", COLON)
            } else {
                0
            }),
            u.used_kb <= u.total_kb,
    {
        let total: u64 = find_number(meminfo, "MemTotal", COLON);
        let avail: u64 = find_number(meminfo, "MemAvailable", COLON);
        MemUsage { total_kb: total, used_kb: total.saturating_sub(avail) }
    }
}

/// The figures of the memory in hundredths: what is used and what there is, in gibibytes, and
/// the percentage.
#[derive(Clone, Copy)]
pub struct MemFigures {
    pub used_gb: u64,
    pub total_gb: u64,
    pub percent: u64,
}

impl MemData {
    /// This is what `before` becomes when the use of the memory is collected.
    pub open spec fn collects(&self, before: MemData, usage: MemUsage, figures: MemFigures) -> bool {
        &&& self.total_kb == usage.total_kb
        &&& self.used_kb == usage.used_kb
        &&& self.percent == figures.percent
        &&& self.used_gb@ == buf::clip(
            before.used_gb@ + buf::decimal_2dp(figures.used_gb as nat),
            16,
        )
        &&& self.total_gb@ == buf::clip(
            before.total_gb@ + buf::decimal_2dp(figures.total_gb as nat),
            16,
        )
    }
}

/// Collects the use of the memory.
pub fn collect_mem(data: &mut MemData, usage: &MemUsage, figures: &MemFigures)
    ensures
        final(data).collects(*old(data), *usage, *figures),
{
    data.total_kb = usage.total_kb;
    data.used_kb = usage.used_kb;
    data.percent = figures.percent;
    data.used_gb.push_2dp(figures.used_gb);
    data.total_gb.push_2dp(figures.total_gb);
}

/// Sockets are numbered below 256.
proof fn lemma_sockets_bound(lines: Seq<Seq<u8>>)
    ensures
        sockets_on(lines).subset_of(set_int_range(0, 256)),
    decreases lines.len(),
{
    if lines.len() > 0 {
        lemma_sockets_bound(lines.drop_first());
    }
}

/// There is at least one processor, and there are between 1 and 256 sockets.
pub proof fn lemma_cpu_counts(cpuinfo: Seq<u8>)
    ensures
        cpu_count(cpuinfo) >= 1,
        1 <= socket_count(cpuinfo) <= 256,
{
    let lines = scan::split(cpuinfo, LF);
    lemma_sockets_bound(lines);
    lemma_int_range(0, 256);
    lemma_len_subset(sockets_on(lines), set_int_range(0, 256));
}

/// Of a file system of less than 2 to the 64 bytes, as much is used as is not free, and no more
/// than there is.
pub proof fn lemma_fs_usage(block: int, blocks: int, free: int)
    requires
        0 <= free <= blocks,
        0 <= block,
        blocks * block < 0x1_0000_0000_0000_0000,
    ensures
        fs_usage(block, blocks, free) matches DiskUsage::Fs {
            used_bytes,
            total_bytes,
            used_mb,
            total_mb,
        } && {
            &&& total_bytes == blocks * block
            &&& used_bytes == blocks * block - free * block
            &&& used_bytes <= total_bytes
            &&& used_mb == used_bytes / 0x10_0000
            &&& total_mb == total_bytes / 0x10_0000
            &&& used_mb <= total_mb
        },
{
    assert((blocks - free) * block == blocks * block - free * block) by (nonlinear_arith);
    assert(0 <= free * block <= blocks * block) by (nonlinear_arith)
        requires
            0 <= free <= blocks,
            0 <= block,
    ;
}

} // verus!
