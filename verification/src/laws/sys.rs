//! The sections of a report, and what they are collected from.

use crate::buf;
use crate::buf::Buf;
use crate::laws::scan as text;
use crate::scan;
use crate::scan::Decimal;
use crate::sys;
use crate::sys::{
    capitalize_into, collect_cpu, collect_disk, collect_loads, collect_mem, collect_net, collect_os,
    count_cpus, find_number, has_zfs, is_healthy, is_virtual, needs_dt_model, push_default, CpuData,
    CpuSources, DiskData, DiskLabel, DiskUsage, Freq, FsStat, MemData, MemFigures, MemUsage, NetData,
    OsData, SysInfo, ZfsOutput,
};
use vstd::arithmetic::power::*;
use vstd::prelude::*;
use vstd::utf8::*;

verus! {

/// An ASCII letter.
pub open spec fn is_letter(b: u8) -> bool {
    'A' as u8 <= b <= 'Z' as u8 || 'a' as u8 <= b <= 'z' as u8
}

/// No byte is an ASCII letter.
pub open spec fn no_letters(s: Seq<u8>) -> bool {
    forall|i: int| 0 <= i < s.len() ==> !is_letter(#[trigger] s[i])
}

/// The first ASCII letter is put in upper case, and nothing else changes.
pub proof fn law_capitalized(a: Seq<u8>, c: u8, b: Seq<u8>)
    requires
        no_letters(a),
        is_letter(c),
    ensures
        sys::capitalized(a) == a,
        'a' as u8 <= c ==> sys::capitalized(a + seq![c] + b) == a + seq![(c - 32) as u8] + b,
        c <= 'Z' as u8 ==> sys::capitalized(a + seq![c] + b) == a + seq![c] + b,
{
    let s = a + seq![c] + b;
    let n = a.len() as int;
    assert forall|k: int| 0 <= k < n implies !sys::letter()(#[trigger] a[k]) by {
        assert(!is_letter(a[k]));
    }
    assert forall|k: int| 0 <= k < n implies !sys::letter()(#[trigger] s[k]) by {
        assert(!is_letter(a[k]));
    }
    scan::lemma_first_of(a, sys::letter(), n);
    scan::lemma_first_of(s, sys::letter(), n);
    if 'a' as u8 <= c {
        assert(sys::capitalized(s) =~= a + seq![(c - 32) as u8] + b);
    }
}

/// What a text of lines `key=value` gives for a key, or `default`.
pub open spec fn setting(content: Seq<u8>, key: Seq<char>, default: Seq<u8>) -> Seq<u8> {
    match scan::value_of(content, encode_utf8(key), '=' as u8) {
        Some(v) => v,
        None => default,
    }
}

/// The system is named by its capitalized identifier, or else `Linux`, its version and its
/// capitalized code name, with a space between each two. The kernel is named by its name and its
/// release.
pub proof fn law_os(os: OsData, before: OsData, rel: Seq<u8>, uname: Option<(&[u8], &[u8])>)
    requires
        os.collects(before, rel, uname),
        before.name@.len() == 0,
        before.kernel@.len() == 0,
    ensures
        ({
            let id = setting(rel, "ID"@, encode_utf8("linux"@));
            let version = setting(rel, "VERSION"@, seq![]);
            let code = setting(rel, "VERSION_CODENAME"@, seq![]);
            os.name@ == buf::clip(
                sys::capitalized(id) + seq![' ' as u8] + version + seq![' ' as u8]
                    + sys::capitalized(code),
                128,
            )
        }),
        uname matches Some((name, release)) ==> os.kernel@ == buf::clip(
            name@ + seq![' ' as u8] + release@,
            128,
        ),
        uname is None ==> os.kernel@.len() == 0,
{
    assert(before.name@ + sys::os_name(rel) =~= sys::os_name(rel));
    if let Some((name, release)) = uname {
        let k = name@ + seq![' ' as u8] + release@;
        assert(before.kernel@ + k =~= k);
    }
}

/// A byte that ends an address.
pub open spec fn ends_addr(b: u8) -> bool {
    text::is_blank(b) || b == '\r' as u8
}

/// What a line that names a server is made of: the word, blanks, the address, and what follows it.
pub open spec fn is_server_line(line: Seq<u8>, p: Seq<u8>, a: Seq<u8>, t: Seq<u8>) -> bool {
    &&& line == encode_utf8("nameserver"@) + p + a + t
    &&& text::blanks(p)
    &&& a.len() > 0
    &&& forall|i: int| 0 <= i < a.len() ==> !ends_addr(#[trigger] a[i])
    &&& t.len() > 0 ==> ends_addr(t[0])
}

/// A line that is made of the word `nameserver`, blanks and an address names that server, whatever
/// follows.
pub proof fn law_server(line: Seq<u8>, p: Seq<u8>, a: Seq<u8>, t: Seq<u8>)
    requires
        is_server_line(line, p, a, t),
    ensures
        sys::server_on(line) == Some(a),
{
    lemma_nameserver();
    let word = encode_utf8("nameserver"@);
    let rest = line.skip(10);
    assert(line.take(10) =~= word);
    assert(rest =~= p + a + t);
    assert forall|k: int| 0 <= k < p.len() implies scan::blank()(#[trigger] rest[k]) by {
        assert(text::is_blank(p[k]));
    }
    assert(rest[p.len() as int] == a[0]);
    assert(!ends_addr(a[0]));
    scan::lemma_strip_front(rest, scan::blank(), p.len() as int);
    let tail = rest.skip(p.len() as int);
    assert(tail =~= a + t);
    assert forall|k: int| 0 <= k < a.len() implies !sys::after_addr()(#[trigger] tail[k]) by {
        assert(!ends_addr(a[k]));
    }
    if t.len() > 0 {
        assert(tail[a.len() as int] == t[0]);
    }
    scan::lemma_first_of(tail, sys::after_addr(), a.len() as int);
    assert(tail.take(a.len() as int) =~= a);
}

proof fn lemma_nameserver()
    ensures
        encode_utf8("nameserver"@).len() == 10,
{
    reveal_strlit("nameserver");
    is_ascii_chars_encode_utf8("nameserver"@);
}

/// Only a line that is made of the word and an address names a server.
pub proof fn law_server_only(line: Seq<u8>, a: Seq<u8>)
    requires
        sys::server_on(line) == Some(a),
    ensures
        exists|p: Seq<u8>, t: Seq<u8>| is_server_line(line, p, a, t),
{
    lemma_nameserver();
    let rest = line.skip(10);
    let i = text::lemma_stripped_front(rest, scan::blank());
    let tail = rest.skip(i);
    let n = scan::first_of(tail, sys::after_addr());
    scan::lemma_first_of_props(tail, sys::after_addr());
    let p = rest.take(i);
    let t = tail.skip(n);
    assert(a == tail.take(n));
    assert(line =~= encode_utf8("nameserver"@) + p + a + t) by {
        assert(line =~= line.take(10) + rest);
    }
    assert forall|k: int| 0 <= k < p.len() implies text::is_blank(#[trigger] p[k]) by {
        assert(scan::blank()(rest[k]));
    }
    assert forall|k: int| 0 <= k < a.len() implies !ends_addr(#[trigger] a[k]) by {
        assert(!sys::after_addr()(tail[k]));
    }
    assert(is_server_line(line, p, a, t));
}

/// Each line that names a server adds it behind those of the lines before, and no other line adds
/// one.
pub proof fn law_servers_on(a: Seq<Seq<u8>>, b: Seq<Seq<u8>>, line: Seq<u8>)
    ensures
        sys::servers_on(a + b) == sys::servers_on(a) + sys::servers_on(b),
        sys::server_on(line) matches Some(x) ==> sys::servers_on(seq![line]) == seq![x],
        sys::server_on(line) is None ==> sys::servers_on(seq![line]).len() == 0,
        sys::servers_on(seq![]).len() == 0,
    decreases a.len(),
{
    reveal_with_fuel(sys::servers_on, 2);
    assert(seq![line].drop_first() =~= seq![]);
    if a.len() == 0 {
        assert(a + b =~= b);
        assert(sys::servers_on(a) + sys::servers_on(b) =~= sys::servers_on(b));
    } else {
        law_servers_on(a.drop_first(), b, line);
        assert((a + b).drop_first() =~= a.drop_first() + b);
        assert(sys::servers_on(a + b) =~= sys::servers_on(a) + sys::servers_on(b));
    }
}

/// The servers that a file names are those of its lines.
pub proof fn law_servers(lines: Seq<Seq<u8>>)
    requires
        lines.len() > 0,
        forall|i: int| 0 <= i < lines.len() ==> text::without(#[trigger] lines[i], '\n' as u8),
    ensures
        sys::servers(scan::join(lines, '\n' as u8)) == sys::servers_on(lines),
{
    text::law_split(lines, '\n' as u8);
}

/// The network section of a report: the host name up to its null byte, or that it is not defined;
/// the address; the first eight servers in the order of the file; and the user that the
/// environment names, or else the given one.
pub proof fn law_net(
    net: NetData,
    before: NetData,
    hostname: Option<&[u8]>,
    ip: Option<[u8; 4]>,
    resolv: Seq<u8>,
    env: Option<&[u8]>,
    user: Seq<u8>,
)
    requires
        net.collects(before, hostname, ip, resolv, env, user),
        before.hostname@.len() == 0,
        before.machine_ip@.len() == 0,
        before.user@.len() == 0,
        before.dns_count == 0,
        forall|i: int| 0 <= i < 8 ==> (#[trigger] before.dns[i])@.len() == 0,
    ensures
        hostname matches Some(raw) && sys::cstr(raw@).len() > 0 ==> net.hostname@ == buf::clip(
            sys::cstr(hostname->0@),
            128,
        ),
        hostname is None || sys::cstr(hostname->0@).len() == 0 ==> net.hostname@ == encode_utf8(
            "Not Defined"@,
        ),
        ip matches Some(x) ==> net.machine_ip@ == buf::clip(sys::dotted(x@), 64),
        ip is None ==> net.machine_ip@ == encode_utf8("No IP found"@),
        sys::servers(resolv).len() <= 8 ==> net.dns_count == sys::servers(resolv).len(),
        sys::servers(resolv).len() > 8 ==> net.dns_count == 8,
        forall|i: int|
            0 <= i < net.dns_count ==> (#[trigger] net.dns[i])@ == buf::clip(
                sys::servers(resolv)[i],
                64,
            ),
        env matches Some(u) ==> net.user@ == buf::clip(u@, 64),
        env is None ==> net.user@ == buf::clip(user, 64),
{
    reveal_strlit("Not Defined");
    reveal_strlit("No IP found");
    is_ascii_chars_encode_utf8("Not Defined"@);
    is_ascii_chars_encode_utf8("No IP found"@);
    if let Some(raw) = hostname {
        assert(before.hostname@ + sys::cstr(raw@) =~= sys::cstr(raw@));
    }
    if let Some(x) = ip {
        assert(before.machine_ip@ + sys::dotted(x@) =~= sys::dotted(x@));
        assert(sys::dotted(x@).len() > 0);
    }
    if let Some(u) = env {
        assert(before.user@ + u@ =~= u@);
    }
    assert(before.user@ + user =~= user);
    let found = sys::servers(resolv);
    assert forall|i: int| 0 <= i < net.dns_count implies (#[trigger] net.dns[i])@ == buf::clip(
        found[i],
        64,
    ) by {
        assert(before.dns[i]@.len() == 0);
        assert(before.dns[i]@ + found[i] =~= found[i]);
    }
}

/// An address is written as its four numbers with a point between each two.
pub proof fn law_dotted(ip: Seq<u8>)
    requires
        ip.len() == 4,
    ensures
        ({
            let parts = scan::split(sys::dotted(ip), '.' as u8);
            &&& parts.len() == 4
            &&& forall|i: int|
                0 <= i < 4 ==> text::digits(#[trigger] parts[i]) && scan::number(parts[i]) == ip[i]
        }),
        sys::dotted(ip).len() <= 15,
{
    let parts = seq![
        buf::decimal(ip[0] as nat),
        buf::decimal(ip[1] as nat),
        buf::decimal(ip[2] as nat),
        buf::decimal(ip[3] as nat),
    ];
    assert(pow(10, 3) == 1000) by {
        reveal_with_fuel(pow, 4);
    }
    assert forall|i: int| 0 <= i < 4 implies text::without(#[trigger] parts[i], '.' as u8)
        && text::digits(parts[i]) && scan::number(parts[i]) == ip[i] && parts[i].len() <= 3 by {
        text::law_decimal(ip[i] as nat);
        crate::laws::login::law_decimal_len(ip[i] as nat, 3);
        assert forall|k: int| 0 <= k < parts[i].len() implies #[trigger] parts[i][k] != '.' as u8 by {
            assert('0' as u8 <= parts[i][k] <= '9' as u8);
        }
    }
    reveal_with_fuel(scan::join, 5);
    assert(parts.drop_first() =~= seq![parts[1], parts[2], parts[3]]);
    assert(parts.drop_first().drop_first() =~= seq![parts[2], parts[3]]);
    assert(parts.drop_first().drop_first().drop_first() =~= seq![parts[3]]);
    assert(scan::join(parts, '.' as u8) =~= sys::dotted(ip));
    text::law_split(parts, '.' as u8);
}

/// A processor is virtual exactly where the word `hypervisor` stands in the text behind a space and
/// before a space or a line feed.
pub proof fn law_virtual(cpuinfo: Seq<u8>)
    ensures
        sys::virtual_cpu(cpuinfo) <==> exists|a: Seq<u8>, e: u8, b: Seq<u8>|
            (e == ' ' as u8 || e == '\n' as u8) && cpuinfo == #[trigger] (a + encode_utf8(
                " hypervisor"@,
            ) + seq![e] + b),
{
    let w = encode_utf8(" hypervisor"@);
    let w1 = encode_utf8(" hypervisor "@);
    let w2 = encode_utf8(" hypervisor\n"@);
    reveal_strlit(" hypervisor");
    reveal_strlit(" hypervisor ");
    reveal_strlit(" hypervisor\n");
    is_ascii_chars_encode_utf8(" hypervisor"@);
    is_ascii_chars_encode_utf8(" hypervisor "@);
    is_ascii_chars_encode_utf8(" hypervisor\n"@);
    assert(w1 =~= w + seq![' ' as u8]);
    assert(w2 =~= w + seq!['\n' as u8]);
    text::law_occurs(cpuinfo, w1);
    text::law_occurs(cpuinfo, w2);
    if scan::occurs(cpuinfo, w1) {
        let (a, b) = choose|a: Seq<u8>, b: Seq<u8>| cpuinfo == #[trigger] (a + w1 + b);
        assert(cpuinfo =~= a + w + seq![' ' as u8] + b);
    }
    if scan::occurs(cpuinfo, w2) {
        let (a, b) = choose|a: Seq<u8>, b: Seq<u8>| cpuinfo == #[trigger] (a + w2 + b);
        assert(cpuinfo =~= a + w + seq!['\n' as u8] + b);
    }
    if exists|a: Seq<u8>, e: u8, b: Seq<u8>|
        (e == ' ' as u8 || e == '\n' as u8) && cpuinfo == #[trigger] (a + w + seq![e] + b) {
        let (a, e, b) = choose|a: Seq<u8>, e: u8, b: Seq<u8>|
            (e == ' ' as u8 || e == '\n' as u8) && cpuinfo == #[trigger] (a + w + seq![e] + b);
        if e == ' ' as u8 {
            assert(cpuinfo =~= a + w1 + b);
        } else {
            assert(cpuinfo =~= a + w2 + b);
        }
    }
}

/// A text without the word `hypervisor` is of no virtual processor: whatever the vendor, the
/// processor runs on bare metal.
pub proof fn law_bare_metal(cpuinfo: &[u8], vendor: Seq<u8>, r: bool)
    requires
        call_ensures(is_virtual, (cpuinfo,), r),
        !exists|a: Seq<u8>, b: Seq<u8>| cpuinfo@ == #[trigger] (a + encode_utf8("hypervisor"@) + b),
    ensures
        !r,
        sys::hypervisor_name(cpuinfo@, vendor) == "Bare Metal"@,
{
    law_virtual(cpuinfo@);
    let w = encode_utf8("hypervisor"@);
    let w1 = encode_utf8(" hypervisor"@);
    reveal_strlit("hypervisor");
    reveal_strlit(" hypervisor");
    is_ascii_chars_encode_utf8("hypervisor"@);
    is_ascii_chars_encode_utf8(" hypervisor"@);
    assert(w1 =~= seq![' ' as u8] + w);
    if sys::virtual_cpu(cpuinfo@) {
        let (a, e, b) = choose|a: Seq<u8>, e: u8, b: Seq<u8>|
            (e == ' ' as u8 || e == '\n' as u8) && cpuinfo@ == #[trigger] (a + w1 + seq![e] + b);
        let x = a + seq![' ' as u8];
        let y = seq![e] + b;
        assert(cpuinfo@ =~= x + w + y);
    }
}

/// A call tells of exactly the virtual processors that they are, and the section names what they
/// run on: the hypervisor that goes with the first of the known vendors that the text of the vendor
/// names, or that it is virtual, or that it is bare metal.
pub proof fn law_hypervisor(cpuinfo: &[u8], vendor: Seq<u8>, r: bool)
    requires
        call_ensures(is_virtual, (cpuinfo,), r),
    ensures
        r == sys::virtual_cpu(cpuinfo@),
        ({
            let name = sys::hypervisor_name(cpuinfo@, vendor);
            let vmware = scan::occurs(vendor, encode_utf8("VMware"@));
            let qemu = scan::occurs(vendor, encode_utf8("QEMU"@));
            let microsoft = scan::occurs(vendor, encode_utf8("Microsoft"@));
            let xen = scan::occurs(vendor, encode_utf8("Xen"@));
            let amazon = scan::occurs(vendor, encode_utf8("Amazon"@));
            let google = scan::occurs(vendor, encode_utf8("Google"@));
            &&& !r ==> name == "Bare Metal"@
            &&& r && vmware ==> name == "VMware"@
            &&& r && !vmware && qemu ==> name == "KVM/QEMU"@
            &&& r && !vmware && !qemu && microsoft ==> name == "Hyper-V"@
            &&& r && !vmware && !qemu && !microsoft && xen ==> name == "Xen"@
            &&& r && !vmware && !qemu && !microsoft && !xen && amazon ==> name == "Amazon/KVM"@
            &&& r && !vmware && !qemu && !microsoft && !xen && !amazon && google ==> name
                == "Google Compute"@
            &&& r && !vmware && !qemu && !microsoft && !xen && !amazon && !google ==> name
                == "Virtual"@
        }),
{
}

/// The processor lines are counted, each once.
pub proof fn law_processor_lines(a: Seq<Seq<u8>>, b: Seq<Seq<u8>>, line: Seq<u8>)
    ensures
        sys::processor_lines(a + b) == sys::processor_lines(a) + sys::processor_lines(b),
        (exists|t: Seq<u8>| line == #[trigger] (encode_utf8("processor"@) + t))
            ==> sys::processor_lines(seq![line]) == 1,
        !(exists|t: Seq<u8>| line == #[trigger] (encode_utf8("processor"@) + t))
            ==> sys::processor_lines(seq![line]) == 0,
        sys::processor_lines(seq![]) == 0,
    decreases a.len(),
{
    reveal_with_fuel(sys::processor_lines, 2);
    assert(seq![line].drop_first() =~= seq![]);
    text::law_begins(line, encode_utf8("processor"@));
    if a.len() == 0 {
        assert(a + b =~= b);
    } else {
        law_processor_lines(a.drop_first(), b, line);
        assert((a + b).drop_first() =~= a.drop_first() + b);
    }
}

/// A `physical id` line names the socket whose number stands behind its colon, below 256.
pub proof fn law_socket(line: Seq<u8>, m: Seq<u8>, n: Seq<u8>)
    requires
        line == encode_utf8("physical id"@) + m + seq![':' as u8] + n,
        text::without(m, ':' as u8),
    ensures
        scan::u64_value(n) < 256 ==> sys::socket_on(line) == Some(scan::u64_value(n) as int),
        scan::u64_value(n) >= 256 ==> sys::socket_on(line) is None,
{
    let w = encode_utf8("physical id"@);
    reveal_strlit("physical id");
    is_ascii_chars_encode_utf8("physical id"@);
    let at = (w.len() + m.len()) as int;
    assert(line[at] == ':' as u8);
    assert forall|k: int| 0 <= k < at implies !scan::only(scan::COLON)(#[trigger] line[k]) by {
        if k < w.len() {
            assert("physical id"@[k] as u8 == w[k]);
        } else {
            assert(m[k - w.len()] != ':' as u8);
        }
    }
    scan::lemma_first_of(line, scan::only(scan::COLON), at);
    assert(line.skip(at + 1) =~= n);
    assert(line.take(w.len() as int) =~= w);
}

/// Only a `physical id` line with a colon names a socket.
pub proof fn law_socket_only(line: Seq<u8>, id: int)
    requires
        sys::socket_on(line) == Some(id),
    ensures
        0 <= id < 256,
        exists|m: Seq<u8>, n: Seq<u8>|
            line == #[trigger] (encode_utf8("physical id"@) + m + seq![':' as u8] + n)
                && text::without(m, ':' as u8) && scan::u64_value(n) == id,
{
    let w = encode_utf8("physical id"@);
    reveal_strlit("physical id");
    is_ascii_chars_encode_utf8("physical id"@);
    let at = scan::first_of(line, scan::only(scan::COLON));
    scan::lemma_first_of_props(line, scan::only(scan::COLON));
    let k = choose|k: int| 0 <= k < line.len() && line[k] == scan::COLON;
    assert(scan::only(scan::COLON)(line[k]));
    assert(at >= w.len()) by {
        if at < w.len() {
            assert(line.take(w.len() as int)[at] == w[at]);
            assert("physical id"@[at] as u8 == w[at]);
        }
    }
    let m = line.subrange(w.len() as int, at);
    let n = line.skip(at + 1);
    assert forall|k: int| 0 <= k < m.len() implies #[trigger] m[k] != ':' as u8 by {
        assert(!scan::only(scan::COLON)(line[k + w.len()]));
    }
    assert(line =~= line.take(w.len() as int) + m + seq![':' as u8] + n);
}

/// The sockets are those that a line names.
pub proof fn law_sockets(lines: Seq<Seq<u8>>, id: int)
    ensures
        sys::sockets_on(lines).contains(id) <==> exists|i: int|
            0 <= i < lines.len() && sys::socket_on(#[trigger] lines[i]) == Some(id),
        sys::sockets_on(lines).finite(),
    decreases lines.len(),
{
    if lines.len() > 0 {
        let rest = lines.drop_first();
        law_sockets(rest, id);
        if exists|i: int| 0 <= i < rest.len() && sys::socket_on(#[trigger] rest[i]) == Some(id) {
            let i = choose|i: int|
                0 <= i < rest.len() && sys::socket_on(#[trigger] rest[i]) == Some(id);
            assert(lines[i + 1] == rest[i]);
        }
        if exists|i: int| 0 <= i < lines.len() && sys::socket_on(#[trigger] lines[i]) == Some(id) {
            let i = choose|i: int|
                0 <= i < lines.len() && sys::socket_on(#[trigger] lines[i]) == Some(id);
            if i > 0 {
                assert(rest[i - 1] == lines[i]);
            }
        }
    }
}

/// A call counts the processor lines of a text and the sockets that its lines name, each socket
/// once, and at least one of both.
pub proof fn law_count_cpus(cpuinfo: &[u8], lines: Seq<Seq<u8>>, r: (u64, u64))
    requires
        call_ensures(count_cpus, (cpuinfo,), r),
        lines.len() > 0,
        cpuinfo@ == scan::join(lines, '\n' as u8),
        forall|i: int| 0 <= i < lines.len() ==> text::without(#[trigger] lines[i], '\n' as u8),
    ensures
        sys::processor_lines(lines) > 0 ==> r.0 == sys::processor_lines(lines),
        sys::processor_lines(lines) == 0 ==> r.0 == 1,
        sys::sockets_on(lines).len() > 0 ==> r.1 == sys::sockets_on(lines).len(),
        sys::sockets_on(lines).len() == 0 ==> r.1 == 1,
{
    text::law_split(lines, '\n' as u8);
}

/// The value of a line `key: value`.
pub open spec fn entry(content: Seq<u8>, key: Seq<char>) -> Option<Seq<u8>> {
    scan::value_of(content, encode_utf8(key), ':' as u8)
}

/// The processor section of a report: the model that the text names, or else the device tree; the
/// cores that it names, or else the processors that it lists; the sockets; the frequency; what it
/// runs on; and the load averages.
pub proof fn law_cpu(cpu: CpuData, before: CpuData, from: CpuSources, ghz: Option<u64>)
    requires
        cpu.collects(before, from, ghz),
        before.model@.len() == 0,
        before.cores_per_socket@.len() == 0,
        before.sockets@.len() == 0,
        before.hypervisor@.len() == 0,
        before.freq@.len() == 0,
    ensures
        ({
            let c = from.cpuinfo@;
            let lines = scan::split(c, '\n' as u8);
            let cpus = if sys::processor_lines(lines) > 0 {
                sys::processor_lines(lines)
            } else {
                1
            };
            let sockets = if sys::sockets_on(lines).len() > 0 {
                sys::sockets_on(lines).len()
            } else {
                1
            };
            &&& entry(c, "model name"@) matches Some(v) ==> cpu.model@ == buf::clip(v, 128)
            &&& entry(c, "model name"@) is None ==> (entry(c, "Model"@) matches Some(v) ==> cpu.model@
                == buf::clip(v, 128))
            &&& entry(c, "model name"@) is None && entry(c, "Model"@) is None ==> cpu.model@
                == buf::clip(sys::cstr(from.dt_model@), 128)
            &&& entry(c, "cpu cores"@) matches Some(v) ==> cpu.cores_per_socket@ == buf::clip(v, 16)
            &&& entry(c, "cpu cores"@) is None ==> cpu.cores_per_socket@ == buf::clip(
                buf::decimal(cpus),
                16,
            )
            &&& cpu.sockets@ == buf::clip(buf::decimal(sockets), 16)
            &&& cpu.total_cores == cpus
            &&& ghz matches Some(n) ==> holds_figure(cpu.freq@, n as int, 16)
            &&& ghz is None ==> cpu.freq@.len() == 0
            &&& cpu.hypervisor@ == buf::clip(
                encode_utf8(sys::hypervisor_name(c, from.vendor@)),
                64,
            )
        }),
{
    let c = from.cpuinfo@;
    let m = sys::cpu_model(c, from.dt_model@);
    assert(before.model@ + m =~= m);
    let k = sys::value_or(c, "cpu cores", ':' as u8, buf::decimal(sys::cpu_count(c)));
    assert(before.cores_per_socket@ + k =~= k);
    let s = buf::decimal(sys::socket_count(c));
    assert(before.sockets@ + s =~= s);
    let h = encode_utf8(sys::hypervisor_name(c, from.vendor@));
    assert(before.hypervisor@ + h =~= h);
    if let Some(n) = ghz {
        let f = buf::decimal_2dp(n as nat);
        assert(before.freq@ + f =~= f);
        law_figure(cpu.freq@, n as nat);
    }
}

/// The load averages are the first three fields of `/proc/loadavg`, as far as it has them.
pub proof fn law_loads(cpu: CpuData, loadavg: Seq<u8>, fields: Seq<Seq<u8>>)
    requires
        cpu.loads_read(loadavg),
        fields.len() > 0,
        loadavg == scan::join(fields, ' ' as u8),
        forall|i: int| 0 <= i < fields.len() ==> text::without(#[trigger] fields[i], ' ' as u8),
    ensures
        cpu.load_1@ == buf::clip(fields[0], 128),
        fields.len() > 1 ==> cpu.load_5@ == buf::clip(fields[1], 128),
        fields.len() > 2 ==> cpu.load_15@ == buf::clip(fields[2], 128),
        fields.len() <= 1 ==> cpu.load_5@.len() == 0,
        fields.len() <= 2 ==> cpu.load_15@.len() == 0,
{
    text::law_split(fields, ' ' as u8);
}

/// A call reads each load average as the decimal number that it is written as.
pub proof fn law_load_values(cpu: &CpuData, r: (Decimal, Decimal, Decimal))
    requires
        call_ensures(CpuData::loads, (cpu,), r),
    ensures
        r.0.reads(cpu.load_1@),
        r.1.reads(cpu.load_5@),
        r.2.reads(cpu.load_15@),
{
}

/// The first reading of the frequency is that of `/proc/cpuinfo`, or else that of sysfs.
pub proof fn law_freq_start(cpuinfo: &[u8], sysfs: &[u8], f: Freq)
    requires
        call_ensures(Freq::at_start, (cpuinfo, sysfs), f),
    ensures
        entry(cpuinfo@, "cpu MHz"@) matches Some(v) ==> (f matches Freq::Mhz(d) && d.reads(v)),
        entry(cpuinfo@, "cpu MHz"@) is None && sysfs@.len() > 0 ==> (f matches Freq::Khz(n) && n
            == scan::u64_value(sysfs@)),
        entry(cpuinfo@, "cpu MHz"@) is None && sysfs@.len() == 0 ==> f is Missing,
{
}

/// Later readings of the frequency are those of sysfs, or else those of `/proc/cpuinfo`.
pub proof fn law_freq_tick(sysfs: &[u8], cpuinfo: &[u8], f: Freq)
    requires
        call_ensures(Freq::at_tick, (sysfs, cpuinfo), f),
    ensures
        sysfs@.len() > 0 ==> (f matches Freq::Khz(n) && n == scan::u64_value(sysfs@)),
        sysfs@.len() == 0 ==> (entry(cpuinfo@, "cpu MHz"@) matches Some(v) ==> (f matches Freq::Mhz(d)
            && d.reads(v))),
        sysfs@.len() == 0 && entry(cpuinfo@, "cpu MHz"@) is None ==> f is Missing,
{
}

/// The device tree is asked exactly where the text names no model.
pub proof fn law_needs_dt_model(cpuinfo: &[u8], r: bool)
    requires
        call_ensures(needs_dt_model, (cpuinfo,), r),
    ensures
        r <==> entry(cpuinfo@, "model name"@) is None && entry(cpuinfo@, "Model"@) is None,
{
}

/// Calls tell of exactly the texts that hold `zfs` and `is healthy` that they do.
pub proof fn law_zfs_words(s: &[u8], zfs: bool, healthy: bool)
    requires
        call_ensures(has_zfs, (s,), zfs),
        call_ensures(is_healthy, (s,), healthy),
    ensures
        zfs <==> exists|a: Seq<u8>, b: Seq<u8>| s@ == #[trigger] (a + encode_utf8("zfs"@) + b),
        healthy <==> exists|a: Seq<u8>, b: Seq<u8>|
            s@ == #[trigger] (a + encode_utf8("is healthy"@) + b),
{
    text::law_occurs(s@, encode_utf8("zfs"@));
    text::law_occurs(s@, encode_utf8("is healthy"@));
}

/// The two numbers that `zfs get` writes, one to a line, are what is used and what is available,
/// and the total is their sum.
pub proof fn law_zfs(output: &[u8], used: u64, avail: u64, t: Seq<u8>, healthy: Option<bool>, u: DiskUsage)
    requires
        call_ensures(DiskUsage::of_zfs, (output, healthy), u),
        output@ == buf::decimal(used as nat) + seq!['\n' as u8] + buf::decimal(avail as nat) + seq![
            '\n' as u8,
        ] + t,
        used + avail <= u64::MAX,
    ensures
        u == (DiskUsage::Zfs { used, avail, total: (used + avail) as u64, healthy }),
{
    let lf = '\n' as u8;
    let a = buf::decimal(used as nat);
    let b = buf::decimal(avail as nat);
    let rest = scan::split(t, lf);
    text::law_lines(t);
    let lines = seq![a, b] + rest;
    text::law_decimal(used as nat);
    text::law_decimal(avail as nat);
    assert forall|i: int| 0 <= i < lines.len() implies text::without(#[trigger] lines[i], lf) by {
        if i < 2 {
            assert forall|k: int| 0 <= k < lines[i].len() implies #[trigger] lines[i][k] != lf by {
                assert('0' as u8 <= lines[i][k] <= '9' as u8);
            }
        } else {
            assert(text::without(rest[i - 2], lf));
        }
    }
    reveal_with_fuel(scan::join, 3);
    assert(lines.drop_first() =~= seq![b] + rest);
    assert(lines.drop_first().drop_first() =~= rest);
    assert(scan::join(lines, lf) =~= output@);
    text::law_split(lines, lf);
    text::law_number_in_text(seq![], used, seq![]);
    text::law_number_in_text(seq![], avail, seq![]);
    assert(seq![] + a + seq![] =~= a);
    assert(seq![] + b + seq![] =~= b);
    assert(lines[0] == a && lines[1] == b);
}

/// What is used and what is available are the numbers in the first and in the second line, of which
/// one that is not there counts as 0, and the total is their sum modulo 2 to the 64.
pub proof fn law_zfs_lines(
    output: &[u8],
    lines: Seq<Seq<u8>>,
    healthy: Option<bool>,
    u: DiskUsage,
)
    requires
        call_ensures(DiskUsage::of_zfs, (output, healthy), u),
        lines.len() > 0,
        output@ == scan::join(lines, '\n' as u8),
        forall|i: int| 0 <= i < lines.len() ==> text::without(#[trigger] lines[i], '\n' as u8),
    ensures
        u matches DiskUsage::Zfs { used, avail, total, healthy: h } && {
            &&& used == scan::u64_value(lines[0])
            &&& lines.len() > 1 ==> avail == scan::u64_value(lines[1])
            &&& lines.len() == 1 ==> avail == 0
            &&& total == used + avail || total + 0x1_0000_0000_0000_0000 == used + avail
            &&& h == healthy
        },
{
    text::law_split(lines, '\n' as u8);
    if lines.len() == 1 {
        text::law_u64_value(seq![], seq![], seq![]);
        assert(seq![] + seq![] + seq![] =~= Seq::<u8>::empty());
    }
}

/// A file system of less than 2 to the 64 bytes has as many bytes as its blocks, of which those are
/// used that are not free; a mebibyte is 1048576 bytes, of which the whole ones count.
pub proof fn law_fs(block: u64, blocks: u64, free: u64, u: DiskUsage)
    requires
        call_ensures(DiskUsage::of_fs, (block, blocks, free), u),
        free <= blocks,
        blocks * block <= u64::MAX,
    ensures
        u matches DiskUsage::Fs { used_bytes, total_bytes, used_mb, total_mb } && {
            &&& total_bytes == blocks * block
            &&& used_bytes + free * block == total_bytes
            &&& total_mb * 1048576 <= total_bytes < total_mb * 1048576 + 1048576
            &&& used_mb * 1048576 <= used_bytes < used_mb * 1048576 + 1048576
        },
{
    sys::lemma_fs_usage(block as int, blocks as int, free as int);
}

/// Of a file system of any size the bytes are counted modulo 2 to the 64.
pub proof fn law_fs_wraps(block: u64, blocks: u64, free: u64, u: DiskUsage)
    requires
        call_ensures(DiskUsage::of_fs, (block, blocks, free), u),
    ensures
        u matches DiskUsage::Fs { used_bytes, total_bytes, used_mb, total_mb } && {
            &&& (blocks * block - total_bytes) % 0x1_0000_0000_0000_0000 == 0
            &&& ((blocks - free) * block - used_bytes) % 0x1_0000_0000_0000_0000 == 0
            &&& total_mb * 1048576 <= total_bytes < total_mb * 1048576 + 1048576
            &&& used_mb * 1048576 <= used_bytes < used_mb * 1048576 + 1048576
        },
{
    let t = blocks * block;
    let v = (blocks - free) * block;
    assert(0 <= t % 0x1_0000_0000_0000_0000 < 0x1_0000_0000_0000_0000);
    assert(0 <= v % 0x1_0000_0000_0000_0000 < 0x1_0000_0000_0000_0000);
}

/// The pool goes before the root file system, and its health is what `zpool status` tells, where it
/// could be run.
pub proof fn law_disk_usage(zfs: Option<ZfsOutput>, root: Option<FsStat>, u: DiskUsage)
    requires
        call_ensures(DiskUsage::read, (zfs, root), u),
    ensures
        zfs matches Some(z) ==> u == sys::zfs_usage(
            z.usage@,
            if z.status is Some {
                Some(scan::occurs(z.status->0@, encode_utf8("is healthy"@)))
            } else {
                None
            },
        ),
        zfs is None ==> (root matches Some(r) ==> u == sys::fs_usage(
            r.block as int,
            r.blocks as int,
            r.free as int,
        )),
        zfs is None && root is None ==> u is Unknown,
{
}

/// `s` writes `h` hundredths: digits, a point and two digits.
pub open spec fn writes(s: Seq<u8>, h: int) -> bool {
    let n = s.len() - 3;
    &&& n > 0
    &&& text::digits(s.take(n))
    &&& scan::number(s.take(n)) == h / 100
    &&& s[n] == '.' as u8
    &&& text::digits(s.skip(n + 1))
    &&& scan::number(s.skip(n + 1)) == h % 100
}

/// `s` holds what writes `h` hundredths, as far as `n` bytes hold it.
pub open spec fn holds_figure(s: Seq<u8>, h: int, n: nat) -> bool {
    exists|w: Seq<u8>| #[trigger] writes(w, h) && s == buf::clip(w, n)
}

/// What holds a figure in 16 bytes writes it, up to 15 digits.
pub proof fn law_figure(s: Seq<u8>, h: nat)
    requires
        s == buf::clip(buf::decimal_2dp(h), 16),
    ensures
        holds_figure(s, h as int, 16),
        h < 1_000_000_000_000_000 ==> writes(s, h as int),
{
    text::law_decimal_2dp(h);
    assert(writes(buf::decimal_2dp(h), h as int));
    if h < 1_000_000_000_000_000 {
        lemma_fits(h);
    }
}

/// A disk label shows what is used, what it is compared with and the percentage, as numbers with
/// two places.
pub proof fn law_disk_label(label: DiskLabel)
    ensures
        exists|u: Seq<u8>, o: Seq<u8>, p: Seq<u8>|
            {
                &&& sys::disk_label(label) == #[trigger] (u + seq!['/' as u8] + o + encode_utf8(
                    " GB ["@,
                ) + p + encode_utf8("%]"@))
                &&& writes(u, label.used as int)
                &&& writes(o, label.of as int)
                &&& writes(p, label.percent as int)
            },
{
    text::law_decimal_2dp(label.used as nat);
    text::law_decimal_2dp(label.of as nat);
    text::law_decimal_2dp(label.percent as nat);
    let u = buf::decimal_2dp(label.used as nat);
    let o = buf::decimal_2dp(label.of as nat);
    let p = buf::decimal_2dp(label.percent as nat);
    assert(writes(u, label.used as int));
    assert(writes(o, label.of as int));
    assert(writes(p, label.percent as int));
    assert(sys::disk_label(label) == u + seq!['/' as u8] + o + encode_utf8(" GB ["@) + p
        + encode_utf8("%]"@));
}

/// The disk section of a report holds the numbers of the use and the label, and the health of a
/// pool. Of a disk of which nothing is known it holds nothing.
pub proof fn law_disk(disk: DiskData, before: DiskData, usage: DiskUsage, label: DiskLabel)
    requires
        disk.collects(before, usage, label),
        before.is_blank(),
    ensures
        usage matches DiskUsage::Zfs { used, avail, total, healthy } ==> {
            &&& disk.used == used
            &&& disk.total == total
            &&& disk.zfs
            &&& disk.label@ == buf::clip(sys::disk_label(label), 64)
            &&& healthy == Some(true) ==> disk.health@ == encode_utf8("HEALTH O.K."@)
            &&& healthy == Some(false) ==> disk.health@ == encode_utf8("DEGRADED"@)
            &&& healthy is None ==> disk.health@.len() == 0
        },
        usage matches DiskUsage::Fs { used_bytes, total_bytes, used_mb, total_mb } ==> {
            &&& disk.used == used_mb
            &&& disk.total == total_mb
            &&& !disk.zfs
            &&& disk.label@ == buf::clip(sys::disk_label(label), 64)
            &&& disk.health@.len() == 0
        },
        usage is Unknown ==> disk.used == 0 && disk.total == 1 && !disk.zfs && disk.label@.len() == 0
            && disk.health@.len() == 0,
{
    reveal_strlit("HEALTH O.K.");
    reveal_strlit("DEGRADED");
    is_ascii_chars_encode_utf8("HEALTH O.K."@);
    is_ascii_chars_encode_utf8("DEGRADED"@);
    assert(before.label@ + sys::disk_label(label) =~= sys::disk_label(label));
    assert(before.health@ + encode_utf8("HEALTH O.K."@) =~= encode_utf8("HEALTH O.K."@));
    assert(before.health@ + encode_utf8("DEGRADED"@) =~= encode_utf8("DEGRADED"@));
}

/// A call reads the total of the memory, and counts as used what is not available of it.
pub proof fn law_mem_usage(meminfo: &[u8], u: MemUsage)
    requires
        call_ensures(MemUsage::read, (meminfo,), u),
    ensures
        ({
            let total = entry(meminfo@, "MemTotal"@);
            let avail = entry(meminfo@, "MemAvailable"@);
            let a = if avail is Some {
                scan::u64_value(avail->0)
            } else {
                0
            };
            &&& total matches Some(v) ==> u.total_kb == scan::u64_value(v)
            &&& total is None ==> u.total_kb == 0
            &&& a <= u.total_kb ==> u.used_kb + a == u.total_kb
            &&& a > u.total_kb ==> u.used_kb == 0
        }),
{
}

/// A call reads the number of a key, or 0.
pub proof fn law_find_number(content: &[u8], key: &str, sep: u8, n: u64)
    requires
        call_ensures(find_number, (content, key, sep), n),
    ensures
        scan::value_of(content@, encode_utf8(key@), sep) matches Some(v) ==> n == scan::u64_value(v),
        scan::value_of(content@, encode_utf8(key@), sep) is None ==> n == 0,
{
}

/// The memory section of a report holds the numbers of the use and its figures.
pub proof fn law_mem(mem: MemData, before: MemData, usage: MemUsage, figures: MemFigures)
    requires
        mem.collects(before, usage, figures),
        before.used_gb@.len() == 0,
        before.total_gb@.len() == 0,
    ensures
        mem.used_kb == usage.used_kb,
        mem.total_kb == usage.total_kb,
        mem.percent == figures.percent,
        holds_figure(mem.used_gb@, figures.used_gb as int, 16),
        holds_figure(mem.total_gb@, figures.total_gb as int, 16),
        figures.used_gb < 1_000_000_000_000_000 ==> writes(mem.used_gb@, figures.used_gb as int),
        figures.total_gb < 1_000_000_000_000_000 ==> writes(mem.total_gb@, figures.total_gb as int),
{
    let u = buf::decimal_2dp(figures.used_gb as nat);
    let t = buf::decimal_2dp(figures.total_gb as nat);
    assert(before.used_gb@ + u =~= u);
    assert(before.total_gb@ + t =~= t);
    law_figure(mem.used_gb@, figures.used_gb as nat);
    law_figure(mem.total_gb@, figures.total_gb as nat);
}

pub proof fn lemma_fits(h: nat)
    requires
        h < 1_000_000_000_000_000,
    ensures
        buf::decimal_2dp(h).len() <= 16,
        writes(buf::decimal_2dp(h), h as int),
{
    text::law_decimal_2dp(h);
    assert(pow(10, 13) == 10_000_000_000_000) by {
        reveal_with_fuel(pow, 14);
    }
    crate::laws::login::law_decimal_len(h / 100, 13);
}

/// A report of which nothing is known holds no text, no name server, one processor, and an empty
/// disk and memory.
pub proof fn law_blank(info: SysInfo)
    requires
        info.is_blank(),
    ensures
        info.net.dns_count == 0,
        info.cpu.total_cores == 1,
        info.disk.used == 0,
        info.disk.total == 1,
        info.mem.used_kb == 0,
        info.mem.total_kb == 1,
        info.mem.percent == 0,
        !info.disk.zfs,
        !info.login.has_ip,
        info.net.hostname@.len() == 0,
        info.login.time@.len() == 0,
{
}

/// A call appends a word with its first letter in upper case.
pub proof fn law_capitalize_call<const N: usize>(
    src: &[u8],
    dst: &mut Buf<N>,
    a: Seq<u8>,
    c: u8,
    b: Seq<u8>,
)
    requires
        call_ensures(capitalize_into::<N>, (src, dst), ()),
        no_letters(a),
        'a' as u8 <= c <= 'z' as u8,
        src@ == a + seq![c] + b,
    ensures
        final(dst)@ == buf::clip(old(dst)@ + (a + seq![(c - 32) as u8] + b), N as nat),
{
    law_capitalized(a, c, b);
}

/// A call appends a default text to nothing, and nothing to something.
pub proof fn law_default_call<const N: usize>(b: &mut Buf<N>, text: &str)
    requires
        call_ensures(push_default::<N>, (b, text), ()),
    ensures
        old(b)@.len() > 0 ==> final(b)@ == old(b)@,
        old(b)@.len() == 0 ==> final(b)@ == buf::clip(encode_utf8(text@), N as nat),
{
}

/// A call collects the system of a blank report.
pub proof fn law_os_call(data: &mut OsData, rel: &[u8], uname: Option<(&[u8], &[u8])>)
    requires
        call_ensures(collect_os, (data, rel, uname), ()),
        old(data).name@.len() == 0,
        old(data).kernel@.len() == 0,
    ensures
        ({
            let id = setting(rel@, "ID"@, encode_utf8("linux"@));
            let version = setting(rel@, "VERSION"@, seq![]);
            let code = setting(rel@, "VERSION_CODENAME"@, seq![]);
            final(data).name@ == buf::clip(
                sys::capitalized(id) + seq![' ' as u8] + version + seq![' ' as u8]
                    + sys::capitalized(code),
                128,
            )
        }),
        uname matches Some((name, release)) ==> final(data).kernel@ == buf::clip(
            name@ + seq![' ' as u8] + release@,
            128,
        ),
        uname is None ==> final(data).kernel@.len() == 0,
{
    law_os(*final(data), *old(data), rel@, uname);
}

/// A call collects the network of a blank report, and leaves the client alone.
pub proof fn law_net_call(
    data: &mut NetData,
    hostname: Option<&[u8]>,
    ip: Option<[u8; 4]>,
    resolv: &[u8],
    env: Option<&[u8]>,
    user: &[u8],
    lines: Seq<Seq<u8>>,
)
    requires
        call_ensures(collect_net, (data, hostname, ip, resolv, env, user), ()),
        old(data).hostname@.len() == 0,
        old(data).machine_ip@.len() == 0,
        old(data).user@.len() == 0,
        old(data).dns_count == 0,
        forall|i: int| 0 <= i < 8 ==> (#[trigger] old(data).dns[i])@.len() == 0,
        lines.len() > 0,
        resolv@ == scan::join(lines, '\n' as u8),
        forall|i: int| 0 <= i < lines.len() ==> text::without(#[trigger] lines[i], '\n' as u8),
    ensures
        hostname matches Some(raw) && sys::cstr(raw@).len() > 0 ==> final(data).hostname@
            == buf::clip(sys::cstr(hostname->0@), 128),
        hostname is None || sys::cstr(hostname->0@).len() == 0 ==> final(data).hostname@
            == encode_utf8("Not Defined"@),
        ip matches Some(x) ==> final(data).machine_ip@ == sys::dotted(x@),
        ip is None ==> final(data).machine_ip@ == encode_utf8("No IP found"@),
        sys::servers_on(lines).len() <= 8 ==> final(data).dns_count == sys::servers_on(lines).len(),
        sys::servers_on(lines).len() > 8 ==> final(data).dns_count == 8,
        forall|i: int|
            0 <= i < final(data).dns_count ==> (#[trigger] final(data).dns[i])@ == buf::clip(
                sys::servers_on(lines)[i],
                64,
            ),
        env matches Some(u) ==> final(data).user@ == buf::clip(u@, 64),
        env is None ==> final(data).user@ == buf::clip(user@, 64),
        final(data).client_ip == old(data).client_ip,
{
    law_servers(lines);
    law_net(*final(data), *old(data), hostname, ip, resolv@, env, user@);
    if let Some(x) = ip {
        law_dotted(x@);
    }
}

/// A call collects the processor of a blank report.
pub proof fn law_cpu_call(data: &mut CpuData, from: &CpuSources, ghz: Option<u64>, virt: bool)
    requires
        call_ensures(collect_cpu, (data, from, ghz), ()),
        call_ensures(is_virtual, (from.cpuinfo,), virt),
        old(data).model@.len() == 0,
        old(data).cores_per_socket@.len() == 0,
        old(data).sockets@.len() == 0,
        old(data).hypervisor@.len() == 0,
        old(data).freq@.len() == 0,
    ensures
        ({
            let c = from.cpuinfo@;
            let lines = scan::split(c, '\n' as u8);
            let cpus = if sys::processor_lines(lines) > 0 {
                sys::processor_lines(lines)
            } else {
                1
            };
            let sockets = if sys::sockets_on(lines).len() > 0 {
                sys::sockets_on(lines).len()
            } else {
                1
            };
            &&& entry(c, "model name"@) matches Some(v) ==> final(data).model@ == buf::clip(v, 128)
            &&& entry(c, "model name"@) is None ==> (entry(c, "Model"@) matches Some(v) ==> final(data).model@
                == buf::clip(v, 128))
            &&& entry(c, "model name"@) is None && entry(c, "Model"@) is None ==> final(data).model@
                == buf::clip(sys::cstr(from.dt_model@), 128)
            &&& entry(c, "cpu cores"@) matches Some(v) ==> final(data).cores_per_socket@
                == buf::clip(v, 16)
            &&& entry(c, "cpu cores"@) is None ==> final(data).cores_per_socket@ == buf::clip(
                buf::decimal(cpus),
                16,
            )
            &&& final(data).sockets@ == buf::clip(buf::decimal(sockets), 16)
            &&& final(data).total_cores == cpus
            &&& ghz matches Some(n) ==> holds_figure(final(data).freq@, n as int, 16)
            &&& ghz is None ==> final(data).freq@.len() == 0
            &&& !virt ==> final(data).hypervisor@ == encode_utf8("Bare Metal"@)
            &&& virt ==> final(data).hypervisor@ == buf::clip(
                encode_utf8(sys::vendor_name(from.vendor@)),
                64,
            )
            &&& final(data).loads_read(from.loadavg@)
        }),
{
    reveal_strlit("Bare Metal");
    is_ascii_chars_encode_utf8("Bare Metal"@);
    law_cpu(*final(data), *old(data), *from, ghz);
}

/// A call collects the load averages and nothing else.
pub proof fn law_loads_call(data: &mut CpuData, loadavg: &[u8], fields: Seq<Seq<u8>>)
    requires
        call_ensures(collect_loads, (data, loadavg), ()),
        fields.len() > 0,
        loadavg@ == scan::join(fields, ' ' as u8),
        forall|i: int| 0 <= i < fields.len() ==> text::without(#[trigger] fields[i], ' ' as u8),
    ensures
        final(data).load_1@ == buf::clip(fields[0], 128),
        fields.len() > 1 ==> final(data).load_5@ == buf::clip(fields[1], 128),
        fields.len() > 2 ==> final(data).load_15@ == buf::clip(fields[2], 128),
        fields.len() <= 1 ==> final(data).load_5@.len() == 0,
        fields.len() <= 2 ==> final(data).load_15@.len() == 0,
        final(data).model == old(data).model,
        final(data).total_cores == old(data).total_cores,
        final(data).freq == old(data).freq,
{
    law_loads(*final(data), loadavg@, fields);
}

/// A call collects the disk of a blank report.
pub proof fn law_disk_call(data: &mut DiskData, usage: &DiskUsage, label: &DiskLabel)
    requires
        call_ensures(collect_disk, (data, usage, label), ()),
        old(data).is_blank(),
    ensures
        *usage matches DiskUsage::Zfs { used, avail, total, healthy } ==> {
            &&& final(data).used == used
            &&& final(data).total == total
            &&& final(data).zfs
            &&& healthy == Some(true) ==> final(data).health@ == encode_utf8("HEALTH O.K."@)
            &&& healthy == Some(false) ==> final(data).health@ == encode_utf8("DEGRADED"@)
            &&& healthy is None ==> final(data).health@.len() == 0
        },
        *usage matches DiskUsage::Fs { used_bytes, total_bytes, used_mb, total_mb } ==> {
            &&& final(data).used == used_mb
            &&& final(data).total == total_mb
            &&& !final(data).zfs
        },
        !(*usage is Unknown) ==> final(data).label@ == buf::clip(sys::disk_label(*label), 64),
        *usage is Unknown ==> final(data).is_blank(),
{
    law_disk(*final(data), *old(data), *usage, *label);
}

/// A call collects the memory of a blank report.
pub proof fn law_mem_call(data: &mut MemData, usage: &MemUsage, figures: &MemFigures)
    requires
        call_ensures(collect_mem, (data, usage, figures), ()),
        old(data).used_gb@.len() == 0,
        old(data).total_gb@.len() == 0,
    ensures
        final(data).used_kb == usage.used_kb,
        final(data).total_kb == usage.total_kb,
        final(data).percent == figures.percent,
        holds_figure(final(data).used_gb@, figures.used_gb as int, 16),
        holds_figure(final(data).total_gb@, figures.total_gb as int, 16),
{
    law_mem(*final(data), *old(data), *usage, *figures);
}

/// New reports and new disk sections are blank.
pub proof fn law_new_call(info: SysInfo, disk: DiskData, i: int)
    requires
        0 <= i < 8,
    ensures
        call_ensures(SysInfo::new, (), info) ==> info.is_blank() && info.net.dns[i]@.len() == 0,
        call_ensures(DiskData::new, (), disk) ==> disk.used == 0 && disk.total == 1 && !disk.zfs
            && disk.label@.len() == 0 && disk.health@.len() == 0,
{
}

proof fn lemma_clip_twice(a: Seq<u8>, b: Seq<u8>, n: nat)
    ensures
        buf::clip(a + buf::clip(b, n), n) == buf::clip(a + b, n),
{
    assert(buf::clip(a + buf::clip(b, n), n) =~= buf::clip(a + b, n));
}

/// Where something is known already, what a blank report would hold goes behind it.
pub proof fn law_os_again(
    os: OsData,
    before: OsData,
    fresh: OsData,
    blank: OsData,
    rel: Seq<u8>,
    uname: Option<(&[u8], &[u8])>,
)
    requires
        os.collects(before, rel, uname),
        fresh.collects(blank, rel, uname),
        blank.name@.len() == 0,
        blank.kernel@.len() == 0,
        before.kernel@.len() <= 128,
    ensures
        os.name@ == buf::clip(before.name@ + fresh.name@, 128),
        os.kernel@ == buf::clip(before.kernel@ + fresh.kernel@, 128),
{
    let t = sys::os_name(rel);
    assert(blank.name@ + t =~= t);
    lemma_clip_twice(before.name@, t, 128);
    match uname {
        Some((name, release)) => {
            let k = name@ + seq![' ' as u8] + release@;
            assert(blank.kernel@ + k =~= k);
            lemma_clip_twice(before.kernel@, k, 128);
        },
        None => {
            assert(before.kernel@ + fresh.kernel@ =~= before.kernel@);
        },
    }
}

/// Where something is known already of the processor, the texts of a blank report go behind it, and
/// its numbers and the load averages take the place of those that were there.
pub proof fn law_cpu_again(
    cpu: CpuData,
    before: CpuData,
    fresh: CpuData,
    blank: CpuData,
    from: CpuSources,
    ghz: Option<u64>,
)
    requires
        cpu.collects(before, from, ghz),
        fresh.collects(blank, from, ghz),
        blank.model@.len() == 0,
        blank.cores_per_socket@.len() == 0,
        blank.sockets@.len() == 0,
        blank.hypervisor@.len() == 0,
        blank.freq@.len() == 0,
        before.freq@.len() <= 16,
    ensures
        cpu.model@ == buf::clip(before.model@ + fresh.model@, 128),
        cpu.cores_per_socket@ == buf::clip(before.cores_per_socket@ + fresh.cores_per_socket@, 16),
        cpu.sockets@ == buf::clip(before.sockets@ + fresh.sockets@, 16),
        cpu.hypervisor@ == buf::clip(before.hypervisor@ + fresh.hypervisor@, 64),
        cpu.freq@ == buf::clip(before.freq@ + fresh.freq@, 16),
        cpu.total_cores == fresh.total_cores,
        cpu.load_1@ == fresh.load_1@,
        cpu.load_5@ == fresh.load_5@,
        cpu.load_15@ == fresh.load_15@,
{
    let c = from.cpuinfo@;
    let m = sys::cpu_model(c, from.dt_model@);
    assert(blank.model@ + m =~= m);
    lemma_clip_twice(before.model@, m, 128);
    let k = sys::value_or(c, "cpu cores", ':' as u8, buf::decimal(sys::cpu_count(c)));
    assert(blank.cores_per_socket@ + k =~= k);
    lemma_clip_twice(before.cores_per_socket@, k, 16);
    let s = buf::decimal(sys::socket_count(c));
    assert(blank.sockets@ + s =~= s);
    lemma_clip_twice(before.sockets@, s, 16);
    let h = encode_utf8(sys::hypervisor_name(c, from.vendor@));
    assert(blank.hypervisor@ + h =~= h);
    lemma_clip_twice(before.hypervisor@, h, 64);
    match ghz {
        Some(n) => {
            let f = buf::decimal_2dp(n as nat);
            assert(blank.freq@ + f =~= f);
            lemma_clip_twice(before.freq@, f, 16);
        },
        None => {
            assert(before.freq@ + fresh.freq@ =~= before.freq@);
        },
    }
}

/// Where something is known already of the disk, the label and the health of a blank report go
/// behind it, and its numbers take the place of those that were there. What is known stays where
/// nothing is read, and a pool stays one.
pub proof fn law_disk_again(
    disk: DiskData,
    before: DiskData,
    fresh: DiskData,
    blank: DiskData,
    usage: DiskUsage,
    label: DiskLabel,
)
    requires
        disk.collects(before, usage, label),
        fresh.collects(blank, usage, label),
        blank.is_blank(),
        before.health@.len() <= 32,
    ensures
        usage is Unknown ==> disk == before,
        !(usage is Unknown) ==> {
            &&& disk.label@ == buf::clip(before.label@ + fresh.label@, 64)
            &&& disk.health@ == buf::clip(before.health@ + fresh.health@, 32)
            &&& disk.used == fresh.used
            &&& disk.total == fresh.total
            &&& disk.zfs == (before.zfs || fresh.zfs)
        },
{
    let t = sys::disk_label(label);
    assert(blank.label@ + t =~= t);
    lemma_clip_twice(before.label@, t, 64);
    if fresh.health@.len() == 0 {
        assert(before.health@ + fresh.health@ =~= before.health@);
    }
    if let DiskUsage::Zfs { used, avail, total, healthy } = usage {
        if let Some(x) = sys::health_text(healthy) {
            assert(blank.health@ + x =~= x);
            lemma_clip_twice(before.health@, x, 32);
        }
    }
}

/// Where something is known already of the memory, the texts of a blank report go behind it.
pub proof fn law_mem_again(
    mem: MemData,
    before: MemData,
    fresh: MemData,
    blank: MemData,
    usage: MemUsage,
    figures: MemFigures,
)
    requires
        mem.collects(before, usage, figures),
        fresh.collects(blank, usage, figures),
        blank.used_gb@.len() == 0,
        blank.total_gb@.len() == 0,
    ensures
        mem.used_gb@ == buf::clip(before.used_gb@ + fresh.used_gb@, 16),
        mem.total_gb@ == buf::clip(before.total_gb@ + fresh.total_gb@, 16),
        mem.used_kb == fresh.used_kb,
        mem.total_kb == fresh.total_kb,
        mem.percent == fresh.percent,
{
    let u = buf::decimal_2dp(figures.used_gb as nat);
    let t = buf::decimal_2dp(figures.total_gb as nat);
    assert(blank.used_gb@ + u =~= u);
    assert(blank.total_gb@ + t =~= t);
    lemma_clip_twice(before.used_gb@, u, 16);
    lemma_clip_twice(before.total_gb@, t, 16);
}

/// Servers go behind those that a report names already, as far as it has room for eight; the host
/// name and the address are said to be unknown only where nothing was known before either.
pub proof fn law_net_again(
    net: NetData,
    before: NetData,
    hostname: Option<&[u8]>,
    ip: Option<[u8; 4]>,
    resolv: Seq<u8>,
    env: Option<&[u8]>,
    user: Seq<u8>,
)
    requires
        net.collects(before, hostname, ip, resolv, env, user),
        before.dns_count <= 8,
    ensures
        before.dns_count <= net.dns_count <= 8,
        net.dns_count < 8 ==> net.dns_count == before.dns_count + sys::servers(resolv).len(),
        net.dns_count - before.dns_count <= sys::servers(resolv).len(),
        forall|i: int| 0 <= i < before.dns_count ==> (#[trigger] net.dns[i])@ == before.dns[i]@,
        forall|i: int|
            before.dns_count <= i < net.dns_count ==> (#[trigger] net.dns[i])@ == buf::clip(
                before.dns[i]@ + sys::servers(resolv)[i - before.dns_count],
                64,
            ),
        before.hostname@.len() > 0 && hostname is None ==> net.hostname@ == before.hostname@,
        before.hostname@.len() > 0 ==> (hostname matches Some(raw) ==> net.hostname@ == buf::clip(
            before.hostname@ + sys::cstr(raw@),
            128,
        )),
        before.machine_ip@.len() > 0 && ip is None ==> net.machine_ip@ == before.machine_ip@,
        before.machine_ip@.len() > 0 ==> (ip matches Some(x) ==> net.machine_ip@ == buf::clip(
            before.machine_ip@ + sys::dotted(x@),
            64,
        )),
        env matches Some(u) ==> net.user@ == buf::clip(before.user@ + u@, 64),
        env is None ==> net.user@ == buf::clip(before.user@ + user, 64),
{
    let found = sys::servers(resolv);
    assert forall|i: int| 0 <= i < before.dns_count implies (#[trigger] net.dns[i])@
        == before.dns[i]@ by {
    }
    assert forall|i: int| before.dns_count <= i < net.dns_count implies (#[trigger] net.dns[i])@
        == buf::clip(before.dns[i]@ + found[i - before.dns_count], 64) by {
    }
}

} // verus!
