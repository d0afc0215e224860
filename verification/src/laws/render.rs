//! The layout of a report and what its rows show.

use crate::buf;
use crate::frame;
use crate::frame::{DivStyle, Frame};
use crate::laws::buf as shown;
use crate::laws::scan as bytes;
use crate::laws::sys as sections;
use crate::live::{redraw, resize};
use crate::render;
use crate::render::{compute_layout, count_rows, draw, render, BarFills, Layout};
use crate::scan;
use crate::sys::{CpuData, MemData, SysInfo};
use crate::text;
use vstd::prelude::*;
use vstd::utf8::*;

verus! {

/// The data column is as wide as one of the texts that it is laid out for, or as little as it can
/// be.
pub open spec fn is_tight(info: &SysInfo, dc: int) -> bool {
    ||| dc == 20
    ||| dc == info.os.name.text().len()
    ||| dc == info.os.kernel.text().len()
    ||| dc == info.net.hostname.text().len()
    ||| dc == info.net.machine_ip.text().len()
    ||| dc == info.net.client_ip.text().len()
    ||| dc == info.net.user.text().len()
    ||| dc == info.cpu.model.text().len()
    ||| dc == info.cpu.hypervisor.text().len()
    ||| dc == info.disk.label.text().len()
    ||| dc == info.login.time.text().len()
    ||| dc == info.login.uptime.text().len()
}

/// The data column has room for the texts that it is laid out for.
pub open spec fn has_room(info: &SysInfo, dc: int) -> bool {
    &&& dc >= 20
    &&& dc >= info.os.name.text().len()
    &&& dc >= info.os.kernel.text().len()
    &&& dc >= info.net.hostname.text().len()
    &&& dc >= info.net.machine_ip.text().len()
    &&& dc >= info.net.client_ip.text().len()
    &&& dc >= info.net.user.text().len()
    &&& dc >= info.cpu.model.text().len()
    &&& dc >= info.cpu.hypervisor.text().len()
    &&& dc >= info.disk.label.text().len()
    &&& dc >= info.login.time.text().len()
    &&& dc >= info.login.uptime.text().len()
}

proof fn lemma_largest_is(s: Seq<int>, least: int)
    ensures
        render::largest(s, least) == least || exists|i: int|
            0 <= i < s.len() && #[trigger] s[i] == render::largest(s, least),
        render::largest(s, least) >= least,
        forall|i: int| 0 <= i < s.len() ==> #[trigger] s[i] <= render::largest(s, least),
    decreases s.len(),
{
    if s.len() > 0 {
        let init = s.drop_last();
        lemma_largest_is(init, least);
        let n = init.len() as int;
        assert(s[n] == s.last());
        assert forall|i: int| 0 <= i < s.len() implies #[trigger] s[i] <= render::largest(
            s,
            least,
        ) by {
            if i < n {
                assert(init[i] == s[i]);
            }
        }
        if s.last() <= render::largest(init, least) && render::largest(init, least) != least {
            let i = choose|i: int|
                0 <= i < init.len() && #[trigger] init[i] == render::largest(init, least);
            assert(s[i] == init[i]);
        }
    }
}

proof fn lemma_min_width(info: &SysInfo)
    ensures
        has_room(info, render::min_width(info) - 20),
        is_tight(info, render::min_width(info) - 20),
{
    reveal_strlit("FOSL DISTUTILS");
    reveal_strlit("MACHINE REPORT");
    is_ascii_chars_encode_utf8("FOSL DISTUTILS"@);
    is_ascii_chars_encode_utf8("MACHINE REPORT"@);
    let d = render::data_widths(info);
    lemma_largest_is(d, 20);
    assert(d[0] == 14 && d[1] == 14);
    assert(d[2] <= render::largest(d, 20));
    assert(d[3] <= render::largest(d, 20));
    assert(d[4] <= render::largest(d, 20));
    assert(d[5] <= render::largest(d, 20));
    assert(d[6] <= render::largest(d, 20));
    assert(d[7] <= render::largest(d, 20));
    assert(d[8] <= render::largest(d, 20));
    assert(d[9] <= render::largest(d, 20));
    assert(d[10] <= render::largest(d, 20));
    assert(d[11] <= render::largest(d, 20));
    assert(d[12] <= render::largest(d, 20));
}

/// A call counts 29 rows, one for each name server, and one each for the health of a pool and for
/// the address of the login.
pub proof fn law_count_rows(info: &SysInfo, n: usize)
    requires
        call_ensures(count_rows, (info,), n),
    ensures
        n == 29 + info.net.dns_count + (if info.disk.zfs {
            1int
        } else {
            0
        }) + (if info.login.has_ip {
            1int
        } else {
            0
        }),
{
}

/// A report of `n` rows is laid out for a terminal. Its width is that of the terminal where that is
/// below 119 columns, or else 52, and no less than what the texts need. Its height is that of the
/// terminal where that is below 79 rows, and no less than the rows that it has; empty rows fill it
/// only where it is higher than these.
pub open spec fn is_laid_out(info: &SysInfo, tw: int, th: int, l: Layout, n: int) -> bool {
    &&& l.nc == 13
    &&& l.tw == 13 + l.dc + 7
    &&& has_room(info, l.dc as int)
    &&& 0 < tw < 119 ==> l.tw == tw || (l.tw > tw && is_tight(info, l.dc as int))
    &&& tw == 0 || tw >= 119 ==> l.tw == 52 || (l.tw > 52 && is_tight(info, l.dc as int))
    &&& 0 < th < 79 && th > n ==> l.th == th && l.fill
    &&& !(0 < th < 79 && th > n) ==> l.th == n && !l.fill
}

/// A call lays a report out for a terminal.
pub proof fn law_layout(info: &SysInfo, tw: usize, th: usize, l: Layout, n: usize)
    requires
        call_ensures(compute_layout, (info, tw, th), l),
        call_ensures(count_rows, (info,), n),
    ensures
        is_laid_out(info, tw as int, th as int, l, n as int),
{
    lemma_min_width(info);
}

/// ASCII bytes.
pub open spec fn ascii(s: Seq<u8>) -> bool {
    forall|i: int| 0 <= i < s.len() ==> #[trigger] s[i] < 128
}

/// The memory text is that of what is used and what there is, as they were collected, and of the
/// percentage as a number with two places, as far as 64 bytes hold it.
pub proof fn law_mem_bytes(mem: &MemData)
    ensures
        exists|p: Seq<u8>|
            {
                &&& #[trigger] sections::writes(p, mem.percent as int)
                &&& render::mem_text(mem) == text::decoded(
                    buf::clip(
                        mem.used_gb@ + seq!['/' as u8] + mem.total_gb@ + encode_utf8(" GiB ["@) + p
                            + encode_utf8("%]"@),
                        64,
                    ),
                )
            },
{
    lemma_2dp(mem.percent);
}

/// The memory text shows what is used and what there is, as they were collected, and between its
/// brackets the percentage as a number with two places.
pub proof fn law_mem_text(mem: &MemData)
    requires
        ascii(mem.used_gb@),
        ascii(mem.total_gb@),
        mem.used_gb@.len() <= 16,
        mem.total_gb@.len() <= 16,
    ensures
        exists|p: Seq<u8>|
            {
                &&& #[trigger] sections::writes(p, mem.percent as int)
                &&& encode_utf8(render::mem_text(mem)) == mem.used_gb@ + seq!['/' as u8]
                    + mem.total_gb@ + encode_utf8(" GiB ["@) + p + encode_utf8("%]"@)
            },
{
    let p = buf::decimal_2dp(mem.percent as nat);
    lemma_2dp(mem.percent);
    let a = encode_utf8(" GiB ["@);
    let b = encode_utf8("%]"@);
    reveal_strlit(" GiB [");
    reveal_strlit("%]");
    is_ascii_chars_encode_utf8(" GiB ["@);
    is_ascii_chars_encode_utf8("%]"@);
    let t = mem.used_gb@ + seq!['/' as u8] + mem.total_gb@ + a + p + b;
    assert forall|i: int| 0 <= i < a.len() implies #[trigger] a[i] < 128 by {
        assert(" GiB ["@[i] as u8 == a[i]);
    }
    assert forall|i: int| 0 <= i < b.len() implies #[trigger] b[i] < 128 by {
        assert("%]"@[i] as u8 == b[i]);
    }
    lemma_ascii_add(mem.used_gb@, seq!['/' as u8]);
    lemma_ascii_add(mem.used_gb@ + seq!['/' as u8], mem.total_gb@);
    lemma_ascii_add(mem.used_gb@ + seq!['/' as u8] + mem.total_gb@, a);
    lemma_ascii_add(mem.used_gb@ + seq!['/' as u8] + mem.total_gb@ + a, p);
    lemma_ascii_add(mem.used_gb@ + seq!['/' as u8] + mem.total_gb@ + a + p, b);
    shown::law_ascii(t);
}

proof fn lemma_ascii_add(a: Seq<u8>, b: Seq<u8>)
    requires
        ascii(a),
        ascii(b),
    ensures
        ascii(a + b),
{
    assert forall|i: int| 0 <= i < (a + b).len() implies #[trigger] (a + b)[i] < 128 by {
        if i < a.len() {
            assert(a[i] < 128);
        } else {
            assert(b[i - a.len()] < 128);
        }
    }
}

proof fn lemma_2dp(h: u64)
    ensures
        sections::writes(buf::decimal_2dp(h as nat), h as int),
        ascii(buf::decimal_2dp(h as nat)),
        buf::decimal_2dp(h as nat).len() <= 21,
        bytes::without(buf::decimal_2dp(h as nat), '[' as u8),
{
    let s = buf::decimal_2dp(h as nat);
    let n = s.len() - 3;
    bytes::law_decimal_2dp(h as nat);
    assert forall|i: int| 0 <= i < s.len() implies #[trigger] s[i] < 128 && s[i] != '[' as u8 by {
        if i < n {
            assert(s.take(n)[i] == s[i]);
        } else if i > n {
            assert(s.skip(n + 1)[i - n - 1] == s[i]);
        }
    }
    assert(vstd::arithmetic::power::pow(10, 18) == 1_000_000_000_000_000_000) by {
        reveal_with_fuel(vstd::arithmetic::power::pow, 19);
    }
    crate::laws::login::law_decimal_len((h / 100) as nat, 18);
}

/// Reports with different percentages have different memory texts.
pub proof fn law_mem_text_differs(a: &MemData, b: &MemData)
    requires
        a.percent != b.percent,
        ascii(a.used_gb@),
        ascii(a.total_gb@),
        a.used_gb@.len() <= 16,
        a.total_gb@.len() <= 16,
        bytes::without(a.used_gb@, '[' as u8),
        bytes::without(a.total_gb@, '[' as u8),
        ascii(b.used_gb@),
        ascii(b.total_gb@),
        b.used_gb@.len() <= 16,
        b.total_gb@.len() <= 16,
        bytes::without(b.used_gb@, '[' as u8),
        bytes::without(b.total_gb@, '[' as u8),
    ensures
        render::mem_text(a) != render::mem_text(b),
{
    law_mem_text(a);
    law_mem_text(b);
    if render::mem_text(a) == render::mem_text(b) {
        let t = encode_utf8(render::mem_text(a));
        let p = choose|p: Seq<u8>|
            {
                &&& #[trigger] sections::writes(p, a.percent as int)
                &&& t == a.used_gb@ + seq!['/' as u8] + a.total_gb@ + encode_utf8(" GiB ["@) + p
                    + encode_utf8("%]"@)
            };
        let q = choose|q: Seq<u8>|
            {
                &&& #[trigger] sections::writes(q, b.percent as int)
                &&& t == b.used_gb@ + seq!['/' as u8] + b.total_gb@ + encode_utf8(" GiB ["@) + q
                    + encode_utf8("%]"@)
            };
        let i = lemma_bracket(t, a.used_gb@, a.total_gb@, p);
        let j = lemma_bracket(t, b.used_gb@, b.total_gb@, q);
        assert(p == q);
    }
}

/// Where the bracket of a memory text stands, and what it holds.
proof fn lemma_bracket(t: Seq<u8>, used: Seq<u8>, total: Seq<u8>, p: Seq<u8>) -> (i: int)
    requires
        t == used + seq!['/' as u8] + total + encode_utf8(" GiB ["@) + p + encode_utf8("%]"@),
        bytes::without(used, '[' as u8),
        bytes::without(total, '[' as u8),
    ensures
        i == scan::first_of(t, scan::only('[' as u8)),
        p == t.subrange(i + 1, t.len() - 2),
{
    let a = encode_utf8(" GiB ["@);
    let b = encode_utf8("%]"@);
    reveal_strlit(" GiB [");
    reveal_strlit("%]");
    is_ascii_chars_encode_utf8(" GiB ["@);
    is_ascii_chars_encode_utf8("%]"@);
    let n = used.len() as int + 1 + total.len();
    let i = n + 5;
    assert(" GiB ["@[0] as u8 == a[0]);
    assert(" GiB ["@[1] as u8 == a[1]);
    assert(" GiB ["@[2] as u8 == a[2]);
    assert(" GiB ["@[3] as u8 == a[3]);
    assert(" GiB ["@[4] as u8 == a[4]);
    assert(" GiB ["@[5] as u8 == a[5]);
    assert forall|k: int| 0 <= k < i implies !scan::only('[' as u8)(#[trigger] t[k]) by {
        if k < used.len() {
            assert(used[k] != '[' as u8);
        } else if used.len() < k < n {
            assert(total[k - used.len() - 1] != '[' as u8);
        } else if k >= n {
            assert(t[k] == a[k - n]);
        }
    }
    assert(t[i] == a[5]);
    scan::lemma_first_of(t, scan::only('[' as u8), i);
    assert(p =~= t.subrange(i + 1, t.len() - 2));
    i
}

/// The texts of the cores, of the frequency and of the name servers are what was collected, with
/// their words around it.
pub proof fn law_cpu_texts(cpu: &CpuData, i: int)
    requires
        cpu.cores_per_socket@.len() <= 16,
        cpu.sockets@.len() <= 16,
        cpu.freq@.len() <= 16,
        0 <= i < 8,
    ensures
        render::cores_text(cpu) == text::decoded(
            cpu.cores_per_socket@ + encode_utf8(" vCPU(s) / "@) + cpu.sockets@ + encode_utf8(
                " Socket(s)"@,
            ),
        ),
        render::freq_text(cpu) == text::decoded(cpu.freq@ + encode_utf8(" GHz"@)),
        encode_utf8(render::dns_name(i)) == encode_utf8("DNS  IP "@) + seq![('1' as u8 + i) as u8],
{
    reveal_strlit(" vCPU(s) / ");
    reveal_strlit(" Socket(s)");
    reveal_strlit(" GHz");
    reveal_strlit("DNS  IP ");
    is_ascii_chars_encode_utf8(" vCPU(s) / "@);
    is_ascii_chars_encode_utf8(" Socket(s)"@);
    is_ascii_chars_encode_utf8(" GHz"@);
    is_ascii_chars_encode_utf8("DNS  IP "@);
    let d = encode_utf8("DNS  IP "@);
    let n = buf::decimal((i + 1) as nat);
    assert(n =~= seq![('1' as u8 + i) as u8]);
    assert forall|k: int| 0 <= k < d.len() implies #[trigger] d[k] < 128 by {
        assert("DNS  IP "@[k] as u8 == d[k]);
    }
    lemma_ascii_add(d, n);
    shown::law_ascii(d + n);
}

/// What the lines of a report are, one by one: its titles, the sections with a divider before each,
/// the name servers in their order, the rows that are there only for a pool and for an address, the
/// empty rows, and the bottom edge. `d` is the number of name servers, and `e` and `u` are where the
/// section of the memory and the row of the uptime begin.
#[verifier::rlimit(40)]
pub proof fn law_report(
    info: &SysInfo,
    l: &Layout,
    bars: &BarFills,
    w: int,
    start: int,
    d: int,
    e: int,
    u: int,
)
    requires
        d == info.net.dns_count,
        e == 22 + d + (if info.disk.zfs {
            1int
        } else {
            0
        }),
        u == e + 5 + (if info.login.has_ip {
            1int
        } else {
            0
        }),
    ensures
        ({
            let r = render::report_lines(info, l, bars, w, start);
            let (nc, dc) = (l.nc as int, l.dc as int);
            let fill = if l.fill && l.th - 1 > start + u + 1 {
                l.th - 1 - (start + u + 1)
            } else {
                0
            };
            &&& r.len() == u + 1 + fill + 1
            &&& r[0] == frame::header_line(w)
            &&& r[1] == frame::centered_line("FOSL DISTUTILS"@, w)
            &&& r[2] == frame::centered_line("MACHINE REPORT"@, w)
            &&& r[3] == frame::divider_line(DivStyle::Top, nc, w)
            &&& r[4] == frame::row_line("OS"@, info.os.name.text(), nc, dc)
            &&& r[5] == frame::row_line("KERNEL"@, info.os.kernel.text(), nc, dc)
            &&& r[6] == frame::divider_line(DivStyle::Mid, nc, w)
            &&& r[7] == frame::row_line("HOSTNAME"@, info.net.hostname.text(), nc, dc)
            &&& r[8] == frame::row_line("MACHINE IP"@, info.net.machine_ip.text(), nc, dc)
            &&& r[9] == frame::row_line("CLIENT  IP"@, info.net.client_ip.text(), nc, dc)
            &&& forall|i: int|
                0 <= i < d ==> #[trigger] r[10 + i] == frame::row_line(
                    render::dns_name(i),
                    info.net.dns[i].text(),
                    nc,
                    dc,
                )
            &&& r[10 + d] == frame::row_line("USER"@, info.net.user.text(), nc, dc)
            &&& r[11 + d] == frame::divider_line(DivStyle::Mid, nc, w)
            &&& r[12 + d] == frame::row_line("PROCESSOR"@, info.cpu.model.text(), nc, dc)
            &&& r[13 + d] == frame::row_line("CORES"@, render::cores_text(&info.cpu), nc, dc)
            &&& r[14 + d] == frame::row_line("HYPERVISOR"@, info.cpu.hypervisor.text(), nc, dc)
            &&& r[15 + d] == frame::row_line("CPU FREQ"@, render::freq_text(&info.cpu), nc, dc)
            &&& r[16 + d] == frame::bar_line("LOAD  1m"@, bars.load_1 as int, nc, dc)
            &&& r[17 + d] == frame::bar_line("LOAD  5m"@, bars.load_5 as int, nc, dc)
            &&& r[18 + d] == frame::bar_line("LOAD 15m"@, bars.load_15 as int, nc, dc)
            &&& r[19 + d] == frame::divider_line(DivStyle::Mid, nc, w)
            &&& r[20 + d] == frame::row_line("VOLUME"@, info.disk.label.text(), nc, dc)
            &&& r[21 + d] == frame::bar_line("DISK USAGE"@, bars.disk as int, nc, dc)
            &&& info.disk.zfs ==> r[22 + d] == frame::row_line(
                "ZFS HEALTH"@,
                info.disk.health.text(),
                nc,
                dc,
            )
            &&& r[e] == frame::divider_line(DivStyle::Mid, nc, w)
            &&& r[e + 1] == frame::row_line("MEMORY"@, render::mem_text(&info.mem), nc, dc)
            &&& r[e + 2] == frame::bar_line("USAGE"@, bars.mem as int, nc, dc)
            &&& r[e + 3] == frame::divider_line(DivStyle::Mid, nc, w)
            &&& r[e + 4] == frame::row_line("LAST LOGIN"@, info.login.time.text(), nc, dc)
            &&& info.login.has_ip ==> r[e + 5] == frame::row_line(
                seq![],
                info.login.ip.text(),
                nc,
                dc,
            )
            &&& r[u] == frame::row_line("UPTIME"@, info.login.uptime.text(), nc, dc)
            &&& forall|i: int|
                u < i < u + 1 + fill ==> #[trigger] r[i] == frame::row_line(seq![], seq![], nc, dc)
            &&& r[u + 1 + fill] == frame::divider_line(DivStyle::Bot, nc, w)
        }),
{
    let c = render::columns(l, w);
    let t = render::title_lines(c);
    let o = render::os_lines(&info.os, c);
    let n = render::net_lines(&info.net, c);
    let p = render::cpu_lines(&info.cpu, bars, c);
    let k = render::disk_lines(&info.disk, bars, c);
    let m = render::mem_lines(&info.mem, bars, c);
    let g = render::login_lines(&info.login, c);
    let r = render::report_lines(info, l, bars, w, start);
    let x = frame::empty_lines(render::fill_count(info, l, start), c.nc, c.dc);
    let b = seq![c.divider(DivStyle::Bot)];
    assert(t.len() == 3 && o.len() == 3 && n.len() == 5 + d && p.len() == 8 && m.len() == 3);
    assert(k.len() == e - 19 - d);
    assert(g.len() == u - e - 2);
    assert(r == t + o + n + p + k + m + g + x + b);
    lemma_parts(t, o, n, p, k, m, g, x, b);
    assert(r[0] == t[0] && r[1] == t[1] && r[2] == t[2]);
    assert(r[4] == o[1] && r[5] == o[2] && r[3] == o[0]);
    assert(r[6] == n[0] && r[7] == n[1] && r[8] == n[2] && r[9] == n[3]);
    assert forall|i: int| 0 <= i < d implies #[trigger] r[10 + i] == frame::row_line(
        render::dns_name(i),
        info.net.dns[i].text(),
        l.nc as int,
        l.dc as int,
    ) by {
        assert(r[10 + i] == n[4 + i]);
        assert(n[4 + i] == render::dns_lines(&info.net, c)[i]);
    }
    assert(r[10 + d] == n[4 + d]);
    assert(r[11 + d] == p[0] && r[12 + d] == p[1] && r[13 + d] == p[2] && r[14 + d] == p[3]);
    assert(r[15 + d] == p[4] && r[16 + d] == p[5] && r[17 + d] == p[6] && r[18 + d] == p[7]);
    assert(r[19 + d] == k[0] && r[20 + d] == k[1] && r[21 + d] == k[2]);
    if info.disk.zfs {
        assert(r[22 + d] == k[3]);
    }
    assert(r[e] == m[0] && r[e + 1] == m[1] && r[e + 2] == m[2]);
    assert(r[e + 3] == g[0] && r[e + 4] == g[1]);
    if info.login.has_ip {
        assert(r[e + 5] == g[2]);
    }
    assert(r[u] == g[g.len() - 1]);
    assert forall|i: int| u < i < u + 1 + x.len() implies #[trigger] r[i] == frame::row_line(
        seq![],
        seq![],
        l.nc as int,
        l.dc as int,
    ) by {
        assert(r[u + 1 + (i - u - 1)] == x[i - u - 1]);
    }
    assert(r[u + 1 + x.len()] == b[0]);
}

/// Where the parts of a report stand in it.
proof fn lemma_parts(
    t: Seq<Seq<char>>,
    o: Seq<Seq<char>>,
    n: Seq<Seq<char>>,
    p: Seq<Seq<char>>,
    k: Seq<Seq<char>>,
    m: Seq<Seq<char>>,
    g: Seq<Seq<char>>,
    x: Seq<Seq<char>>,
    b: Seq<Seq<char>>,
)
    ensures
        ({
            let r = t + o + n + p + k + m + g + x + b;
            let (a1, a2) = (t.len() as int, t.len() + o.len() as int);
            let a3 = a2 + n.len();
            let a4 = a3 + p.len();
            let a5 = a4 + k.len();
            let a6 = a5 + m.len();
            let a7 = a6 + g.len();
            let a8 = a7 + x.len();
            &&& forall|i: int| 0 <= i < t.len() ==> r[i] == #[trigger] t[i]
            &&& forall|i: int| 0 <= i < o.len() ==> r[a1 + i] == #[trigger] o[i]
            &&& forall|i: int| 0 <= i < n.len() ==> r[a2 + i] == #[trigger] n[i]
            &&& forall|i: int| 0 <= i < p.len() ==> r[a3 + i] == #[trigger] p[i]
            &&& forall|i: int| 0 <= i < k.len() ==> r[a4 + i] == #[trigger] k[i]
            &&& forall|i: int| 0 <= i < m.len() ==> r[a5 + i] == #[trigger] m[i]
            &&& forall|i: int| 0 <= i < g.len() ==> r[a6 + i] == #[trigger] g[i]
            &&& forall|i: int| 0 <= i < x.len() ==> r[a7 + i] == #[trigger] x[i]
            &&& forall|i: int| 0 <= i < b.len() ==> r[a8 + i] == #[trigger] b[i]
            &&& r.len() == a8 + b.len()
        }),
{
}


/// Calls draw the lines of the report: from the cursor on, from the first row on, or on a blank
/// frame that is made for the layout.
pub proof fn law_drawn(f: &mut Frame, info: &SysInfo, l: &Layout, bars: &BarFills, g: Frame)
    ensures
        call_ensures(render, (f, info, l, bars), ()) ==> final(f)@ == old(f)@.lines(
            render::report_lines(info, l, bars, old(f)@.w, old(f)@.row),
        ),
        call_ensures(redraw, (f, info, l, bars), ()) ==> final(f)@ == (frame::Screen {
            col: 0,
            row: 0,
            ..old(f)@
        }).lines(render::report_lines(info, l, bars, old(f)@.w, 0)),
        call_ensures(draw, (info, l, bars), g) ==> exists|s: frame::Screen|
            {
                &&& s.col == 0
                &&& s.row == 0
                &&& s.w == (if l.tw <= 120 {
                    l.tw as int
                } else {
                    120
                })
                &&& s.h == (if l.th <= 80 {
                    l.th as int
                } else {
                    80
                })
                &&& forall|r: int, c: int|
                    0 <= r < 80 && 0 <= c < 120 ==> (#[trigger] s.rows[r][c]).shows(' ')
                &&& g@ == #[trigger] s.lines(render::report_lines(info, l, bars, s.w, 0))
            },
{
    frame::lemma_cell_of(' ');
    let s = frame::blank_screen(l.tw as int, l.th as int);
    assert forall|r: int, c: int| 0 <= r < 80 && 0 <= c < 120 implies (
    #[trigger] s.rows[r][c]).shows(' ') by {
        assert(s.rows[r][c] == frame::cell_of(' '));
    }
}

/// A call lays out again for the terminal and makes a blank frame of that layout.
pub proof fn law_resize(f: &mut Frame, info: &SysInfo, tw: usize, th: usize, l: Layout, n: usize)
    requires
        call_ensures(resize, (f, info, tw, th), l),
        call_ensures(count_rows, (info,), n),
    ensures
        is_laid_out(info, tw as int, th as int, l, n as int),
        final(f)@.col == 0,
        final(f)@.row == 0,
        l.tw <= 120 ==> final(f)@.w == l.tw,
        l.tw > 120 ==> final(f)@.w == 120,
        l.th <= 80 ==> final(f)@.h == l.th,
        l.th > 80 ==> final(f)@.h == 80,
        forall|r: int, c: int|
            0 <= r < 80 && 0 <= c < 120 ==> (#[trigger] final(f)@.rows[r][c]).shows(' '),
{
    lemma_min_width(info);
    frame::lemma_cell_of(' ');
}

} // verus!
