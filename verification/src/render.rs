//! The layout of the report, and how it is drawn.
//!
//! The layout adapts to the terminal: the report fills the width of one that is narrower than
//! 119 columns, and the height of one that is shorter than 79 rows.

use crate::buf;
use crate::buf::Buf;
use crate::frame;
use crate::frame::{DivStyle, Frame};
use crate::scan;
use crate::scan::SLASH;
use crate::sys::{CpuData, DiskData, LoginData, MemData, NetData, OsData, SysInfo};
use crate::text;
use vstd::prelude::*;
use vstd::utf8::*;

verus! {

/// A terminal of this width, or a wider one, is not filled.
pub const MAX_TERM_W: usize = 119;

/// A terminal of this height, or a higher one, is not filled.
pub const MAX_TERM_H: usize = 79;

/// The width of a report that fills no terminal, where its texts need no more.
pub const DEFAULT_W: usize = 52;

/// The width of the name column.
pub const NAME_COL: usize = 13;

/// The width of the borders and the blanks around the two columns.
pub const BORDER_PAD: usize = 7;

/// The least width of the data column.
pub const MIN_DATA: usize = 20;

/// The first line of the report.
pub const TITLE: &'static str = "FOSL DISTUTILS";

/// The second line of the report.
pub const SUBTITLE: &'static str = "MACHINE REPORT";

/// The dimensions of the report: the name and the data column, the whole frame, and whether
/// empty rows fill it.
pub struct Layout {
    pub nc: usize,
    pub dc: usize,
    pub tw: usize,
    pub th: usize,
    pub fill: bool,
}

/// The number of rows of a report, without those that fill it.
pub open spec fn row_count(info: &SysInfo) -> nat {
    (29 + info.net.dns_count + (if info.disk.zfs {
        1int
    } else {
        0
    }) + (if info.login.has_ip {
        1int
    } else {
        0
    })) as nat
}

/// The number of rows of a report, without those that fill it.
pub fn count_rows(info: &SysInfo) -> (n: usize)
    requires
        info.net.wf(),
    ensures
        n == row_count(info),
{
    let zfs: usize = if info.disk.zfs { 1 } else { 0 };
    let ip: usize = if info.login.has_ip { 1 } else { 0 };
    1 + 2 + 1 + 2 + 1 + 4 + info.net.dns_count + 1 + 7 + 1 + 2 + zfs + 1 + 2 + 1 + 1 + ip + 1 + 1
}

/// The widths of the texts that the data column makes room for.
pub open spec fn data_widths(info: &SysInfo) -> Seq<int> {
    seq![
        scan::bytes(TITLE).len() as int,
        scan::bytes(SUBTITLE).len() as int,
        info.os.name.text().len() as int,
        info.os.kernel.text().len() as int,
        info.net.hostname.text().len() as int,
        info.net.machine_ip.text().len() as int,
        info.net.client_ip.text().len() as int,
        info.net.user.text().len() as int,
        info.cpu.model.text().len() as int,
        info.cpu.hypervisor.text().len() as int,
        info.disk.label.text().len() as int,
        info.login.time.text().len() as int,
        info.login.uptime.text().len() as int,
    ]
}

/// The largest of some numbers, and at least `least`.
pub open spec fn largest(s: Seq<int>, least: int) -> int
    decreases s.len(),
{
    if s.len() == 0 {
        least
    } else {
        let rest = largest(s.drop_last(), least);
        if s.last() > rest {
            s.last()
        } else {
            rest
        }
    }
}

/// The least width of a report that shows these texts in full.
pub open spec fn min_width(info: &SysInfo) -> int {
    NAME_COL + largest(data_widths(info), MIN_DATA as int) + BORDER_PAD
}

/// The width of a report on a terminal of `tw` columns, or on none where that is 0.
pub open spec fn report_width(info: &SysInfo, tw: int) -> int {
    let least = min_width(info);
    if 0 < tw < MAX_TERM_W {
        if tw < least {
            least
        } else {
            tw
        }
    } else if least < DEFAULT_W {
        DEFAULT_W as int
    } else {
        least
    }
}

/// The height of a report on a terminal of `th` rows, or on none where that is 0.
pub open spec fn report_height(info: &SysInfo, th: int) -> int {
    if 0 < th < MAX_TERM_H && th > row_count(info) {
        th
    } else {
        row_count(info) as int
    }
}

impl Layout {
    /// This is the layout of a report on a terminal of `tw` columns and `th` rows.
    pub open spec fn is_for(&self, info: &SysInfo, tw: int, th: int) -> bool {
        &&& self.nc == NAME_COL
        &&& self.tw == report_width(info, tw)
        &&& self.nc + self.dc + BORDER_PAD == self.tw
        &&& self.th == report_height(info, th)
        &&& self.fill == (self.th > row_count(info))
    }
}

/// The layout of a report on a terminal of `tw` columns and `th` rows.
pub fn compute_layout(info: &SysInfo, tw: usize, th: usize) -> (l: Layout)
    requires
        info.net.wf(),
    ensures
        l.is_for(info, tw as int, th as int),
        columns(&l, l.tw as int).wf(),
        l.th >= 1,
{
    proof {
        reveal_strlit("FOSL DISTUTILS");
        reveal_strlit("MACHINE REPORT");
        is_ascii_chars_encode_utf8("FOSL DISTUTILS"@);
        is_ascii_chars_encode_utf8("MACHINE REPORT"@);
    }
    let widths: [usize; 13] = [
        TITLE.len(),
        SUBTITLE.len(),
        info.os.name.char_count(),
        info.os.kernel.char_count(),
        info.net.hostname.char_count(),
        info.net.machine_ip.char_count(),
        info.net.client_ip.char_count(),
        info.net.user.char_count(),
        info.cpu.model.char_count(),
        info.cpu.hypervisor.char_count(),
        info.disk.label.char_count(),
        info.login.time.char_count(),
        info.login.uptime.char_count(),
    ];
    let ghost all = data_widths(info);
    let mut min_data: usize = MIN_DATA;
    let mut i: usize = 0;
    assert(all.take(0) =~= seq![]);
    while i < 13
        invariant
            i <= 13,
            all == data_widths(info),
            forall|k: int| 0 <= k < 13 ==> widths[k] == #[trigger] all[k] && widths[k] <= 128,
            min_data == largest(all.take(i as int), MIN_DATA as int),
            MIN_DATA <= min_data <= 128,
        decreases 13 - i,
    {
        assert(all.take(i + 1).drop_last() =~= all.take(i as int));
        assert(widths[i as int] == all[i as int]);
        if widths[i] > min_data {
            min_data = widths[i];
        }
        i = i + 1;
    }
    assert(all.take(13) =~= all);
    let min_total: usize = NAME_COL + min_data + BORDER_PAD;
    let total_w: usize = if tw > 0 && tw < MAX_TERM_W {
        if tw > min_total {
            tw
        } else {
            min_total
        }
    } else if min_total > DEFAULT_W {
        min_total
    } else {
        DEFAULT_W
    };
    let rows: usize = count_rows(info);
    let filled: bool = th > 0 && th < MAX_TERM_H && th > rows;
    Layout {
        nc: NAME_COL,
        dc: total_w - (NAME_COL + BORDER_PAD),
        tw: total_w,
        th: if filled { th } else { rows },
        fill: filled,
    }
}

/// How many columns of each bar of the report are full.
#[derive(Clone, Copy)]
pub struct BarFills {
    pub load_1: usize,
    pub load_5: usize,
    pub load_15: usize,
    pub disk: usize,
    pub mem: usize,
}

/// What the lines of a report are laid out by: the two columns, and the width of the frame.
pub struct Columns {
    pub nc: int,
    pub dc: int,
    pub w: int,
}

impl Columns {
    /// A divider.
    pub open spec fn divider(self, style: DivStyle) -> Seq<char> {
        frame::divider_line(style, self.nc, self.w)
    }

    /// A name and its data.
    pub open spec fn row(self, name: Seq<char>, data: Seq<char>) -> Seq<char> {
        frame::row_line(name, data, self.nc, self.dc)
    }

    /// A name and a bar.
    pub open spec fn bar(self, name: Seq<char>, filled: usize) -> Seq<char> {
        frame::bar_line(name, filled as int, self.nc, self.dc)
    }

    /// The columns can be counted, and the frame has room for its edges.
    pub open spec fn wf(self) -> bool {
        &&& 0 <= self.nc <= usize::MAX - 2
        &&& 0 <= self.dc <= usize::MAX
        &&& 2 <= self.w
    }
}

/// The top of the report.
pub open spec fn title_lines(c: Columns) -> Seq<Seq<char>> {
    seq![
        frame::header_line(c.w),
        frame::centered_line(TITLE@, c.w),
        frame::centered_line(SUBTITLE@, c.w),
    ]
}

/// The section of the operating system.
pub open spec fn os_lines(os: &OsData, c: Columns) -> Seq<Seq<char>> {
    seq![
        c.divider(DivStyle::Top),
        c.row("OS"@, os.name.text()),
        c.row("KERNEL"@, os.kernel.text()),
    ]
}

/// The name of a name server, by its place.
pub open spec fn dns_name(i: int) -> Seq<char> {
    text::decoded(buf::clip(scan::bytes("DNS  IP ") + buf::decimal((i + 1) as nat), 16))
}

/// The lines of the name servers.
pub open spec fn dns_lines(net: &NetData, c: Columns) -> Seq<Seq<char>> {
    Seq::new(net.dns_count as nat, |i: int| c.row(dns_name(i), net.dns[i].text()))
}

/// The section of the network.
pub open spec fn net_lines(net: &NetData, c: Columns) -> Seq<Seq<char>> {
    seq![
        c.divider(DivStyle::Mid),
        c.row("HOSTNAME"@, net.hostname.text()),
        c.row("MACHINE IP"@, net.machine_ip.text()),
        c.row("CLIENT  IP"@, net.client_ip.text()),
    ] + dns_lines(net, c) + seq![c.row("USER"@, net.user.text())]
}

/// The text of the cores and the sockets.
pub open spec fn cores_text(cpu: &CpuData) -> Seq<char> {
    text::decoded(
        buf::clip(
            cpu.cores_per_socket@ + scan::bytes(" vCPU(s) / ") + cpu.sockets@ + scan::bytes(
                " Socket(s)",
            ),
            64,
        ),
    )
}

/// The text of the frequency.
pub open spec fn freq_text(cpu: &CpuData) -> Seq<char> {
    text::decoded(buf::clip(cpu.freq@ + scan::bytes(" GHz"), 32))
}

/// The section of the processor.
pub open spec fn cpu_lines(cpu: &CpuData, bars: &BarFills, c: Columns) -> Seq<Seq<char>> {
    seq![
        c.divider(DivStyle::Mid),
        c.row("PROCESSOR"@, cpu.model.text()),
        c.row("CORES"@, cores_text(cpu)),
        c.row("HYPERVISOR"@, cpu.hypervisor.text()),
        c.row("CPU FREQ"@, freq_text(cpu)),
        c.bar("LOAD  1m"@, bars.load_1),
        c.bar("LOAD  5m"@, bars.load_5),
        c.bar("LOAD 15m"@, bars.load_15),
    ]
}

/// The section of the disk.
pub open spec fn disk_lines(disk: &DiskData, bars: &BarFills, c: Columns) -> Seq<Seq<char>> {
    seq![
        c.divider(DivStyle::Mid),
        c.row("VOLUME"@, disk.label.text()),
        c.bar("DISK USAGE"@, bars.disk),
    ] + (if disk.zfs {
        seq![c.row("ZFS HEALTH"@, disk.health.text())]
    } else {
        seq![]
    })
}

/// The text of the memory.
pub open spec fn mem_text(mem: &MemData) -> Seq<char> {
    text::decoded(
        buf::clip(
            mem.used_gb@ + seq![SLASH] + mem.total_gb@ + scan::bytes(" GiB [") + buf::decimal_2dp(
                mem.percent as nat,
            ) + scan::bytes("%]"),
            64,
        ),
    )
}

/// The section of the memory.
pub open spec fn mem_lines(mem: &MemData, bars: &BarFills, c: Columns) -> Seq<Seq<char>> {
    seq![
        c.divider(DivStyle::Mid),
        c.row("MEMORY"@, mem_text(mem)),
        c.bar("USAGE"@, bars.mem),
    ]
}

/// The section of the latest login.
pub open spec fn login_lines(login: &LoginData, c: Columns) -> Seq<Seq<char>> {
    seq![c.divider(DivStyle::Mid), c.row("LAST LOGIN"@, login.time.text())] + (if login.has_ip {
        seq![c.row(seq![], login.ip.text())]
    } else {
        seq![]
    }) + seq![c.row("UPTIME"@, login.uptime.text())]
}

/// The report without the rows that fill it and the bottom edge.
pub open spec fn section_lines(info: &SysInfo, bars: &BarFills, c: Columns) -> Seq<Seq<char>> {
    title_lines(c) + os_lines(&info.os, c) + net_lines(&info.net, c) + cpu_lines(
        &info.cpu,
        bars,
        c,
    ) + disk_lines(&info.disk, bars, c) + mem_lines(&info.mem, bars, c) + login_lines(
        &info.login,
        c,
    )
}

/// How many rows fill a report that begins on the row `start`, so that its last row is the last
/// of the layout.
pub open spec fn fill_count(info: &SysInfo, layout: &Layout, start: int) -> int {
    let at = start + row_count(info) - 1;
    if layout.fill && at < layout.th - 1 {
        layout.th - 1 - at
    } else {
        0
    }
}

/// The columns of a layout in a frame of `w` columns.
pub open spec fn columns(layout: &Layout, w: int) -> Columns {
    Columns { nc: layout.nc as int, dc: layout.dc as int, w }
}

/// The report that begins on the row `start` of a frame of `w` columns.
pub open spec fn report_lines(
    info: &SysInfo,
    layout: &Layout,
    bars: &BarFills,
    w: int,
    start: int,
) -> Seq<Seq<char>> {
    let c = columns(layout, w);
    section_lines(info, bars, c) + frame::empty_lines(
        fill_count(info, layout, start),
        c.nc,
        c.dc,
    ) + seq![
        c.divider(DivStyle::Bot),
    ]
}

/// `count_rows` counts the rows that are drawn, with the bottom edge.
pub proof fn lemma_row_count(info: &SysInfo, bars: &BarFills, c: Columns)
    ensures
        section_lines(info, bars, c).len() + 1 == row_count(info),
{
}

/// The frame can take the lines of a report.
pub open spec fn can_draw(f: &Frame, layout: &Layout, rows: int) -> bool {
    &&& f.wf()
    &&& columns(layout, f@.w).wf()
    &&& f@.row + rows <= usize::MAX
}

fn render_title(f: &mut Frame, layout: &Layout)
    requires
        can_draw(old(f), layout, 3),
    ensures
        final(f).wf(),
        final(f)@ == old(f)@.lines(title_lines(columns(layout, old(f)@.w))),
{
    proof {
        let l = title_lines(columns(layout, f@.w));
        frame::lemma_few_lines(f@, l[0], l[1], l[2], seq![]);
    }
    f.put_header();
    f.put_centered(TITLE);
    f.put_centered(SUBTITLE);
}

fn render_os(f: &mut Frame, os: &OsData, layout: &Layout)
    requires
        can_draw(old(f), layout, 3),
    ensures
        final(f).wf(),
        final(f)@ == old(f)@.lines(os_lines(os, columns(layout, old(f)@.w))),
{
    let nc: usize = layout.nc;
    let dc: usize = layout.dc;
    proof {
        let l = os_lines(os, columns(layout, f@.w));
        frame::lemma_few_lines(f@, l[0], l[1], l[2], seq![]);
    }
    f.put_divider(DivStyle::Top, nc);
    f.put_row_buf("OS", &os.name, nc, dc);
    f.put_row_buf("KERNEL", &os.kernel, nc, dc);
}

fn render_net(f: &mut Frame, net: &NetData, layout: &Layout)
    requires
        net.wf(),
        can_draw(old(f), layout, 5 + net.dns_count),
    ensures
        final(f).wf(),
        final(f)@ == old(f)@.lines(net_lines(net, columns(layout, old(f)@.w))),
{
    let nc: usize = layout.nc;
    let dc: usize = layout.dc;
    let ghost c = columns(layout, f@.w);
    let ghost start = f@;
    let ghost head = seq![
        c.divider(DivStyle::Mid),
        c.row("HOSTNAME"@, net.hostname.text()),
        c.row("MACHINE IP"@, net.machine_ip.text()),
        c.row("CLIENT  IP"@, net.client_ip.text()),
    ];
    let ghost all = dns_lines(net, c);
    proof {
        frame::lemma_few_lines(start, head[0], head[1], head[2], head[3]);
    }
    f.put_divider(DivStyle::Mid, nc);
    f.put_row_buf("HOSTNAME", &net.hostname, nc, dc);
    f.put_row_buf("MACHINE IP", &net.machine_ip, nc, dc);
    f.put_row_buf("CLIENT  IP", &net.client_ip, nc, dc);
    let mut i: usize = 0;
    assert(head + all.take(0) =~= head);
    while i < net.dns_count
        invariant
            i <= net.dns_count,
            net.wf(),
            f.wf(),
            start.wf(),
            start.row + 5 + net.dns_count <= usize::MAX,
            c == columns(layout, start.w),
            c.wf(),
            nc == layout.nc,
            dc == layout.dc,
            all == dns_lines(net, c),
            head.len() == 4,
            f@ == start.lines(head + all.take(i as int)),
        decreases net.dns_count - i,
    {
        let mut label: Buf<16> = Buf::new();
        label.push_str("DNS  IP ");
        label.push_u64((i + 1) as u64);
        proof {
            buf::lemma_clip_append(scan::bytes("DNS  IP "), buf::decimal((i + 1) as nat), 16);
            assert(Seq::<u8>::empty() + scan::bytes("DNS  IP ") =~= scan::bytes("DNS  IP "));
            assert(label.text() == dns_name(i as int));
            frame::lemma_lines_shape(start, head + all.take(i as int));
            let x = head + all.take(i + 1);
            assert(x.drop_last() =~= head + all.take(i as int));
            assert(x.last() == all[i as int]);
        }
        f.put_row(label.as_str(), net.dns[i].as_str(), nc, dc);
        i = i + 1;
    }
    proof {
        assert(all.take(i as int) =~= all);
        frame::lemma_lines_shape(start, head + all);
        frame::lemma_few_lines(f@, c.row("USER"@, net.user.text()), seq![], seq![], seq![]);
        frame::lemma_lines_lines(start, head + all, seq![c.row("USER"@, net.user.text())]);
    }
    f.put_row_buf("USER", &net.user, nc, dc);
}

fn render_cpu(f: &mut Frame, cpu: &CpuData, bars: &BarFills, layout: &Layout)
    requires
        can_draw(old(f), layout, 8),
    ensures
        final(f).wf(),
        final(f)@ == old(f)@.lines(cpu_lines(cpu, bars, columns(layout, old(f)@.w))),
{
    broadcast use buf::lemma_clip_append;

    let nc: usize = layout.nc;
    let dc: usize = layout.dc;
    let ghost start = f@;
    let ghost l = cpu_lines(cpu, bars, columns(layout, f@.w));
    let mut cores: Buf<64> = Buf::new();
    cores.push_bytes(cpu.cores_per_socket.as_bytes());
    cores.push_str(" vCPU(s) / ");
    cores.push_bytes(cpu.sockets.as_bytes());
    cores.push_str(" Socket(s)");
    let mut freq: Buf<32> = Buf::new();
    freq.push_bytes(cpu.freq.as_bytes());
    freq.push_str(" GHz");
    proof {
        let none = Seq::<u8>::empty();
        assert(none + cpu.cores_per_socket@ =~= cpu.cores_per_socket@);
        assert(none + cpu.freq@ =~= cpu.freq@);
        frame::lemma_few_lines(start, l[0], l[1], l[2], l[3]);
        frame::lemma_few_lines(start.lines(l.take(4)), l[4], l[5], l[6], l[7]);
        frame::lemma_lines_lines(start, l.take(4), l.skip(4));
        assert(l.take(4) =~= seq![l[0], l[1], l[2], l[3]]);
        assert(l.skip(4) =~= seq![l[4], l[5], l[6], l[7]]);
        assert(l.take(4) + l.skip(4) =~= l);
    }
    f.put_divider(DivStyle::Mid, nc);
    f.put_row_buf("PROCESSOR", &cpu.model, nc, dc);
    f.put_row("CORES", cores.as_str(), nc, dc);
    f.put_row_buf("HYPERVISOR", &cpu.hypervisor, nc, dc);
    f.put_row("CPU FREQ", freq.as_str(), nc, dc);
    f.put_bar_row("LOAD  1m", bars.load_1, nc, dc);
    f.put_bar_row("LOAD  5m", bars.load_5, nc, dc);
    f.put_bar_row("LOAD 15m", bars.load_15, nc, dc);
}

fn render_disk(f: &mut Frame, disk: &DiskData, bars: &BarFills, layout: &Layout)
    requires
        can_draw(old(f), layout, 4),
    ensures
        final(f).wf(),
        final(f)@ == old(f)@.lines(disk_lines(disk, bars, columns(layout, old(f)@.w))),
{
    let nc: usize = layout.nc;
    let dc: usize = layout.dc;
    proof {
        let l = disk_lines(disk, bars, columns(layout, f@.w));
        frame::lemma_few_lines(f@, l[0], l[1], l[2], l[3]);
        assert(!disk.zfs ==> l =~= seq![l[0], l[1], l[2]]);
        assert(disk.zfs ==> l =~= seq![l[0], l[1], l[2], l[3]]);
    }
    f.put_divider(DivStyle::Mid, nc);
    f.put_row_buf("VOLUME", &disk.label, nc, dc);
    f.put_bar_row("DISK USAGE", bars.disk, nc, dc);
    if disk.zfs {
        f.put_row_buf("ZFS HEALTH", &disk.health, nc, dc);
    }
}

fn render_mem(f: &mut Frame, mem: &MemData, bars: &BarFills, layout: &Layout)
    requires
        can_draw(old(f), layout, 3),
    ensures
        final(f).wf(),
        final(f)@ == old(f)@.lines(mem_lines(mem, bars, columns(layout, old(f)@.w))),
{
    broadcast use buf::lemma_clip_append;

    let nc: usize = layout.nc;
    let dc: usize = layout.dc;
    let mut usage: Buf<64> = Buf::new();
    usage.push_bytes(mem.used_gb.as_bytes());
    usage.push_byte(SLASH);
    usage.push_bytes(mem.total_gb.as_bytes());
    usage.push_str(" GiB [");
    usage.push_2dp(mem.percent);
    usage.push_str("%]");
    proof {
        assert(Seq::<u8>::empty() + mem.used_gb@ =~= mem.used_gb@);
        let l = mem_lines(mem, bars, columns(layout, f@.w));
        frame::lemma_few_lines(f@, l[0], l[1], l[2], seq![]);
    }
    f.put_divider(DivStyle::Mid, nc);
    f.put_row("MEMORY", usage.as_str(), nc, dc);
    f.put_bar_row("USAGE", bars.mem, nc, dc);
}

fn render_login(f: &mut Frame, login: &LoginData, layout: &Layout)
    requires
        can_draw(old(f), layout, 4),
    ensures
        final(f).wf(),
        final(f)@ == old(f)@.lines(login_lines(login, columns(layout, old(f)@.w))),
{
    let nc: usize = layout.nc;
    let dc: usize = layout.dc;
    proof {
        reveal_strlit("");
        assert(""@ =~= seq![]);
        let l = login_lines(login, columns(layout, f@.w));
        frame::lemma_few_lines(f@, l[0], l[1], l[2], l[3]);
        assert(!login.has_ip ==> l =~= seq![l[0], l[1], l[2]]);
        assert(login.has_ip ==> l =~= seq![l[0], l[1], l[2], l[3]]);
    }
    f.put_divider(DivStyle::Mid, nc);
    f.put_row_buf("LAST LOGIN", &login.time, nc, dc);
    if login.has_ip {
        f.put_row_buf("", &login.ip, nc, dc);
    }
    f.put_row_buf("UPTIME", &login.uptime, nc, dc);
}

/// Draws the report from the cursor of the frame on.
pub fn render(f: &mut Frame, info: &SysInfo, layout: &Layout, bars: &BarFills)
    requires
        info.net.wf(),
        can_draw(old(f), layout, row_count(info) as int),
        layout.fill ==> layout.th >= 1,
    ensures
        final(f).wf(),
        final(f)@ == old(f)@.lines(
            report_lines(info, layout, bars, old(f)@.w, old(f)@.row),
        ),
{
    let ghost start = f@;
    let ghost c = columns(layout, start.w);
    let ghost l1 = title_lines(c);
    let ghost l2 = l1 + os_lines(&info.os, c);
    let ghost l3 = l2 + net_lines(&info.net, c);
    let ghost l4 = l3 + cpu_lines(&info.cpu, bars, c);
    let ghost l5 = l4 + disk_lines(&info.disk, bars, c);
    let ghost l6 = l5 + mem_lines(&info.mem, bars, c);
    let ghost l7 = l6 + login_lines(&info.login, c);
    proof {
        frame::lemma_lines_lines(start, l1, os_lines(&info.os, c));
        frame::lemma_lines_lines(start, l2, net_lines(&info.net, c));
        frame::lemma_lines_lines(start, l3, cpu_lines(&info.cpu, bars, c));
        frame::lemma_lines_lines(start, l4, disk_lines(&info.disk, bars, c));
        frame::lemma_lines_lines(start, l5, mem_lines(&info.mem, bars, c));
        frame::lemma_lines_lines(start, l6, login_lines(&info.login, c));
        frame::lemma_lines_shape(start, l1);
        frame::lemma_lines_shape(start, l2);
        frame::lemma_lines_shape(start, l3);
        frame::lemma_lines_shape(start, l4);
        frame::lemma_lines_shape(start, l5);
        frame::lemma_lines_shape(start, l6);
        frame::lemma_lines_shape(start, l7);
    }
    render_title(f, layout);
    render_os(f, &info.os, layout);
    render_net(f, &info.net, layout);
    render_cpu(f, &info.cpu, bars, layout);
    render_disk(f, &info.disk, bars, layout);
    render_mem(f, &info.mem, bars, layout);
    render_login(f, &info.login, layout);
    let ghost fill = frame::empty_lines(fill_count(info, layout, start.row), c.nc, c.dc);
    let ghost at = f@.row;
    if layout.fill {
        f.put_empty_rows(layout.th - 1, layout.nc, layout.dc);
        assert(frame::empty_lines(layout.th - 1 - at, c.nc, c.dc) =~= fill);
    } else {
        assert(fill =~= seq![]);
    }
    proof {
        let last = c.divider(DivStyle::Bot);
        frame::lemma_lines_lines(start, l7, fill);
        frame::lemma_lines_shape(start, l7 + fill);
        frame::lemma_few_lines(start.lines(l7 + fill), last, seq![], seq![], seq![]);
        frame::lemma_lines_lines(start, l7 + fill, seq![last]);
    }
    f.put_divider(DivStyle::Bot, layout.nc);
}

/// The report on a frame that is made for its layout.
pub fn draw(info: &SysInfo, layout: &Layout, bars: &BarFills) -> (f: Frame)
    requires
        info.net.wf(),
        columns(layout, layout.tw as int).wf(),
        layout.fill ==> layout.th >= 1,
    ensures
        f.wf(),
        f@ == drawn(info, layout, bars),
        columns(layout, f@.w).wf(),
{
    let mut f = Frame::new(layout.tw, layout.th);
    proof {
        frame::lemma_lines_shape(f@, report_lines(info, layout, bars, f@.w, 0));
    }
    render(&mut f, info, layout, bars);
    f
}

/// What a frame that is made for a layout shows of a report.
pub open spec fn drawn(info: &SysInfo, layout: &Layout, bars: &BarFills) -> frame::Screen {
    let s = frame::blank_screen(layout.tw as int, layout.th as int);
    s.lines(report_lines(info, layout, bars, s.w, 0))
}

/// None of some numbers is larger than the largest.
proof fn lemma_largest(s: Seq<int>, least: int)
    ensures
        largest(s, least) >= least,
        forall|i: int| 0 <= i < s.len() ==> #[trigger] s[i] <= largest(s, least),
    decreases s.len(),
{
    if s.len() > 0 {
        let init = s.drop_last();
        lemma_largest(init, least);
        assert forall|i: int| 0 <= i < s.len() implies #[trigger] s[i] <= largest(s, least) by {
            if i < init.len() {
                assert(init[i] <= largest(init, least));
            }
        }
    }
}

/// The report fills the width of a terminal that is narrower than 119 columns and the height of
/// one that is shorter than 79 rows, where it has room for itself there. It is never smaller
/// than what it shows: the data column has room for all of the texts that it is laid out for.
pub proof fn lemma_layout(l: &Layout, info: &SysInfo, tw: int, th: int)
    requires
        l.is_for(info, tw, th),
    ensures
        min_width(info) <= tw < MAX_TERM_W ==> l.tw == tw,
        row_count(info) <= th < MAX_TERM_H ==> l.th == th,
        l.tw >= min_width(info),
        l.th >= row_count(info),
        l.dc >= MIN_DATA,
        forall|i: int| 0 <= i < 13 ==> #[trigger] data_widths(info)[i] <= l.dc,
{
    lemma_largest(data_widths(info), MIN_DATA as int);
}

/// Each line is as wide as the frame or as its two columns with their borders.
pub open spec fn full_width(lines: Seq<Seq<char>>, c: Columns) -> bool {
    forall|i: int|
        0 <= i < lines.len() ==> (#[trigger] lines[i]).len() == c.w || lines[i].len() == c.nc + c.dc
            + BORDER_PAD
}

/// Each line of a report is as wide as the frame or as its two columns with their borders, and
/// so all are of one width where these are the same.
pub proof fn lemma_report_width(
    info: &SysInfo,
    layout: &Layout,
    bars: &BarFills,
    w: int,
    start: int,
)
    requires
        columns(layout, w).wf(),
    ensures
        full_width(report_lines(info, layout, bars, w, start), columns(layout, w)),
{
    let c = columns(layout, w);
    assert forall|name: Seq<char>, data: Seq<char>| (#[trigger] c.row(name, data)).len() == c.nc
        + c.dc + BORDER_PAD by {
        frame::lemma_row_len(name, data, 0, c.nc, c.dc);
    }
    assert forall|name: Seq<char>, n: usize| (#[trigger] c.bar(name, n)).len() == c.nc + c.dc
        + BORDER_PAD by {
        frame::lemma_row_len(name, seq![], n as int, c.nc, c.dc);
    }
    assert forall|style: DivStyle| (#[trigger] c.divider(style)).len() == c.w by {
        frame::lemma_edge_len(seq![], style, c.nc, c.w);
    }
    frame::lemma_edge_len(TITLE@, DivStyle::Top, c.nc, c.w);
    frame::lemma_edge_len(SUBTITLE@, DivStyle::Top, c.nc, c.w);
    assert(full_width(title_lines(c), c));
    assert(full_width(os_lines(&info.os, c), c));
    assert(full_width(net_lines(&info.net, c), c)) by {
        assert(full_width(dns_lines(&info.net, c), c));
    }
    assert(full_width(cpu_lines(&info.cpu, bars, c), c));
    assert(full_width(disk_lines(&info.disk, bars, c), c));
    assert(full_width(mem_lines(&info.mem, bars, c), c));
    assert(full_width(login_lines(&info.login, c), c));
    let fill = frame::empty_lines(fill_count(info, layout, start), c.nc, c.dc);
    assert forall|i: int| 0 <= i < fill.len() implies (#[trigger] fill[i]).len() == c.nc + c.dc
        + BORDER_PAD by {
        assert(fill[i] == c.row(seq![], seq![]));
    }
    assert(full_width(fill, c));
}

/// A report that begins on the first row is as high as its layout, which fits a frame.
pub proof fn lemma_report_height(
    info: &SysInfo,
    l: &Layout,
    bars: &BarFills,
    tw: int,
    th: int,
    w: int,
)
    requires
        info.net.wf(),
        l.is_for(info, tw, th),
    ensures
        report_lines(info, l, bars, w, 0).len() == l.th,
        l.th <= frame::FRAME_H,
{
    lemma_row_count(info, bars, columns(l, w));
}

/// The lines of a report, cut off at the right edge of a frame of `w` columns.
pub open spec fn shown_lines(lines: Seq<Seq<char>>, w: int) -> Seq<Seq<char>> {
    Seq::new(lines.len(), |i: int| lines[i].take(w))
}

/// A report that is drawn from the first row on, on a frame that was made for its layout, takes
/// all of the frame: each row shows its line, whatever was there before, and the cursor stands
/// behind the last row. What is serialized of it is the text of these lines in UTF-8.
pub proof fn lemma_report_shown(
    s: frame::Screen,
    info: &SysInfo,
    l: &Layout,
    bars: &BarFills,
    tw: int,
    th: int,
)
    requires
        s.wf(),
        info.net.wf(),
        l.is_for(info, tw, th),
        s.w == (if l.tw <= frame::FRAME_W { l.tw } else { frame::FRAME_W }),
        s.h == l.th,
        s.col == 0,
        s.row == 0,
    ensures
        ({
            let lines = report_lines(info, l, bars, s.w, 0);
            let shown = shown_lines(lines, s.w);
            let t = s.lines(lines);
            &&& t.row == s.h
            &&& shown.len() == s.h
            &&& forall|r: int| 0 <= r < s.h ==> #[trigger] t.shown()[r] == frame::cells_of(shown[r])
            &&& frame::screen_bytes(t.shown()) == encode_utf8(frame::joined(shown))
        }),
{
    let lines = report_lines(info, l, bars, s.w, 0);
    let shown = shown_lines(lines, s.w);
    let t = s.lines(lines);
    lemma_layout(l, info, tw, th);
    lemma_report_width(info, l, bars, s.w, 0);
    lemma_report_height(info, l, bars, tw, th, s.w);
    frame::lemma_lines_shape(s, lines);
    frame::lemma_lines_rows(s, lines);
    assert forall|r: int| 0 <= r < s.h implies #[trigger] t.shown()[r] == frame::cells_of(
        shown[r],
    ) by {
        assert(lines[r].len() >= s.w);
        assert(t.rows[r].take(s.w) =~= frame::cells_of(lines[r].take(s.w)));
    }
    frame::lemma_screen_bytes_text(t.shown(), shown);
}

/// A report that is drawn over an earlier one, on a frame that was made for its layout, shows
/// what it shows on a blank frame: the text of its lines. The cells outside of what is shown stay
/// as they were.
pub proof fn lemma_redrawn(
    s: frame::Screen,
    info: &SysInfo,
    l: &Layout,
    bars: &BarFills,
    tw: int,
    th: int,
)
    requires
        s.wf(),
        info.net.wf(),
        l.is_for(info, tw, th),
        s.w == drawn(info, l, bars).w,
        s.h == drawn(info, l, bars).h,
        s.col == 0,
        s.row == 0,
    ensures
        ({
            let lines = report_lines(info, l, bars, s.w, 0);
            let t = s.lines(lines);
            let d = drawn(info, l, bars);
            &&& t.shown() == d.shown()
            &&& t.col == d.col
            &&& t.row == d.row
            &&& frame::screen_bytes(d.shown()) == encode_utf8(
                frame::joined(shown_lines(lines, s.w)),
            )
            &&& forall|r: int, c: int|
                0 <= r < frame::FRAME_H && 0 <= c < frame::FRAME_W && !(r < s.h && c < s.w)
                    ==> #[trigger] t.rows[r][c] == s.rows[r][c]
        }),
{
    let blank = frame::blank_screen(l.tw as int, l.th as int);
    let lines = report_lines(info, l, bars, blank.w, 0);
    assert(blank.wf());
    frame::lemma_lines_shape(blank, lines);
    frame::lemma_lines_shape(s, lines);
    lemma_report_height(info, l, bars, tw, th, blank.w);
    lemma_report_shown(blank, info, l, bars, tw, th);
    lemma_report_shown(s, info, l, bars, tw, th);
    lemma_layout(l, info, tw, th);
    lemma_report_width(info, l, bars, s.w, 0);
    frame::lemma_lines_rows(s, lines);
    let t = s.lines(lines);
    assert(t.shown() =~= blank.lines(lines).shown()) by {
        let shown = shown_lines(lines, s.w);
        assert forall|r: int| 0 <= r < s.h implies #[trigger] t.shown()[r] == blank.lines(
            lines,
        ).shown()[r] by {
            assert(t.shown()[r] == frame::cells_of(shown[r]));
        }
    }
    assert forall|r: int, c: int|
        0 <= r < frame::FRAME_H && 0 <= c < frame::FRAME_W && !(r < s.h && c < s.w) implies
        #[trigger] t.rows[r][c] == s.rows[r][c] by {
        assert(s.rows[r].len() == frame::FRAME_W);
    }
}

} // verus!
