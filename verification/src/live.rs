//! Live mode: when it is asked for, what each event asks for, and what is collected again.
//!
//! Fast data is collected at every tick of the timer: load averages, memory, frequency of the
//! processor and uptime. Slow data, the use of the disk, is collected every 30 seconds or so.
//! All else is collected once, at the start.

use crate::buf;
use crate::buf::Buf;
use crate::frame;
use crate::frame::Frame;
use crate::login;
use crate::login::push_uptime;
use crate::render;
use crate::render::{compute_layout, render, BarFills, Layout};
use crate::scan;
use crate::scan::{parse_u64_b, same, starts_with};
use crate::sys::{
    collect_disk, collect_loads, collect_mem, DiskData, DiskLabel, DiskUsage, MemFigures, MemUsage,
    SysInfo,
};
use vstd::prelude::*;
use vstd::slice::slice_subrange;
use vstd::utf8::*;

verus! {

/// Enters the alternate screen, hides the cursor and moves it home.
pub const ANSI_ENTER: &'static str = "\x1b[?1049h\x1b[?25l\x1b[H";

/// Shows the cursor and leaves the alternate screen.
pub const ANSI_LEAVE: &'static str = "\x1b[?25h\x1b[?1049l";

/// Clears the screen and moves the cursor home.
pub const ANSI_CLEAR: &'static str = "\x1b[2J\x1b[H";

/// Moves the cursor home.
pub const ANSI_HOME: &'static str = "\x1b[H";

/// The seconds between two refreshes, where no number is given.
pub const DEFAULT_INTERVAL: u64 = 2;

/// The seconds between two collections of slow data.
pub const SLOW_SECONDS: u64 = 30;

/// The interval that one argument asks for, where it asks for live mode.
pub open spec fn interval_in(arg: Seq<u8>) -> Option<nat> {
    let n = scan::u64_value(arg.skip(7));
    if arg == scan::bytes("--live") {
        Some(DEFAULT_INTERVAL as nat)
    } else if scan::begins(arg, scan::bytes("--live=")) {
        if n == 0 {
            Some(DEFAULT_INTERVAL as nat)
        } else {
            Some(n)
        }
    } else {
        None
    }
}

/// The interval that the first argument for live mode asks for, or 0 where there is none.
pub open spec fn interval_of(args: Seq<Seq<u8>>) -> nat
    decreases args.len(),
{
    if args.len() == 0 {
        0
    } else {
        match interval_in(args[0]) {
            Some(n) => n,
            None => interval_of(args.drop_first()),
        }
    }
}

/// The arguments as byte strings.
pub open spec fn arg_views(args: Seq<Vec<u8>>) -> Seq<Seq<u8>> {
    Seq::new(args.len(), |i: int| args[i]@)
}

/// The interval that one argument asks for.
fn find_interval(arg: &[u8]) -> (r: Option<u64>)
    ensures
        match r {
            Some(n) => interval_in(arg@) == Some(n as nat),
            None => interval_in(arg@) is None,
        },
{
    if same(arg, "--live".as_bytes()) {
        return Some(DEFAULT_INTERVAL);
    }
    if !starts_with(arg, "--live=".as_bytes()) {
        return None;
    }
    proof {
        reveal_strlit("--live=");
        is_ascii_chars_encode_utf8("--live="@);
    }
    let rest = slice_subrange(arg, 7, arg.len());
    assert(rest@ =~= arg@.skip(7));
    let n: u64 = parse_u64_b(rest);
    if n == 0 {
        Some(DEFAULT_INTERVAL)
    } else {
        Some(n)
    }
}

/// The refresh interval in seconds that `--live` or `--live=N` among the arguments asks for, or
/// 0 where live mode is not asked for.
pub fn parse_live_interval(args: &Vec<Vec<u8>>) -> (r: u64)
    ensures
        r == interval_of(arg_views(args@)),
{
    let ghost all = arg_views(args@);
    let mut i: usize = 0;
    assert(all.skip(0) =~= all);
    while i < args.len()
        invariant
            i <= args.len(),
            all == arg_views(args@),
            interval_of(all) == interval_of(all.skip(i as int)),
        decreases args.len() - i,
    {
        assert(all.skip(i as int)[0] == args@[i as int]@);
        if let Some(n) = find_interval(args[i].as_slice()) {
            return n;
        }
        assert(all.skip(i as int).drop_first() =~= all.skip(i + 1));
        i = i + 1;
    }
    0
}

/// A buffer of `n` bytes that holds a number of hundredths, where there is one.
pub open spec fn figure(hundredths: Option<u64>, n: nat) -> Seq<u8> {
    match hundredths {
        Some(x) => buf::clip(buf::decimal_2dp(x as nat), n),
        None => seq![],
    }
}

/// What is read for the fast data. The frequency is in hundredths of a gigahertz.
pub struct FastReadings<'a> {
    pub loadavg: &'a [u8],
    pub ghz: Option<u64>,
    pub mem: MemUsage,
    pub mem_figures: MemFigures,
    pub uptime_secs: u64,
}

/// Collects the fast data again, in place of what was there.
pub fn collect_fast(info: &mut SysInfo, from: &FastReadings)
    ensures
        final(info).cpu.loads_read(from.loadavg@),
        final(info).cpu.freq@ == figure(from.ghz, 16),
        final(info).mem.total_kb == from.mem.total_kb,
        final(info).mem.used_kb == from.mem.used_kb,
        final(info).mem.percent == from.mem_figures.percent,
        final(info).mem.used_gb@ == figure(Some(from.mem_figures.used_gb), 16),
        final(info).mem.total_gb@ == figure(Some(from.mem_figures.total_gb), 16),
        final(info).login.uptime@ == buf::clip(login::uptime_text(from.uptime_secs as nat), 32),
        final(info).os == old(info).os,
        final(info).net == old(info).net,
        final(info).disk == old(info).disk,
        final(info).cpu.model == old(info).cpu.model,
        final(info).cpu.cores_per_socket == old(info).cpu.cores_per_socket,
        final(info).cpu.sockets == old(info).cpu.sockets,
        final(info).cpu.hypervisor == old(info).cpu.hypervisor,
        final(info).cpu.total_cores == old(info).cpu.total_cores,
        final(info).login.time == old(info).login.time,
        final(info).login.ip == old(info).login.ip,
        final(info).login.has_ip == old(info).login.has_ip,
{
    collect_loads(&mut info.cpu, from.loadavg);
    info.cpu.freq = Buf::new();
    if let Some(n) = from.ghz {
        info.cpu.freq.push_2dp(n);
    }
    info.mem.used_gb = Buf::new();
    info.mem.total_gb = Buf::new();
    collect_mem(&mut info.mem, &from.mem, &from.mem_figures);
    info.login.uptime = Buf::new();
    push_uptime(&mut info.login.uptime, from.uptime_secs);
    proof {
        let none = Seq::<u8>::empty();
        assert(from.ghz matches Some(n) ==> none + buf::decimal_2dp(n as nat) =~= buf::decimal_2dp(
            n as nat,
        ));
        let used = buf::decimal_2dp(from.mem_figures.used_gb as nat);
        let total = buf::decimal_2dp(from.mem_figures.total_gb as nat);
        let uptime = login::uptime_text(from.uptime_secs as nat);
        assert(none + used =~= used);
        assert(none + total =~= total);
        assert(none + uptime =~= uptime);
    }
}

/// Collects the slow data again, in place of what was there.
pub fn collect_slow(info: &mut SysInfo, usage: &DiskUsage, label: &DiskLabel)
    ensures
        exists|blank: DiskData|
            blank.is_blank() && #[trigger] final(info).disk.collects(blank, *usage, *label),
        final(info).os == old(info).os,
        final(info).net == old(info).net,
        final(info).cpu == old(info).cpu,
        final(info).mem == old(info).mem,
        final(info).login == old(info).login,
{
    info.disk = DiskData::new();
    let ghost blank = info.disk;
    collect_disk(&mut info.disk, usage, label);
    assert(blank.is_blank() && info.disk.collects(blank, *usage, *label));
}

/// A signal, as far as live mode tells signals apart.
#[derive(Clone, Copy, PartialEq, Eq, Structural)]
pub enum Signal {
    Winch,
    Int,
    Term,
    Other,
}

/// What wakes live mode up.
#[derive(Clone, Copy, PartialEq, Eq, Structural)]
pub enum Event {
    Timer,
    Signal(Signal),
    Other,
}

/// What an event asks for.
#[derive(Clone, Copy, PartialEq, Eq, Structural)]
pub enum Action {
    /// Collect the fast data again, and the slow data too where `slow` is set.
    Refresh { slow: bool },
    /// Lay the report out again for the size that the terminal now has.
    Resize,
    /// Restore the terminal and leave.
    Quit,
    /// Nothing.
    Ignore,
}

/// How often slow data is collected, in ticks of `interval` seconds.
pub open spec fn slow_every(interval: int) -> int {
    if SLOW_SECONDS as int / interval > 1 {
        SLOW_SECONDS as int / interval
    } else {
        1
    }
}

/// The state of live mode: the ticks so far, every how many of them slow data is collected, and
/// whether the screen has to be cleared before the next report.
pub struct Live {
    pub tick: u64,
    pub slow_every: u64,
    pub clear: bool,
}

impl Live {
    /// Slow data is collected now and then.
    pub open spec fn wf(&self) -> bool {
        self.slow_every > 0
    }

    /// The start of live mode with a refresh every `interval` seconds.
    pub fn new(interval: u64) -> (l: Live)
        requires
            interval > 0,
        ensures
            l.wf(),
            l.tick == 0,
            l.slow_every == slow_every(interval as int),
            !l.clear,
    {
        let n: u64 = SLOW_SECONDS / interval;
        Live { tick: 0, slow_every: if n > 1 { n } else { 1 }, clear: false }
    }

    /// Begins a round of events.
    pub fn begin_round(&mut self)
        ensures
            *final(self) == (Live { clear: false, ..*old(self) }),
    {
        self.clear = false;
    }

    /// What an event asks for. The count of ticks wraps at 2 to the 64.
    pub fn on_event(&mut self, event: Event) -> (action: Action)
        requires
            old(self).wf(),
        ensures
            final(self).wf(),
            final(self).slow_every == old(self).slow_every,
            final(self).tick == (if event is Timer {
                (old(self).tick + 1) % 0x1_0000_0000_0000_0000
            } else {
                old(self).tick as int
            }),
            final(self).clear == (old(self).clear || event == Event::Signal(Signal::Winch)),
            action == (match event {
                Event::Timer => Action::Refresh {
                    slow: final(self).tick as int % final(self).slow_every as int == 0,
                },
                Event::Signal(Signal::Winch) => Action::Resize,
                Event::Signal(Signal::Int) => Action::Quit,
                Event::Signal(Signal::Term) => Action::Quit,
                _ => Action::Ignore,
            }),
    {
        match event {
            Event::Timer => {
                self.tick = self.tick.wrapping_add(1);
                Action::Refresh { slow: self.tick % self.slow_every == 0 }
            },
            Event::Signal(Signal::Winch) => {
                self.clear = true;
                Action::Resize
            },
            Event::Signal(Signal::Int) => Action::Quit,
            Event::Signal(Signal::Term) => Action::Quit,
            Event::Signal(Signal::Other) => Action::Ignore,
            Event::Other => Action::Ignore,
        }
    }

    /// What is written before the next report.
    pub fn prologue(&self) -> (s: &'static str)
        ensures
            s@ == (if self.clear {
                ANSI_CLEAR@
            } else {
                ANSI_HOME@
            }),
    {
        if self.clear {
            ANSI_CLEAR
        } else {
            ANSI_HOME
        }
    }
}

/// Lays the report out again for a terminal of `tw` columns and `th` rows, and makes a blank
/// frame for it.
pub fn resize(f: &mut Frame, info: &SysInfo, tw: usize, th: usize) -> (layout: Layout)
    requires
        info.net.wf(),
    ensures
        layout.is_for(info, tw as int, th as int),
        final(f).wf(),
        final(f)@ == frame::blank_screen(layout.tw as int, layout.th as int),
        render::columns(&layout, final(f)@.w).wf(),
        layout.th >= 1,
{
    let layout = compute_layout(info, tw, th);
    *f = Frame::new(layout.tw, layout.th);
    layout
}

/// Draws the report over what the frame holds.
pub fn redraw(f: &mut Frame, info: &SysInfo, layout: &Layout, bars: &BarFills)
    requires
        old(f).wf(),
        render::columns(layout, old(f)@.w).wf(),
        info.net.wf(),
        layout.fill ==> layout.th >= 1,
    ensures
        final(f).wf(),
        final(f)@ == (frame::Screen { col: 0, row: 0, ..old(f)@ }).lines(
            render::report_lines(info, layout, bars, old(f)@.w, 0),
        ),
        final(f)@.w == old(f)@.w,
        final(f)@.h == old(f)@.h,
{
    f.home();
    proof {
        frame::lemma_lines_shape(f@, render::report_lines(info, layout, bars, f@.w, 0));
    }
    render(f, info, layout, bars);
}

/// Live mode is asked for exactly where one of the arguments asks for it, and the first that
/// does sets the interval.
pub proof fn lemma_interval(args: Seq<Seq<u8>>)
    ensures
        interval_of(args) == 0 ==> forall|k: int|
            0 <= k < args.len() ==> interval_in(#[trigger] args[k]) is None,
        interval_of(args) > 0 ==> exists|i: int|
            {
                &&& 0 <= i < args.len()
                &&& interval_in(#[trigger] args[i]) == Some(interval_of(args))
                &&& forall|k: int| 0 <= k < i ==> interval_in(#[trigger] args[k]) is None
            },
    decreases args.len(),
{
    if args.len() > 0 && interval_in(args[0]) is None {
        let rest = args.drop_first();
        lemma_interval(rest);
        if interval_of(rest) > 0 {
            let i = choose|i: int|
                {
                    &&& 0 <= i < rest.len()
                    &&& interval_in(#[trigger] rest[i]) == Some(interval_of(rest))
                    &&& forall|k: int| 0 <= k < i ==> interval_in(#[trigger] rest[k]) is None
                };
            assert(args[i + 1] == rest[i]);
            assert forall|k: int| 0 <= k < i + 1 implies interval_in(#[trigger] args[k]) is None by {
                if k > 0 {
                    assert(rest[k - 1] == args[k]);
                }
            }
        } else {
            assert forall|k: int| 0 <= k < args.len() implies interval_in(
                #[trigger] args[k],
            ) is None by {
                if k > 0 {
                    assert(rest[k - 1] == args[k]);
                }
            }
        }
    }
}

/// Between two collections of slow data at most 30 seconds pass, and more than 30 seconds less
/// one interval. With an interval above 30 seconds slow data is collected at every tick.
pub proof fn lemma_slow_period(interval: int)
    requires
        interval > 0,
    ensures
        interval <= SLOW_SECONDS ==> SLOW_SECONDS - interval < slow_every(interval) * interval
            <= SLOW_SECONDS,
        interval > SLOW_SECONDS ==> slow_every(interval) == 1,
{
    let n = SLOW_SECONDS as int;
    vstd::arithmetic::div_mod::lemma_fundamental_div_mod(n, interval);
    vstd::arithmetic::div_mod::lemma_mod_bound(n, interval);
    let q = n / interval;
    assert(interval * q == q * interval) by (nonlinear_arith);
    if interval <= n {
        assert(q >= 1) by (nonlinear_arith)
            requires
                interval > 0,
                interval <= n,
                n == interval * q + n % interval,
                n % interval < interval,
        ;
    } else {
        assert(q <= 1) by (nonlinear_arith)
            requires
                0 < n < interval,
                n == interval * q + n % interval,
                n % interval >= 0,
        ;
    }
}

/// Of as many ticks in a row as slow data is skipped for, exactly one collects it.
pub proof fn lemma_slow_once(tick: int, n: int) -> (k: int)
    requires
        tick >= 0,
        n > 0,
    ensures
        tick < k <= tick + n,
        k % n == 0,
        forall|j: int| tick < j <= tick + n && #[trigger] (j % n) == 0 ==> j == k,
{
    let q = tick / n + 1;
    let k = q * n;
    vstd::arithmetic::div_mod::lemma_fundamental_div_mod(tick, n);
    vstd::arithmetic::div_mod::lemma_mod_bound(tick, n);
    vstd::arithmetic::div_mod::lemma_mod_multiples_basic(q, n);
    assert(q * n == n * (tick / n) + n) by (nonlinear_arith)
        requires
            q == tick / n + 1,
    ;
    assert forall|j: int| tick < j <= tick + n && #[trigger] (j % n) == 0 implies j == k by {
        vstd::arithmetic::div_mod::lemma_fundamental_div_mod(j, n);
        let p = j / n;
        assert(p == q) by (nonlinear_arith)
            requires
                n > 0,
                n * p == j,
                q * n == k,
                k - n < j < k + n,
        ;
        assert(n * p == p * n) by (nonlinear_arith);
    }
    k
}

} // verus!
