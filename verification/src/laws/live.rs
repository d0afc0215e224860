//! Live mode.

use crate::buf;
use crate::laws::login as logins;
use crate::laws::scan as bytes;
use crate::laws::sys as sections;
use crate::live;
use crate::live::{
    collect_fast, collect_slow, parse_live_interval, Action, Event, FastReadings, Live, Signal,
};
use crate::scan;
use crate::sys;
use crate::sys::{DiskLabel, DiskUsage, SysInfo};
use vstd::prelude::*;
use vstd::utf8::*;

verus! {

/// One argument asks for live mode where it is `--live`, every 2 seconds, or `--live=` and a number,
/// every so many seconds, of which none and 0 count as 2. No other argument does.
pub proof fn law_argument(arg: Seq<u8>, t: Seq<u8>)
    ensures
        arg == encode_utf8("--live"@) ==> live::interval_in(arg) == Some(2nat),
        arg == encode_utf8("--live="@) + t && scan::u64_value(t) > 0 ==> live::interval_in(arg)
            == Some(scan::u64_value(t)),
        arg == encode_utf8("--live="@) + t && scan::u64_value(t) == 0 ==> live::interval_in(arg)
            == Some(2nat),
        live::interval_in(arg) is Some ==> arg == encode_utf8("--live"@) || exists|x: Seq<u8>|
            arg == #[trigger] (encode_utf8("--live="@) + x),
{
    let w = encode_utf8("--live="@);
    reveal_strlit("--live");
    reveal_strlit("--live=");
    is_ascii_chars_encode_utf8("--live"@);
    is_ascii_chars_encode_utf8("--live="@);
    bytes::law_begins(arg, w);
    if arg == w + t {
        assert(arg.skip(7) =~= t);
        assert(arg.take(7) =~= w);
        assert(arg.len() != encode_utf8("--live"@).len());
    }
}

/// A call gives the interval of the first argument that asks for live mode, or 0 where none does.
pub proof fn law_arguments(args: &Vec<Vec<u8>>, i: int, r: u64)
    requires
        call_ensures(parse_live_interval, (args,), r),
    ensures
        0 <= i < args@.len() && live::interval_in(args@[i]@) is Some && (forall|k: int|
            0 <= k < i ==> live::interval_in((#[trigger] args@[k])@) is None) ==> r
            == live::interval_in(args@[i]@)->0,
        (forall|k: int| 0 <= k < args@.len() ==> live::interval_in((#[trigger] args@[k])@) is None)
            <==> r == 0,
{
    let all = live::arg_views(args@);
    live::lemma_interval(all);
    if live::interval_of(all) > 0 {
        let j = choose|j: int|
            {
                &&& 0 <= j < all.len()
                &&& live::interval_in(#[trigger] all[j]) == Some(live::interval_of(all))
                &&& forall|k: int| 0 <= k < j ==> live::interval_in(#[trigger] all[k]) is None
            };
        assert(all[j] == args@[j]@);
        if 0 <= i < args@.len() && live::interval_in(args@[i]@) is Some && (forall|k: int|
            0 <= k < i ==> live::interval_in((#[trigger] args@[k])@) is None) {
            if i < j {
                assert(all[i] == args@[i]@);
            }
            assert(i == j);
        }
    } else {
        assert forall|k: int| 0 <= k < args@.len() implies live::interval_in(
            (#[trigger] args@[k])@,
        ) is None by {
            assert(all[k] == args@[k]@);
        }
    }
}

/// Live mode starts at no tick, and collects slow data as often as fits into 30 seconds, but at
/// least at each tick.
pub proof fn law_start(interval: u64, l: Live)
    requires
        interval > 0,
        call_ensures(Live::new, (interval,), l),
    ensures
        l.tick == 0,
        !l.clear,
        interval <= 30 ==> l.slow_every * interval <= 30 < (l.slow_every + 1) * interval,
        interval > 30 ==> l.slow_every == 1,
{
    live::lemma_slow_period(interval as int);
    let q = l.slow_every as int;
    let n = interval as int;
    assert((q + 1) * n == q * n + n) by (nonlinear_arith);
}

/// Only the timer ticks, and each tick asks for the fast data, and for the slow data at each tick
/// that counts up to a multiple. Only a new size of the terminal asks to lay out again, and for the
/// screen to be cleared in this round. Only an interrupt or a request to end asks to leave.
pub proof fn law_event(l: &mut Live, event: Event, a: Action)
    requires
        old(l).slow_every > 0,
        call_ensures(Live::on_event, (l, event), a),
    ensures
        final(l).slow_every == old(l).slow_every,
        event is Timer && old(l).tick < u64::MAX ==> final(l).tick == old(l).tick + 1,
        event is Timer && old(l).tick == u64::MAX ==> final(l).tick == 0,
        !(event is Timer) ==> final(l).tick == old(l).tick,
        a is Refresh <==> event is Timer,
        a is Resize <==> event == Event::Signal(Signal::Winch),
        a is Quit <==> event == Event::Signal(Signal::Int) || event == Event::Signal(Signal::Term),
        a == (Action::Refresh { slow: true }) <==> event is Timer && final(l).tick as int
            % old(l).slow_every as int == 0,
        final(l).clear <==> old(l).clear || event == Event::Signal(Signal::Winch),
{
}

/// A round begins with a screen that is not to be cleared, and changes nothing else.
pub proof fn law_round(l: &mut Live)
    requires
        call_ensures(Live::begin_round, (l,), ()),
    ensures
        !final(l).clear,
        final(l).tick == old(l).tick,
        final(l).slow_every == old(l).slow_every,
{
}

/// Before a report the cursor goes home, and the screen is cleared before that only after a resize.
pub proof fn law_prologue(l: &Live, s: &'static str)
    requires
        call_ensures(Live::prologue, (l,), s),
    ensures
        l.clear ==> s@ == "\x1b[2J\x1b[H"@,
        !l.clear ==> s@ == "\x1b[H"@,
{
}

/// Live mode goes to the other screen, hides the cursor and puts it home, and leaves by undoing the
/// two in reverse order: each mode that it sets it resets.
pub proof fn law_screens()
    ensures
        live::ANSI_ENTER@ == "\x1b[?1049h"@ + "\x1b[?25l"@ + "\x1b[H"@,
        live::ANSI_LEAVE@ == "\x1b[?25h"@ + "\x1b[?1049l"@,
{
    reveal_strlit("\x1b[?1049h\x1b[?25l\x1b[H");
    reveal_strlit("\x1b[?1049h");
    reveal_strlit("\x1b[?25l");
    reveal_strlit("\x1b[H");
    reveal_strlit("\x1b[?25h\x1b[?1049l");
    reveal_strlit("\x1b[?25h");
    reveal_strlit("\x1b[?1049l");
}

/// The fast data is what was read for it, in place of what was there, and all else stays.
pub proof fn law_fast(info: &mut SysInfo, from: &FastReadings, fields: Seq<Seq<u8>>)
    requires
        call_ensures(collect_fast, (info, from), ()),
        fields.len() > 0,
        from.loadavg@ == scan::join(fields, ' ' as u8),
        forall|i: int| 0 <= i < fields.len() ==> bytes::without(#[trigger] fields[i], ' ' as u8),
    ensures
        final(info).cpu.load_1@ == buf::clip(fields[0], 128),
        fields.len() > 1 ==> final(info).cpu.load_5@ == buf::clip(fields[1], 128),
        fields.len() > 2 ==> final(info).cpu.load_15@ == buf::clip(fields[2], 128),
        from.ghz matches Some(n) ==> sections::holds_figure(final(info).cpu.freq@, n as int, 16),
        from.ghz is None ==> final(info).cpu.freq@.len() == 0,
        final(info).mem.used_kb == from.mem.used_kb,
        final(info).mem.total_kb == from.mem.total_kb,
        final(info).mem.percent == from.mem_figures.percent,
        sections::holds_figure(final(info).mem.used_gb@, from.mem_figures.used_gb as int, 16),
        sections::holds_figure(final(info).mem.total_gb@, from.mem_figures.total_gb as int, 16),
        logins::writes_uptime(final(info).login.uptime@, from.uptime_secs as nat / 60),
        final(info).os == old(info).os,
        final(info).net == old(info).net,
        final(info).disk == old(info).disk,
        final(info).cpu.model == old(info).cpu.model,
        final(info).cpu.cores_per_socket == old(info).cpu.cores_per_socket,
        final(info).cpu.sockets == old(info).cpu.sockets,
        final(info).cpu.hypervisor == old(info).cpu.hypervisor,
        final(info).cpu.total_cores == old(info).cpu.total_cores,
        final(info).login.time == old(info).login.time,
        final(info).login.ip == old(info).login.ip,
        final(info).login.has_ip == old(info).login.has_ip,
{
    bytes::law_split(fields, ' ' as u8);
    sections::law_figure(final(info).mem.used_gb@, from.mem_figures.used_gb as nat);
    sections::law_figure(final(info).mem.total_gb@, from.mem_figures.total_gb as nat);
    if let Some(n) = from.ghz {
        sections::law_figure(final(info).cpu.freq@, n as nat);
    }
    logins::law_uptime(from.uptime_secs as nat);
    logins::law_uptime_fits(from.uptime_secs);
}

/// The slow data is what was read for it, in place of what was there, and all else stays.
pub proof fn law_slow(info: &mut SysInfo, usage: &DiskUsage, label: &DiskLabel)
    requires
        call_ensures(collect_slow, (info, usage, label), ()),
    ensures
        *usage matches DiskUsage::Zfs { used, avail, total, healthy } ==> {
            &&& final(info).disk.used == used
            &&& final(info).disk.total == total
            &&& final(info).disk.zfs
            &&& final(info).disk.label@ == buf::clip(sys::disk_label(*label), 64)
            &&& healthy == Some(true) ==> final(info).disk.health@ == encode_utf8("HEALTH O.K."@)
            &&& healthy == Some(false) ==> final(info).disk.health@ == encode_utf8("DEGRADED"@)
            &&& healthy is None ==> final(info).disk.health@.len() == 0
        },
        *usage matches DiskUsage::Fs { used_bytes, total_bytes, used_mb, total_mb } ==> {
            &&& final(info).disk.used == used_mb
            &&& final(info).disk.total == total_mb
            &&& !final(info).disk.zfs
            &&& final(info).disk.label@ == buf::clip(sys::disk_label(*label), 64)
            &&& final(info).disk.health@.len() == 0
        },
        *usage is Unknown ==> final(info).disk.is_blank(),
        final(info).os == old(info).os,
        final(info).net == old(info).net,
        final(info).cpu == old(info).cpu,
        final(info).mem == old(info).mem,
        final(info).login == old(info).login,
{
    let blank = choose|blank: sys::DiskData|
        blank.is_blank() && #[trigger] final(info).disk.collects(blank, *usage, *label);
    sections::law_disk(final(info).disk, blank, *usage, *label);
}

} // verus!
