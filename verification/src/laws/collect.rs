//! A whole report, as it is collected at the start.

use crate::buf;
use crate::collect::{collect, complete_login, Readings};
use crate::laws::login as logins;
use crate::laws::scan as bytes;
use crate::laws::sys as sections;
use crate::login;
use crate::login::{Lookup, SessionScan, Tm};
use crate::scan;
use crate::sys;
use crate::sys::{DiskUsage, SysInfo};
use vstd::prelude::*;
use vstd::utf8::*;

verus! {

/// The name of the user whose logins are looked for.
pub open spec fn is_user(env: Option<&[u8]>, user: Seq<u8>) -> bool {
    match env {
        Some(u) => user == (if u@.len() <= 63 {
            u@
        } else {
            u@.take(63)
        }),
        None => user == encode_utf8("unknown"@),
    }
}

/// A call on a blank report collects each section from its own readings.
pub proof fn law_collect(info: &mut SysInfo, from: &Readings, found: Lookup, lines: Seq<Seq<u8>>)
    requires
        call_ensures(collect, (info, from), found),
        old(info).is_blank(),
        lines.len() > 0,
        from.resolv@ == scan::join(lines, '\n' as u8),
        forall|i: int| 0 <= i < lines.len() ==> bytes::without(#[trigger] lines[i], '\n' as u8),
    ensures
        ({
            let id = sections::setting(from.os_release@, "ID"@, encode_utf8("linux"@));
            let version = sections::setting(from.os_release@, "VERSION"@, seq![]);
            let code = sections::setting(from.os_release@, "VERSION_CODENAME"@, seq![]);
            final(info).os.name@ == buf::clip(
                sys::capitalized(id) + seq![' ' as u8] + version + seq![' ' as u8]
                    + sys::capitalized(code),
                128,
            )
        }),
        from.uname matches Some((name, release)) ==> final(info).os.kernel@ == buf::clip(
            name@ + seq![' ' as u8] + release@,
            128,
        ),
        from.hostname matches Some(raw) && sys::cstr(raw@).len() > 0 ==> final(info).net.hostname@
            == buf::clip(sys::cstr(from.hostname->0@), 128),
        from.hostname is None || sys::cstr(from.hostname->0@).len() == 0 ==> final(info).net.hostname@ == encode_utf8("Not Defined"@),
        from.machine_ip matches Some(x) ==> final(info).net.machine_ip@ == sys::dotted(x@),
        from.machine_ip is None ==> final(info).net.machine_ip@ == encode_utf8("No IP found"@),
        sys::servers_on(lines).len() <= 8 ==> final(info).net.dns_count == sys::servers_on(
            lines,
        ).len(),
        sys::servers_on(lines).len() > 8 ==> final(info).net.dns_count == 8,
        forall|i: int|
            0 <= i < final(info).net.dns_count ==> (#[trigger] final(info).net.dns[i])@
                == buf::clip(sys::servers_on(lines)[i], 64),
        from.env_user matches Some(u) ==> final(info).net.user@ == buf::clip(u@, 64),
        from.env_user is None ==> final(info).net.user@ == encode_utf8("unknown"@),
        final(info).mem.used_kb == from.mem.used_kb,
        final(info).mem.total_kb == from.mem.total_kb,
        final(info).mem.percent == from.mem_figures.percent,
        sections::holds_figure(final(info).mem.used_gb@, from.mem_figures.used_gb as int, 16),
        sections::holds_figure(final(info).mem.total_gb@, from.mem_figures.total_gb as int, 16),
        from.disk matches DiskUsage::Zfs { used, avail, total, healthy } ==> final(info).disk.used
            == used && final(info).disk.total == total && final(info).disk.zfs,
        from.disk matches DiskUsage::Fs { used_bytes, total_bytes, used_mb, total_mb } ==> final(info).disk.used == used_mb && final(info).disk.total == total_mb && !final(info).disk.zfs,
        !(from.disk is Unknown) ==> final(info).disk.label@ == buf::clip(
            sys::disk_label(from.disk_label),
            64,
        ),
        final(info).cpu.collects(old(info).cpu, from.cpu, from.ghz),
        logins::writes_uptime(final(info).login.uptime@, from.uptime_secs as nat / 60),
{
    let user = login::user_of(from.env_user);
    reveal_strlit("unknown");
    is_ascii_chars_encode_utf8("unknown"@);
    sections::law_os(final(info).os, old(info).os, from.os_release@, from.uname);
    sections::law_servers(lines);
    assert forall|i: int| 0 <= i < 8 implies (#[trigger] old(info).net.dns[i])@.len() == 0 by {
        assert(old(info).net.dns[i]@ == Seq::<u8>::empty());
    }
    sections::law_net(
        final(info).net,
        old(info).net,
        from.hostname,
        from.machine_ip,
        from.resolv@,
        from.env_user,
        user,
    );
    if let Some(x) = from.machine_ip {
        sections::law_dotted(x@);
    }
    sections::law_mem(final(info).mem, old(info).mem, from.mem, from.mem_figures);
    sections::law_disk(final(info).disk, old(info).disk, from.disk, from.disk_label);
    logins::law_uptime(from.uptime_secs as nat);
    logins::law_uptime_fits(from.uptime_secs);
    let t = login::uptime_text(from.uptime_secs as nat);
    assert(old(info).login.uptime@ + t =~= t);
}

/// A call on a blank report and the records of the user on the terminal `/dev/` and `line`: where a
/// record `i` is the first login of the user there and `j` is the latest, the host of the one is the
/// client and the host of the other the address of the login, whose time is that of the readings.
pub proof fn law_collect_login(
    info: &mut SysInfo,
    from: &Readings,
    found: Lookup,
    user: Seq<u8>,
    line: Seq<u8>,
    i: int,
    j: int,
    client: Seq<u8>,
    host: Seq<u8>,
    t: int,
)
    requires
        call_ensures(collect, (info, from), found),
        old(info).is_blank(),
        is_user(from.env_user, user),
        from.tty is Some,
        from.tty->0@ == encode_utf8("/dev/"@) + line,
        0 < line.len() <= 31,
        0 <= i,
        384 * i + 384 <= from.utmp@.len(),
        logins::is_login(logins::rec_at(from.utmp@, i), user),
        logins::holds(logins::rec_at(from.utmp@, i).subrange(8, 40), line),
        logins::holds(logins::rec_at(from.utmp@, i).subrange(76, 332), client),
        forall|k: int|
            0 <= k < i ==> !(logins::is_login(#[trigger] logins::rec_at(from.utmp@, k), user)
                && logins::holds(logins::rec_at(from.utmp@, k).subrange(8, 40), line)),
        0 <= j,
        384 * j + 384 <= from.utmp@.len(),
        logins::is_login(logins::rec_at(from.utmp@, j), user),
        logins::holds(logins::rec_at(from.utmp@, j).subrange(76, 332), host),
        logins::is_at(logins::rec_at(from.utmp@, j), t),
        t > 0,
        forall|k: int, u: int|
            0 <= k && 384 * k + 384 <= from.utmp@.len() && logins::is_login(
                logins::rec_at(from.utmp@, k),
                user,
            ) && #[trigger] logins::is_at(logins::rec_at(from.utmp@, k), u) ==> u <= t && (k < j
                ==> u < t),
    ensures
        final(info).net.client_ip@ == buf::clip(client, 64),
        final(info).login.ip@ == buf::clip(host, 64),
        final(info).login.has_ip <==> host.len() > 0,
        final(info).login.time@ == buf::clip(login::timestamp(from.login_time), 64),
        found.on_terminal,
        found.more <==> client.len() == 0,
{
    reveal_strlit("/dev/");
    is_ascii_chars_encode_utf8("/dev/"@);
    let p = from.tty->0@;
    let dev = encode_utf8("/dev/"@);
    assert(p.take(5) =~= dev);
    assert(p.skip(5) =~= line);
    assert(login::tty_of(p) == line);
    let field = login::tty_field(from.tty);
    assert(field.take(line.len() as int) =~= line);
    bytes::law_cstr(line, field.skip(line.len() as int + 1));
    assert(field =~= line + seq![0u8] + field.skip(line.len() as int + 1));
    logins::law_login(
        login::login_of(old(info).login, old(info).net.client_ip),
        from.utmp@,
        user,
        line,
        from.login_time,
        i,
        j,
        client,
        host,
        t,
    );
    let t0 = login::timestamp(from.login_time);
    assert(t0.len() > 0);
    assert(old(info).login.time@ + t0 =~= t0);
    assert(old(info).net.client_ip@ + client =~= client);
    assert(old(info).login.ip@ + host =~= host);
}

/// A call completes what is known of the login from a session, and changes nothing else: what was
/// known stays, the session gives the rest, and what is unknown even then is said to be.
pub proof fn law_complete(info: &mut SysInfo, session: &SessionScan, tm: &Tm, on_terminal: bool)
    requires
        call_ensures(complete_login, (info, session, tm, on_terminal), ()),
    ensures
        ({
            let s = session@;
            let from = if s.host.len() > 0 {
                s.host
            } else {
                s.display
            };
            let fills = s.usec > 0 && old(info).net.client_ip@.len() == 0 && from.len() > 0;
            &&& old(info).login.time@.len() > 0 ==> final(info).login.time@ == old(info).login.time@
            &&& old(info).login.time@.len() == 0 && s.usec > 0 ==> final(info).login.time@
                == buf::clip(login::timestamp(*tm), 64)
            &&& old(info).login.time@.len() == 0 && s.usec == 0 ==> final(info).login.time@
                == encode_utf8("Unknown"@)
            &&& old(info).net.client_ip@.len() > 0 ==> final(info).net.client_ip@
                == old(info).net.client_ip@
            &&& fills ==> final(info).net.client_ip@ == from && final(info).login.has_ip
            &&& fills && (on_terminal || !old(info).login.has_ip) ==> final(info).login.ip@ == from
            &&& fills && !on_terminal && old(info).login.has_ip ==> final(info).login.ip@
                == old(info).login.ip@
            &&& !fills ==> final(info).login.ip@ == old(info).login.ip@ && final(info).login.has_ip == old(info).login.has_ip
            &&& !fills && old(info).net.client_ip@.len() == 0 ==> final(info).net.client_ip@
                == encode_utf8("Not connected"@)
        }),
        final(info).login.uptime == old(info).login.uptime,
        final(info).os == old(info).os,
        final(info).cpu == old(info).cpu,
        final(info).disk == old(info).disk,
        final(info).mem == old(info).mem,
        final(info).net.dns_count == old(info).net.dns_count,
        final(info).net.dns == old(info).net.dns,
        final(info).net.hostname == old(info).net.hostname,
        final(info).net.machine_ip == old(info).net.machine_ip,
        final(info).net.user == old(info).net.user,
{
    let l = login::login_of(old(info).login, old(info).net.client_ip);
    logins::law_session_fills(l, session@, *tm, on_terminal);
    logins::law_defaults(l.with_session(session@, *tm, on_terminal));
    assert(login::timestamp(*tm).len() > 0);
}

} // verus!
