//! All of a report, collected at the start.

use crate::buf;
use crate::login;
use crate::login::{
    collect_login, current_tty, current_user, finish_login, push_uptime, Lookup, SessionScan, Tm,
};
use crate::sys;
use crate::sys::{
    collect_cpu, collect_disk, collect_mem, collect_net, collect_os, CpuSources, DiskLabel, DiskUsage,
    MemFigures, MemUsage, SysInfo,
};
use vstd::prelude::*;

verus! {

/// What is read of a machine. The host name is as `gethostname` writes it, the user is the one
/// that the environment names, the frequency is in hundredths of a gigahertz, and the login time
/// is the local time of the latest login in the login records.
pub struct Readings<'a> {
    pub os_release: &'a [u8],
    pub uname: Option<(&'a [u8], &'a [u8])>,
    pub hostname: Option<&'a [u8]>,
    pub machine_ip: Option<[u8; 4]>,
    pub resolv: &'a [u8],
    pub env_user: Option<&'a [u8]>,
    pub cpu: CpuSources<'a>,
    pub ghz: Option<u64>,
    pub disk: DiskUsage,
    pub disk_label: DiskLabel,
    pub mem: MemUsage,
    pub mem_figures: MemFigures,
    pub utmp: &'a [u8],
    pub tty: Option<&'a [u8]>,
    pub login_time: Tm,
    pub uptime_secs: u64,
}

/// Collects all data of a report but for what session files tell. Returns what is left to these.
pub fn collect(info: &mut SysInfo, from: &Readings) -> (found: Lookup)
    ensures
        final(info).os.collects(old(info).os, from.os_release@, from.uname),
        final(info).net.collects(
            old(info).net,
            from.hostname,
            from.machine_ip,
            from.resolv@,
            from.env_user,
            login::user_of(from.env_user),
        ),
        old(info).net.wf() ==> final(info).net.wf(),
        final(info).cpu.collects(old(info).cpu, from.cpu, from.ghz),
        final(info).disk.collects(old(info).disk, from.disk, from.disk_label),
        final(info).mem.collects(old(info).mem, from.mem, from.mem_figures),
        login::login_of(final(info).login, final(info).net.client_ip) == login::login_of(
            old(info).login,
            old(info).net.client_ip,
        ).with_records(
            from.utmp@,
            login::user_of(from.env_user),
            sys::cstr(login::tty_field(from.tty)),
            from.login_time,
        ),
        final(info).login.uptime@ == buf::clip(
            old(info).login.uptime@ + login::uptime_text(from.uptime_secs as nat),
            32,
        ),
        found.more == login::login_of(final(info).login, final(info).net.client_ip).incomplete(),
        found.on_terminal == (login::login_on(
            login::records(from.utmp@),
            login::user_of(from.env_user),
            sys::cstr(login::tty_field(from.tty)),
        ) is Some),
{
    let user = current_user(from.env_user);
    let tty: [u8; 32] = current_tty(from.tty);
    collect_os(&mut info.os, from.os_release, from.uname);
    collect_net(
        &mut info.net,
        from.hostname,
        from.machine_ip,
        from.resolv,
        from.env_user,
        user.as_bytes(),
    );
    collect_cpu(&mut info.cpu, &from.cpu, from.ghz);
    collect_disk(&mut info.disk, &from.disk, &from.disk_label);
    collect_mem(&mut info.mem, &from.mem, &from.mem_figures);
    let found: Lookup = collect_login(
        &mut info.login,
        &mut info.net.client_ip,
        from.utmp,
        &tty,
        user.as_bytes(),
        &from.login_time,
    );
    push_uptime(&mut info.login.uptime, from.uptime_secs);
    found
}

/// Fills in what is still unknown of the login from the latest session, of whose beginning `tm`
/// is the local time, and says of what is unknown even then that it is. The records may hold a
/// login on the terminal or not.
pub fn complete_login(info: &mut SysInfo, session: &SessionScan, tm: &Tm, on_terminal: bool)
    ensures
        login::login_of(final(info).login, final(info).net.client_ip) == login::login_of(
            old(info).login,
            old(info).net.client_ip,
        ).with_session(session@, *tm, on_terminal).with_defaults(),
        final(info).login.uptime == old(info).login.uptime,
        final(info).os == old(info).os,
        final(info).net.hostname == old(info).net.hostname,
        final(info).net.machine_ip == old(info).net.machine_ip,
        final(info).net.dns == old(info).net.dns,
        final(info).net.dns_count == old(info).net.dns_count,
        final(info).net.user == old(info).net.user,
        final(info).cpu == old(info).cpu,
        final(info).disk == old(info).disk,
        final(info).mem == old(info).mem,
{
    session.finish(&mut info.login, &mut info.net.client_ip, tm, on_terminal);
    finish_login(&mut info.login, &mut info.net.client_ip);
}

} // verus!
