//! Who is logged in, from where and since when: login records, session files and uptime.

use crate::buf;
use crate::buf::Buf;
use crate::scan;
use crate::scan::{cstr_len, find_val, same, starts_with, COLON, EQUALS, SPACE, ZERO};
use crate::sys;
use crate::sys::{find_number, push_default, LoginData};
use vstd::prelude::*;
use vstd::slice::slice_subrange;
use vstd::utf8::*;

verus! {

/// A broken-down local time, with the fields and the conventions of the C library: the month
/// counts from 0 and the year from 1900.
#[derive(Clone, Copy)]
pub struct Tm {
    pub mon: i32,
    pub mday: i32,
    pub year: i32,
    pub hour: i32,
    pub min: i32,
}

/// The short name of a month.
pub open spec fn month_name(i: int) -> Seq<char> {
    if i == 0 {
        "Jan"@
    } else if i == 1 {
        "Feb"@
    } else if i == 2 {
        "Mar"@
    } else if i == 3 {
        "Apr"@
    } else if i == 4 {
        "May"@
    } else if i == 5 {
        "Jun"@
    } else if i == 6 {
        "Jul"@
    } else if i == 7 {
        "Aug"@
    } else if i == 8 {
        "Sep"@
    } else if i == 9 {
        "Oct"@
    } else if i == 10 {
        "Nov"@
    } else {
        "Dec"@
    }
}

/// A number with a zero before a single digit.
pub open spec fn two_digits(n: i32) -> Seq<u8> {
    if n < 10 {
        seq![ZERO] + buf::decimal(n as u64 as nat)
    } else {
        buf::decimal(n as u64 as nat)
    }
}

/// A time as "Mon DD YYYY HH:MM".
pub open spec fn timestamp(tm: Tm) -> Seq<u8> {
    encode_utf8(month_name((tm.mon as usize) as int % 12)) + seq![SPACE] + two_digits(tm.mday)
        + seq![SPACE] + buf::decimal(tm.year.wrapping_add(1900) as u64 as nat) + seq![SPACE]
        + two_digits(tm.hour) + seq![COLON] + two_digits(tm.min)
}

/// The short name of a month.
fn find_month(i: usize) -> (s: &'static str)
    ensures
        s@ == month_name(i as int),
{
    match i {
        0 => "Jan",
        1 => "Feb",
        2 => "Mar",
        3 => "Apr",
        4 => "May",
        5 => "Jun",
        6 => "Jul",
        7 => "Aug",
        8 => "Sep",
        9 => "Oct",
        10 => "Nov",
        _ => "Dec",
    }
}

/// Appends a number with a zero before a single digit.
fn push_two_digits<const N: usize>(b: &mut Buf<N>, n: i32)
    ensures
        final(b)@ == buf::clip(old(b)@ + two_digits(n), N as nat),
{
    broadcast use buf::lemma_clip_append;

    let ghost before = b@;
    if n < 10 {
        b.push_byte(ZERO);
        b.push_u64(n as u64);
        assert(before + seq![ZERO] + buf::decimal(n as u64 as nat) =~= before + two_digits(n));
    } else {
        b.push_u64(n as u64);
    }
}

/// Appends a time as "Mon DD YYYY HH:MM".
pub fn format_timestamp<const N: usize>(tm: &Tm, b: &mut Buf<N>)
    ensures
        final(b)@ == buf::clip(old(b)@ + timestamp(*tm), N as nat),
{
    broadcast use buf::lemma_clip_append;

    let ghost before = b@;
    let ghost month = encode_utf8(month_name((tm.mon as usize) as int % 12));
    let ghost day = two_digits(tm.mday);
    let ghost year = buf::decimal(tm.year.wrapping_add(1900) as u64 as nat);
    b.push_str(find_month((tm.mon as usize) % 12));
    b.push_byte(SPACE);
    push_two_digits(b, tm.mday);
    b.push_byte(SPACE);
    b.push_u64(tm.year.wrapping_add(1900) as u64);
    b.push_byte(SPACE);
    push_two_digits(b, tm.hour);
    b.push_byte(COLON);
    push_two_digits(b, tm.min);
    assert(before + month + seq![SPACE] + day + seq![SPACE] + year + seq![SPACE] + two_digits(
        tm.hour,
    ) + seq![COLON] + two_digits(tm.min) =~= before + timestamp(*tm));
}

/// The size of a login record.
pub const UTMP_SIZE: usize = 384;

/// The type of the record of a login.
pub const USER_PROCESS: i16 = 7;

/// The signed 16-bit number in two bytes, least significant first.
pub open spec fn le_i16(s: Seq<u8>) -> int {
    let n = s[0] + 256 * s[1];
    if n < 0x8000 {
        n
    } else {
        n - 0x1_0000
    }
}

/// The signed 32-bit number in four bytes, least significant first.
pub open spec fn le_i32(s: Seq<u8>) -> int {
    let n = s[0] + 256 * s[1] + 0x1_0000 * s[2] + 0x100_0000 * s[3];
    if n < 0x8000_0000 {
        n
    } else {
        n - 0x1_0000_0000
    }
}

/// The login records in a file of them. A last one that is cut off does not count.
pub open spec fn records(utmp: Seq<u8>) -> Seq<Seq<u8>> {
    Seq::new(
        utmp.len() / UTMP_SIZE as nat,
        |i: int| utmp.subrange(UTMP_SIZE * i, UTMP_SIZE * i + UTMP_SIZE),
    )
}

/// The type of a record.
pub open spec fn record_type(rec: Seq<u8>) -> int {
    le_i16(rec.subrange(0, 2))
}

/// The terminal of a record.
pub open spec fn record_line(rec: Seq<u8>) -> Seq<u8> {
    sys::cstr(rec.subrange(8, 40))
}

/// The user of a record.
pub open spec fn record_user(rec: Seq<u8>) -> Seq<u8> {
    sys::cstr(rec.subrange(44, 76))
}

/// The host of a record.
pub open spec fn record_host(rec: Seq<u8>) -> Seq<u8> {
    sys::cstr(rec.subrange(76, 332))
}

/// The time of a record, in seconds.
pub open spec fn record_time(rec: Seq<u8>) -> int {
    le_i32(rec.subrange(340, 344))
}

/// The record is of a login of `user`.
pub open spec fn is_login(rec: Seq<u8>, user: Seq<u8>) -> bool {
    record_type(rec) == USER_PROCESS && record_user(rec) == user
}

/// The first of some records that is of a login of `user` on the terminal `tty`. No record is
/// on a terminal without a name.
pub open spec fn login_on(recs: Seq<Seq<u8>>, user: Seq<u8>, tty: Seq<u8>) -> Option<Seq<u8>>
    decreases recs.len(),
{
    if recs.len() == 0 {
        None
    } else if is_login(recs[0], user) && tty.len() > 0 && record_line(recs[0]) == tty {
        Some(recs[0])
    } else {
        login_on(recs.drop_first(), user, tty)
    }
}

/// The latest of some records that are of a login of `user` after time 0: of two at the same
/// time, the first.
pub open spec fn latest_on(recs: Seq<Seq<u8>>, user: Seq<u8>) -> Option<Seq<u8>>
    decreases recs.len(),
{
    if recs.len() == 0 {
        None
    } else {
        let before = latest_on(recs.drop_last(), user);
        let bound = match before {
            Some(rec) => record_time(rec),
            None => 0,
        };
        if is_login(recs.last(), user) && record_time(recs.last()) > bound {
            Some(recs.last())
        } else {
            before
        }
    }
}

/// A login record: its type, terminal, user, host and time.
pub struct UtmpEntry<'a> {
    pub ut_type: i16,
    pub ut_line: &'a [u8],
    pub ut_user: &'a [u8],
    pub ut_host: &'a [u8],
    pub ut_tv_sec: i32,
}

impl<'a> UtmpEntry<'a> {
    /// This is the record `rec`.
    pub open spec fn is_record(&self, rec: Seq<u8>) -> bool {
        &&& self.ut_type == record_type(rec)
        &&& self.ut_line@ == record_line(rec)
        &&& self.ut_user@ == record_user(rec)
        &&& self.ut_host@ == record_host(rec)
        &&& self.ut_tv_sec == record_time(rec)
    }

    /// The record in `UTMP_SIZE` bytes.
    pub fn parse(rec: &'a [u8]) -> (e: Self)
        requires
            rec@.len() == UTMP_SIZE,
        ensures
            e.is_record(rec@),
    {
        let t: i32 = rec[0] as i32 + 256 * (rec[1] as i32);
        let ut_type: i16 = if t < 0x8000 { t as i16 } else { (t - 0x1_0000) as i16 };
        let n: i64 = rec[340] as i64 + 256 * (rec[341] as i64) + 0x1_0000 * (rec[342] as i64)
            + 0x100_0000 * (rec[343] as i64);
        let ut_tv_sec: i32 = if n < 0x8000_0000 {
            n as i32
        } else {
            (n - 0x1_0000_0000) as i32
        };
        UtmpEntry {
            ut_type,
            ut_line: cstr_field(rec, 8, 40),
            ut_user: cstr_field(rec, 44, 76),
            ut_host: cstr_field(rec, 76, 332),
            ut_tv_sec,
        }
    }
}

/// The C string in a field of a record.
fn cstr_field<'a>(rec: &'a [u8], from: usize, to: usize) -> (r: &'a [u8])
    requires
        from <= to <= rec@.len(),
    ensures
        r@ == sys::cstr(rec@.subrange(from as int, to as int)),
{
    let field = slice_subrange(rec, from, to);
    let r = slice_subrange(field, 0, cstr_len(field));
    assert(r@ =~= sys::cstr(field@));
    r
}

/// The number of whole records.
pub fn utmp_count(utmp: &[u8]) -> (n: usize)
    ensures
        n == records(utmp@).len(),
{
    utmp.len() / UTMP_SIZE
}

/// One of the records.
fn utmp_entry<'a>(utmp: &'a [u8], i: usize) -> (e: UtmpEntry<'a>)
    requires
        i < records(utmp@).len(),
    ensures
        e.is_record(records(utmp@)[i as int]),
{
    assert(utmp@.len() == utmp.len());
    let from: usize = i * UTMP_SIZE;
    UtmpEntry::parse(slice_subrange(utmp, from, from + UTMP_SIZE))
}

/// Whether a record is of a login of `user`.
fn is_login_of(e: &UtmpEntry, user: &[u8]) -> (r: bool)
    ensures
        forall|rec: Seq<u8>| #[trigger] e.is_record(rec) ==> r == is_login(rec, user@),
{
    e.ut_type == USER_PROCESS && same(e.ut_user, user)
}

/// The record of the latest login of `user`.
pub fn latest_login<'a>(utmp: &'a [u8], user: &[u8]) -> (r: Option<UtmpEntry<'a>>)
    ensures
        match r {
            Some(e) => latest_on(records(utmp@), user@) matches Some(rec) && e.is_record(rec),
            None => latest_on(records(utmp@), user@) is None,
        },
{
    let ghost recs = records(utmp@);
    let count: usize = utmp_count(utmp);
    let mut best: Option<UtmpEntry<'a>> = None;
    let mut latest: i32 = 0;
    let mut i: usize = 0;
    assert(recs.take(0) =~= seq![]);
    while i < count
        invariant
            i <= count,
            count == recs.len(),
            recs == records(utmp@),
            match best {
                Some(e) => latest_on(recs.take(i as int), user@) matches Some(rec) && e.is_record(
                    rec,
                ) && latest == record_time(rec),
                None => latest_on(recs.take(i as int), user@) is None && latest == 0,
            },
        decreases count - i,
    {
        let e = utmp_entry(utmp, i);
        assert(e.is_record(recs[i as int]));
        assert(recs.take(i + 1).drop_last() =~= recs.take(i as int));
        if is_login_of(&e, user) && e.ut_tv_sec > latest {
            latest = e.ut_tv_sec;
            best = Some(e);
        }
        i = i + 1;
    }
    assert(recs.take(count as int) =~= recs);
    best
}

/// The record of the login of `user` on a terminal.
fn find_login_on<'a>(utmp: &'a [u8], user: &[u8], tty: &[u8]) -> (r: Option<UtmpEntry<'a>>)
    ensures
        match r {
            Some(e) => login_on(records(utmp@), user@, tty@) matches Some(rec) && e.is_record(rec),
            None => login_on(records(utmp@), user@, tty@) is None,
        },
{
    let ghost recs = records(utmp@);
    let count: usize = utmp_count(utmp);
    let mut i: usize = 0;
    assert(recs.skip(0) =~= recs);
    while i < count
        invariant
            i <= count,
            count == recs.len(),
            recs == records(utmp@),
            login_on(recs, user@, tty@) == login_on(recs.skip(i as int), user@, tty@),
        decreases count - i,
    {
        let e = utmp_entry(utmp, i);
        assert(e.is_record(recs[i as int]));
        if is_login_of(&e, user) && tty.len() > 0 && same(e.ut_line, tty) {
            return Some(e);
        }
        assert(recs.skip(i as int).drop_first() =~= recs.skip(i + 1));
        i = i + 1;
    }
    None
}

/// The name of a terminal without the directory of devices, of which 31 bytes are kept.
pub open spec fn tty_of(path: Seq<u8>) -> Seq<u8> {
    let name = if scan::begins(path, scan::bytes("/dev/")) {
        path.skip(5)
    } else {
        path
    };
    buf::clip(name, 31)
}

/// `s` with null bytes behind it, `n` bytes in all.
pub open spec fn null_padded(s: Seq<u8>, n: int) -> Seq<u8> {
    s + Seq::new((n - s.len()) as nat, |i: int| 0u8)
}

/// The name of a terminal as a C string, which is empty where there is no terminal.
pub open spec fn tty_field(path: Option<&[u8]>) -> Seq<u8> {
    null_padded(
        match path {
            Some(p) => tty_of(p@),
            None => seq![],
        },
        32,
    )
}

/// The name of a terminal as a C string, which is empty where there is no terminal.
pub fn current_tty(path: Option<&[u8]>) -> (r: [u8; 32])
    ensures
        r@ == tty_field(path),
{
    let mut r: [u8; 32] = [0u8; 32];
    match path {
        Some(p) => {
            proof {
                reveal_strlit("/dev/");
                is_ascii_chars_encode_utf8("/dev/"@);
            }
            let name = if starts_with(p, "/dev/".as_bytes()) {
                let rest = slice_subrange(p, 5, p.len());
                assert(rest@ =~= p@.skip(5));
                rest
            } else {
                p
            };
            let len: usize = if name.len() < 31 { name.len() } else { 31 };
            copy_into(&mut r, 0, name, len);
            assert(r@ =~= null_padded(tty_of(p@), 32));
        },
        None => {
            assert(r@ =~= null_padded(seq![], 32));
        },
    }
    r
}

/// Copies the first `n` bytes of `src` to `dst`, from the position `at` on.
fn copy_into<const N: usize>(dst: &mut [u8; N], at: usize, src: &[u8], n: usize)
    requires
        n <= src@.len(),
        at + n <= N,
    ensures
        final(dst)@ == old(dst)@.take(at as int) + src@.take(n as int) + old(dst)@.skip(at + n),
{
    let ghost before = dst@;
    let mut i: usize = 0;
    assert(dst@ =~= before.take(at as int) + src@.take(0) + before.skip(at as int));
    while i < n
        invariant
            i <= n <= src@.len(),
            at + n <= N,
            before.len() == N,
            dst@ == before.take(at as int) + src@.take(i as int) + before.skip(at + i),
        decreases n - i,
    {
        dst[at + i] = src[i];
        i = i + 1;
        assert(dst@ =~= before.take(at as int) + src@.take(i as int) + before.skip(at + i));
    }
}

/// The address of the client after the login records were asked for the terminal: it stays
/// unknown where they hold no login of the user there.
pub open spec fn client_after(
    before: Seq<u8>,
    utmp: Seq<u8>,
    user: Seq<u8>,
    tty: Seq<u8>,
) -> Seq<u8> {
    match login_on(records(utmp), user, tty) {
        Some(rec) => if record_host(rec).len() > 0 {
            buf::clip(before + record_host(rec), 64)
        } else {
            before
        },
        None => before,
    }
}

/// What the login records leave to the session files: whether these have to be asked, because the
/// time or the client is still unknown, and whether the records hold a login on the terminal.
#[derive(Clone, Copy)]
pub struct Lookup {
    pub more: bool,
    pub on_terminal: bool,
}

/// Collects the client and the latest login of `user` from the login records, where the
/// terminal is a C string and `tm` is the local time of the latest login.
pub fn collect_login(
    data: &mut LoginData,
    client_ip: &mut Buf<64>,
    utmp: &[u8],
    tty: &[u8],
    user: &[u8],
    tm: &Tm,
) -> (found: Lookup)
    ensures
        login_of(*final(data), *final(client_ip)) == login_of(
            *old(data),
            *old(client_ip),
        ).with_records(utmp@, user@, sys::cstr(tty@), *tm),
        final(data).uptime == old(data).uptime,
        found.more == login_of(*final(data), *final(client_ip)).incomplete(),
        found.on_terminal == (login_on(records(utmp@), user@, sys::cstr(tty@)) is Some),
{
    let tty_name = slice_subrange(tty, 0, cstr_len(tty));
    assert(tty_name@ =~= sys::cstr(tty@));
    let on_terminal: bool = match find_login_on(utmp, user, tty_name) {
        Some(e) => {
            if e.ut_host.len() > 0 {
                client_ip.push_bytes(e.ut_host);
            }
            true
        },
        None => false,
    };
    match latest_login(utmp, user) {
        Some(e) => {
            format_timestamp(tm, &mut data.time);
            if e.ut_host.len() > 0 {
                data.ip.push_bytes(e.ut_host);
                data.has_ip = true;
            }
        },
        None => {},
    }
    Lookup { more: data.time.is_empty() || client_ip.is_empty(), on_terminal }
}

/// What is known of a login: its time, the address it came from, and the client.
#[verifier::ext_equal]
pub struct Login {
    pub time: Seq<u8>,
    pub ip: Seq<u8>,
    pub has_ip: bool,
    pub client: Seq<u8>,
}

/// What a report knows of a login.
pub open spec fn login_of(data: LoginData, client_ip: Buf<64>) -> Login {
    Login { time: data.time@, ip: data.ip@, has_ip: data.has_ip, client: client_ip@ }
}

impl Login {
    /// The time or the client is still unknown.
    pub open spec fn incomplete(self) -> bool {
        self.time.len() == 0 || self.client.len() == 0
    }

    /// What is known once the login records were asked for the terminal and for the latest
    /// login of the user, of which `tm` is the local time.
    pub open spec fn with_records(
        self,
        utmp: Seq<u8>,
        user: Seq<u8>,
        tty: Seq<u8>,
        tm: Tm,
    ) -> Login {
        let client = client_after(self.client, utmp, user, tty);
        match latest_on(records(utmp), user) {
            Some(rec) => {
                let host = record_host(rec);
                Login {
                    time: buf::clip(self.time + timestamp(tm), 64),
                    ip: if host.len() > 0 {
                        buf::clip(self.ip + host, 64)
                    } else {
                        self.ip
                    },
                    has_ip: self.has_ip || host.len() > 0,
                    client,
                }
            },
            None => Login { client, ..self },
        }
    }

    /// What is known once a session filled in what was still unknown, of whose beginning `tm`
    /// is the local time. For the host that it came from the display stands in. What becomes the
    /// client becomes the address of the login too, unless the records told that address and hold
    /// no login on the terminal.
    pub open spec fn with_session(self, session: Session, tm: Tm, on_terminal: bool) -> Login {
        let from = if session.host.len() > 0 {
            session.host
        } else {
            session.display
        };
        let time = if session.usec > 0 && self.time.len() == 0 {
            buf::clip(timestamp(tm), 64)
        } else {
            self.time
        };
        if session.usec > 0 && self.client.len() == 0 && from.len() > 0 {
            Login {
                time,
                ip: if on_terminal || !self.has_ip {
                    from
                } else {
                    self.ip
                },
                has_ip: true,
                client: from,
            }
        } else {
            Login { time, ..self }
        }
    }

    /// What is said once it is said of what is still unknown that it is.
    pub open spec fn with_defaults(self) -> Login {
        Login {
            time: sys::or_text(self.time, "Unknown", 64),
            client: sys::or_text(self.client, "Not connected", 64),
            ..self
        }
    }
}

/// A session: when it began in microseconds, and the host and the display that it came from.
#[verifier::ext_equal]
pub struct Session {
    pub usec: nat,
    pub host: Seq<u8>,
    pub display: Seq<u8>,
}

/// No session.
pub open spec fn no_session() -> Session {
    Session { usec: 0, host: seq![], display: seq![] }
}

/// The file is of a session of `user`, and of no other class than `user`.
pub open spec fn is_session_of(content: Seq<u8>, user: Seq<u8>) -> bool {
    &&& scan::value_of(content, scan::bytes("USER"), EQUALS) == Some(user)
    &&& match scan::value_of(content, scan::bytes("CLASS"), EQUALS) {
        Some(class) => class == scan::bytes("user"),
        None => true,
    }
}

/// The later of a session and one more session file.
pub open spec fn later(best: Session, content: Seq<u8>, user: Seq<u8>) -> Session {
    let usec = sys::number_of(content, "REALTIME", EQUALS);
    let none = Seq::<u8>::empty();
    if is_session_of(content, user) && usec > best.usec {
        Session {
            usec,
            host: buf::clip(sys::value_or(content, "REMOTE_HOST", EQUALS, none), 64),
            display: buf::clip(sys::value_or(content, "DISPLAY", EQUALS, none), 64),
        }
    } else {
        best
    }
}

/// The latest session in some session files: of two at the same time, the first.
pub open spec fn latest_session(files: Seq<Seq<u8>>, user: Seq<u8>) -> Session
    decreases files.len(),
{
    if files.len() == 0 {
        no_session()
    } else {
        later(latest_session(files.drop_last(), user), files.last(), user)
    }
}

/// Whether a directory entry is a session file.
pub open spec fn session_file(name: Seq<u8>) -> bool {
    let r = scan::bytes(".ref");
    &&& !scan::begins(name, scan::bytes("."))
    &&& !(r.len() <= name.len() && name.skip(name.len() - r.len()) == r)
}

/// Whether a directory entry is a session file: hidden files and `.ref` files are not.
pub fn is_session_file(name: &[u8]) -> (r: bool)
    ensures
        r == session_file(name@),
{
    if starts_with(name, ".".as_bytes()) {
        return false;
    }
    let suffix = ".ref".as_bytes();
    if suffix.len() > name.len() {
        return true;
    }
    let end = slice_subrange(name, name.len() - suffix.len(), name.len());
    assert(end@ =~= name@.skip(name@.len() - suffix@.len()));
    !same(end, suffix)
}

/// The path of a session file as a C string, of whose name 105 bytes are kept.
pub fn session_path(name: &[u8]) -> (r: [u8; 128])
    ensures
        r@ == null_padded(scan::bytes("/run/systemd/sessions/") + buf::clip(name@, 105), 128),
{
    let prefix = "/run/systemd/sessions/".as_bytes();
    proof {
        reveal_strlit("/run/systemd/sessions/");
        is_ascii_chars_encode_utf8("/run/systemd/sessions/"@);
    }
    let mut r: [u8; 128] = [0u8; 128];
    copy_into(&mut r, 0, prefix, 22);
    let len: usize = if name.len() < 105 { name.len() } else { 105 };
    copy_into(&mut r, 22, name, len);
    assert(r@ =~= null_padded(prefix@ + buf::clip(name@, 105), 128));
    r
}

/// A search for the latest session of a user.
pub struct SessionScan {
    usec: u64,
    host: Buf<64>,
    display: Buf<64>,
}

impl View for SessionScan {
    type V = Session;

    closed spec fn view(&self) -> Session {
        Session { usec: self.usec as nat, host: self.host@, display: self.display@ }
    }
}

impl SessionScan {
    /// A search that has seen no session yet.
    pub fn new() -> (s: Self)
        ensures
            s@ == no_session(),
    {
        SessionScan { usec: 0, host: Buf::new(), display: Buf::new() }
    }

    /// Takes one more session file into account.
    pub fn offer(&mut self, content: &[u8], user: &[u8])
        ensures
            final(self)@ == later(old(self)@, content@, user@),
    {
        match find_val(content, "USER".as_bytes(), EQUALS) {
            Some(u) => {
                if !same(u, user) {
                    return ;
                }
            },
            None => {
                return ;
            },
        }
        match find_val(content, "CLASS".as_bytes(), EQUALS) {
            Some(class) => {
                if !same(class, "user".as_bytes()) {
                    return ;
                }
            },
            None => {},
        }
        let usec: u64 = find_number(content, "REALTIME", EQUALS);
        if usec <= self.usec {
            return ;
        }
        self.usec = usec;
        self.host = value_buf(content, "REMOTE_HOST");
        self.display = value_buf(content, "DISPLAY");
    }

    /// When the latest session began, in seconds.
    pub fn seconds(&self) -> (r: i64)
        ensures
            r == self@.usec / 1_000_000,
    {
        (self.usec / 1_000_000) as i64
    }

    /// Fills in what is still unknown from the latest session, where there is one, of whose
    /// beginning `tm` is the local time. For the host that it came from the display stands in.
    /// An address that the records told is replaced only where they hold a login on the terminal.
    pub fn finish(
        &self,
        data: &mut LoginData,
        client_ip: &mut Buf<64>,
        tm: &Tm,
        on_terminal: bool,
    )
        ensures
            login_of(*final(data), *final(client_ip)) == login_of(
                *old(data),
                *old(client_ip),
            ).with_session(self@, *tm, on_terminal),
            final(data).uptime == old(data).uptime,
    {
        if self.usec == 0 {
            return ;
        }
        if data.time.is_empty() {
            let mut time: Buf<64> = Buf::new();
            assert(time@ + timestamp(*tm) =~= timestamp(*tm));
            format_timestamp(tm, &mut time);
            data.time = time;
        }
        let from: Buf<64> = if !self.host.is_empty() { self.host } else { self.display };
        if client_ip.is_empty() && !from.is_empty() {
            *client_ip = from;
            if on_terminal || !data.has_ip {
                data.ip = from;
                data.has_ip = true;
            }
        }
    }
}

/// The value of a key in a session file.
fn value_buf(content: &[u8], key: &str) -> (b: Buf<64>)
    ensures
        b@ == buf::clip(sys::value_or(content@, key, EQUALS, seq![]), 64),
{
    let mut b: Buf<64> = Buf::new();
    match find_val(content, key.as_bytes(), EQUALS) {
        Some(v) => {
            assert(b@ + v@ =~= v@);
            b.push_bytes(v);
        },
        None => {},
    }
    b
}

/// Says of what is still unknown that it is.
pub fn finish_login(data: &mut LoginData, client_ip: &mut Buf<64>)
    ensures
        login_of(*final(data), *final(client_ip)) == login_of(
            *old(data),
            *old(client_ip),
        ).with_defaults(),
        final(data).uptime == old(data).uptime,
{
    push_default(&mut data.time, "Unknown");
    push_default(client_ip, "Not connected");
}

/// An uptime in days, hours and minutes. Days and hours are left out where there are none,
/// hours only where there are no days either.
pub open spec fn uptime_text(secs: nat) -> Seq<u8> {
    let days = secs / 86400;
    let hours = secs % 86400 / 3600;
    let mins = secs % 3600 / 60;
    (if days > 0 {
        buf::decimal(days) + scan::bytes("d ")
    } else {
        seq![]
    }) + (if hours > 0 || days > 0 {
        buf::decimal(hours) + scan::bytes("h ")
    } else {
        seq![]
    }) + buf::decimal(mins) + seq![109u8]
}

/// Appends an uptime.
pub fn push_uptime<const N: usize>(b: &mut Buf<N>, secs: u64)
    ensures
        final(b)@ == buf::clip(old(b)@ + uptime_text(secs as nat), N as nat),
{
    broadcast use buf::lemma_clip_append;

    let ghost before = b@;
    let days: u64 = secs / 86400;
    let hours: u64 = secs % 86400 / 3600;
    let mins: u64 = secs % 3600 / 60;
    let ghost mut done = before;
    if days > 0 {
        b.push_u64(days);
        b.push_str("d ");
        proof {
            done = done + buf::decimal(days as nat) + scan::bytes("d ");
        }
    }
    let ghost with_days = done;
    if hours > 0 || days > 0 {
        b.push_u64(hours);
        b.push_str("h ");
        proof {
            done = done + buf::decimal(hours as nat) + scan::bytes("h ");
        }
    }
    b.push_u64(mins);
    b.push_byte(109);
    assert(done + buf::decimal(mins as nat) + seq![109u8] =~= before + uptime_text(secs as nat));
}

/// The user that the environment names, of whose name 63 bytes are kept.
pub open spec fn user_of(env: Option<&[u8]>) -> Seq<u8> {
    match env {
        Some(u) => buf::clip(u@, 63),
        None => scan::bytes("unknown"),
    }
}

/// The user that the environment names, of whose name 63 bytes are kept.
pub fn current_user(env: Option<&[u8]>) -> (b: Buf<64>)
    ensures
        b@ == user_of(env),
{
    let mut b: Buf<64> = Buf::new();
    match env {
        Some(u) => {
            let len: usize = if u.len() < 63 { u.len() } else { 63 };
            let name = slice_subrange(u, 0, len);
            assert(b@ + name@ =~= buf::clip(u@, 63));
            b.push_bytes(name);
        },
        None => {
            proof {
                reveal_strlit("unknown");
                is_ascii_chars_encode_utf8("unknown"@);
            }
            assert(b@ + scan::bytes("unknown") =~= scan::bytes("unknown"));
            b.push_str("unknown");
        },
    }
    b
}

/// A login of which time and client are known needs no session file.
pub proof fn lemma_complete(l: Login, session: Session, tm: Tm, on_terminal: bool)
    requires
        !l.incomplete(),
    ensures
        l.with_session(session, tm, on_terminal) == l,
{
}

/// An address and a time that the login records told stay, whatever the session files tell,
/// where the records hold no login on the terminal: a session gives no more than the client.
pub proof fn lemma_records_first(l: Login, session: Session, tm: Tm)
    requires
        l.time.len() > 0,
        l.has_ip,
    ensures
        l.with_session(session, tm, false).with_defaults().ip == l.ip,
        l.with_session(session, tm, false).with_defaults().has_ip,
        l.with_session(session, tm, false).with_defaults().time == l.time,
{
}

/// A session stands in where the login records hold no login of the user: its beginning becomes
/// the time of the login, and the host or else the display that it came from becomes the client
/// and the address of the login.
pub proof fn lemma_session_fallback(
    l: Login,
    utmp: Seq<u8>,
    user: Seq<u8>,
    tty: Seq<u8>,
    session: Session,
    login_tm: Tm,
    session_tm: Tm,
)
    requires
        l.time.len() == 0,
        l.client.len() == 0,
        !l.has_ip,
        forall|i: int| 0 <= i < records(utmp).len() ==> !is_login(#[trigger] records(utmp)[i], user),
        session.usec > 0,
        session.host.len() > 0 || session.display.len() > 0,
    ensures
        ({
            let from = if session.host.len() > 0 {
                session.host
            } else {
                session.display
            };
            let known = l.with_records(utmp, user, tty, login_tm);
            let on_terminal = login_on(records(utmp), user, tty) is Some;
            &&& known.incomplete()
            &&& known.with_session(session, session_tm, on_terminal).with_defaults() == (Login {
                time: buf::clip(timestamp(session_tm), 64),
                ip: from,
                has_ip: true,
                client: from,
            })
        }),
{
    lemma_latest_login(records(utmp), user);
    lemma_no_login_on(records(utmp), user, tty);
    assert(timestamp(session_tm).len() > 0);
}

/// Without a login of the user there is none on a terminal.
proof fn lemma_no_login_on(recs: Seq<Seq<u8>>, user: Seq<u8>, tty: Seq<u8>)
    requires
        forall|i: int| 0 <= i < recs.len() ==> !is_login(#[trigger] recs[i], user),
    ensures
        login_on(recs, user, tty) is None,
    decreases recs.len(),
{
    if recs.len() > 0 {
        let rest = recs.drop_first();
        assert(!is_login(recs[0], user));
        assert forall|i: int| 0 <= i < rest.len() implies !is_login(#[trigger] rest[i], user) by {
            assert(rest[i] == recs[i + 1]);
        }
        lemma_no_login_on(rest, user, tty);
    }
}

/// In the end there is always something to show for the time and for the client.
pub proof fn lemma_shown(l: Login)
    ensures
        !l.with_defaults().incomplete(),
        !l.incomplete() ==> l.with_defaults() == l,
{
    reveal_strlit("Unknown");
    reveal_strlit("Not connected");
    is_ascii_chars_encode_utf8("Unknown"@);
    is_ascii_chars_encode_utf8("Not connected"@);
}

/// The latest login is one of the records, and a login of the user after time 0. No login of
/// the user is later, and none before it in the file is as late. There is none only where the
/// user has no login after time 0.
pub proof fn lemma_latest_login(recs: Seq<Seq<u8>>, user: Seq<u8>)
    ensures
        match latest_on(recs, user) {
            Some(rec) => exists|i: int|
                {
                    &&& 0 <= i < recs.len()
                    &&& #[trigger] recs[i] == rec
                    &&& is_login(rec, user)
                    &&& record_time(rec) > 0
                    &&& forall|k: int|
                        0 <= k < recs.len() && is_login(#[trigger] recs[k], user) ==> record_time(
                            recs[k],
                        ) <= record_time(rec) && (k < i ==> record_time(recs[k]) < record_time(rec))
                },
            None => forall|k: int|
                0 <= k < recs.len() && is_login(#[trigger] recs[k], user) ==> record_time(recs[k])
                    <= 0,
        },
    decreases recs.len(),
{
    if recs.len() > 0 {
        let init = recs.drop_last();
        let n = init.len() as int;
        lemma_latest_login(init, user);
        assert forall|k: int| 0 <= k < n implies #[trigger] recs[k] == init[k] by {
        }
        match latest_on(init, user) {
            Some(rec) => {
                let i = choose|i: int|
                    {
                        &&& 0 <= i < init.len()
                        &&& #[trigger] init[i] == rec
                        &&& is_login(rec, user)
                        &&& record_time(rec) > 0
                        &&& forall|k: int|
                            0 <= k < init.len() && is_login(#[trigger] init[k], user)
                                ==> record_time(init[k]) <= record_time(rec) && (k < i
                                ==> record_time(init[k]) < record_time(rec))
                    };
                assert(recs[i] == rec);
                assert(recs[n] == recs.last());
            },
            None => {
                assert(recs[n] == recs.last());
            },
        }
    }
}

/// The login on a terminal is the first record of a login of the user there. There is none only
/// where no record is.
pub proof fn lemma_login_on(recs: Seq<Seq<u8>>, user: Seq<u8>, tty: Seq<u8>)
    requires
        tty.len() > 0,
    ensures
        match login_on(recs, user, tty) {
            Some(rec) => exists|i: int|
                {
                    &&& 0 <= i < recs.len()
                    &&& #[trigger] recs[i] == rec
                    &&& is_login(rec, user)
                    &&& record_line(rec) == tty
                    &&& forall|k: int|
                        0 <= k < i ==> !(is_login(#[trigger] recs[k], user) && record_line(recs[k])
                            == tty)
                },
            None => forall|k: int|
                0 <= k < recs.len() ==> !(is_login(#[trigger] recs[k], user) && record_line(recs[k])
                    == tty),
        },
    decreases recs.len(),
{
    if recs.len() > 0 {
        let rest = recs.drop_first();
        let here = is_login(recs[0], user) && record_line(recs[0]) == tty;
        lemma_login_on(rest, user, tty);
        if !here {
            match login_on(rest, user, tty) {
                Some(rec) => {
                    let i = choose|i: int|
                        {
                            &&& 0 <= i < rest.len()
                            &&& #[trigger] rest[i] == rec
                            &&& is_login(rec, user)
                            &&& record_line(rec) == tty
                            &&& forall|k: int|
                                0 <= k < i ==> !(is_login(#[trigger] rest[k], user) && record_line(
                                    rest[k],
                                ) == tty)
                        };
                    assert(recs[i + 1] == rec);
                    assert forall|k: int| 0 <= k < i + 1 implies !(is_login(
                        #[trigger] recs[k],
                        user,
                    ) && record_line(recs[k]) == tty) by {
                        if k > 0 {
                            assert(rest[k - 1] == recs[k]);
                        }
                    }
                },
                None => {
                    assert forall|k: int| 0 <= k < recs.len() implies !(is_login(
                        #[trigger] recs[k],
                        user,
                    ) && record_line(recs[k]) == tty) by {
                        if k > 0 {
                            assert(rest[k - 1] == recs[k]);
                        }
                    }
                },
            }
        }
    }
}

/// One more session file is one more step of the search for the latest session.
pub proof fn lemma_session_step(files: Seq<Seq<u8>>, content: Seq<u8>, user: Seq<u8>)
    ensures
        latest_session(files.push(content), user) == later(
            latest_session(files, user),
            content,
            user,
        ),
{
    assert(files.push(content).drop_last() =~= files);
}

/// No session of the user began later than the latest one. That is no session at all only where
/// the user has none that began after time 0; or else it is one of them, and none before it
/// began as late.
pub proof fn lemma_latest_session(files: Seq<Seq<u8>>, user: Seq<u8>)
    ensures
        ({
            let best = latest_session(files, user);
            &&& forall|k: int|
                0 <= k < files.len() && is_session_of(#[trigger] files[k], user)
                    ==> sys::number_of(files[k], "REALTIME", EQUALS) <= best.usec
            &&& best.usec == 0 ==> best == no_session()
            &&& best.usec > 0 ==> exists|i: int|
                {
                    &&& 0 <= i < files.len()
                    &&& is_session_of(#[trigger] files[i], user)
                    &&& best == later(no_session(), files[i], user)
                    &&& forall|k: int|
                        0 <= k < i && is_session_of(#[trigger] files[k], user) ==> sys::number_of(
                            files[k],
                            "REALTIME",
                            EQUALS,
                        ) < best.usec
                }
        }),
    decreases files.len(),
{
    if files.len() > 0 {
        let init = files.drop_last();
        let n = init.len() as int;
        let before = latest_session(init, user);
        let best = latest_session(files, user);
        lemma_latest_session(init, user);
        assert forall|k: int| 0 <= k < n implies #[trigger] files[k] == init[k] by {
        }
        assert(files[n] == files.last());
        if before.usec > 0 {
            let i = choose|i: int|
                {
                    &&& 0 <= i < init.len()
                    &&& is_session_of(#[trigger] init[i], user)
                    &&& before == later(no_session(), init[i], user)
                    &&& forall|k: int|
                        0 <= k < i && is_session_of(#[trigger] init[k], user) ==> sys::number_of(
                            init[k],
                            "REALTIME",
                            EQUALS,
                        ) < before.usec
                };
            assert(files[i] == init[i]);
        }
    }
}

/// The days, hours and minutes of an uptime are those of its whole minutes.
pub proof fn lemma_uptime(secs: nat)
    ensures
        ({
            let days = secs / 86400;
            let hours = secs % 86400 / 3600;
            let mins = secs % 3600 / 60;
            &&& hours < 24
            &&& mins < 60
            &&& days * 1440 + hours * 60 + mins == secs / 60
        }),
{
}

} // verus!
