//! Login records, session files, timestamps and uptime.

use crate::buf;
use crate::buf::Buf;
use crate::laws::scan as text;
use crate::login;
use crate::login::{
    collect_login, current_tty, current_user, finish_login, format_timestamp, is_session_file,
    latest_login, push_uptime, session_path, utmp_count, Login, Lookup, Session, SessionScan, Tm,
    UtmpEntry,
};
use crate::scan;
use crate::sys;
use crate::sys::LoginData;
use vstd::arithmetic::power::*;
use vstd::prelude::*;
use vstd::utf8::*;

verus! {

/// A field of a record holds `s`: it ends with `s`, or goes on with a null byte.
pub open spec fn holds(field: Seq<u8>, s: Seq<u8>) -> bool {
    &&& text::without(s, 0)
    &&& s.len() <= field.len()
    &&& field.take(s.len() as int) == s
    &&& s.len() < field.len() ==> field[s.len() as int] == 0
}

/// A field holds exactly its C string.
proof fn lemma_holds(field: Seq<u8>, s: Seq<u8>)
    ensures
        holds(field, s) <==> sys::cstr(field) == s,
        holds(field, sys::cstr(field)),
{
    scan::lemma_first_of_props(field, scan::only(0));
    let c = sys::cstr(field);
    let n = scan::first_of(field, scan::only(0));
    assert forall|k: int| 0 <= k < c.len() implies #[trigger] c[k] != 0 by {
        assert(!scan::only(0)(field[k]));
    }
    assert(field.take(c.len() as int) =~= c);
    if holds(field, s) {
        assert forall|k: int| 0 <= k < s.len() implies !scan::only(0)(#[trigger] field[k]) by {
            assert(field.take(s.len() as int)[k] == s[k]);
            assert(s[k] != 0);
        }
        scan::lemma_first_of(field, scan::only(0), s.len() as int);
    }
}

/// The record at place `i` of a file of records of 384 bytes.
pub open spec fn rec_at(utmp: Seq<u8>, i: int) -> Seq<u8> {
    utmp.subrange(384 * i, 384 * i + 384)
}

/// A record of 384 bytes is of a login of `user`: its type, in bytes 0 and 1, is 7, and its user
/// field, bytes 44 to 75, holds the name.
pub open spec fn is_login(rec: Seq<u8>, user: Seq<u8>) -> bool {
    rec[0] == 7 && rec[1] == 0 && holds(rec.subrange(44, 76), user)
}

/// A record is of the time `t`: bytes 340 to 343 hold it, least significant first, modulo 2 to the
/// 32.
pub open spec fn is_at(rec: Seq<u8>, t: int) -> bool {
    &&& -0x8000_0000 <= t < 0x8000_0000
    &&& (t - (rec[340] + 256 * rec[341] + 65536 * rec[342] + 16777216 * rec[343])) % 0x1_0000_0000
        == 0
}

/// The fields of a record are what its bytes hold: the terminal in bytes 8 to 39, the user in 44
/// to 75, the host in 76 to 331, and the type and the time as numbers.
pub proof fn law_record(
    rec: Seq<u8>,
    line: Seq<u8>,
    user: Seq<u8>,
    host: Seq<u8>,
    t: int,
)
    requires
        rec.len() == 384,
    ensures
        holds(rec.subrange(8, 40), line) <==> login::record_line(rec) == line,
        holds(rec.subrange(44, 76), user) <==> login::record_user(rec) == user,
        holds(rec.subrange(76, 332), host) <==> login::record_host(rec) == host,
        is_at(rec, t) <==> login::record_time(rec) == t,
        -0x8000 <= login::record_type(rec) < 0x8000,
        (login::record_type(rec) - (rec[0] + 256 * rec[1])) % 0x1_0000 == 0,
        login::is_login(rec, user) <==> is_login(rec, user),
{
    lemma_holds(rec.subrange(8, 40), line);
    lemma_holds(rec.subrange(44, 76), user);
    lemma_holds(rec.subrange(76, 332), host);
    assert(rec.subrange(340, 344) =~= seq![rec[340], rec[341], rec[342], rec[343]]);
    assert(rec.subrange(0, 2) =~= seq![rec[0], rec[1]]);
}

/// A call takes a record apart into what its bytes hold.
pub proof fn law_parse(rec: &[u8], e: UtmpEntry, line: Seq<u8>, user: Seq<u8>, host: Seq<u8>)
    requires
        rec@.len() == 384,
        call_ensures(UtmpEntry::parse, (rec,), e),
    ensures
        holds(rec@.subrange(8, 40), line) ==> e.ut_line@ == line,
        holds(rec@.subrange(44, 76), user) ==> e.ut_user@ == user,
        holds(rec@.subrange(76, 332), host) ==> e.ut_host@ == host,
        is_at(rec@, e.ut_tv_sec as int),
        (e.ut_type - (rec@[0] + 256 * rec@[1])) % 0x1_0000 == 0,
        holds(rec@.subrange(44, 76), user) && rec@[0] == 7 && rec@[1] == 0 ==> login::is_login(
            rec@,
            user,
        ),
{
    law_record(rec@, line, user, host, e.ut_tv_sec as int);
}

/// A record whose user field is a name of at most 32 bytes and null bytes behind it has exactly
/// that user, and is a login of that user where its type is 7.
pub proof fn law_user_field(rec: Seq<u8>, user: Seq<u8>)
    requires
        rec.len() == 384,
        user.len() <= 32,
        text::without(user, 0),
        forall|i: int|
            0 <= i < 32 ==> #[trigger] rec[44 + i] == (if i < user.len() {
                user[i]
            } else {
                0
            }),
    ensures
        login::record_user(rec) == user,
        rec[0] == 7 && rec[1] == 0 ==> login::is_login(rec, user),
{
    let field = rec.subrange(44, 76);
    assert forall|i: int| 0 <= i < user.len() implies field.take(user.len() as int)[i]
        == user[i] by {
        assert(rec[44 + i] == user[i]);
    }
    assert(field.take(user.len() as int) =~= user);
    if user.len() < 32 {
        assert(rec[44 + user.len() as int] == 0);
    }
    law_record(rec, seq![], user, seq![], 0);
}

/// A file holds as many records as 384 bytes fit into it, one after the other.
pub proof fn law_records(utmp: Seq<u8>, i: int)
    ensures
        login::records(utmp).len() * 384 <= utmp.len() < login::records(utmp).len() * 384 + 384,
        0 <= i < login::records(utmp).len() ==> login::records(utmp)[i] == rec_at(utmp, i)
            && login::records(utmp)[i].len() == 384,
{
}

/// A call counts the whole records.
pub proof fn law_utmp_count(utmp: &[u8], n: usize)
    requires
        call_ensures(utmp_count, (utmp,), n),
    ensures
        n * 384 <= utmp@.len() < n * 384 + 384,
{
}

/// A call finds the latest login of a user: a record of a login of the user after time 0, at or
/// after all others, and later than those before it in the file. It finds none only where the user
/// has no login after time 0.
pub proof fn law_latest_login(utmp: &[u8], user: &[u8], r: Option<UtmpEntry>)
    requires
        call_ensures(latest_login, (utmp, user), r),
    ensures
        match r {
            Some(e) => exists|i: int|
                {
                    let rec = #[trigger] rec_at(utmp@, i);
                    &&& 0 <= i
                    &&& 384 * i + 384 <= utmp@.len()
                    &&& is_login(rec, user@)
                    &&& is_at(rec, e.ut_tv_sec as int)
                    &&& e.ut_tv_sec > 0
                    &&& holds(rec.subrange(8, 40), e.ut_line@)
                    &&& holds(rec.subrange(76, 332), e.ut_host@)
                    &&& forall|k: int, t: int|
                        0 <= k && 384 * k + 384 <= utmp@.len() && is_login(
                            rec_at(utmp@, k),
                            user@,
                        ) && #[trigger] is_at(rec_at(utmp@, k), t) ==> t <= e.ut_tv_sec && (k < i
                            ==> t < e.ut_tv_sec)
                },
            None => forall|k: int, t: int|
                0 <= k && 384 * k + 384 <= utmp@.len() && is_login(rec_at(utmp@, k), user@)
                    && #[trigger] is_at(rec_at(utmp@, k), t) ==> t <= 0,
        },
{
    let recs = login::records(utmp@);
    login::lemma_latest_login(recs, user@);
    law_records(utmp@, 0);
    assert forall|k: int, t: int|
        0 <= k && 384 * k + 384 <= utmp@.len() && is_login(rec_at(utmp@, k), user@)
            && #[trigger] is_at(rec_at(utmp@, k), t) implies k < recs.len() && login::is_login(
        recs[k],
        user@,
    ) && t == login::record_time(recs[k]) by {
        law_records(utmp@, k);
        law_record(rec_at(utmp@, k), seq![], user@, seq![], t);
    }
    match r {
        Some(e) => {
            let rec = login::latest_on(recs, user@)->0;
            let i = choose|i: int|
                {
                    &&& 0 <= i < recs.len()
                    &&& #[trigger] recs[i] == rec
                    &&& login::is_login(rec, user@)
                    &&& login::record_time(rec) > 0
                    &&& forall|k: int|
                        0 <= k < recs.len() && login::is_login(#[trigger] recs[k], user@)
                            ==> login::record_time(recs[k]) <= login::record_time(rec) && (k < i
                            ==> login::record_time(recs[k]) < login::record_time(rec))
                };
            law_records(utmp@, i);
            law_record(rec, e.ut_line@, user@, e.ut_host@, e.ut_tv_sec as int);
            assert(rec_at(utmp@, i) == rec);
        },
        None => {},
    }
}

/// What the login records tell of a user on a terminal: the host of the record `i`, the first of a
/// login of the user on the terminal, goes to the client, and the host of the record `j`, the latest
/// of a login of the user, and its time go to the login, each behind what was known before.
pub proof fn law_login(
    l: Login,
    utmp: Seq<u8>,
    user: Seq<u8>,
    tty: Seq<u8>,
    tm: Tm,
    i: int,
    j: int,
    client: Seq<u8>,
    host: Seq<u8>,
    t: int,
)
    requires
        l.time.len() <= 64,
        l.ip.len() <= 64,
        l.client.len() <= 64,
        tty.len() > 0,
        0 <= i,
        384 * i + 384 <= utmp.len(),
        is_login(rec_at(utmp, i), user),
        holds(rec_at(utmp, i).subrange(8, 40), tty),
        holds(rec_at(utmp, i).subrange(76, 332), client),
        forall|k: int|
            0 <= k < i ==> !(is_login(#[trigger] rec_at(utmp, k), user) && holds(
                rec_at(utmp, k).subrange(8, 40),
                tty,
            )),
        0 <= j,
        384 * j + 384 <= utmp.len(),
        is_login(rec_at(utmp, j), user),
        holds(rec_at(utmp, j).subrange(76, 332), host),
        is_at(rec_at(utmp, j), t),
        t > 0,
        forall|k: int, u: int|
            0 <= k && 384 * k + 384 <= utmp.len() && is_login(rec_at(utmp, k), user)
                && #[trigger] is_at(rec_at(utmp, k), u) ==> u <= t && (k < j ==> u < t),
    ensures
        ({
            let known = l.with_records(utmp, user, tty, tm);
            &&& known.time == buf::clip(l.time + login::timestamp(tm), 64)
            &&& known.client == buf::clip(l.client + client, 64)
            &&& known.ip == buf::clip(l.ip + host, 64)
            &&& known.has_ip == (l.has_ip || host.len() > 0)
            &&& login::login_on(login::records(utmp), user, tty) is Some
        }),
{
    let recs = login::records(utmp);
    law_records(utmp, i);
    law_records(utmp, j);
    law_record(rec_at(utmp, i), tty, user, client, 0);
    law_record(rec_at(utmp, j), tty, user, host, t);
    login::lemma_login_on(recs, user, tty);
    login::lemma_latest_login(recs, user);
    assert(login::is_login(recs[i], user) && login::record_line(recs[i]) == tty);
    let on = login::login_on(recs, user, tty)->0;
    let a = choose|a: int|
        {
            &&& 0 <= a < recs.len()
            &&& #[trigger] recs[a] == on
            &&& login::is_login(on, user)
            &&& login::record_line(on) == tty
            &&& forall|k: int|
                0 <= k < a ==> !(login::is_login(#[trigger] recs[k], user) && login::record_line(
                    recs[k],
                ) == tty)
        };
    law_records(utmp, a);
    law_record(rec_at(utmp, a), tty, user, client, 0);
    assert(a == i);
    assert(login::is_login(recs[j], user) && login::record_time(recs[j]) == t);
    let best = login::latest_on(recs, user)->0;
    let b = choose|b: int|
        {
            &&& 0 <= b < recs.len()
            &&& #[trigger] recs[b] == best
            &&& login::is_login(best, user)
            &&& login::record_time(best) > 0
            &&& forall|k: int|
                0 <= k < recs.len() && login::is_login(#[trigger] recs[k], user)
                    ==> login::record_time(recs[k]) <= login::record_time(best) && (k < b
                    ==> login::record_time(recs[k]) < login::record_time(best))
        };
    law_records(utmp, b);
    let u = login::record_time(best);
    law_record(rec_at(utmp, b), tty, user, host, u);
    assert(is_at(rec_at(utmp, b), u));
    assert(b == j);
    if client.len() == 0 {
        assert(l.client + client =~= l.client);
    }
    if host.len() == 0 {
        assert(l.ip + host =~= l.ip);
    }
}

/// Without a login of the user on the terminal the records leave the client as it was, and without
/// a login after time 0 they leave the time and the address as they were.
pub proof fn law_no_login(l: Login, utmp: Seq<u8>, user: Seq<u8>, tty: Seq<u8>, tm: Tm)
    ensures
        (tty.len() == 0 || forall|k: int|
            0 <= k && 384 * k + 384 <= utmp.len() ==> !(is_login(#[trigger] rec_at(utmp, k), user)
                && holds(rec_at(utmp, k).subrange(8, 40), tty))) ==> {
            &&& l.with_records(utmp, user, tty, tm).client == l.client
            &&& login::login_on(login::records(utmp), user, tty) is None
        },
        (forall|k: int, t: int|
            0 <= k && 384 * k + 384 <= utmp.len() && is_login(rec_at(utmp, k), user)
                && #[trigger] is_at(rec_at(utmp, k), t) ==> t <= 0) ==> {
            let known = l.with_records(utmp, user, tty, tm);
            known.time == l.time && known.ip == l.ip && known.has_ip == l.has_ip
        },
{
    let recs = login::records(utmp);
    law_records(utmp, 0);
    login::lemma_latest_login(recs, user);
    if tty.len() > 0 {
        login::lemma_login_on(recs, user, tty);
        if login::login_on(recs, user, tty) is Some {
            let on = login::login_on(recs, user, tty)->0;
            let a = choose|a: int|
                {
                    &&& 0 <= a < recs.len()
                    &&& #[trigger] recs[a] == on
                    &&& login::is_login(on, user)
                    &&& login::record_line(on) == tty
                    &&& forall|k: int|
                        0 <= k < a ==> !(login::is_login(#[trigger] recs[k], user)
                            && login::record_line(recs[k]) == tty)
                };
            law_records(utmp, a);
            law_record(rec_at(utmp, a), tty, user, seq![], 0);
        }
    } else {
        lemma_no_terminal(recs, user, tty);
    }
    if login::latest_on(recs, user) is Some {
        let best = login::latest_on(recs, user)->0;
        let b = choose|b: int|
            {
                &&& 0 <= b < recs.len()
                &&& #[trigger] recs[b] == best
                &&& login::is_login(best, user)
                &&& login::record_time(best) > 0
                &&& forall|k: int|
                    0 <= k < recs.len() && login::is_login(#[trigger] recs[k], user)
                        ==> login::record_time(recs[k]) <= login::record_time(best) && (k < b
                        ==> login::record_time(recs[k]) < login::record_time(best))
            };
        law_records(utmp, b);
        let u = login::record_time(best);
        law_record(rec_at(utmp, b), tty, user, seq![], u);
        assert(is_at(rec_at(utmp, b), u));
    }
}

proof fn lemma_no_terminal(recs: Seq<Seq<u8>>, user: Seq<u8>, tty: Seq<u8>)
    requires
        tty.len() == 0,
    ensures
        login::login_on(recs, user, tty) is None,
    decreases recs.len(),
{
    if recs.len() > 0 {
        lemma_no_terminal(recs.drop_first(), user, tty);
    }
}

/// A session fills in what is unknown and nothing else: the time where there is none, and the
/// client where there is none, which is the host that the session came from or else its display.
/// What becomes the client becomes the address of the login too, but for an address that the
/// records told without a login on the terminal.
pub proof fn law_session_fills(l: Login, s: Session, tm: Tm, on_terminal: bool)
    ensures
        ({
            let k = l.with_session(s, tm, on_terminal);
            &&& s.usec == 0 ==> k == l
            &&& l.time.len() > 0 ==> k.time == l.time
            &&& l.time.len() == 0 && s.usec > 0 ==> k.time == buf::clip(login::timestamp(tm), 64)
            &&& l.client.len() > 0 ==> k.client == l.client && k.ip == l.ip && k.has_ip == l.has_ip
            &&& s.host.len() == 0 && s.display.len() == 0 ==> k.client == l.client && k.ip == l.ip
                && k.has_ip == l.has_ip
            &&& l.client.len() == 0 && s.usec > 0 && s.host.len() > 0 ==> k.client == s.host
                && k.has_ip
            &&& l.client.len() == 0 && s.usec > 0 && s.host.len() == 0 && s.display.len() > 0
                ==> k.client == s.display && k.has_ip
            &&& k.client != l.client ==> k.ip == (if l.has_ip && !on_terminal {
                l.ip
            } else {
                k.client
            })
        }),
{
}

/// What is unknown in the end is said to be, and nothing else changes.
pub proof fn law_defaults(l: Login)
    ensures
        ({
            let k = l.with_defaults();
            &&& k.ip == l.ip
            &&& k.has_ip == l.has_ip
            &&& l.time.len() > 0 ==> k.time == l.time
            &&& l.time.len() == 0 ==> k.time == encode_utf8("Unknown"@)
            &&& l.client.len() > 0 ==> k.client == l.client
            &&& l.client.len() == 0 ==> k.client == encode_utf8("Not connected"@)
        }),
{
    reveal_strlit("Unknown");
    reveal_strlit("Not connected");
    is_ascii_chars_encode_utf8("Unknown"@);
    is_ascii_chars_encode_utf8("Not connected"@);
}

/// A session file takes the place of the best session exactly where it is of the user, of no other
/// class than `user`, and began later.
pub proof fn law_later(best: Session, content: Seq<u8>, user: Seq<u8>)
    ensures
        ({
            let eq = '=' as u8;
            let of_user = scan::value_of(content, encode_utf8("USER"@), eq) == Some(user);
            let class = scan::value_of(content, encode_utf8("CLASS"@), eq);
            let realtime = scan::value_of(content, encode_utf8("REALTIME"@), eq);
            let host = scan::value_of(content, encode_utf8("REMOTE_HOST"@), eq);
            let display = scan::value_of(content, encode_utf8("DISPLAY"@), eq);
            let usec = if realtime is Some {
                scan::u64_value(realtime->0)
            } else {
                0
            };
            let k = login::later(best, content, user);
            &&& !of_user ==> k == best
            &&& class is Some && class->0 != encode_utf8("user"@) ==> k == best
            &&& usec <= best.usec ==> k == best
            &&& of_user && (class is None || class->0 == encode_utf8("user"@)) && usec > best.usec
                ==> {
                &&& k.usec == usec
                &&& host is Some ==> k.host == buf::clip(host->0, 64)
                &&& host is None ==> k.host.len() == 0
                &&& display is Some ==> k.display == buf::clip(display->0, 64)
                &&& display is None ==> k.display.len() == 0
            }
        }),
{
}

/// A call gives the whole seconds of the microseconds at which the latest session began.
pub proof fn law_seconds(scan: &SessionScan, r: i64)
    requires
        call_ensures(SessionScan::seconds, (scan,), r),
    ensures
        r * 1_000_000 <= scan@.usec < r * 1_000_000 + 1_000_000,
{
}

/// A call tells of exactly the names that begin with a dot or end with `.ref` that they are of no
/// session file.
pub proof fn law_session_file(name: &[u8], r: bool)
    requires
        call_ensures(is_session_file, (name,), r),
    ensures
        !r <==> (name@.len() > 0 && name@[0] == '.' as u8) || exists|a: Seq<u8>|
            name@ == #[trigger] (a + encode_utf8(".ref"@)),
{
    let dot = encode_utf8("."@);
    let end = encode_utf8(".ref"@);
    reveal_strlit(".");
    reveal_strlit(".ref");
    is_ascii_chars_encode_utf8("."@);
    is_ascii_chars_encode_utf8(".ref"@);
    assert(dot =~= seq!['.' as u8]);
    if name@.len() > 0 && name@[0] == '.' as u8 {
        assert(name@.take(1) =~= dot);
    }
    if scan::begins(name@, dot) {
        assert(name@[0] == name@.take(1)[0]);
    }
    let n = name@.len() - end.len();
    if n >= 0 && name@.skip(n) == end {
        assert(name@ =~= name@.take(n) + end);
    }
    if exists|a: Seq<u8>| name@ == #[trigger] (a + end) {
        let a = choose|a: Seq<u8>| name@ == #[trigger] (a + end);
        assert(name@.skip(n) =~= end);
    }
}

/// A call gives the path of a session file as a C string, of whose name it keeps 105 bytes.
pub proof fn law_session_path(name: &[u8], r: [u8; 128])
    requires
        call_ensures(session_path, (name,), r),
        text::without(name@, 0),
    ensures
        name@.len() <= 105 ==> sys::cstr(r@) == encode_utf8("/run/systemd/sessions/"@) + name@,
        name@.len() > 105 ==> sys::cstr(r@) == encode_utf8("/run/systemd/sessions/"@) + name@.take(
            105,
        ),
{
    reveal_strlit("/run/systemd/sessions/");
    is_ascii_chars_encode_utf8("/run/systemd/sessions/"@);
    let p = encode_utf8("/run/systemd/sessions/"@);
    let kept = if name@.len() <= 105 {
        name@
    } else {
        name@.take(105)
    };
    let s = p + kept;
    assert forall|k: int| 0 <= k < s.len() implies #[trigger] s[k] != 0 by {
        if k < p.len() {
            assert("/run/systemd/sessions/"@[k] as u8 == p[k]);
        } else {
            assert(name@[k - p.len()] != 0);
        }
    }
    assert(r@.take(s.len() as int) =~= s);
    lemma_holds(r@, s);
}

/// A call names the terminal without the directory of devices, and keeps 31 bytes of its name. A
/// path elsewhere is named in full, and no terminal has no name.
pub proof fn law_tty(path: Option<&[u8]>, r: [u8; 32], name: Seq<u8>)
    requires
        call_ensures(current_tty, (path,), r),
        text::without(name, 0),
    ensures
        path is None ==> sys::cstr(r@).len() == 0,
        path matches Some(p) ==> (p@ == encode_utf8("/dev/"@) + name || (p@ == name && !exists|
            t: Seq<u8>,
        |
            name == #[trigger] (encode_utf8("/dev/"@) + t))) ==> sys::cstr(r@) == (if name.len()
            <= 31 {
            name
        } else {
            name.take(31)
        }),
{
    let dev = encode_utf8("/dev/"@);
    reveal_strlit("/dev/");
    is_ascii_chars_encode_utf8("/dev/"@);
    if path is None {
        assert(r@[0] == 0);
        lemma_holds(r@, seq![]);
        assert(r@.take(0) =~= seq![]);
    }
    if let Some(p) = path {
        text::law_begins(p@, dev);
        if p@ == dev + name || (p@ == name && !exists|t: Seq<u8>|
            name == #[trigger] (dev + t)) {
            if p@ == dev + name {
                assert(p@.skip(5) =~= name);
                assert(p@.take(5) =~= dev);
            }
            let kept = if name.len() <= 31 {
                name
            } else {
                name.take(31)
            };
            assert(login::tty_of(p@) == kept);
            assert forall|k: int| 0 <= k < kept.len() implies #[trigger] kept[k] != 0 by {
                assert(name[k] != 0);
            }
            assert(r@.take(kept.len() as int) =~= kept);
            lemma_holds(r@, kept);
        }
    }
}

/// A call names the user that the environment names, in full up to 63 bytes, or else `unknown`.
pub proof fn law_user(env: Option<&[u8]>, b: Buf<64>)
    requires
        call_ensures(current_user, (env,), b),
    ensures
        env matches Some(u) ==> (u@.len() <= 63 ==> b@ == u@) && (u@.len() > 63 ==> b@ == u@.take(63)),
        env is None ==> b@ == encode_utf8("unknown"@),
{
}

/// The two bytes write `n`.
pub open spec fn two_at(s: Seq<u8>, i: int, n: int) -> bool {
    text::digits(s.subrange(i, i + 2)) && scan::number(s.subrange(i, i + 2)) == n
}

proof fn lemma_two_digits(n: i32)
    requires
        0 <= n < 100,
    ensures
        login::two_digits(n).len() == 2,
        text::digits(login::two_digits(n)),
        scan::number(login::two_digits(n)) == n,
{
    let d = buf::decimal(n as nat);
    text::law_decimal(n as nat);
    let s = login::two_digits(n);
    if n < 10 {
        assert(s =~= seq!['0' as u8, d[0]]);
        assert(s.drop_last() =~= seq!['0' as u8]);
        assert(d.drop_last() =~= seq![]);
        assert(seq!['0' as u8].drop_last() =~= seq![]);
        reveal_with_fuel(scan::number, 3);
        assert('0' as u8 <= d[0] <= '9' as u8);
    }
}

/// `t` writes a time: the first three letters of its month, the day in two digits, the year, and
/// the hour and the minute in two digits.
pub open spec fn writes_time(t: Seq<u8>, tm: Tm) -> bool {
    let n = t.len() - 13;
    let names = "JanFebMarAprMayJunJulAugSepOctNovDec"@;
    &&& n > 0
    &&& forall|k: int| 0 <= k < 3 ==> #[trigger] t[k] == names[3 * (tm.mon as int % 12) + k] as u8
    &&& t[3] == ' ' as u8
    &&& two_at(t, 4, tm.mday as int)
    &&& t[6] == ' ' as u8
    &&& text::digits(t.subrange(7, 7 + n))
    &&& scan::number(t.subrange(7, 7 + n)) == tm.year + 1900
    &&& t[7 + n] == ' ' as u8
    &&& two_at(t, 8 + n, tm.hour as int)
    &&& t[10 + n] == ':' as u8
    &&& two_at(t, 11 + n, tm.min as int)
}

/// A time is written as its month, day, year, hour and minute, in at most 23 bytes.
pub proof fn law_timestamp(tm: Tm)
    requires
        0 <= tm.mon,
        0 <= tm.mday < 100,
        -1900 <= tm.year <= 0x7fff_ffff - 1900,
        0 <= tm.hour < 100,
        0 <= tm.min < 100,
    ensures
        writes_time(login::timestamp(tm), tm),
        login::timestamp(tm).len() <= 23,
{
    let t = login::timestamp(tm);
    let n = t.len() - 13;
    let mon = tm.mon as int % 12;
    let month = encode_utf8(login::month_name(mon));
    lemma_month(mon);
    lemma_two_digits(tm.mday);
    lemma_two_digits(tm.hour);
    lemma_two_digits(tm.min);
    let year = buf::decimal((tm.year + 1900) as nat);
    text::law_decimal((tm.year + 1900) as nat);
    assert(pow(10, 10) == 10_000_000_000) by {
        reveal_with_fuel(pow, 11);
    }
    law_decimal_len((tm.year + 1900) as nat, 10);
    assert(t == month + seq![' ' as u8] + login::two_digits(tm.mday) + seq![' ' as u8] + year + seq![
        ' ' as u8,
    ] + login::two_digits(tm.hour) + seq![':' as u8] + login::two_digits(tm.min));
    assert(year.len() == n);
    assert forall|k: int| 0 <= k < 3 implies #[trigger] t[k]
        == "JanFebMarAprMayJunJulAugSepOctNovDec"@[3 * mon + k] as u8 by {
        assert(t[k] == month[k]);
    }
    assert(t.subrange(4, 6) =~= login::two_digits(tm.mday));
    assert(t.subrange(7, 7 + n) =~= year);
    assert(t.subrange(8 + n, 10 + n) =~= login::two_digits(tm.hour));
    assert(t.subrange(11 + n, 13 + n) =~= login::two_digits(tm.min));
}

/// Between its spaces and its colon a time has the month, the day, the year, the hour and the minute,
/// of which the numbers but the year have at least two digits, however large they are.
pub proof fn law_timestamp_fields(tm: Tm)
    requires
        0 <= tm.mon,
        0 <= tm.mday,
        -1900 <= tm.year <= 0x7fff_ffff - 1900,
        0 <= tm.hour,
        0 <= tm.min,
    ensures
        ({
            let parts = scan::split(login::timestamp(tm), ' ' as u8);
            let clock = scan::split(parts[3], ':' as u8);
            &&& parts.len() == 4
            &&& clock.len() == 2
            &&& parts[0].len() == 3
            &&& writes_wide(parts[1], tm.mday as int)
            &&& text::digits(parts[2])
            &&& scan::number(parts[2]) == tm.year + 1900
            &&& writes_wide(clock[0], tm.hour as int)
            &&& writes_wide(clock[1], tm.min as int)
        }),
{
    let (sp, co) = (' ' as u8, ':' as u8);
    let mon = tm.mon as int % 12;
    let month = encode_utf8(login::month_name(mon));
    let year = buf::decimal((tm.year + 1900) as nat);
    let (d, h, m) = (
        login::two_digits(tm.mday),
        login::two_digits(tm.hour),
        login::two_digits(tm.min),
    );
    lemma_month(mon);
    lemma_wide(tm.mday);
    lemma_wide(tm.hour);
    lemma_wide(tm.min);
    text::law_decimal((tm.year + 1900) as nat);
    let clock = seq![h, m];
    let parts = seq![month, d, year, scan::join(clock, co)];
    reveal_with_fuel(scan::join, 5);
    assert(clock.drop_first() =~= seq![m]);
    assert(parts.drop_first() =~= seq![d, year, parts[3]]);
    assert(parts.drop_first().drop_first() =~= seq![year, parts[3]]);
    assert(parts.drop_first().drop_first().drop_first() =~= seq![parts[3]]);
    assert(parts[3] =~= h + seq![co] + m);
    assert(login::timestamp(tm) =~= scan::join(parts, sp));
    lemma_digits_without(d);
    lemma_digits_without(year);
    lemma_digits_without(h);
    lemma_digits_without(m);
    assert forall|k: int| 0 <= k < parts[3].len() implies #[trigger] parts[3][k] != sp by {
        if k < h.len() {
            assert(h[k] != sp);
        } else if k > h.len() {
            assert(m[k - h.len() - 1] != sp);
        }
    }
    assert forall|k: int| 0 <= k < month.len() implies #[trigger] month[k] != sp by {
        reveal_strlit("JanFebMarAprMayJunJulAugSepOctNovDec");
    }
    text::law_split(parts, sp);
    text::law_split(clock, co);
}

/// Two or more digits write `n`.
pub open spec fn writes_wide(s: Seq<u8>, n: int) -> bool {
    s.len() >= 2 && text::digits(s) && scan::number(s) == n
}

proof fn lemma_wide(n: i32)
    requires
        0 <= n,
    ensures
        writes_wide(login::two_digits(n), n as int),
{
    if n < 100 {
        lemma_two_digits(n);
    } else {
        text::law_decimal(n as nat);
        reveal_with_fuel(buf::decimal, 2);
    }
}

proof fn lemma_digits_without(s: Seq<u8>)
    requires
        text::digits(s),
    ensures
        text::without(s, ' ' as u8),
        text::without(s, ':' as u8),
{
    assert forall|k: int| 0 <= k < s.len() implies #[trigger] s[k] != ' ' as u8 && s[k]
        != ':' as u8 by {
        assert('0' as u8 <= s[k] <= '9' as u8);
    }
}

proof fn lemma_month(i: int)
    requires
        0 <= i < 12,
    ensures
        encode_utf8(login::month_name(i)).len() == 3,
        forall|k: int|
            0 <= k < 3 ==> #[trigger] encode_utf8(login::month_name(i))[k]
                == "JanFebMarAprMayJunJulAugSepOctNovDec"@[3 * i + k] as u8,
{
    reveal_strlit("JanFebMarAprMayJunJulAugSepOctNovDec");
    reveal_strlit("Jan");
    reveal_strlit("Feb");
    reveal_strlit("Mar");
    reveal_strlit("Apr");
    reveal_strlit("May");
    reveal_strlit("Jun");
    reveal_strlit("Jul");
    reveal_strlit("Aug");
    reveal_strlit("Sep");
    reveal_strlit("Oct");
    reveal_strlit("Nov");
    reveal_strlit("Dec");
    is_ascii_chars_encode_utf8(login::month_name(i));
    let m = login::month_name(i);
    assert forall|k: int| 0 <= k < 3 implies #[trigger] encode_utf8(m)[k]
        == "JanFebMarAprMayJunJulAugSepOctNovDec"@[3 * i + k] as u8 by {
        assert(m[k] as u8 == encode_utf8(m)[k]);
    }
}

/// A part of an uptime: what its digits write, before the letter of its unit.
pub open spec fn part(piece: Seq<u8>, unit: char) -> bool {
    &&& piece.len() > 1
    &&& piece.last() == unit as u8
    &&& text::digits(piece.drop_last())
}

/// `t` writes an uptime of `mins` minutes: the numbers in it, of which a part that is left out counts
/// as 0, make them up. The parts are the minutes, before them the hours, and before these the days;
/// the first part is left out only where it would be 0, the minutes never.
pub open spec fn writes_uptime(t: Seq<u8>, mins: nat) -> bool {
    let parts = scan::split(t, ' ' as u8);
    let n = parts.len() as int;
    let m = scan::number(parts[n - 1].drop_last());
    let h = if n >= 2 {
        scan::number(parts[n - 2].drop_last())
    } else {
        0
    };
    let d = if n >= 3 {
        scan::number(parts[n - 3].drop_last())
    } else {
        0
    };
    &&& 1 <= n <= 3
    &&& part(parts[n - 1], 'm')
    &&& n >= 2 ==> part(parts[n - 2], 'h')
    &&& n >= 3 ==> part(parts[n - 3], 'd')
    &&& n == 2 ==> h > 0
    &&& n == 3 ==> d > 0
    &&& m < 60
    &&& h < 24
    &&& d * 1440 + h * 60 + m == mins
}

/// An uptime is written as its whole minutes.
pub proof fn law_uptime(secs: nat)
    ensures
        writes_uptime(login::uptime_text(secs), secs / 60),
{
    let days = secs / 86400;
    let hours = secs % 86400 / 3600;
    let mins = secs % 3600 / 60;
    let d = buf::decimal(days).push('d' as u8);
    let h = buf::decimal(hours).push('h' as u8);
    let m = buf::decimal(mins).push('m' as u8);
    let t = login::uptime_text(secs);
    let sp = seq![' ' as u8];
    reveal_strlit("d ");
    reveal_strlit("h ");
    is_ascii_chars_encode_utf8("d "@);
    is_ascii_chars_encode_utf8("h "@);
    assert(encode_utf8("d "@) =~= seq!['d' as u8, ' ' as u8]);
    assert(encode_utf8("h "@) =~= seq!['h' as u8, ' ' as u8]);
    assert(days * 1440 + hours * 60 + mins == secs / 60);
    if days > 0 {
        assert(t =~= d + sp + h + sp + m);
        lemma_three_parts(days, hours, mins);
    } else if hours > 0 {
        assert(t =~= h + sp + m);
        lemma_two_parts(hours, mins);
    } else {
        assert(t =~= m);
        lemma_one_part(mins);
    }
}

proof fn lemma_one_part(mins: nat)
    requires
        mins < 60,
    ensures
        writes_uptime(buf::decimal(mins).push('m' as u8), mins),
{
    let m = buf::decimal(mins).push('m' as u8);
    lemma_part(mins, 'm');
    text::law_split(seq![m], ' ' as u8);
    assert(scan::join(seq![m], ' ' as u8) == m);
}

proof fn lemma_two_parts(hours: nat, mins: nat)
    requires
        0 < hours < 24,
        mins < 60,
    ensures
        writes_uptime(
            buf::decimal(hours).push('h' as u8) + seq![' ' as u8] + buf::decimal(mins).push(
                'm' as u8,
            ),
            (hours * 60 + mins) as nat,
        ),
{
    let h = buf::decimal(hours).push('h' as u8);
    let m = buf::decimal(mins).push('m' as u8);
    lemma_part(hours, 'h');
    lemma_part(mins, 'm');
    text::law_split(seq![h, m], ' ' as u8);
    assert(scan::join(seq![h, m], ' ' as u8) == h + seq![' ' as u8] + m) by {
        reveal_with_fuel(scan::join, 2);
        assert(seq![h, m].drop_first() =~= seq![m]);
    }
}

proof fn lemma_three_parts(days: nat, hours: nat, mins: nat)
    requires
        days > 0,
        hours < 24,
        mins < 60,
    ensures
        writes_uptime(
            buf::decimal(days).push('d' as u8) + seq![' ' as u8] + buf::decimal(hours).push(
                'h' as u8,
            ) + seq![' ' as u8] + buf::decimal(mins).push('m' as u8),
            (days * 1440 + hours * 60 + mins) as nat,
        ),
{
    let d = buf::decimal(days).push('d' as u8);
    let h = buf::decimal(hours).push('h' as u8);
    let m = buf::decimal(mins).push('m' as u8);
    let sp = seq![' ' as u8];
    lemma_part(days, 'd');
    lemma_part(hours, 'h');
    lemma_part(mins, 'm');
    text::law_split(seq![d, h, m], ' ' as u8);
    assert(scan::join(seq![d, h, m], ' ' as u8) == d + sp + h + sp + m) by {
        reveal_with_fuel(scan::join, 3);
        assert(seq![d, h, m].drop_first() =~= seq![h, m]);
        assert(seq![h, m].drop_first() =~= seq![m]);
        assert(d + sp + (h + sp + m) =~= d + sp + h + sp + m);
    }
}

proof fn lemma_part(n: nat, unit: char)
    requires
        unit == 'd' || unit == 'h' || unit == 'm',
    ensures
        ({
            let p = buf::decimal(n).push(unit as u8);
            &&& part(p, unit)
            &&& text::without(p, ' ' as u8)
            &&& scan::number(p.drop_last()) == n
        }),
{
    text::law_decimal(n);
    let p = buf::decimal(n).push(unit as u8);
    assert(p.drop_last() =~= buf::decimal(n));
    assert forall|k: int| 0 <= k < p.len() implies #[trigger] p[k] != ' ' as u8 by {
        if k < buf::decimal(n).len() {
            assert('0' as u8 <= buf::decimal(n)[k] <= '9' as u8);
        }
    }
}

/// A number below a power of ten has no more digits than that has zeros.
pub proof fn law_decimal_len(n: nat, k: nat)
    requires
        k > 0,
        n < pow(10, k),
    ensures
        buf::decimal(n).len() <= k,
    decreases k,
{
    reveal(pow);
    if n >= 10 {
        if k == 1 {
            assert(pow(10, 0) == 1);
            assert(pow(10, 1) == 10);
        } else {
            law_decimal_len(n / 10, (k - 1) as nat);
        }
    }
}

/// No uptime is cut off: it always fits into its buffer.
pub proof fn law_uptime_fits(secs: u64)
    ensures
        buf::clip(login::uptime_text(secs as nat), 32) == login::uptime_text(secs as nat),
{
    let n = secs as nat;
    reveal_strlit("d ");
    reveal_strlit("h ");
    is_ascii_chars_encode_utf8("d "@);
    is_ascii_chars_encode_utf8("h "@);
    assert(pow(10, 15) == 1_000_000_000_000_000 && pow(10, 2) == 100) by {
        reveal_with_fuel(pow, 16);
    }
    law_decimal_len(n / 86400, 15);
    law_decimal_len(n % 86400 / 3600, 2);
    law_decimal_len(n % 3600 / 60, 2);
}

/// A call writes an uptime whose numbers, read from the buffer, make up its whole minutes.
pub proof fn law_uptime_call(b: &mut Buf<32>, secs: u64)
    requires
        call_ensures(push_uptime::<32>, (b, secs), ()),
        old(b)@.len() == 0,
    ensures
        writes_uptime(final(b)@, secs as nat / 60),
{
    law_uptime(secs as nat);
    law_uptime_fits(secs);
    assert(old(b)@ + login::uptime_text(secs as nat) =~= login::uptime_text(secs as nat));
}

/// A call writes a time in full behind what the buffer holds, where that leaves room for it.
pub proof fn law_timestamp_call(tm: &Tm, b: &mut Buf<64>)
    requires
        call_ensures(format_timestamp::<64>, (tm, b), ()),
        old(b)@.len() <= 41,
        0 <= tm.mon,
        0 <= tm.mday < 100,
        -1900 <= tm.year <= 0x7fff_ffff - 1900,
        0 <= tm.hour < 100,
        0 <= tm.min < 100,
    ensures
        exists|t: Seq<u8>| #[trigger] writes_time(t, *tm) && final(b)@ == old(b)@ + t,
{
    law_timestamp(*tm);
}

/// A call on a blank report and the records of a user on a terminal: the host of the first login of
/// the user on the terminal is the client, the host of the latest login of the user is the address
/// of the login, and its time is the time of the login.
pub proof fn law_collect_login(
    data: &mut LoginData,
    client_ip: &mut Buf<64>,
    utmp: &[u8],
    tty: &[u8],
    user: &[u8],
    tm: &Tm,
    found: Lookup,
    i: int,
    j: int,
    client: Seq<u8>,
    host: Seq<u8>,
    t: int,
)
    requires
        call_ensures(collect_login, (data, client_ip, utmp, tty, user, tm), found),
        old(data).time@.len() == 0,
        old(data).ip@.len() == 0,
        !old(data).has_ip,
        old(client_ip)@.len() == 0,
        sys::cstr(tty@).len() > 0,
        0 <= i,
        384 * i + 384 <= utmp@.len(),
        is_login(rec_at(utmp@, i), user@),
        holds(rec_at(utmp@, i).subrange(8, 40), sys::cstr(tty@)),
        holds(rec_at(utmp@, i).subrange(76, 332), client),
        forall|k: int|
            0 <= k < i ==> !(is_login(#[trigger] rec_at(utmp@, k), user@) && holds(
                rec_at(utmp@, k).subrange(8, 40),
                sys::cstr(tty@),
            )),
        0 <= j,
        384 * j + 384 <= utmp@.len(),
        is_login(rec_at(utmp@, j), user@),
        holds(rec_at(utmp@, j).subrange(76, 332), host),
        is_at(rec_at(utmp@, j), t),
        t > 0,
        forall|k: int, u: int|
            0 <= k && 384 * k + 384 <= utmp@.len() && is_login(rec_at(utmp@, k), user@)
                && #[trigger] is_at(rec_at(utmp@, k), u) ==> u <= t && (k < j ==> u < t),
    ensures
        final(data).time@ == buf::clip(login::timestamp(*tm), 64),
        final(client_ip)@ == buf::clip(client, 64),
        final(data).ip@ == buf::clip(host, 64),
        final(data).has_ip <==> host.len() > 0,
        found.on_terminal,
        found.more <==> client.len() == 0,
        final(data).uptime == old(data).uptime,
{
    law_login(
        login::login_of(*old(data), *old(client_ip)),
        utmp@,
        user@,
        sys::cstr(tty@),
        *tm,
        i,
        j,
        client,
        host,
        t,
    );
    assert(login::timestamp(*tm).len() > 0);
    assert(old(data).time@ + login::timestamp(*tm) =~= login::timestamp(*tm));
    assert(old(client_ip)@ + client =~= client);
    assert(old(data).ip@ + host =~= host);
}

/// A call on records that hold no login of the user leaves all as it was, and asks for the session
/// files where something is unknown.
pub proof fn law_collect_no_login(
    data: &mut LoginData,
    client_ip: &mut Buf<64>,
    utmp: &[u8],
    tty: &[u8],
    user: &[u8],
    tm: &Tm,
    found: Lookup,
)
    requires
        call_ensures(collect_login, (data, client_ip, utmp, tty, user, tm), found),
        forall|k: int|
            0 <= k && 384 * k + 384 <= utmp@.len() ==> !is_login(#[trigger] rec_at(utmp@, k), user@),
    ensures
        final(data).time@ == old(data).time@,
        final(data).ip@ == old(data).ip@,
        final(data).has_ip == old(data).has_ip,
        final(client_ip)@ == old(client_ip)@,
        !found.on_terminal,
        found.more <==> old(data).time@.len() == 0 || old(client_ip)@.len() == 0,
{
    let l = login::login_of(*old(data), *old(client_ip));
    law_no_login(l, utmp@, user@, sys::cstr(tty@), *tm);
}

/// A call fills in from a session what is unknown, and no more.
pub proof fn law_finish(
    scan: &SessionScan,
    data: &mut LoginData,
    client_ip: &mut Buf<64>,
    tm: &Tm,
    on_terminal: bool,
)
    requires
        call_ensures(SessionScan::finish, (scan, data, client_ip, tm, on_terminal), ()),
    ensures
        ({
            let s = scan@;
            let from = if s.host.len() > 0 {
                s.host
            } else {
                s.display
            };
            let fills = s.usec > 0 && old(client_ip)@.len() == 0 && from.len() > 0;
            &&& old(data).time@.len() > 0 || s.usec == 0 ==> final(data).time@ == old(data).time@
            &&& old(data).time@.len() == 0 && s.usec > 0 ==> final(data).time@ == buf::clip(
                login::timestamp(*tm),
                64,
            )
            &&& fills ==> final(client_ip)@ == from && final(data).has_ip
            &&& fills && (on_terminal || !old(data).has_ip) ==> final(data).ip@ == from
            &&& fills && !on_terminal && old(data).has_ip ==> final(data).ip@ == old(data).ip@
            &&& !fills ==> final(client_ip)@ == old(client_ip)@ && final(data).ip@ == old(data).ip@
                && final(data).has_ip == old(data).has_ip
            &&& final(data).uptime == old(data).uptime
        }),
{
}

/// A call says of what is unknown that it is, and changes nothing else.
pub proof fn law_finish_login(data: &mut LoginData, client_ip: &mut Buf<64>)
    requires
        call_ensures(finish_login, (data, client_ip), ()),
    ensures
        old(data).time@.len() > 0 ==> final(data).time@ == old(data).time@,
        old(data).time@.len() == 0 ==> final(data).time@ == encode_utf8("Unknown"@),
        old(client_ip)@.len() > 0 ==> final(client_ip)@ == old(client_ip)@,
        old(client_ip)@.len() == 0 ==> final(client_ip)@ == encode_utf8("Not connected"@),
        final(data).ip@ == old(data).ip@,
        final(data).has_ip == old(data).has_ip,
        final(data).uptime == old(data).uptime,
{
    law_defaults(login::login_of(*old(data), *old(client_ip)));
}

/// A search begins with no session, and a call takes a session file for the best exactly where it
/// is of the user, of no other class than `user`, and began later.
pub proof fn law_offer(scan: &mut SessionScan, content: &[u8], user: &[u8], fresh: SessionScan)
    ensures
        call_ensures(SessionScan::new, (), fresh) ==> fresh@.usec == 0 && fresh@.host.len() == 0
            && fresh@.display.len() == 0,
        call_ensures(SessionScan::offer, (scan, content, user), ()) ==> {
            let eq = '=' as u8;
            let of_user = scan::value_of(content@, encode_utf8("USER"@), eq) == Some(user@);
            let class = scan::value_of(content@, encode_utf8("CLASS"@), eq);
            let realtime = scan::value_of(content@, encode_utf8("REALTIME"@), eq);
            let host = scan::value_of(content@, encode_utf8("REMOTE_HOST"@), eq);
            let display = scan::value_of(content@, encode_utf8("DISPLAY"@), eq);
            let usec = if realtime is Some {
                scan::u64_value(realtime->0)
            } else {
                0
            };
            let taken = of_user && (class is None || class->0 == encode_utf8("user"@)) && usec
                > old(scan)@.usec;
            &&& !taken ==> final(scan)@ == old(scan)@
            &&& taken ==> {
                &&& final(scan)@.usec == usec
                &&& host is Some ==> final(scan)@.host == buf::clip(host->0, 64)
                &&& host is None ==> final(scan)@.host.len() == 0
                &&& display is Some ==> final(scan)@.display == buf::clip(display->0, 64)
                &&& display is None ==> final(scan)@.display.len() == 0
            }
        },
{
    law_later(old(scan)@, content@, user@);
}

} // verus!
