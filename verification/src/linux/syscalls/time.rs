//! System calls that tell the time.
use std::time::{Instant, SystemTime};
use vstd::prelude::*;
use crate::backend::{
    law_write_then_read, lemma_half_inside, lemma_word_apart, lemma_word_inside,
    Backend, Machine, RegisterARM64,
};
use crate::emulator::state::{refuse, AndroidEmulator};
use crate::le::{le64, le_i32, put_le64, put_le_i32};
use crate::linux::errno::Errno;
use crate::linux::syscalls::files::refused;
use crate::linux::thread::{clock_seconds, clock_showed, epoch_secs, ClockError};
use crate::num::{bits_of_i64, to_bits_i64};
use crate::outside::{
    duration_nanos, duration_secs, elapsed_between, epoch_distance, local_now, since_epoch,
};

verus! {

/// A pair of words as the guest keeps times in: seconds, and what is left of a second.
pub open spec fn time_bytes(sec: u64, rest: u64) -> Seq<u8> {
    le64(sec) + le64(rest)
}

fn put_time(sec: u64, rest: u64) -> (v: Vec<u8>)
    ensures
        v@ == time_bytes(sec, rest),
{
    let mut v = put_le64(sec);
    v.extend_from_slice(put_le64(rest).as_slice());
    assert(v@ =~= time_bytes(sec, rest));
    v
}

/// The time zone that every guest is in: eight hours ahead, without summer time.
pub open spec fn zone_bytes() -> Seq<u8> {
    le_i32(-480i32) + le_i32(0)
}

/// The machine that was told the time of day: the seconds and nanoseconds at `X0` and
/// the time zone at `X1`, each where the address is not zero.
pub open spec fn day_told(m: Machine, sec: i64, nanos: u32) -> Machine {
    let tv = m.reg(RegisterARM64::X0);
    let tz = m.reg(RegisterARM64::X1);
    let told = if tv != 0 {
        m.write(tv as int, time_bytes(bits_of_i64(sec), nanos as u64))
    } else {
        m
    };
    (if tz != 0 {
        told.write(tz as int, zone_bytes())
    } else {
        told
    }).ret(0)
}

/// There is room for the time of day.
pub open spec fn day_fits(m: Machine) -> bool {
    let tv = m.reg(RegisterARM64::X0);
    let tz = m.reg(RegisterARM64::X1);
    &&& tv != 0 ==> m.mapped(tv as int, 16)
    &&& tz != 0 ==> m.mapped(tz as int, 8)
}

/// Tell the guest that it is `sec` seconds and `nanos` nanoseconds after the epoch.
pub fn tell_day(backend: &mut Backend, sec: i64, nanos: u32)
    requires
        day_fits(old(backend)@),
    ensures
        final(backend)@ == day_told(old(backend)@, sec, nanos),
{
    let tv: u64 = backend.reg_read(RegisterARM64::X0);
    let tz: u64 = backend.reg_read(RegisterARM64::X1);
    if tv != 0 {
        let time = put_time(to_bits_i64(sec), nanos as u64);
        backend.mem_write(tv, time.as_slice()).unwrap();
    }
    if tz != 0 {
        let mut zone = put_le_i32(-480);
        zone.extend_from_slice(put_le_i32(0).as_slice());
        assert(zone@ =~= zone_bytes());
        backend.mem_write(tz, zone.as_slice()).unwrap();
    }
    backend.reg_write_i64(RegisterARM64::X0, 0);
}

/// The host's clock was read for the time of day, and it showed this many seconds and
/// nanoseconds.
pub closed spec fn day_showed(sec: i64, nanos: u32) -> bool {
    call_ensures(local_now, (), (sec, nanos))
}

/// The time of day that was shown is what a reading of the host's clock gave.
pub(crate) proof fn law_day_is_read(sec: i64, nanos: u32)
    requires
        day_showed(sec, nanos),
    ensures
        call_ensures(local_now, (), (sec, nanos)),
{
}

/// What asking for the time of day leads to.
pub open spec fn day_asked(m: Machine, m2: Machine, r: Result<(), ClockError>) -> bool {
    &&& exists|t: SystemTime|
        clock_showed(t) && (r is Err) == (m.reg(RegisterARM64::X0) != 0 && #[trigger] epoch_secs(
            t,
        ) is None)
    &&& r is Err ==> m2 == m
    &&& r is Ok ==> exists|sec: i64, nanos: u32|
        {
            &&& nanos < 2_000_000_000
            &&& m.reg(RegisterARM64::X0) != 0 ==> day_showed(sec, nanos)
            &&& m2 == #[trigger] day_told(m, sec, nanos)
        }
}

/// The time of day, by the host's clock. A clock that stands before the epoch cannot be
/// told, which matters only where the guest asks for the time.
pub fn syscall_gettimeofday(backend: &mut Backend, emulator: &AndroidEmulator) -> (r: Result<
    (),
    ClockError,
>)
    requires
        day_fits(old(backend)@),
    ensures
        day_asked(old(backend)@, final(backend)@, r),
{
    let now = clock_seconds();
    let (sec, nanos) = if backend.reg_read(RegisterARM64::X0) != 0 {
        if now.is_none() {
            return Err(ClockError);
        }
        local_now()
    } else {
        (0, 0)
    };
    tell_day(backend, sec, nanos);
    Ok(())
}

/// How the guest's clocks are numbered.
#[derive(Clone, Copy, Debug, PartialEq, Eq, Structural)]
pub enum ClockKind {
    /// The wall clock, eight hours ahead, in microseconds.
    Realtime,
    /// Time since the clock was first asked.
    Steady,
    /// The part of the steady clock below a second.
    ThreadCpu,
    /// The wall clock.
    RealtimeCoarse,
    Unknown,
}

/// The clock with number `id`.
pub open spec fn clock_kind(id: i32) -> ClockKind {
    if id == 0 {
        ClockKind::Realtime
    } else if id == 1 || id == 4 || id == 6 || id == 7 {
        ClockKind::Steady
    } else if id == 3 {
        ClockKind::ThreadCpu
    } else if id == 5 {
        ClockKind::RealtimeCoarse
    } else {
        ClockKind::Unknown
    }
}

/// The clock with number `id`.
pub fn kind_of_clock(id: i32) -> (r: ClockKind)
    ensures
        r == clock_kind(id),
{
    if id == 0 {
        ClockKind::Realtime
    } else if id == 1 || id == 4 || id == 6 || id == 7 {
        ClockKind::Steady
    } else if id == 3 {
        ClockKind::ThreadCpu
    } else if id == 5 {
        ClockKind::RealtimeCoarse
    } else {
        ClockKind::Unknown
    }
}

/// What the guest is told where a host clock shows `secs` seconds and `nanos`
/// nanoseconds.
pub open spec fn clock_bytes(kind: ClockKind, secs: u64, nanos: u32) -> Seq<u8> {
    match kind {
        ClockKind::Realtime => time_bytes((secs + 28800) as u64, (nanos / 1000) as u64),
        ClockKind::ThreadCpu => time_bytes(0, nanos as u64),
        _ => time_bytes(secs, nanos as u64),
    }
}

/// The clock that `X0` numbers.
pub open spec fn asked_clock(m: Machine) -> ClockKind {
    clock_kind(m.reg_i32(RegisterARM64::X0))
}

/// The wall clock can be told to the guest: for the clock that runs ahead, the
/// seconds stay below the limit of a word.
pub open spec fn can_tell(kind: ClockKind, secs: u64) -> bool {
    kind == ClockKind::Realtime ==> secs + 28800 <= u64::MAX
}

/// Tell the guest what the clock that it asked for shows. `reading` is what the host's
/// clock of that kind shows: seconds and nanoseconds, or nothing where the wall clock
/// stands before the epoch.
pub fn tell_clock(
    backend: &mut Backend,
    emulator: &mut AndroidEmulator,
    reading: Option<(u64, u32)>,
)
    requires
        ({
            let kind = asked_clock(old(backend)@);
            match reading {
                Some((secs, _)) => kind != ClockKind::Unknown ==> can_tell(kind, secs)
                    && old(backend)@.mapped(old(backend)@.reg(RegisterARM64::X1) as int, 16),
                None => kind == ClockKind::RealtimeCoarse || kind == ClockKind::Unknown,
            }
        }),
    ensures
        ({
            let m = old(backend)@;
            let e = *old(emulator);
            match reading {
                Some((secs, nanos)) if asked_clock(m) != ClockKind::Unknown => {
                    &&& final(backend)@ == m.write(
                        m.reg(RegisterARM64::X1) as int,
                        clock_bytes(asked_clock(m), secs, nanos),
                    ).ret(0)
                    &&& *final(emulator) == e
                },
                _ => refused(m, e, final(backend)@, *final(emulator), Errno::EINVAL),
            }
        }),
{
    let kind = kind_of_clock(backend.reg_read_i32(RegisterARM64::X0));
    let tp: u64 = backend.reg_read(RegisterARM64::X1);
    let (secs, nanos) = match reading {
        Some(r) => r,
        None => {
            refuse(backend, emulator, Errno::EINVAL);
            return ;
        },
    };
    let time = match kind {
        ClockKind::Realtime => put_time(secs + 8 * 3600, (nanos / 1000) as u64),
        ClockKind::Steady => put_time(secs, nanos as u64),
        ClockKind::ThreadCpu => put_time(0, nanos as u64),
        ClockKind::RealtimeCoarse => put_time(secs, nanos as u64),
        ClockKind::Unknown => {
            refuse(backend, emulator, Errno::EINVAL);
            return ;
        },
    };
    backend.mem_write(tp, time.as_slice()).unwrap();
    backend.reg_write_i64(RegisterARM64::X0, 0);
}

/// What a clock call leads to, where the host's clock shows `reading`.
pub open spec fn clock_told(
    m: Machine,
    e: AndroidEmulator,
    m2: Machine,
    e2: AndroidEmulator,
    reading: Option<(u64, u32)>,
) -> bool {
    match reading {
        Some((secs, nanos)) if asked_clock(m) != ClockKind::Unknown => {
            &&& nanos < 1_000_000_000
            &&& can_tell(asked_clock(m), secs)
            &&& m2 == m.write(
                m.reg(RegisterARM64::X1) as int,
                clock_bytes(asked_clock(m), secs, nanos),
            ).ret(0)
            &&& e2 == e
        },
        _ => refused(m, e, m2, e2, Errno::EINVAL),
    }
}

/// The steady clocks are asked for.
pub open spec fn asks_steady(kind: ClockKind) -> bool {
    kind == ClockKind::Steady || kind == ClockKind::ThreadCpu
}

/// What the wall clock shows at an instant: seconds and nanoseconds since the epoch.
pub open spec fn wall_reading(t: SystemTime) -> Option<(u64, u32)> {
    match epoch_distance(t) {
        Ok(d) => Some((duration_secs(d), duration_nanos(d))),
        Err(_) => None,
    }
}

/// What a steady clock that began at `start` shows at `now`.
pub open spec fn steady_reading(start: Instant, now: Instant) -> Option<(u64, u32)> {
    let d = elapsed_between(now, start);
    Some((duration_secs(d), duration_nanos(d)))
}

/// The wall clock cannot be told to the guest: it stands before the epoch, or too far
/// after it. Only the clock that runs ahead needs it.
pub open spec fn clock_unusable(kind: ClockKind, reading: Option<(u64, u32)>) -> bool {
    kind == ClockKind::Realtime && match reading {
        Some((secs, _)) => !can_tell(kind, secs),
        None => true,
    }
}

/// What asking for a wall clock leads to, where it shows `reading`.
pub open spec fn wall_clock_told(
    m: Machine,
    e: AndroidEmulator,
    m2: Machine,
    e2: AndroidEmulator,
    reading: Option<(u64, u32)>,
    r: Result<(), ClockError>,
) -> bool {
    if clock_unusable(asked_clock(m), reading) {
        r is Err && m2 == m && e2 == e
    } else {
        r is Ok && clock_told(m, e, m2, e2, reading)
    }
}

/// What asking for a steady clock at the instant `now` leads to.
pub open spec fn steady_clock_told(
    m: Machine,
    e: AndroidEmulator,
    m2: Machine,
    e2: AndroidEmulator,
    now: Instant,
) -> bool {
    clock_told(
        m,
        AndroidEmulator { clock_start: e2.clock_start, ..e },
        m2,
        e2,
        steady_reading(e2.clock_start->0, now),
    )
}

/// The host's steady clock was read, and it showed `i`.
pub open spec fn steady_showed(i: Instant) -> bool {
    call_ensures(Instant::now, (), i)
}

/// What asking for a clock leads to.
pub open spec fn clock_asked(
    m: Machine,
    e: AndroidEmulator,
    m2: Machine,
    e2: AndroidEmulator,
    r: Result<(), ClockError>,
) -> bool {
    let kind = asked_clock(m);
    if kind == ClockKind::Unknown {
        r is Ok && refused(m, e, m2, e2, Errno::EINVAL)
    } else if asks_steady(kind) {
        &&& r is Ok
        &&& e2.clock_start is Some
        &&& e.clock_start is Some ==> e2.clock_start == e.clock_start
        &&& e.clock_start is None ==> steady_showed(e2.clock_start->0)
        &&& exists|now: Instant|
            steady_showed(now) && #[trigger] steady_clock_told(m, e, m2, e2, now)
    } else {
        exists|t: SystemTime|
            clock_showed(t) && wall_clock_told(m, e, m2, e2, #[trigger] wall_reading(t), r)
    }
}

/// What the clock `X0` shows, stored at `X1`. The steady clocks start when they are
/// first asked. No answer is possible where the wall clock is asked and stands before
/// the epoch, or too far after it.
pub fn syscall_clock_gettime(backend: &mut Backend, emulator: &mut AndroidEmulator) -> (r: Result<
    (),
    ClockError,
>)
    requires
        asked_clock(old(backend)@) != ClockKind::Unknown ==> old(backend)@.mapped(
            old(backend)@.reg(RegisterARM64::X1) as int,
            16,
        ),
    ensures
        clock_asked(old(backend)@, *old(emulator), final(backend)@, *final(emulator), r),
{
    let kind = kind_of_clock(backend.reg_read_i32(RegisterARM64::X0));
    let ghost m = backend@;
    match kind {
        ClockKind::Unknown => {
            tell_clock(backend, emulator, None);
            Ok(())
        },
        ClockKind::Realtime | ClockKind::RealtimeCoarse => {
            let t = SystemTime::now();
            let reading = match since_epoch(t) {
                Ok(d) => Some((d.as_secs(), d.subsec_nanos())),
                Err(_) => None,
            };
            assert(reading == wall_reading(t));
            if kind == ClockKind::Realtime {
                match reading {
                    None => {
                        return Err(ClockError);
                    },
                    Some((secs, _)) => {
                        if secs > u64::MAX - 28800 {
                            return Err(ClockError);
                        }
                    },
                }
            }
            tell_clock(backend, emulator, reading);
            assert(clock_told(m, *old(emulator), backend@, *emulator, wall_reading(t)));
            Ok(())
        },
        ClockKind::Steady | ClockKind::ThreadCpu => {
            let start = match emulator.clock_start {
                Some(start) => start,
                None => Instant::now(),
            };
            emulator.clock_start = Some(start);
            let now = Instant::now();
            let d = now.duration_since(start);
            let reading = Some((d.as_secs(), d.subsec_nanos()));
            assert(reading == steady_reading(start, now));
            tell_clock(backend, emulator, reading);
            assert(steady_clock_told(m, *old(emulator), backend@, *emulator, now));
            Ok(())
        },
    }
}

/// The two words of a time are read back where they were stored, and nothing else changes.
proof fn lemma_time_stored(m: Machine, at: int, sec: u64, rest: u64)
    requires
        m.mapped(at, 16),
    ensures
        m.write(at, time_bytes(sec, rest)).read_u64(at) == Some(sec),
        m.write(at, time_bytes(sec, rest)).read_u64(at + 8) == Some(rest),
        time_bytes(sec, rest).len() == 16,
        m.write(at, time_bytes(sec, rest)).mem.dom() == m.mem.dom(),
        forall|a: int|
            m.mem.dom().contains(a) && !(at <= a < at + 16) ==> #[trigger] m.write(
                at,
                time_bytes(sec, rest),
            ).mem[a] == m.mem[a],
{
    let data = time_bytes(sec, rest);
    crate::le::law_le64_round_trip(sec);
    crate::le::law_le64_round_trip(rest);
    lemma_word_inside(m, at, data, 0);
    lemma_word_inside(m, at, data, 8);
    assert(data.subrange(0, 8) =~= le64(sec));
    assert(data.subrange(8, 16) =~= le64(rest));
    law_write_then_read(m, at, data, at);
}

/// The whole of a host's duration, in nanoseconds.
pub open spec fn duration_total(d: std::time::Duration) -> int {
    duration_secs(d) * 1_000_000_000 + duration_nanos(d)
}

/// A machine's answer to a clock call, in nanoseconds: the seconds at `at`, and what is
/// left of a second in the word after them.
pub open spec fn told_total(m: Machine, at: int) -> int {
    m.read_u64(at)->0 * 1_000_000_000 + m.read_u64(at + 8)->0
}

/// The clocks 1, 3, 4, 6 and 7 tell the time that has passed since the start on record, up
/// to a moment at which the host's clock is read for this very call. Clock 3 leaves the
/// whole seconds out. The start stays on record. Where there is none yet, the host's clock
/// gives one. Besides the sixteen bytes of the answer and the result, nothing changes.
#[verifier::rlimit(40)]
pub proof fn law_steady_clock(
    m: Machine,
    e: AndroidEmulator,
    m2: Machine,
    e2: AndroidEmulator,
    r: Result<(), ClockError>,
)
    requires
        clock_asked(m, e, m2, e2, r),
        m.regs.len() == 35,
        m.reg_i32(RegisterARM64::X0) == 1 || m.reg_i32(RegisterARM64::X0) == 3 || m.reg_i32(
            RegisterARM64::X0,
        ) == 4 || m.reg_i32(RegisterARM64::X0) == 6 || m.reg_i32(RegisterARM64::X0) == 7,
        m.mapped(m.reg(RegisterARM64::X1) as int, 16),
    ensures
        r is Ok,
        e2.clock_start is Some,
        e.clock_start is Some ==> e2 == e,
        e.clock_start is None ==> call_ensures(Instant::now, (), e2.clock_start->0) && e2 == (
        AndroidEmulator { clock_start: e2.clock_start, ..e }),
        m2.reg(RegisterARM64::X0) == 0,
        m2.mem.dom() == m.mem.dom(),
        m2.prot == m.prot,
        forall|a: int|
            m.mem.dom().contains(a) && !(m.reg(RegisterARM64::X1) <= a < m.reg(RegisterARM64::X1)
                + 16) ==> #[trigger] m2.mem[a] == m.mem[a],
        exists|now: Instant|
            {
                let passed = #[trigger] elapsed_between(now, e2.clock_start->0);
                let at = m.reg(RegisterARM64::X1) as int;
                &&& call_ensures(Instant::now, (), now)
                &&& m2.read_u64(at) == Some(
                    if m.reg_i32(RegisterARM64::X0) == 3 {
                        0
                    } else {
                        duration_secs(passed)
                    },
                )
                &&& m2.read_u64(at + 8) == Some(duration_nanos(passed) as u64)
            },
{
    let now = choose|now: Instant|
        steady_showed(now) && #[trigger] steady_clock_told(m, e, m2, e2, now);
    let at = m.reg(RegisterARM64::X1) as int;
    let passed = elapsed_between(now, e2.clock_start->0);
    let whole: u64 = if m.reg_i32(RegisterARM64::X0) == 3 {
        0
    } else {
        duration_secs(passed)
    };
    let rest = duration_nanos(passed) as u64;
    let stored = m.write(at, time_bytes(whole, rest));
    lemma_time_stored(m, at, whole, rest);
    assert(m2 == stored.ret(0));
    assert(m2.mem == stored.mem);
    assert(m2.read(at, 8) =~= stored.read(at, 8));
    assert(m2.read(at + 8, 8) =~= stored.read(at + 8, 8));
    assert(stored.mapped(at, 8) && stored.mapped(at + 8, 8));
    assert(m2.mapped(at, 8) && m2.mapped(at + 8, 8));
    assert(m2.read_u64(at) == Some(whole));
    assert(m2.read_u64(at + 8) == Some(rest));
    assert(e.clock_start is Some ==> e2 == e);
    assert(call_ensures(Instant::now, (), now));
}

/// Of two calls that ask a steady clock, the later one tells the earlier answer and, on top
/// of it, what the host's clock has gone on between the two. That holds wherever the host's
/// clock adds up: the time from the start to the second moment is the time to the first
/// moment and the time in between.
#[verifier::rlimit(40)]
pub proof fn law_steady_clock_goes_on(
    m: Machine,
    e: AndroidEmulator,
    m2: Machine,
    e2: AndroidEmulator,
    r: Result<(), ClockError>,
    n: Machine,
    f: AndroidEmulator,
    n2: Machine,
    f2: AndroidEmulator,
    q: Result<(), ClockError>,
)
    requires
        clock_asked(m, e, m2, e2, r),
        clock_asked(n, f, n2, f2, q),
        f.clock_start == e2.clock_start,
        m.regs.len() == 35,
        n.regs.len() == 35,
        m.reg_i32(RegisterARM64::X0) == 1 || m.reg_i32(RegisterARM64::X0) == 4 || m.reg_i32(
            RegisterARM64::X0,
        ) == 6 || m.reg_i32(RegisterARM64::X0) == 7,
        n.reg_i32(RegisterARM64::X0) == 1 || n.reg_i32(RegisterARM64::X0) == 4 || n.reg_i32(
            RegisterARM64::X0,
        ) == 6 || n.reg_i32(RegisterARM64::X0) == 7,
        m.mapped(m.reg(RegisterARM64::X1) as int, 16),
        n.mapped(n.reg(RegisterARM64::X1) as int, 16),
    ensures
        exists|first: Instant, second: Instant|
            {
                let start = e2.clock_start->0;
                let between = #[trigger] elapsed_between(second, first);
                let told = told_total(m2, m.reg(RegisterARM64::X1) as int);
                let told2 = told_total(n2, n.reg(RegisterARM64::X1) as int);
                &&& call_ensures(Instant::now, (), first)
                &&& call_ensures(Instant::now, (), second)
                &&& told == duration_total(elapsed_between(first, start))
                &&& told2 == duration_total(elapsed_between(second, start))
                &&& duration_total(elapsed_between(second, start)) == duration_total(
                    elapsed_between(first, start),
                ) + duration_total(between) ==> told2 == told + duration_total(between)
            },
{
    law_steady_clock(m, e, m2, e2, r);
    law_steady_clock(n, f, n2, f2, q);
    let start = e2.clock_start->0;
    let at = m.reg(RegisterARM64::X1) as int;
    let at2 = n.reg(RegisterARM64::X1) as int;
    let first = choose|now: Instant|
        {
            let passed = #[trigger] elapsed_between(now, e2.clock_start->0);
            &&& call_ensures(Instant::now, (), now)
            &&& m2.read_u64(at) == Some(duration_secs(passed))
            &&& m2.read_u64(at + 8) == Some(duration_nanos(passed) as u64)
        };
    let second = choose|now: Instant|
        {
            let passed = #[trigger] elapsed_between(now, f2.clock_start->0);
            &&& call_ensures(Instant::now, (), now)
            &&& n2.read_u64(at2) == Some(duration_secs(passed))
            &&& n2.read_u64(at2 + 8) == Some(duration_nanos(passed) as u64)
        };
    assert(f2.clock_start == e2.clock_start);
    let between = elapsed_between(second, first);
    assert(told_total(m2, at) == duration_total(elapsed_between(first, start)));
    assert(told_total(n2, at2) == duration_total(elapsed_between(second, start)));
}

/// Clock 0 tells the host's wall clock, read for this call, eight hours ahead and with
/// microseconds in the second word; clock 5 tells it as it is, with nanoseconds. Where the
/// wall clock stands before the epoch, clock 5 is refused with 22, and clock 0 has no
/// answer, nor has it one where the eight hours do not fit in the word.
#[verifier::rlimit(40)]
pub proof fn law_wall_clock(
    m: Machine,
    e: AndroidEmulator,
    m2: Machine,
    e2: AndroidEmulator,
    r: Result<(), ClockError>,
)
    requires
        clock_asked(m, e, m2, e2, r),
        m.regs.len() == 35,
        m.reg_i32(RegisterARM64::X0) == 0 || m.reg_i32(RegisterARM64::X0) == 5,
        m.mapped(m.reg(RegisterARM64::X1) as int, 16),
    ensures
        e2 == e,
        exists|t: SystemTime|
            {
                let at = m.reg(RegisterARM64::X1) as int;
                let ahead = m.reg_i32(RegisterARM64::X0) == 0;
                &&& call_ensures(SystemTime::now, (), t)
                &&& match #[trigger] epoch_distance(t) {
                    Err(_) => if ahead {
                        r is Err && m2 == m
                    } else {
                        r is Ok && m2.reg_i64(RegisterARM64::X0) == -22
                    },
                    Ok(d) => if ahead && duration_secs(d) + 28_800 > u64::MAX {
                        r is Err && m2 == m
                    } else {
                        &&& r is Ok
                        &&& m2.reg(RegisterARM64::X0) == 0
                        &&& m2.read_u64(at) == Some(
                            if ahead {
                                (duration_secs(d) + 8 * 60 * 60) as u64
                            } else {
                                duration_secs(d)
                            },
                        )
                        &&& m2.read_u64(at + 8) == Some(
                            if ahead {
                                (duration_nanos(d) / 1000) as u64
                            } else {
                                duration_nanos(d) as u64
                            },
                        )
                    },
                }
            },
{
    let t = choose|t: SystemTime|
        clock_showed(t) && wall_clock_told(m, e, m2, e2, #[trigger] wall_reading(t), r);
    let at = m.reg(RegisterARM64::X1) as int;
    match epoch_distance(t) {
        Err(_) => {},
        Ok(d) => {
            let ahead = m.reg_i32(RegisterARM64::X0) == 0;
            if !(ahead && duration_secs(d) + 28_800 > u64::MAX) {
                let whole: u64 = if ahead {
                    (duration_secs(d) + 28_800) as u64
                } else {
                    duration_secs(d)
                };
                let rest: u64 = if ahead {
                    (duration_nanos(d) / 1000) as u64
                } else {
                    duration_nanos(d) as u64
                };
                let stored = m.write(at, time_bytes(whole, rest));
                lemma_time_stored(m, at, whole, rest);
                assert(m2 == stored.ret(0));
                assert(m2.read(at, 8) =~= stored.read(at, 8));
                assert(m2.read(at + 8, 8) =~= stored.read(at + 8, 8));
                assert(stored.mapped(at, 8) && stored.mapped(at + 8, 8));
                assert(m2.mapped(at, 8) && m2.mapped(at + 8, 8));
            }
        },
    }
    assert(call_ensures(SystemTime::now, (), t));
}

/// Every other clock is refused with 22, and no start goes on record.
pub proof fn law_other_clocks(
    b: Backend,
    e: AndroidEmulator,
    m2: Machine,
    e2: AndroidEmulator,
    r: Result<(), ClockError>,
)
    requires
        clock_asked(b@, e, m2, e2, r),
        !(0 <= b@.reg_i32(RegisterARM64::X0) <= 7) || b@.reg_i32(RegisterARM64::X0) == 2,
    ensures
        r is Ok,
        e2 == e,
        m2.reg_i64(RegisterARM64::X0) == -22,
        b@.mapped(e.errno as int, 4) ==> m2.read_u32(e.errno as int) == Some(22u32),
        forall|a: int|
            b@.mem.dom().contains(a) && !(e.errno <= a < e.errno + 4) ==> #[trigger] m2.mem[a]
                == b@.mem[a],
{
    crate::emulator::state::law_refusal(b, e, Errno::EINVAL);
}

/// The time of day is what the host's clock shows when it is read for this call: the
/// seconds stand at `X0`, the nanoseconds in the word after them. The time zone at `X1` is
/// 480 minutes ahead, without summer time. An address of zero asks for nothing, the result
/// is zero, and no other byte changes.
#[verifier::rlimit(40)]
pub proof fn law_time_of_day(m: Machine, m2: Machine, r: Result<(), ClockError>)
    requires
        day_asked(m, m2, r),
        day_fits(m),
        m.regs.len() == 35,
        m.reg(RegisterARM64::X0) + 16 <= m.reg(RegisterARM64::X1) || m.reg(RegisterARM64::X1) + 8
            <= m.reg(RegisterARM64::X0) || m.reg(RegisterARM64::X0) == 0 || m.reg(
            RegisterARM64::X1,
        ) == 0,
        r is Ok,
    ensures
        m2.reg(RegisterARM64::X0) == 0,
        m.reg(RegisterARM64::X0) != 0 ==> exists|sec: i64, nanos: u32|
            {
                let at = m.reg(RegisterARM64::X0) as int;
                &&& #[trigger] day_showed(sec, nanos)
                &&& m2.read_u64(at) == Some(bits_of_i64(sec))
                &&& m2.read_u64(at + 8) == Some(nanos as u64)
            },
        m.reg(RegisterARM64::X1) != 0 ==> {
            let at = m.reg(RegisterARM64::X1) as int;
            &&& m2.read_u32(at) == Some(0xffff_fe20u32)
            &&& m2.read_u32(at + 4) == Some(0u32)
        },
        m2.mem.dom() == m.mem.dom(),
        m2.prot == m.prot,
        forall|a: int|
            {
                &&& m.mem.dom().contains(a)
                &&& m.reg(RegisterARM64::X0) != 0 ==> !(m.reg(RegisterARM64::X0) <= a < m.reg(
                    RegisterARM64::X0,
                ) + 16)
                &&& m.reg(RegisterARM64::X1) != 0 ==> !(m.reg(RegisterARM64::X1) <= a < m.reg(
                    RegisterARM64::X1,
                ) + 8)
            } ==> #[trigger] m2.mem[a] == m.mem[a],
{
    let (sec, nanos) = choose|sec: i64, nanos: u32|
        {
            &&& nanos < 2_000_000_000
            &&& m.reg(RegisterARM64::X0) != 0 ==> day_showed(sec, nanos)
            &&& m2 == #[trigger] day_told(m, sec, nanos)
        };
    let tv = m.reg(RegisterARM64::X0) as int;
    let tz = m.reg(RegisterARM64::X1) as int;
    let whole = bits_of_i64(sec);
    let rest = nanos as u64;
    let told = if tv != 0 {
        m.write(tv, time_bytes(whole, rest))
    } else {
        m
    };
    let zone = zone_bytes();
    let ahead = 0xffff_fe20u32;
    assert(zone.subrange(0, 4) =~= crate::le::le32(ahead));
    assert(zone.subrange(4, 8) =~= crate::le::le32(0));
    crate::le::law_le32_round_trip(ahead);
    crate::le::law_le32_round_trip(0);
    if tv != 0 {
        lemma_time_stored(m, tv, whole, rest);
    }
    let end = if tz != 0 {
        told.write(tz, zone)
    } else {
        told
    };
    if tz != 0 {
        assert(told.mapped(tz, 8));
        law_write_then_read(told, tz, zone, tz);
        lemma_half_inside(told, tz, zone, 0);
        lemma_half_inside(told, tz, zone, 4);
        if tv != 0 {
            lemma_word_apart(told, tz, zone, tv);
            lemma_word_apart(told, tz, zone, tv + 8);
        }
    }
    assert(m2 == end.ret(0));
    assert(m2.mem == end.mem);
    if tv != 0 {
        assert(m2.read(tv, 8) =~= end.read(tv, 8));
        assert(m2.read(tv + 8, 8) =~= end.read(tv + 8, 8));
        assert(end.mapped(tv, 8) && end.mapped(tv + 8, 8));
        assert(m2.mapped(tv, 8) && m2.mapped(tv + 8, 8));
    }
    if tz != 0 {
        assert(m2.read(tz, 4) =~= end.read(tz, 4));
        assert(m2.read(tz + 4, 4) =~= end.read(tz + 4, 4));
        assert(end.mapped(tz, 4) && end.mapped(tz + 4, 4));
        assert(m2.mapped(tz, 4) && m2.mapped(tz + 4, 4));
    }
}

} // verus!
