//! Durations, clock readings, and the decisions around the file that
//! remembers a successful authentication for a while.
use vstd::prelude::*;

use crate::text::{chars_of, parse_uint, parse_unsigned, push_decimal, push_signed_decimal, push_str, dec_repr, signed_repr, string_of};

verus! {

/// Where the authentication time stamps are kept.
pub const TIMESTAMP_DIR: &'static str = "/var/run/doas";

/// A span of time: whole seconds and the nanoseconds beyond them.
#[derive(Debug, Clone, Copy, PartialEq, Eq, Structural)]
pub struct Duration {
    secs: u64,
    nanos: u32,
}

impl Duration {
    pub closed spec fn spec_secs(self) -> nat {
        self.secs as nat
    }

    pub closed spec fn spec_nanos(self) -> nat {
        self.nanos as nat
    }

    #[verifier::type_invariant]
    spec fn nanos_below_second(self) -> bool {
        self.nanos < 1_000_000_000
    }

    pub fn from_secs(secs: u64) -> (d: Duration)
        ensures
            d.spec_secs() == secs,
            d.spec_nanos() == 0,
    {
        Duration { secs, nanos: 0 }
    }

    /// `mins` minutes; the number of seconds must fit in a `u64`.
    pub fn from_mins(mins: u64) -> (d: Duration)
        requires
            mins * 60 <= u64::MAX,
        ensures
            d.spec_secs() == mins * 60,
            d.spec_nanos() == 0,
    {
        Duration { secs: mins * 60, nanos: 0 }
    }

    pub fn as_secs(&self) -> (s: u64)
        ensures
            s == self.spec_secs(),
    {
        self.secs
    }

    pub fn subsec_nanos(&self) -> (n: u32)
        ensures
            n == self.spec_nanos(),
            n < 1_000_000_000,
    {
        proof {
            use_type_invariant(self);
        }
        self.nanos
    }
}

/// The time-out of a `persist` rule written without a duration: five minutes.
pub fn default_timeout() -> (d: Duration)
    ensures
        d.spec_secs() == 300,
        d.spec_nanos() == 0,
{
    Duration::from_mins(5)
}

/// Why a duration could not be read.
#[derive(Debug, Clone, Copy, PartialEq, Eq, Structural)]
pub enum DurationError {
    /// "invalid duration": too short, or not ending in an ASCII unit letter.
    Invalid,
    /// "invalid duration number"
    InvalidNumber,
    /// "invalid duration unit"
    InvalidUnit,
}

/// The number and unit of a duration text: everything but the last
/// character, and the last character. A text whose last character is not
/// ASCII has no unit (splitting before the last byte would cut a character).
pub open spec fn duration_parts(s: Seq<char>) -> Option<(Seq<char>, char)> {
    if s.len() == 0 || !((s.last() as u32) < 128) || s.len() < 2 {
        None
    } else {
        Some((s.drop_last(), s.last()))
    }
}

/// A duration in minutes whose seconds do not fit a `u64`: it cannot be
/// read, and the reader leaves it out.
pub open spec fn duration_overflows(s: Seq<char>) -> bool {
    match duration_parts(s) {
        Some((num, unit)) => unit == 'm' && (parse_unsigned(num, u64::MAX as nat) matches Some(
            n,
        ) && n * 60 > u64::MAX),
        None => false,
    }
}

/// The duration a text names, in seconds: a decimal number followed by `m`
/// (minutes) or `s` (seconds).
pub open spec fn parse_duration(s: Seq<char>) -> Result<nat, DurationError> {
    match duration_parts(s) {
        None => Err(DurationError::Invalid),
        Some((num, unit)) => match parse_unsigned(num, u64::MAX as nat) {
            None => Err(DurationError::InvalidNumber),
            Some(n) => if unit == 'm' {
                Ok(n * 60)
            } else if unit == 's' {
                Ok(n)
            } else {
                Err(DurationError::InvalidUnit)
            },
        },
    }
}

/// Reading a value of type `T` from text, failing with an `E`.
pub trait FromStr<T, E>: Sized {
    /// The texts on which reading is defined.
    spec fn readable(s: Seq<char>) -> bool;

    fn from_str(str: &str) -> Result<T, E>
        requires
            Self::readable(str@),
    ;
}

impl FromStr<Duration, DurationError> for Duration {
    /// Every text but one naming more minutes than fit.
    open spec fn readable(s: Seq<char>) -> bool {
        !duration_overflows(s)
    }

    /// Reads a duration such as `5m` or `30s`.
    fn from_str(str: &str) -> (r: Result<Duration, DurationError>)
        ensures
            match parse_duration(str@) {
                Ok(secs) => r matches Ok(d) && d.spec_secs() == secs && d.spec_nanos() == 0,
                Err(e) => r == Err::<Duration, DurationError>(e),
            },
    {
        let s = chars_of(str);
        let n = s.len();
        if n == 0 || !((s[n - 1] as u32) < 128) || n < 2 {
            return Err(DurationError::Invalid);
        }
        let unit = s[n - 1];
        let num = s.as_slice().split_at(n - 1).0;
        assert(num@ =~= s@.drop_last());
        let v = match parse_uint(num, u64::MAX) {
            Some(v) => v,
            None => return Err(DurationError::InvalidNumber),
        };
        if unit == 'm' {
            Ok(Duration::from_mins(v))
        } else if unit == 's' {
            Ok(Duration::from_secs(v))
        } else {
            Err(DurationError::InvalidUnit)
        }
    }
}

/// Whether a duration text names more minutes than a `u64` of seconds holds.
pub fn duration_text_overflows(str: &str) -> (b: bool)
    ensures
        b == duration_overflows(str@),
{
    let s = chars_of(str);
    let n = s.len();
    if n == 0 || !((s[n - 1] as u32) < 128) || n < 2 {
        return false;
    }
    let num = s.as_slice().split_at(n - 1).0;
    assert(num@ =~= s@.drop_last());
    match parse_uint(num, u64::MAX) {
        Some(v) => s[n - 1] == 'm' && v > u64::MAX / 60,
        None => false,
    }
}

// ---------------------------------------------------------------------------
// Clock readings

/// A clock reading or time span: seconds and nanoseconds.
#[derive(Debug, Clone, Copy, PartialEq, Eq, Structural)]
pub struct Timespec {
    pub tv_sec: i64,
    pub tv_nsec: i64,
}

#[derive(Debug, Clone, Copy, PartialEq, Eq, Structural)]
pub struct Time(pub Timespec);

/// The whole value of a reading, in nanoseconds.
pub open spec fn total_nanos(t: Time) -> int {
    t.0.tv_sec * 1_000_000_000 + t.0.tv_nsec
}

/// A reading whose nanoseconds lie in `0..1_000_000_000`.
pub open spec fn normalized(t: Time) -> bool {
    0 <= t.0.tv_nsec < 1_000_000_000
}

/// Readings are ordered by seconds, then by nanoseconds.
pub open spec fn time_lt(a: Time, b: Time) -> bool {
    a.0.tv_sec < b.0.tv_sec || (a.0.tv_sec == b.0.tv_sec && a.0.tv_nsec < b.0.tv_nsec)
}

/// The sum of two readings, carrying one second when the nanoseconds pass a second.
pub open spec fn time_add(a: Time, b: Time) -> Time {
    let ns = a.0.tv_nsec + b.0.tv_nsec;
    let s = a.0.tv_sec + b.0.tv_sec;
    if ns > 999_999_999 {
        Time(Timespec { tv_sec: (s + 1) as i64, tv_nsec: (ns - 1_000_000_000) as i64 })
    } else {
        Time(Timespec { tv_sec: s as i64, tv_nsec: ns as i64 })
    }
}

/// The sum can be computed without overflow: the nanoseconds and the
/// seconds each add up within `i64`, and so does the carried second.
pub open spec fn add_fits(a: Time, b: Time) -> bool {
    &&& i64::MIN <= a.0.tv_nsec + b.0.tv_nsec <= i64::MAX
    &&& i64::MIN <= a.0.tv_sec + b.0.tv_sec <= i64::MAX
    &&& a.0.tv_nsec + b.0.tv_nsec > 999_999_999 ==> a.0.tv_sec + b.0.tv_sec < i64::MAX
}

impl Time {
    pub fn new(timespec: Timespec) -> (t: Time)
        ensures
            t.0 == timespec,
    {
        Time(timespec)
    }

    /// A span of time as a reading: the seconds are reinterpreted as `i64`.
    pub fn from_duration(dur: Duration) -> (t: Time)
        ensures
            t.0.tv_sec == dur.spec_secs() as i64,
            t.0.tv_nsec == dur.spec_nanos(),
            normalized(t),
    {
        let secs = dur.as_secs();
        let nanos = dur.subsec_nanos();
        Time(Timespec { tv_sec: secs as i64, tv_nsec: nanos as i64 })
    }

    /// Whether the reading is anything but zero.
    pub fn is_set(&self) -> (b: bool)
        ensures
            b == (self.0.tv_sec != 0 || self.0.tv_nsec != 0),
    {
        self.0.tv_sec != 0 || self.0.tv_nsec != 0
    }

    pub fn add(self, rhs: Time) -> (t: Time)
        requires
            add_fits(self, rhs),
        ensures
            t == time_add(self, rhs),
    {
        let tv_nsec = self.0.tv_nsec + rhs.0.tv_nsec;
        let tv_sec = self.0.tv_sec + rhs.0.tv_sec;
        if tv_nsec > 999_999_999 {
            Time(Timespec { tv_sec: tv_sec + 1, tv_nsec: tv_nsec - 999_999_999 - 1 })
        } else {
            Time(Timespec { tv_sec, tv_nsec })
        }
    }

    /// Whether `self` comes strictly before `other`.
    pub fn lt(&self, other: &Time) -> (b: bool)
        ensures
            b == time_lt(*self, *other),
    {
        self.0.tv_sec < other.0.tv_sec || (self.0.tv_sec == other.0.tv_sec && self.0.tv_nsec
            < other.0.tv_nsec)
    }

    /// Whether the two readings are the same.
    pub fn same(&self, other: &Time) -> (b: bool)
        ensures
            b == (*self == *other),
    {
        self.0.tv_sec == other.0.tv_sec && self.0.tv_nsec == other.0.tv_nsec
    }
}

/// Adding readings keeps their total in nanoseconds.
pub proof fn law_add_keeps_total(a: Time, b: Time)
    requires
        add_fits(a, b),
    ensures
        total_nanos(time_add(a, b)) == total_nanos(a) + total_nanos(b),
{
}

/// The sum of two normalized readings is normalized.
pub proof fn law_add_normalized(a: Time, b: Time)
    requires
        add_fits(a, b),
        normalized(a),
        normalized(b),
    ensures
        normalized(time_add(a, b)),
{
}

/// Adding readings does not depend on their order.
pub proof fn law_add_commutes(a: Time, b: Time)
    requires
        add_fits(a, b),
    ensures
        add_fits(b, a),
        time_add(a, b) == time_add(b, a),
{
}

/// On normalized readings the order is the order of their totals.
pub proof fn law_order_is_total_order(a: Time, b: Time)
    requires
        normalized(a),
        normalized(b),
    ensures
        time_lt(a, b) <==> total_nanos(a) < total_nanos(b),
        a == b <==> total_nanos(a) == total_nanos(b),
{
    if a.0.tv_sec < b.0.tv_sec {
        assert(total_nanos(a) < total_nanos(b)) by (nonlinear_arith)
            requires
                a.0.tv_sec < b.0.tv_sec,
                0 <= a.0.tv_nsec < 1_000_000_000,
                0 <= b.0.tv_nsec < 1_000_000_000,
                total_nanos(a) == a.0.tv_sec * 1_000_000_000 + a.0.tv_nsec,
                total_nanos(b) == b.0.tv_sec * 1_000_000_000 + b.0.tv_nsec,
        ;
    } else if a.0.tv_sec > b.0.tv_sec {
        assert(total_nanos(a) > total_nanos(b)) by (nonlinear_arith)
            requires
                a.0.tv_sec > b.0.tv_sec,
                0 <= a.0.tv_nsec < 1_000_000_000,
                0 <= b.0.tv_nsec < 1_000_000_000,
                total_nanos(a) == a.0.tv_sec * 1_000_000_000 + a.0.tv_nsec,
                total_nanos(b) == b.0.tv_sec * 1_000_000_000 + b.0.tv_nsec,
        ;
    }
}

// ---------------------------------------------------------------------------
// The time stamp file

/// Whether the time stamp file looks as this program leaves it: owned by
/// root and by the caller's group, a regular file, with no permission bits.
pub fn stamp_meta_ok(uid: u32, gid: u32, expected_gid: u32, is_file: bool, mode: u32) -> (b: bool)
    ensures
        b == (uid == 0 && gid == expected_gid && is_file && mode % 512 == 0),
{
    let perm = mode & 0o777;
    assert(mode & 0o777 == mode % 512) by (bit_vector);
    uid == 0 && gid == expected_gid && is_file && perm == 0
}

/// What a time stamp says, once read.
#[derive(Debug, Clone, Copy, PartialEq, Eq, Structural)]
pub enum StampStatus {
    /// The authentication is still fresh.
    Valid,
    /// The file was created but never set.
    Unset,
    /// A clock could not be read.
    NoClock,
    /// The time stamp has expired.
    Expired,
    /// The time stamp lies further ahead than a time-out: it was tampered with.
    TooFarAhead,
}

/// The verdict on a time stamp whose file holds the expiry times `expire_boot`
/// (boot clock) and `expire_real` (wall clock), given the clocks' readings
/// now and the rule's time-out. Only `Valid` lets the user in.
pub open spec fn spec_stamp_status(
    expire_boot: Time,
    expire_real: Time,
    boot: Option<Time>,
    real_now: Option<Time>,
    timeout: Time,
) -> StampStatus {
    if !((expire_boot.0.tv_sec != 0 || expire_boot.0.tv_nsec != 0) && (expire_real.0.tv_sec != 0
        || expire_real.0.tv_nsec != 0)) {
        StampStatus::Unset
    } else {
        match (boot, real_now) {
            (Some(b), Some(r)) => if time_lt(expire_boot, b) || time_lt(expire_real, r) {
                StampStatus::Expired
            } else if time_lt(time_add(b, timeout), expire_boot) || time_lt(
                time_add(r, timeout),
                expire_real,
            ) {
                StampStatus::TooFarAhead
            } else {
                StampStatus::Valid
            },
            _ => StampStatus::NoClock,
        }
    }
}

/// Judges a time stamp (see `spec_stamp_status`).
pub fn stamp_status(
    expire_boot: Time,
    expire_real: Time,
    boot: Option<Time>,
    real_now: Option<Time>,
    timeout: Duration,
) -> (s: StampStatus)
    requires
        boot matches Some(b) ==> add_fits(b, Time::spec_from_duration(timeout)),
        real_now matches Some(r) ==> add_fits(r, Time::spec_from_duration(timeout)),
    ensures
        s == spec_stamp_status(
            expire_boot,
            expire_real,
            boot,
            real_now,
            Time::spec_from_duration(timeout),
        ),
{
    let timeout = Time::from_duration(timeout);
    if !expire_boot.is_set() || !expire_real.is_set() {
        return StampStatus::Unset;
    }
    let b = match boot {
        Some(b) => b,
        None => return StampStatus::NoClock,
    };
    let r = match real_now {
        Some(r) => r,
        None => return StampStatus::NoClock,
    };
    if expire_boot.lt(&b) || expire_real.lt(&r) {
        return StampStatus::Expired;
    }
    if b.add(timeout).lt(&expire_boot) || r.add(timeout).lt(&expire_real) {
        return StampStatus::TooFarAhead;
    }
    StampStatus::Valid
}

impl Time {
    pub open spec fn spec_from_duration(d: Duration) -> Time {
        Time(Timespec { tv_sec: d.spec_secs() as i64, tv_nsec: d.spec_nanos() as i64 })
    }
}

/// The expiry times written into a time stamp: each clock's reading plus the time-out.
pub fn stamp_times(boot: Time, real_now: Time, timeout: Duration) -> (r: (Time, Time))
    requires
        add_fits(boot, Time::spec_from_duration(timeout)),
        add_fits(real_now, Time::spec_from_duration(timeout)),
    ensures
        r.0 == time_add(boot, Time::spec_from_duration(timeout)),
        r.1 == time_add(real_now, Time::spec_from_duration(timeout)),
{
    let t = Time::from_duration(timeout);
    (boot.add(t), real_now.add(t))
}

/// A stamp is judged valid only when it was set, both clocks were read,
/// neither clock has passed its expiry and neither expiry lies more than a
/// time-out ahead of its clock; a set stamp that either clock has passed is
/// expired, and one whose clocks cannot be read is never valid.
pub proof fn law_valid_stamp_is_current(
    expire_boot: Time,
    expire_real: Time,
    boot: Option<Time>,
    real_now: Option<Time>,
    timeout: Time,
)
    ensures
        spec_stamp_status(expire_boot, expire_real, boot, real_now, timeout) == StampStatus::Valid
            ==> {
            &&& expire_boot != Time(Timespec { tv_sec: 0, tv_nsec: 0 })
            &&& expire_real != Time(Timespec { tv_sec: 0, tv_nsec: 0 })
            &&& boot is Some && real_now is Some
            &&& !time_lt(expire_boot, boot->0)
            &&& !time_lt(expire_real, real_now->0)
            &&& !time_lt(time_add(boot->0, timeout), expire_boot)
            &&& !time_lt(time_add(real_now->0, timeout), expire_real)
        },
        expire_boot != Time(Timespec { tv_sec: 0, tv_nsec: 0 }) && expire_real != Time(
            Timespec { tv_sec: 0, tv_nsec: 0 },
        ) && boot is Some && real_now is Some && (time_lt(expire_boot, boot->0) || time_lt(
            expire_real,
            real_now->0,
        )) ==> spec_stamp_status(expire_boot, expire_real, boot, real_now, timeout)
            == StampStatus::Expired,
        (boot is None || real_now is None) ==> spec_stamp_status(
            expire_boot,
            expire_real,
            boot,
            real_now,
            timeout,
        ) != StampStatus::Valid,
{
}

/// A stamp just written is judged valid by the next look, as long as the
/// clocks have not moved.
pub proof fn law_fresh_stamp_valid(boot: Time, real_now: Time, timeout: Duration)
    requires
        normalized(boot),
        normalized(real_now),
        add_fits(boot, Time::spec_from_duration(timeout)),
        add_fits(real_now, Time::spec_from_duration(timeout)),
        time_add(boot, Time::spec_from_duration(timeout)).0.tv_sec != 0,
        time_add(real_now, Time::spec_from_duration(timeout)).0.tv_sec != 0,
        timeout.spec_secs() <= i64::MAX,
        timeout.spec_nanos() < 1_000_000_000,
    ensures
        spec_stamp_status(
            time_add(boot, Time::spec_from_duration(timeout)),
            time_add(real_now, Time::spec_from_duration(timeout)),
            Some(boot),
            Some(real_now),
            Time::spec_from_duration(timeout),
        ) == StampStatus::Valid,
{
    let t = Time::spec_from_duration(timeout);
    law_add_normalized(boot, t);
    law_add_normalized(real_now, t);
    law_order_is_total_order(time_add(boot, t), boot);
    law_order_is_total_order(time_add(real_now, t), real_now);
    law_add_keeps_total(boot, t);
    law_add_keeps_total(real_now, t);
    assert(total_nanos(t) >= 0) by (nonlinear_arith)
        requires
            t.0.tv_sec >= 0,
            t.0.tv_nsec >= 0,
            total_nanos(t) == t.0.tv_sec * 1_000_000_000 + t.0.tv_nsec,
    ;
}

/// A stamp written when the clocks read `boot0` and `real0` is judged valid
/// by every later look whose readings have not gone back and lie no more
/// than one time-out past the writing.
pub proof fn law_stamp_valid_within_timeout(
    boot0: Time,
    real0: Time,
    boot1: Time,
    real1: Time,
    timeout: Duration,
)
    requires
        normalized(boot0),
        normalized(real0),
        normalized(boot1),
        normalized(real1),
        timeout.spec_secs() <= i64::MAX,
        timeout.spec_nanos() < 1_000_000_000,
        add_fits(boot0, Time::spec_from_duration(timeout)),
        add_fits(real0, Time::spec_from_duration(timeout)),
        add_fits(boot1, Time::spec_from_duration(timeout)),
        add_fits(real1, Time::spec_from_duration(timeout)),
        time_add(boot0, Time::spec_from_duration(timeout)) != Time(
            Timespec { tv_sec: 0, tv_nsec: 0 },
        ),
        time_add(real0, Time::spec_from_duration(timeout)) != Time(
            Timespec { tv_sec: 0, tv_nsec: 0 },
        ),
        !time_lt(boot1, boot0),
        !time_lt(time_add(boot0, Time::spec_from_duration(timeout)), boot1),
        !time_lt(real1, real0),
        !time_lt(time_add(real0, Time::spec_from_duration(timeout)), real1),
    ensures
        spec_stamp_status(
            time_add(boot0, Time::spec_from_duration(timeout)),
            time_add(real0, Time::spec_from_duration(timeout)),
            Some(boot1),
            Some(real1),
            Time::spec_from_duration(timeout),
        ) == StampStatus::Valid,
{
    let t = Time::spec_from_duration(timeout);
    let eb = time_add(boot0, t);
    let er = time_add(real0, t);
    law_add_normalized(boot0, t);
    law_add_normalized(real0, t);
    law_add_normalized(boot1, t);
    law_add_normalized(real1, t);
    law_add_keeps_total(boot0, t);
    law_add_keeps_total(real0, t);
    law_add_keeps_total(boot1, t);
    law_add_keeps_total(real1, t);
    law_order_is_total_order(boot1, boot0);
    law_order_is_total_order(real1, real0);
    law_order_is_total_order(time_add(boot1, t), eb);
    law_order_is_total_order(time_add(real1, t), er);
}

// ---------------------------------------------------------------------------
// Where the time stamp lives

/// What identifies the session a time stamp belongs to.
#[derive(Debug, Clone, Copy, PartialEq, Eq, Structural)]
pub struct ProcessInfo {
    pub ppid: i32,
    pub sid: i32,
    pub start_time: u64,
    pub tty: u32,
}

/// The path of the time stamp of a session and user:
/// `/var/run/doas/<ppid>-<sid>-<tty>-<start time>-<uid>`.
pub open spec fn stamp_path(proc_info: ProcessInfo, uid: u32) -> Seq<char> {
    TIMESTAMP_DIR@ + seq!['/'] + signed_repr(proc_info.ppid as int) + seq!['-'] + signed_repr(
        proc_info.sid as int,
    ) + seq!['-'] + dec_repr(proc_info.tty as nat) + seq!['-'] + dec_repr(
        proc_info.start_time as nat,
    ) + seq!['-'] + dec_repr(uid as nat)
}

pub fn get_path(proc_info: &ProcessInfo, uid: u32) -> (p: String)
    ensures
        p@ == stamp_path(*proc_info, uid),
{
    let mut out: Vec<char> = Vec::new();
    push_str(&mut out, TIMESTAMP_DIR);
    out.push('/');
    push_signed_decimal(&mut out, proc_info.ppid as i64);
    out.push('-');
    push_signed_decimal(&mut out, proc_info.sid as i64);
    out.push('-');
    push_decimal(&mut out, proc_info.tty as u64);
    out.push('-');
    push_decimal(&mut out, proc_info.start_time);
    out.push('-');
    push_decimal(&mut out, uid as u64);
    assert(out@ =~= stamp_path(*proc_info, uid));
    string_of(out.as_slice())
}

/// Whether the time stamp directory is as this program leaves it: a
/// directory owned by root, open to root alone (permission bits `0700`).
pub fn stamp_dir_ok(is_dir: bool, uid: u32, mode: u32) -> (b: bool)
    ensures
        b == (is_dir && uid == 0 && mode % 512 == 448),
{
    let perm = mode & 0o777;
    assert(mode & 0o777 == mode % 512) by (bit_vector);
    is_dir && uid == 0 && perm == 0o700
}

/// Where a new time stamp is prepared before it is moved into place:
/// `/var/run/doas/.tmp-<pid>`.
pub open spec fn tmp_stamp_path(pid: i32) -> Seq<char> {
    TIMESTAMP_DIR@ + seq!['/', '.', 't', 'm', 'p', '-'] + signed_repr(pid as int)
}

/// The path of the file a new time stamp is prepared in (see
/// `tmp_stamp_path`).
pub fn get_tmp_path(pid: i32) -> (p: String)
    ensures
        p@ == tmp_stamp_path(pid),
{
    let mut out: Vec<char> = Vec::new();
    push_str(&mut out, TIMESTAMP_DIR);
    out.push('/');
    out.push('.');
    out.push('t');
    out.push('m');
    out.push('p');
    out.push('-');
    push_signed_decimal(&mut out, pid as i64);
    assert(out@ =~= tmp_stamp_path(pid));
    string_of(out.as_slice())
}

} // verus!
