//! Idle detection: reading the idle hint of the login manager from
//! `busctl get-property` output, and the state and decisions of the Wayland
//! idle-notification monitor (the Wayland connection and its event loop are
//! outside the library and feed it events).
use vstd::prelude::*;
use vstd::string::StrSliceExecFns;

verus! {

/// Idle state as reported by the login manager.
#[derive(Debug, Clone, Copy, PartialEq, Eq, Structural)]
pub struct IdleStatus {
    pub is_idle: bool,
    pub idle_since_micros: u64,
}

/// A property value read from the login manager: a boolean (`b`) or an
/// unsigned 64-bit integer (`t`).
#[derive(Debug, Clone, Copy, PartialEq, Eq, Structural)]
pub enum BoolOrU64 {
    Bool(bool),
    U64(u64),
}

impl BoolOrU64 {
    /// The boolean, when the value is one.
    pub fn bool(self) -> (r: Option<bool>)
        ensures
            r == match self {
                BoolOrU64::Bool(b) => Some(b),
                _ => None,
            },
    {
        match self {
            BoolOrU64::Bool(b) => Some(b),
            _ => None,
        }
    }

    /// The integer, when the value is one.
    pub fn u64(self) -> (r: Option<u64>)
        ensures
            r == match self {
                BoolOrU64::U64(u) => Some(u),
                _ => None,
            },
    {
        match self {
            BoolOrU64::U64(u) => Some(u),
            _ => None,
        }
    }
}

/// The boolean of a property read, when a value was read and it is one.
pub fn extract_bool(raw: Option<BoolOrU64>) -> (r: Option<bool>)
    ensures
        r == match raw {
            Some(BoolOrU64::Bool(b)) => Some(b),
            _ => None,
        },
{
    match raw {
        Some(x) => x.bool(),
        None => None,
    }
}

/// The integer of a property read, when a value was read and it is one.
pub fn extract_u64(raw: Option<BoolOrU64>) -> (r: Option<u64>)
    ensures
        r == match raw {
            Some(BoolOrU64::U64(u)) => Some(u),
            _ => None,
        },
{
    match raw {
        Some(x) => x.u64(),
        None => None,
    }
}

/// The idle status made of the `IdleHint` and `IdleSinceHint` properties of one
/// login-manager object, when both were read.
pub fn idle_status_from(is_idle: Option<bool>, idle_since: Option<u64>) -> (r: Option<IdleStatus>)
    ensures
        r == match (is_idle, idle_since) {
            (Some(b), Some(t)) => Some(IdleStatus { is_idle: b, idle_since_micros: t }),
            _ => None,
        },
{
    match (is_idle, idle_since) {
        (Some(b), Some(t)) => Some(IdleStatus { is_idle: b, idle_since_micros: t }),
        _ => None,
    }
}

/// The idle status made of one object's `IdleHint` and `IdleSinceHint` reads,
/// when both were read with the expected types.
pub open spec fn status_of(hint: Option<BoolOrU64>, since: Option<BoolOrU64>) -> Option<IdleStatus> {
    match (hint, since) {
        (Some(BoolOrU64::Bool(b)), Some(BoolOrU64::U64(t))) => Some(IdleStatus { is_idle: b, idle_since_micros: t }),
        _ => None,
    }
}

/// The login manager's idle status: that of the calling session when both of
/// its properties were read, else that of the manager object, else none.
pub fn logind_idle_status(
    session_hint: Option<BoolOrU64>,
    session_since: Option<BoolOrU64>,
    manager_hint: Option<BoolOrU64>,
    manager_since: Option<BoolOrU64>,
) -> (r: Option<IdleStatus>)
    ensures
        r == (if status_of(session_hint, session_since) is Some {
            status_of(session_hint, session_since)
        } else {
            status_of(manager_hint, manager_since)
        }),
{
    let session = idle_status_from(extract_bool(session_hint), extract_u64(session_since));
    if session.is_some() {
        return session;
    }
    idle_status_from(extract_bool(manager_hint), extract_u64(manager_since))
}

/// The Unicode `White_Space` characters, which separate words of the output.
pub open spec fn is_space(c: char) -> bool {
    ('\u{9}' <= c && c <= '\u{d}') || c == ' ' || c == '\u{85}' || c == '\u{a0}' || c == '\u{1680}'
        || ('\u{2000}' <= c && c <= '\u{200a}') || c == '\u{2028}' || c == '\u{2029}' || c == '\u{202f}'
        || c == '\u{205f}' || c == '\u{3000}'
}

fn is_space_exec(c: char) -> (r: bool)
    ensures
        r == is_space(c),
{
    ('\u{9}' <= c && c <= '\u{d}') || c == ' ' || c == '\u{85}' || c == '\u{a0}' || c == '\u{1680}'
        || ('\u{2000}' <= c && c <= '\u{200a}') || c == '\u{2028}' || c == '\u{2029}' || c == '\u{202f}'
        || c == '\u{205f}' || c == '\u{3000}'
}

/// The first index at or after `i` that holds no white space (or the length).
pub open spec fn skip_space(s: Seq<char>, i: int) -> int
    decreases s.len() - i,
{
    if i >= s.len() || i < 0 {
        s.len() as int
    } else if is_space(s[i]) {
        skip_space(s, i + 1)
    } else {
        i
    }
}

/// The first index at or after `i` that holds white space (or the length).
pub open spec fn word_end(s: Seq<char>, i: int) -> int
    decreases s.len() - i,
{
    if i >= s.len() || i < 0 {
        s.len() as int
    } else if is_space(s[i]) {
        i
    } else {
        word_end(s, i + 1)
    }
}

/// The value of a string of ASCII decimal digits.
pub open spec fn decimal_value(d: Seq<char>) -> int
    decreases d.len(),
{
    if d.len() == 0 {
        0
    } else {
        decimal_value(d.drop_last()) * 10 + (d.last() as int - '0' as int)
    }
}

/// An ASCII decimal digit.
pub open spec fn is_digit(c: char) -> bool {
    '0' <= c && c <= '9'
}

/// Every character of `d` is an ASCII decimal digit.
pub open spec fn all_digits(d: Seq<char>) -> bool {
    forall|k: int| 0 <= k < d.len() ==> is_digit(#[trigger] d[k])
}

/// `word` read as a `u64` in decimal, with an optional leading `+`.
pub open spec fn parse_u64_word(word: Seq<char>) -> Option<u64> {
    let digits = if word.len() > 0 && word[0] == '+' {
        word.skip(1)
    } else {
        word
    };
    if digits.len() > 0 && all_digits(digits) && decimal_value(digits) <= u64::MAX {
        Some(decimal_value(digits) as u64)
    } else {
        None
    }
}

/// The property value in `busctl get-property` output: its first word is the
/// type (`b` or `t`) and its second the value (`true` for a true boolean, a
/// decimal number for an integer). Output of fewer than two words, another
/// type, or an integer that does not parse gives `None`.
pub open spec fn busctl_property(s: Seq<char>) -> Option<BoolOrU64> {
    let a0 = skip_space(s, 0);
    let b0 = word_end(s, a0);
    let a1 = skip_space(s, b0);
    let b1 = word_end(s, a1);
    let ty = s.subrange(a0, b0);
    let value = s.subrange(a1, b1);
    if a1 >= s.len() {
        None
    } else if ty == seq!['b'] {
        Some(BoolOrU64::Bool(value == seq!['t', 'r', 'u', 'e']))
    } else if ty == seq!['t'] {
        match parse_u64_word(value) {
            Some(v) => Some(BoolOrU64::U64(v)),
            None => None,
        }
    } else {
        None
    }
}

proof fn lemma_skip_space_bounds(s: Seq<char>, i: int)
    requires
        0 <= i <= s.len(),
    ensures
        i <= skip_space(s, i) <= s.len(),
        skip_space(s, i) < s.len() ==> !is_space(s[skip_space(s, i)]),
    decreases s.len() - i,
{
    if i < s.len() && is_space(s[i]) {
        lemma_skip_space_bounds(s, i + 1);
    }
}

proof fn lemma_word_end_bounds(s: Seq<char>, i: int)
    requires
        0 <= i <= s.len(),
    ensures
        i <= word_end(s, i) <= s.len(),
    decreases s.len() - i,
{
    if i < s.len() && !is_space(s[i]) {
        lemma_word_end_bounds(s, i + 1);
    }
}

/// The first index at or after `i` with no white space.
fn skip_space_exec(s: &str, n: usize, i: usize) -> (r: usize)
    requires
        n == s@.len(),
        i <= n,
    ensures
        r == skip_space(s@, i as int),
{
    let mut j = i;
    while j < n && is_space_exec(s.get_char(j))
        invariant
            i <= j <= n,
            n == s@.len(),
            skip_space(s@, j as int) == skip_space(s@, i as int),
        decreases n - j,
    {
        j = j + 1;
    }
    j
}

/// The first index at or after `i` that holds white space.
fn word_end_exec(s: &str, n: usize, i: usize) -> (r: usize)
    requires
        n == s@.len(),
        i <= n,
    ensures
        r == word_end(s@, i as int),
{
    let mut j = i;
    while j < n && !is_space_exec(s.get_char(j))
        invariant
            i <= j <= n,
            n == s@.len(),
            word_end(s@, j as int) == word_end(s@, i as int),
        decreases n - j,
    {
        j = j + 1;
    }
    j
}

proof fn lemma_decimal_prefix_le(d: Seq<char>, k: int, m: int)
    requires
        0 <= k <= m <= d.len(),
        all_digits(d),
    ensures
        decimal_value(d.take(k)) <= decimal_value(d.take(m)),
    decreases m - k,
{
    if k < m {
        lemma_decimal_prefix_le(d, k, m - 1);
        assert(d.take(m).drop_last() =~= d.take(m - 1));
        assert(d.take(m).last() == d[m - 1]);
        assert(all_digits(d.take(m - 1)));
        lemma_decimal_nonneg(d.take(m - 1));
    }
}

proof fn lemma_decimal_nonneg(d: Seq<char>)
    requires
        all_digits(d),
    ensures
        decimal_value(d) >= 0,
    decreases d.len(),
{
    if d.len() > 0 {
        assert(all_digits(d.drop_last()));
        lemma_decimal_nonneg(d.drop_last());
    }
}

/// Parses the characters `from..to` of `s` as a `u64` (see `parse_u64_word`).
fn parse_u64_range(s: &str, from: usize, to: usize) -> (r: Option<u64>)
    requires
        from <= to <= s@.len(),
    ensures
        r == parse_u64_word(s@.subrange(from as int, to as int)),
{
    let ghost word = s@.subrange(from as int, to as int);
    let mut start = from;
    if from < to && s.get_char(from) == '+' {
        start = from + 1;
    }
    let ghost digits = s@.subrange(start as int, to as int);
    assert(digits =~= if word.len() > 0 && word[0] == '+' { word.skip(1) } else { word });
    if start == to {
        return None;
    }
    let mut value: u64 = 0;
    let mut i = start;
    while i < to
        invariant
            start <= i <= to <= s@.len(),
            digits == s@.subrange(start as int, to as int),
            word == s@.subrange(from as int, to as int),
            digits == (if word.len() > 0 && word[0] == '+' { word.skip(1) } else { word }),
            digits.len() > 0,
            forall|k: int| 0 <= k < i - start ==> is_digit(#[trigger] digits[k]),
            value == decimal_value(digits.take(i - start)),
        decreases to - i,
    {
        let c = s.get_char(i);
        assert(c == digits[i - start]);
        if !('0' <= c && c <= '9') {
            assert(!is_digit(digits[i - start]));
            assert(!all_digits(digits));
            return None;
        }
        assert(digits.take(i + 1 - start).drop_last() =~= digits.take(i - start));
        let d = (c as u32 - '0' as u32) as u64;
        if value > (u64::MAX - d) / 10 {
            proof {
                assert(decimal_value(digits.take(i + 1 - start)) > u64::MAX);
                if all_digits(digits) {
                    lemma_decimal_prefix_le(digits, i + 1 - start, digits.len() as int);
                    assert(digits.take(digits.len() as int) =~= digits);
                }
            }
            return None;
        }
        value = value * 10 + d;
        i = i + 1;
    }
    assert(digits.take(to - start) =~= digits);
    Some(value)
}


/// The property value in `busctl get-property` output (see `busctl_property`).
pub fn parse_busctl_property(output: &str) -> (r: Option<BoolOrU64>)
    ensures
        r == busctl_property(output@),
{
    let ghost s = output@;
    let n = output.unicode_len();
    let a0 = skip_space_exec(output, n, 0);
    proof { lemma_skip_space_bounds(s, 0); }
    let b0 = word_end_exec(output, n, a0);
    proof { lemma_word_end_bounds(s, a0 as int); }
    let a1 = skip_space_exec(output, n, b0);
    proof { lemma_skip_space_bounds(s, b0 as int); }
    let b1 = word_end_exec(output, n, a1);
    proof { lemma_word_end_bounds(s, a1 as int); }
    let ghost ty = s.subrange(a0 as int, b0 as int);
    let ghost value = s.subrange(a1 as int, b1 as int);
    if a1 >= n {
        return None;
    }
    let is_b = b0 - a0 == 1 && output.get_char(a0) == 'b';
    let is_t = b0 - a0 == 1 && output.get_char(a0) == 't';
    proof {
        if b0 - a0 == 1 {
            assert(ty[0] == s[a0 as int]);
        }
        assert(is_b == (ty =~= seq!['b']));
        assert(is_t == (ty =~= seq!['t']));
    }
    if is_b {
        let is_true = b1 - a1 == 4 && output.get_char(a1) == 't' && output.get_char(a1 + 1) == 'r'
            && output.get_char(a1 + 2) == 'u' && output.get_char(a1 + 3) == 'e';
        proof {
            if b1 - a1 == 4 {
                assert(value[0] == s[a1 as int]);
                assert(value[1] == s[a1 + 1]);
                assert(value[2] == s[a1 + 2]);
                assert(value[3] == s[a1 + 3]);
            }
            assert(is_true == (value =~= seq!['t', 'r', 'u', 'e']));
        }
        Some(BoolOrU64::Bool(is_true))
    } else if is_t {
        match parse_u64_range(output, a1, b1) {
            Some(v) => Some(BoolOrU64::U64(v)),
            None => None,
        }
    } else {
        None
    }
}

/// The longest idle timeout, in minutes, whose value in milliseconds fits a `u32`.
pub const MAX_TIMEOUT_MINS: u32 = 71582;

/// The idle timeout in milliseconds.
pub fn notification_timeout_ms(timeout_mins: u32) -> (ms: u32)
    requires
        timeout_mins <= MAX_TIMEOUT_MINS,
    ensures
        ms == timeout_mins * 60000,
{
    timeout_mins * 60 * 1000
}

/// A global object the Wayland registry announced.
#[derive(Debug, Clone, Copy, PartialEq, Eq, Structural)]
pub enum GlobalBinding {
    /// The idle notifier: bind it.
    Notifier,
    /// The seat: bind it.
    Seat,
    /// Anything else: ignore it.
    Ignored,
}

/// An event of the idle notification.
#[derive(Debug, Clone, Copy, PartialEq, Eq, Structural)]
pub enum IdleEvent {
    /// The user has been inactive for the timeout.
    Idled,
    /// The user is active again.
    Resumed,
}

/// What to do about the idle notification after the globals are known or the
/// timeout changed: drop the previous notification (always), then register one
/// with this timeout, or report that the notifier or the seat is missing.
#[derive(Debug, Clone, Copy, PartialEq, Eq, Structural)]
pub enum NotificationRequest {
    Register { timeout_ms: u32 },
    MissingGlobals,
}

/// What the event loop does after one wait on the connection.
#[derive(Debug, Clone, Copy, PartialEq, Eq, Structural)]
pub enum PollStep {
    /// Read the connection and dispatch its events.
    Read,
    /// Nothing to read: go on to the next round.
    Continue,
    /// The connection failed: end the loop.
    Stop,
}

/// The decision after `poll` on the connection returned `ret`: with events,
/// a hang-up or error ends the loop and readable data is read; a failure
/// other than an interruption ends the loop; otherwise the loop goes on.
pub fn poll_step(ret: i32, hangup_or_error: bool, readable: bool, interrupted: bool) -> (step: PollStep)
    ensures
        step == (if ret > 0 {
            if hangup_or_error {
                PollStep::Stop
            } else if readable {
                PollStep::Read
            } else {
                PollStep::Continue
            }
        } else if ret < 0 && !interrupted {
            PollStep::Stop
        } else {
            PollStep::Continue
        }),
{
    if ret > 0 {
        if hangup_or_error {
            PollStep::Stop
        } else if readable {
            PollStep::Read
        } else {
            PollStep::Continue
        }
    } else if ret < 0 && !interrupted {
        PollStep::Stop
    } else {
        PollStep::Continue
    }
}

/// The state of the Wayland idle monitor: whether the user is idle, the idle
/// timeout, the globals bound so far, and whether the monitor still runs.
pub struct WaylandIdleMonitor {
    is_idle: bool,
    timeout_mins: u32,
    has_notifier: bool,
    has_seat: bool,
    running: bool,
}

impl WaylandIdleMonitor {
    pub closed spec fn idle(&self) -> bool {
        self.is_idle
    }

    pub closed spec fn timeout(&self) -> u32 {
        self.timeout_mins
    }

    pub closed spec fn notifier_bound(&self) -> bool {
        self.has_notifier
    }

    pub closed spec fn seat_bound(&self) -> bool {
        self.has_seat
    }

    pub closed spec fn runs(&self) -> bool {
        self.running
    }

    /// The request to (re)register the idle notification with the current
    /// timeout; the user counts as active until the notification reports otherwise.
    pub open spec fn request_for(&self) -> NotificationRequest {
        if self.notifier_bound() && self.seat_bound() {
            NotificationRequest::Register { timeout_ms: (self.timeout() * 60000) as u32 }
        } else {
            NotificationRequest::MissingGlobals
        }
    }

    /// A running monitor, not idle, with no global bound yet.
    pub fn new(initial_timeout_mins: u32) -> (m: Self)
        ensures
            !m.idle(),
            m.timeout() == initial_timeout_mins,
            !m.notifier_bound(),
            !m.seat_bound(),
            m.runs(),
    {
        WaylandIdleMonitor {
            is_idle: false,
            timeout_mins: initial_timeout_mins,
            has_notifier: false,
            has_seat: false,
            running: true,
        }
    }

    /// The user is idle.
    pub fn is_idle(&self) -> (r: bool)
        ensures
            r == self.idle(),
    {
        self.is_idle
    }

    /// The monitor still runs.
    pub fn is_running(&self) -> (r: bool)
        ensures
            r == self.runs(),
    {
        self.running
    }

    /// Records a global announced by the registry and says whether to bind it.
    pub fn on_global(&mut self, interface: &str) -> (b: GlobalBinding)
        ensures
            b == (if interface@ == "ext_idle_notifier_v1"@ {
                GlobalBinding::Notifier
            } else if interface@ == "wl_seat"@ {
                GlobalBinding::Seat
            } else {
                GlobalBinding::Ignored
            }),
            final(self).notifier_bound() == (old(self).notifier_bound() || b == GlobalBinding::Notifier),
            final(self).seat_bound() == (old(self).seat_bound() || b == GlobalBinding::Seat),
            final(self).idle() == old(self).idle(),
            final(self).timeout() == old(self).timeout(),
            final(self).runs() == old(self).runs(),
    {
        let b = if str_equal(interface, "ext_idle_notifier_v1") {
            GlobalBinding::Notifier
        } else if str_equal(interface, "wl_seat") {
            GlobalBinding::Seat
        } else {
            GlobalBinding::Ignored
        };
        match b {
            GlobalBinding::Notifier => self.has_notifier = true,
            GlobalBinding::Seat => self.has_seat = true,
            GlobalBinding::Ignored => {},
        }
        b
    }

    /// (Re)registers the idle notification: the user counts as active again,
    /// and the request says with which timeout to register, if the globals are there.
    pub fn update_notification(&mut self) -> (req: NotificationRequest)
        requires
            old(self).timeout() <= MAX_TIMEOUT_MINS,
        ensures
            req == old(self).request_for(),
            !final(self).idle(),
            final(self).timeout() == old(self).timeout(),
            final(self).notifier_bound() == old(self).notifier_bound(),
            final(self).seat_bound() == old(self).seat_bound(),
            final(self).runs() == old(self).runs(),
    {
        self.is_idle = false;
        if self.has_notifier && self.has_seat {
            NotificationRequest::Register { timeout_ms: notification_timeout_ms(self.timeout_mins) }
        } else {
            NotificationRequest::MissingGlobals
        }
    }

    /// Takes a new idle timeout and re-registers the notification with it.
    pub fn set_timeout(&mut self, timeout_mins: u32) -> (req: NotificationRequest)
        requires
            timeout_mins <= MAX_TIMEOUT_MINS,
        ensures
            final(self).timeout() == timeout_mins,
            !final(self).idle(),
            req == final(self).request_for(),
            final(self).notifier_bound() == old(self).notifier_bound(),
            final(self).seat_bound() == old(self).seat_bound(),
            final(self).runs() == old(self).runs(),
    {
        self.timeout_mins = timeout_mins;
        self.update_notification()
    }

    /// Records an event of the idle notification.
    pub fn on_notification(&mut self, event: IdleEvent)
        ensures
            final(self).idle() == (event == IdleEvent::Idled),
            final(self).timeout() == old(self).timeout(),
            final(self).notifier_bound() == old(self).notifier_bound(),
            final(self).seat_bound() == old(self).seat_bound(),
            final(self).runs() == old(self).runs(),
    {
        self.is_idle = match event {
            IdleEvent::Idled => true,
            IdleEvent::Resumed => false,
        };
    }

    /// Asks the monitor to stop.
    pub fn stop(&mut self)
        ensures
            !final(self).runs(),
            final(self).idle() == old(self).idle(),
            final(self).timeout() == old(self).timeout(),
            final(self).notifier_bound() == old(self).notifier_bound(),
            final(self).seat_bound() == old(self).seat_bound(),
    {
        self.running = false;
    }
}

/// Whether two strings have the same characters.
fn str_equal(a: &str, b: &str) -> (r: bool)
    ensures
        r == (a@ == b@),
{
    let n = a.unicode_len();
    let m = b.unicode_len();
    if n != m {
        return false;
    }
    let mut i: usize = 0;
    while i < n
        invariant
            0 <= i <= n,
            n == a@.len(),
            m == b@.len(),
            n == m,
            forall|k: int| 0 <= k < i ==> a@[k] == b@[k],
        decreases n - i,
    {
        if a.get_char(i) != b.get_char(i) {
            return false;
        }
        i = i + 1;
    }
    assert(a@ =~= b@);
    true
}


/// The idle notification is registered only when both the idle notifier and
/// the seat are bound, and then with the timeout in milliseconds; if either is
/// missing the request reports the missing globals.
pub proof fn law_register_needs_notifier_and_seat(m: WaylandIdleMonitor)
    ensures
        (m.request_for() is Register) <==> (m.notifier_bound() && m.seat_bound()),
        (m.request_for() is MissingGlobals) <==> !(m.notifier_bound() && m.seat_bound()),
        m.request_for() matches NotificationRequest::Register { timeout_ms } ==> timeout_ms == (m.timeout() * 60000) as u32,
{
}
} // verus!
