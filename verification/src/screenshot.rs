//! Suppression of the scene while the system screenshot toolbar is open: how
//! scans of the process table are paced and debounced, and how the argument
//! block of a `screencapture` process tells the toolbar from a quick capture.
//! Times are milliseconds on a monotonic clock.

use vstd::prelude::*;

verus! {

/// How long the toolbar must be seen gone before the scene is restored.
pub const CLEAR_CONFIRMATION_MS: u64 = 100;

/// Whether the scene is suppressed by a screenshot session, and since when the
/// session has been seen gone.
pub struct Suppression {
    pub active: bool,
    clear_since: Option<u64>,
}

/// The ghost state of `Suppression`.
pub struct SuppressionView {
    pub active: bool,
    pub clear_since: Option<u64>,
}

impl View for Suppression {
    type V = SuppressionView;

    closed spec fn view(&self) -> SuppressionView {
        SuppressionView { active: self.active, clear_since: self.clear_since }
    }
}

/// The suppression after observing, at time `now`, whether a screenshot
/// session is active.
pub open spec fn next_suppression(s: SuppressionView, active: bool, now: u64) -> SuppressionView {
    if active {
        SuppressionView { active: true, clear_since: None }
    } else if s.active {
        let since = match s.clear_since {
            Some(t) => t,
            None => now,
        };
        if now >= since && now - since >= CLEAR_CONFIRMATION_MS {
            SuppressionView { active: false, clear_since: None }
        } else {
            SuppressionView { active: true, clear_since: Some(since) }
        }
    } else {
        s
    }
}

impl Suppression {
    /// Not suppressed.
    pub fn new() -> (r: Suppression)
        ensures
            r@ == (SuppressionView { active: false, clear_since: None }),
    {
        Suppression { active: false, clear_since: None }
    }

    /// Records one scan at time `now`. A session suppresses the scene at once;
    /// the scene is restored only when scans have seen no session for
    /// `CLEAR_CONFIRMATION_MS`, and a session seen again in between cancels it.
    pub fn observe(&mut self, active: bool, now: u64)
        ensures
            final(self)@ == next_suppression(old(self)@, active, now),
    {
        if active {
            self.active = true;
            self.clear_since = None;
        } else if self.active {
            let since = match self.clear_since {
                Some(t) => t,
                None => now,
            };
            self.clear_since = Some(since);
            if now >= since && now - since >= CLEAR_CONFIRMATION_MS {
                self.active = false;
                self.clear_since = None;
            }
        }
    }
}

/// One clear scan never restores the scene: restoring needs a second clear
/// scan at least `CLEAR_CONFIRMATION_MS` after the first.
pub proof fn law_restoring_needs_a_confirmed_clear_scan(now: u64)
    ensures
        next_suppression(SuppressionView { active: true, clear_since: None }, false, now).active,
{
}

/// How long to wait between two scans of the process table.
pub const SAMPLE_INTERVAL_MS: u64 = 500;

/// Paces the scans and keeps their debounced result.
pub struct Monitor {
    next_sample: Option<u64>,
    suppression: Suppression,
    failed: bool,
}

/// The ghost state of `Monitor`.
pub struct MonitorView {
    pub next_sample: Option<u64>,
    pub suppression: SuppressionView,
    pub failed: bool,
}

impl View for Monitor {
    type V = MonitorView;

    closed spec fn view(&self) -> MonitorView {
        MonitorView {
            next_sample: self.next_sample,
            suppression: self.suppression@,
            failed: self.failed,
        }
    }
}

impl Monitor {
    /// No scan yet: the first one is due at once.
    pub fn new() -> (r: Monitor)
        ensures
            r@ == (MonitorView {
                next_sample: None,
                suppression: SuppressionView { active: false, clear_since: None },
                failed: false,
            }),
    {
        Monitor { next_sample: None, suppression: Suppression::new(), failed: false }
    }

    /// Whether a scan is due at time `now`.
    pub fn scan_due(&self, now: u64) -> (r: bool)
        ensures
            r == match self@.next_sample {
                None => true,
                Some(deadline) => now >= deadline,
            },
    {
        match self.next_sample {
            None => true,
            Some(deadline) => now >= deadline,
        }
    }

    /// Records a scan that finished at time `now`: `Some(active)` for its
    /// result, `None` for a failure, which counts as no session so that the
    /// scene is never hidden for good. Returns whether the failure is the first
    /// one after a success, the one worth reporting.
    pub fn record_scan(&mut self, outcome: Option<bool>, now: u64) -> (report: bool)
        requires
            now <= u64::MAX - SAMPLE_INTERVAL_MS,
        ensures
            report == (outcome is None && !old(self)@.failed),
            final(self)@.failed == (outcome is None),
            final(self)@.next_sample == Some((now + SAMPLE_INTERVAL_MS) as u64),
            final(self)@.suppression == next_suppression(
                old(self)@.suppression,
                match outcome {
                    Some(active) => active,
                    None => false,
                },
                now,
            ),
    {
        let (active, report) = match outcome {
            Some(active) => (active, false),
            None => (false, !self.failed),
        };
        self.failed = outcome.is_none();
        self.next_sample = Some(now + SAMPLE_INTERVAL_MS);
        self.suppression.observe(active, now);
        report
    }

    /// Whether the scene is suppressed now.
    pub fn suppressed(&self) -> (r: bool)
        ensures
            r == self@.suppression.active,
    {
        self.suppression.active
    }
}

/// The byte of `-`.
pub const DASH: u8 = 45;

/// The byte of `U`, the option that opens the toolbar.
pub const UPPER_U: u8 = 85;

/// The bytes of `keyboard.interactive`, the mode of the system shortcut that
/// opens the toolbar.
pub open spec fn keyboard_interactive() -> Seq<u8> {
    seq![
        107u8, 101, 121, 98, 111, 97, 114, 100, 46, 105,
        110, 116, 101, 114, 97, 99, 116, 105, 118, 101,
    ]
}

/// Whether one argument asks for the toolbar: the interactive keyboard mode,
/// or a short option cluster (one dash) that holds `U`.
pub open spec fn is_toolbar_argument(arg: Seq<u8>) -> bool {
    ||| arg == keyboard_interactive()
    ||| {
        &&& arg.len() >= 1
        &&& arg[0] == DASH
        &&& !(arg.len() >= 2 && arg[1] == DASH)
        &&& exists|k: int| 1 <= k < arg.len() && arg[k] == UPPER_U
    }
}

/// The first position at or after `from` that holds a zero byte.
pub open spec fn first_zero(b: Seq<u8>, from: int) -> Option<int>
    decreases b.len() - from,
{
    if from < 0 || from >= b.len() {
        None
    } else if b[from] == 0 {
        Some(from)
    } else {
        first_zero(b, from + 1)
    }
}

/// The first position at or after `from` that holds a nonzero byte.
pub open spec fn first_nonzero(b: Seq<u8>, from: int) -> Option<int>
    decreases b.len() - from,
{
    if from < 0 || from >= b.len() {
        None
    } else if b[from] != 0 {
        Some(from)
    } else {
        first_nonzero(b, from + 1)
    }
}

/// Reads the NUL-terminated arguments from `pos`, the one numbered `index` of
/// `count` first, with `toolbar` saying whether an earlier one asked for the
/// toolbar. The program name (argument 0) is skipped, `--` ends the options,
/// and an argument without its terminator makes the block malformed.
pub open spec fn scan_arguments(b: Seq<u8>, pos: int, index: int, count: int, toolbar: bool) -> bool
    decreases count - index,
{
    if index >= count {
        toolbar
    } else {
        match first_zero(b, pos) {
            None => false,
            Some(end) => {
                let arg = b.subrange(pos, end);
                if index == 0 {
                    scan_arguments(b, end + 1, index + 1, count, toolbar)
                } else if arg == seq![DASH, DASH] {
                    toolbar
                } else {
                    scan_arguments(b, end + 1, index + 1, count, toolbar || is_toolbar_argument(arg))
                }
            },
        }
    }
}

/// Whether a process argument block (argument count `count`, executable path,
/// NUL padding, arguments, environment) is that of the screenshot toolbar.
pub open spec fn toolbar_block(b: Seq<u8>, count: int) -> bool {
    &&& count > 0
    &&& match first_zero(b, 4) {
        None => false,
        Some(path_end) => match first_nonzero(b, path_end) {
            None => false,
            Some(start) => scan_arguments(b, start, 0, count, false),
        },
    }
}

/// The four bytes read as an `i32`, least significant first.
pub open spec fn le_i32(b: Seq<u8>) -> i32 {
    (b[0] as int + b[1] as int * 0x100 + b[2] as int * 0x1_0000 + b[3] as int * 0x100_0000) as i32
}

/// The four bytes read as an `i32`, most significant first.
pub open spec fn be_i32(b: Seq<u8>) -> i32 {
    (b[3] as int + b[2] as int * 0x100 + b[1] as int * 0x1_0000 + b[0] as int * 0x100_0000) as i32
}

proof fn lemma_first_zero(b: Seq<u8>, from: int)
    requires
        0 <= from,
    ensures
        match first_zero(b, from) {
            Some(e) => from <= e < b.len() && b[e] == 0 && forall|j: int|
                from <= j < e ==> b[j] != 0,
            None => forall|j: int| from <= j < b.len() ==> b[j] != 0,
        },
    decreases b.len() - from,
{
    if from < b.len() && b[from] != 0 {
        lemma_first_zero(b, from + 1);
    }
}

proof fn lemma_first_nonzero(b: Seq<u8>, from: int)
    requires
        0 <= from,
    ensures
        match first_nonzero(b, from) {
            Some(e) => from <= e < b.len() && b[e] != 0,
            None => true,
        },
    decreases b.len() - from,
{
    if from < b.len() && b[from] == 0 {
        lemma_first_nonzero(b, from + 1);
    }
}

/// The first zero byte at or after `from`.
fn find_zero(b: &[u8], from: usize) -> (r: Option<usize>)
    requires
        from <= b.len(),
    ensures
        match r {
            Some(e) => first_zero(b@, from as int) == Some(e as int),
            None => first_zero(b@, from as int) is None,
        },
{
    let mut i = from;
    while i < b.len()
        invariant
            from <= i <= b.len(),
            first_zero(b@, from as int) == first_zero(b@, i as int),
        decreases b.len() - i,
    {
        if b[i] == 0 {
            return Some(i);
        }
        i = i + 1;
    }
    None
}

/// The first nonzero byte at or after `from`.
fn find_nonzero(b: &[u8], from: usize) -> (r: Option<usize>)
    requires
        from <= b.len(),
    ensures
        match r {
            Some(e) => first_nonzero(b@, from as int) == Some(e as int),
            None => first_nonzero(b@, from as int) is None,
        },
{
    let mut i = from;
    while i < b.len()
        invariant
            from <= i <= b.len(),
            first_nonzero(b@, from as int) == first_nonzero(b@, i as int),
        decreases b.len() - i,
    {
        if b[i] != 0 {
            return Some(i);
        }
        i = i + 1;
    }
    None
}

/// Whether the bytes `b[start..end]` are those of `lit`.
fn bytes_equal_at(b: &[u8], start: usize, end: usize, lit: &[u8]) -> (r: bool)
    requires
        start <= end <= b.len(),
    ensures
        r == (b@.subrange(start as int, end as int) == lit@),
{
    if end - start != lit.len() {
        return false;
    }
    let mut k: usize = 0;
    while k < lit.len()
        invariant
            end - start == lit.len(),
            start <= end <= b.len(),
            k <= lit.len(),
            forall|j: int| 0 <= j < k ==> b@[start + j] == lit@[j],
        decreases lit.len() - k,
    {
        if b[start + k] != lit[k] {
            assert(b@.subrange(start as int, end as int)[k as int] != lit@[k as int]);
            return false;
        }
        k = k + 1;
    }
    assert(b@.subrange(start as int, end as int) =~= lit@);
    true
}

/// Whether the bytes `b[start..end]` are one argument asking for the toolbar.
fn toolbar_argument(b: &[u8], start: usize, end: usize) -> (r: bool)
    requires
        start <= end <= b.len(),
    ensures
        r == is_toolbar_argument(b@.subrange(start as int, end as int)),
{
    let ghost arg = b@.subrange(start as int, end as int);
    let mode: [u8; 20] = [
        107u8, 101, 121, 98, 111, 97, 114, 100, 46, 105,
        110, 116, 101, 114, 97, 99, 116, 105, 118, 101,
    ];
    assert(mode@ =~= keyboard_interactive());
    if bytes_equal_at(b, start, end, &mode) {
        return true;
    }
    if end - start < 1 || b[start] != DASH {
        return false;
    }
    if end - start >= 2 && b[start + 1] == DASH {
        return false;
    }
    assert(arg[0] == b@[start as int]);
    assert(end - start >= 2 ==> arg[1] == b@[start + 1]);
    let mut k = start + 1;
    while k < end
        invariant
            start + 1 <= k <= end <= b.len(),
            arg == b@.subrange(start as int, end as int),
            forall|j: int| 1 <= j < k - start ==> arg[j] != UPPER_U,
            arg.len() >= 1,
            arg[0] == DASH,
            !(arg.len() >= 2 && arg[1] == DASH),
        decreases end - k,
    {
        if b[k] == UPPER_U {
            assert(arg[k - start] == UPPER_U);
            return true;
        }
        k = k + 1;
    }
    false
}

/// Whether an argument block whose argument count is `count` is that of the
/// screenshot toolbar.
pub fn toolbar_arguments_with_count(buffer: &[u8], count: i32) -> (r: bool)
    requires
        buffer.len() >= 4,
    ensures
        r == toolbar_block(buffer@, count as int),
{
    if count <= 0 {
        return false;
    }
    let path_end = match find_zero(buffer, 4) {
        Some(e) => e,
        None => return false,
    };
    proof {
        lemma_first_zero(buffer@, 4);
    }
    let start = match find_nonzero(buffer, path_end) {
        Some(s) => s,
        None => return false,
    };
    proof {
        lemma_first_nonzero(buffer@, path_end as int);
    }
    let mut pos = start;
    let mut index: i32 = 0;
    let mut toolbar = false;
    while index < count
        invariant
            count > 0,
            buffer.len() >= 4,
            first_zero(buffer@, 4) == Some(path_end as int),
            first_nonzero(buffer@, path_end as int) == Some(start as int),
            0 <= index <= count,
            pos <= buffer.len(),
            scan_arguments(buffer@, start as int, 0, count as int, false) == scan_arguments(
                buffer@,
                pos as int,
                index as int,
                count as int,
                toolbar,
            ),
        decreases count - index,
    {
        let end = match find_zero(buffer, pos) {
            Some(e) => e,
            None => {
                assert(scan_arguments(buffer@, pos as int, index as int, count as int, toolbar) == false);
                return false;
            },
        };
        proof {
            lemma_first_zero(buffer@, pos as int);
        }
        if index != 0 {
            if end - pos == 2 && buffer[pos] == DASH && buffer[pos + 1] == DASH {
                assert(buffer@.subrange(pos as int, end as int) =~= seq![DASH, DASH]);
                return toolbar;
            }
            assert(buffer@.subrange(pos as int, end as int) != seq![DASH, DASH]) by {
                if end - pos == 2 {
                    let arg = buffer@.subrange(pos as int, end as int);
                    assert(arg[0] == buffer@[pos as int]);
                    assert(arg[1] == buffer@[pos + 1]);
                }
            }
            let flag = toolbar_argument(buffer, pos, end);
            toolbar = toolbar || flag;
        }
        pos = end + 1;
        index = index + 1;
    }
    toolbar
}

/// `i32::from_ne_bytes`: the four bytes read as an `i32` in the machine's
/// byte order, which is either little- or big-endian; which one is left open.
#[verifier::external_body]
fn native_i32(bytes: [u8; 4]) -> (r: i32)
    ensures
        r == le_i32(bytes@) || r == be_i32(bytes@),
{
    i32::from_ne_bytes(bytes)
}

/// Whether a process argument block (as the kernel reports it: the argument
/// count in native byte order, the executable path, NUL padding, the
/// arguments, then the environment) is that of the screenshot toolbar. A block
/// too short to hold the count is not.
pub fn toolbar_arguments(buffer: &[u8]) -> (r: bool)
    ensures
        buffer@.len() < 4 ==> !r,
        buffer@.len() >= 4 ==> (r == toolbar_block(buffer@, le_i32(buffer@.subrange(0, 4)) as int)
            || r == toolbar_block(buffer@, be_i32(buffer@.subrange(0, 4)) as int)),
{
    if buffer.len() < 4 {
        return false;
    }
    let count = native_i32([buffer[0], buffer[1], buffer[2], buffer[3]]);
    proof {
        let ghost head = buffer@.subrange(0, 4);
        assert(le_i32(head) == le_i32(seq![buffer@[0], buffer@[1], buffer@[2], buffer@[3]]));
        assert(be_i32(head) == be_i32(seq![buffer@[0], buffer@[1], buffer@[2], buffer@[3]]));
    }
    toolbar_arguments_with_count(buffer, count)
}

} // verus!
