//! Per-display advisory locking.
//!
//! One lock file per display holds the owning process id as decimal text.
//! The rules decided here: an existing lock whose recorded owner is still
//! alive blocks acquisition; a dead owner's lock is stale and is taken over;
//! unreadable contents count as stale. The file system work stays with the
//! caller; this module is the decision logic and a verified model of the
//! lock directory, over which mutual exclusion is proved.

use vstd::prelude::*;
use crate::text::str_eq;
use vstd::string::StringExecFns;

verus! {

/// A decimal digit.
pub open spec fn is_digit(c: char) -> bool {
    48 <= c as u32 && c as u32 <= 57
}

/// Leading and trailing ASCII whitespace trimmed away.
pub open spec fn is_space(c: char) -> bool {
    c == ' ' || c == '\n' || c == '\t' || c == '\r'
}

/// The value of an all-digit string, most significant first.
pub open spec fn digits_val(s: Seq<char>) -> int
    decreases s.len(),
{
    if s.len() == 0 {
        0
    } else {
        digits_val(s.drop_last()) * 10 + (s.last() as u32 - 48)
    }
}

pub open spec fn all_digits(s: Seq<char>) -> bool {
    forall|i: int| 0 <= i < s.len() ==> is_digit(s[i])
}

/// The recorded process id, when the trimmed contents are one non-empty run
/// of digits whose value fits; anything else is unreadable.
pub open spec fn spec_parse_pid(s: Seq<char>) -> Option<u32> {
    let t = spec_trim(s);
    if t.len() > 0 && all_digits(t) && digits_val(t) <= u32::MAX {
        Some(digits_val(t) as u32)
    } else {
        None
    }
}

/// The string without leading and trailing whitespace.
pub open spec fn spec_trim(s: Seq<char>) -> Seq<char>
    decreases s.len(),
{
    if s.len() == 0 {
        s
    } else if is_space(s[0]) {
        spec_trim(s.drop_first())
    } else if is_space(s.last()) {
        spec_trim(s.drop_last())
    } else {
        s
    }
}

/// What to do about a display's lock file.
#[derive(Clone, Copy, Debug, PartialEq, Eq, Structural)]
pub enum LockDecision {
    /// No readable owner: create the lock.
    Create,
    /// Unreadable contents or a dead owner: remove the stale file, then
    /// create the lock.
    RemoveStaleThenCreate,
    /// A live process owns the lock; do not touch it.
    AlreadyHeld { pid: u32 },
}

fn space_char(c: char) -> (r: bool)
    ensures
        r == is_space(c),
{
    c == ' ' || c == '\n' || c == '\t' || c == '\r'
}

proof fn lemma_trim_window(s: Seq<char>, lo: int, hi: int)
    requires
        0 <= lo <= hi <= s.len(),
        forall|j: int| 0 <= j < lo ==> is_space(s[j]),
        forall|j: int| hi <= j < s.len() ==> is_space(s[j]),
        lo < hi ==> !is_space(s[lo]) && !is_space(s[hi - 1]),
        lo == hi ==> lo == 0 && hi == s.len(),
    ensures
        spec_trim(s) == s.subrange(lo, hi),
    decreases s.len(),
{
    if s.len() == 0 {
        assert(s.subrange(lo, hi) =~= s);
    } else if is_space(s[0]) {
        let tail = s.drop_first();
        if lo == hi {
            // all of s is whitespace, so the head is too and the window is
            // the whole of it; recurse with the full tail window
            lemma_trim_window(tail, 0, tail.len() as int);
            assert(tail.subrange(0, tail.len() as int) =~= tail);
            assert(s.subrange(0, s.len() as int) =~= s);
            assert(spec_trim(s) == spec_trim(tail));
            assert(tail.len() == 0 || spec_trim(tail) == tail);
            if tail.len() == 0 {
                assert(s.subrange(lo, hi).len() == 0);
                assert(spec_trim(s) =~= s.subrange(lo, hi));
            } else {
                // tail cannot be returned unchanged unless it trims to itself;
                // but all of tail is whitespace, so trimming recurses to empty
                assert(forall|j: int| 0 <= j < tail.len() ==> is_space(tail[j]));
                assert(spec_trim(tail).len() == 0) by {
                    lemma_trim_all_space(tail);
                }
                assert(s.subrange(lo, hi).len() == 0);
                assert(spec_trim(s) =~= s.subrange(lo, hi));
            }
        } else {
            // lo > 0 since s[0] is whitespace and s[lo] is not
            lemma_trim_window(tail, lo - 1, hi - 1);
            assert(tail.subrange(lo - 1, hi - 1) =~= s.subrange(lo, hi));
        }
    } else if is_space(s.last()) {
        let head = s.drop_last();
        if lo == hi {
            assert(!is_space(s[0]));
            assert(false);
        } else {
            // hi < s.len() since the last is whitespace and s[hi-1] is not
            lemma_trim_window(head, lo, hi);
            assert(head.subrange(lo, hi) =~= s.subrange(lo, hi));
        }
    } else {
        // no trimming: the window must be the whole string
        if lo == hi {
        } else {
            assert(lo == 0);
            assert(hi == s.len());
        }
        assert(s.subrange(lo, hi) =~= s);
    }
}

proof fn lemma_trim_all_space(s: Seq<char>)
    requires
        forall|j: int| 0 <= j < s.len() ==> is_space(s[j]),
    ensures
        spec_trim(s).len() == 0,
    decreases s.len(),
{
    if s.len() > 0 {
        lemma_trim_all_space(s.drop_first());
    }
}

/// Parse the recorded owner from lock-file contents: surrounding whitespace
/// ignored, then one non-empty run of decimal digits within range.
pub fn parse_lock_pid(contents: &str) -> (r: Option<u32>)
    ensures
        r == spec_parse_pid(contents@),
{
    let n = contents.unicode_len();
    let mut lo: usize = 0;
    while lo < n && space_char(contents.get_char(lo))
        invariant
            lo <= n,
            n == contents@.len(),
            forall|j: int| 0 <= j < lo ==> is_space(contents@[j]),
        decreases n - lo,
    {
        lo = lo + 1;
    }
    let mut hi: usize = n;
    if lo == n {
        // all whitespace
        proof {
            lemma_trim_all_space(contents@);
        }
        return None;
    }
    while hi > lo && space_char(contents.get_char(hi - 1))
        invariant
            lo <= hi <= n,
            n == contents@.len(),
            forall|j: int| hi <= j < n ==> is_space(contents@[j]),
            lo < n && !is_space(contents@[lo as int]),
        decreases hi,
    {
        hi = hi - 1;
    }
    proof {
        lemma_trim_window(contents@, lo as int, hi as int);
    }
    let ghost t = spec_trim(contents@);
    // parse digits over [lo, hi)
    let mut val: u64 = 0;
    let mut i: usize = lo;
    while i < hi
        invariant
            lo <= i <= hi <= n,
            n == contents@.len(),
            t == spec_trim(contents@),
            t == contents@.subrange(lo as int, hi as int),
            forall|j: int| lo <= j < i ==> is_digit(contents@[j]),
            val == digits_val(contents@.subrange(lo as int, i as int)),
            val <= 0xFFFFFFFF,
        decreases hi - i,
    {
        let c = contents.get_char(i);
        let u = c as u32;
        if !(48 <= u && u <= 57) {
            proof {
                assert(t[i - lo] == contents@[i as int]);
                assert(!all_digits(t));
            }
            return None;
        }
        let d: u64 = (u - 48) as u64;
        let next: u64 = val * 10 + d;
        proof {
            assert(contents@.subrange(lo as int, i + 1).drop_last() =~= contents@.subrange(
                lo as int,
                i as int,
            ));
        }
        if next > 0xFFFFFFFF {
            proof {
                lemma_digits_val_prefix_over(contents@, lo as int, i + 1, hi as int);
            }
            return None;
        }
        val = next;
        i = i + 1;
    }
    proof {
        assert(contents@.subrange(lo as int, hi as int) =~= t);
        assert(all_digits(t)) by {
            assert(forall|j: int|
                0 <= j < t.len() ==> t[j] == contents@[lo + j] && is_digit(contents@[lo + j]));
        }
    }
    Some(val as u32)
}

/// Once a prefix of the digit run exceeds the range, the whole run does.
proof fn lemma_digits_val_prefix_over(s: Seq<char>, lo: int, mid: int, hi: int)
    requires
        0 <= lo <= mid <= hi <= s.len(),
        digits_val(s.subrange(lo, mid)) > u32::MAX,
        forall|j: int| lo <= j < mid ==> is_digit(s[j]),
    ensures
        all_digits(s.subrange(lo, hi)) ==> digits_val(s.subrange(lo, hi)) > u32::MAX,
    decreases hi - mid,
{
    if mid < hi {
        if all_digits(s.subrange(lo, hi)) {
            assert(is_digit(s[mid])) by {
                assert(s.subrange(lo, hi)[mid - lo] == s[mid]);
            }
            assert(s.subrange(lo, mid + 1).drop_last() =~= s.subrange(lo, mid));
            assert(digits_val(s.subrange(lo, mid + 1)) == digits_val(s.subrange(lo, mid)) * 10 + (
            s[mid] as u32 - 48));
            lemma_digits_val_prefix_over(s, lo, mid + 1, hi);
        }
    } else {
        assert(s.subrange(lo, hi) =~= s.subrange(lo, mid));
    }
}

/// The rule of the lock file: no file or no owner means create; unreadable
/// contents or a dead owner mean take over after removing the stale file; a
/// live owner blocks.
pub fn lock_decision(file_exists: bool, recorded: Option<u32>, owner_alive: bool) -> (d:
    LockDecision)
    ensures
        !file_exists ==> d == LockDecision::Create,
        file_exists && recorded is None ==> d == LockDecision::RemoveStaleThenCreate,
        file_exists && recorded is Some && owner_alive ==> d == (LockDecision::AlreadyHeld {
            pid: recorded->0,
        }),
        file_exists && recorded is Some && !owner_alive ==> d
            == LockDecision::RemoveStaleThenCreate,
{
    if !file_exists {
        LockDecision::Create
    } else {
        match recorded {
            None => LockDecision::RemoveStaleThenCreate,
            Some(pid) => {
                if owner_alive {
                    LockDecision::AlreadyHeld { pid }
                } else {
                    LockDecision::RemoveStaleThenCreate
                }
            },
        }
    }
}

// ------------------------------------------------------------------
// A verified model of the lock directory.
// ------------------------------------------------------------------

/// One held lock: the display and the owning process.
pub struct LockEntry {
    pub display: String,
    pub pid: u32,
}

/// The lock directory: at most one entry per display.
pub struct LockTable {
    pub entries: Vec<LockEntry>,
}

/// Outcome of an acquisition attempt.
#[derive(Clone, Copy, Debug, PartialEq, Eq, Structural)]
pub enum LockAttempt {
    Acquired,
    HeldBy { pid: u32 },
}

/// The table as a sequence of (display name, owner) pairs.
pub open spec fn table_model(entries: Seq<LockEntry>) -> Seq<(Seq<char>, u32)> {
    entries.map_values(|e: LockEntry| (e.display@, e.pid))
}

/// The owner recorded for a display: the first entry with its name.
pub open spec fn spec_holder(t: Seq<(Seq<char>, u32)>, name: Seq<char>) -> Option<u32>
    decreases t.len(),
{
    if t.len() == 0 {
        None
    } else if t[0].0 == name {
        Some(t[0].1)
    } else {
        spec_holder(t.drop_first(), name)
    }
}

/// Index of the first entry with this name.
pub open spec fn spec_holder_index(t: Seq<(Seq<char>, u32)>, name: Seq<char>) -> int
    decreases t.len(),
{
    if t.len() == 0 {
        0
    } else if t[0].0 == name {
        0
    } else {
        1 + spec_holder_index(t.drop_first(), name)
    }
}

/// What one acquisition attempt does to the directory, and its outcome.
/// A free display gains an entry; a display whose recorded owner is alive is
/// left untouched; a stale entry (dead owner) is replaced in place.
pub open spec fn spec_acquire(
    t: Seq<(Seq<char>, u32)>,
    name: Seq<char>,
    pid: u32,
    holder_alive: bool,
) -> (Seq<(Seq<char>, u32)>, LockAttempt) {
    match spec_holder(t, name) {
        None => (t.push((name, pid)), LockAttempt::Acquired),
        Some(p) => {
            if holder_alive {
                (t, LockAttempt::HeldBy { pid: p })
            } else {
                (t.update(spec_holder_index(t, name), (name, pid)), LockAttempt::Acquired)
            }
        },
    }
}

/// What a release does: the display's entry, if any, is removed.
pub open spec fn spec_release(t: Seq<(Seq<char>, u32)>, name: Seq<char>) -> Seq<
    (Seq<char>, u32),
> {
    if spec_holder(t, name) is Some {
        t.remove(spec_holder_index(t, name))
    } else {
        t
    }
}

proof fn lemma_holder_index_found(t: Seq<(Seq<char>, u32)>, name: Seq<char>)
    requires
        spec_holder(t, name) is Some,
    ensures
        0 <= spec_holder_index(t, name) < t.len(),
        t[spec_holder_index(t, name)].0 == name,
        t[spec_holder_index(t, name)].1 == spec_holder(t, name)->0,
        forall|j: int| 0 <= j < spec_holder_index(t, name) ==> t[j].0 != name,
    decreases t.len(),
{
    if t.len() == 0 {
    } else if t[0].0 == name {
    } else {
        lemma_holder_index_found(t.drop_first(), name);
        assert forall|j: int| 0 <= j < spec_holder_index(t, name) implies t[j].0 != name by {
            if j > 0 {
                assert(t.drop_first()[j - 1] == t[j]);
            }
        }
    }
}

proof fn lemma_holder_skip(t: Seq<(Seq<char>, u32)>, name: Seq<char>, k: int)
    requires
        0 <= k <= t.len(),
        forall|j: int| 0 <= j < k ==> t[j].0 != name,
    ensures
        spec_holder(t, name) == spec_holder(t.skip(k), name),
    decreases k,
{
    if k > 0 {
        assert(t.drop_first().skip(k - 1) =~= t.skip(k));
        lemma_holder_skip(t.drop_first(), name, k - 1);
    } else {
        assert(t.skip(0) =~= t);
    }
}

/// Updating an entry in place, keeping its name, changes the holder of that
/// name alone.
proof fn lemma_holder_update(
    t: Seq<(Seq<char>, u32)>,
    i: int,
    e: (Seq<char>, u32),
    name: Seq<char>,
)
    requires
        0 <= i < t.len(),
        t[i].0 == e.0,
        forall|j: int| 0 <= j < i ==> t[j].0 != e.0,
    ensures
        spec_holder(t.update(i, e), e.0) == Some(e.1),
        name != e.0 ==> spec_holder(t.update(i, e), name) == spec_holder(t, name),
    decreases i,
{
    let u = t.update(i, e);
    if i == 0 {
        assert(u[0] == e);
        if name != e.0 {
            assert(u.drop_first() =~= t.drop_first());
        }
    } else {
        assert(u[0] == t[0]);
        assert(u.drop_first() =~= t.drop_first().update(i - 1, e));
        lemma_holder_update(t.drop_first(), i - 1, e, name);
    }
}

/// Appending an entry makes it the holder of its name when the name was
/// free, and changes nothing else.
proof fn lemma_holder_push(t: Seq<(Seq<char>, u32)>, e: (Seq<char>, u32), name: Seq<char>)
    ensures
        spec_holder(t, name) is Some ==> spec_holder(t.push(e), name) == spec_holder(t, name),
        spec_holder(t, name) is None && name == e.0 ==> spec_holder(t.push(e), name) == Some(
            e.1,
        ),
        spec_holder(t, name) is None && name != e.0 ==> spec_holder(t.push(e), name) is None,
    decreases t.len(),
{
    if t.len() == 0 {
        assert(t.push(e)[0] == e);
        assert(t.push(e).drop_first() =~= Seq::<(Seq<char>, u32)>::empty());
    } else {
        assert(t.push(e)[0] == t[0]);
        assert(t.push(e).drop_first() =~= t.drop_first().push(e));
        lemma_holder_push(t.drop_first(), e, name);
    }
}

/// Removing an entry whose name appears nowhere else frees that name and
/// changes nothing else.
proof fn lemma_holder_remove(t: Seq<(Seq<char>, u32)>, i: int, name: Seq<char>)
    requires
        0 <= i < t.len(),
        forall|j: int| 0 <= j < i ==> t[j].0 != t[i].0,
        forall|j: int| i < j < t.len() ==> t[j].0 != t[i].0,
    ensures
        spec_holder(t.remove(i), t[i].0) is None,
        name != t[i].0 ==> spec_holder(t.remove(i), name) == spec_holder(t, name),
    decreases i,
{
    let u = t.remove(i);
    if i == 0 {
        assert(u =~= t.drop_first());
        lemma_holder_none_when_absent(u, t[0].0);
    } else {
        assert(u[0] == t[0]);
        assert(u.drop_first() =~= t.drop_first().remove(i - 1));
        assert forall|j: int| 0 <= j < i - 1 implies #[trigger] t.drop_first()[j].0
            != t.drop_first()[i - 1].0 by {
            assert(t.drop_first()[j] == t[j + 1]);
            assert(t.drop_first()[i - 1] == t[i]);
        }
        lemma_holder_remove(t.drop_first(), i - 1, name);
        assert(t.drop_first()[i - 1] == t[i]);
    }
}

proof fn lemma_holder_none_when_absent(t: Seq<(Seq<char>, u32)>, name: Seq<char>)
    requires
        forall|j: int| 0 <= j < t.len() ==> t[j].0 != name,
    ensures
        spec_holder(t, name) is None,
    decreases t.len(),
{
    if t.len() > 0 {
        assert forall|j: int| 0 <= j < t.drop_first().len() implies t.drop_first()[j].0
            != name by {
            assert(t.drop_first()[j] == t[j + 1]);
        }
        lemma_holder_none_when_absent(t.drop_first(), name);
    }
}

impl LockTable {
    pub fn new() -> (t: LockTable)
        ensures
            table_model(t.entries@).len() == 0,
    {
        LockTable { entries: Vec::new() }
    }

    /// Attempt to take the display's lock for process `pid`; `holder_alive`
    /// reports whether the recorded owner, if any, is a live process.
    pub fn try_acquire(&mut self, display: &str, pid: u32, holder_alive: bool) -> (r:
        LockAttempt)
        ensures
            (table_model(final(self).entries@), r) == spec_acquire(
                table_model(old(self).entries@),
                display@,
                pid,
                holder_alive,
            ),
    {
        let ghost t0 = table_model(self.entries@);
        let n = self.entries.len();
        let mut i: usize = 0;
        while i < n
            invariant
                i <= n,
                n == self.entries@.len(),
                t0 == table_model(self.entries@),
                t0 == table_model(old(self).entries@),
                forall|j: int| 0 <= j < i ==> self.entries@[j].display@ != display@,
            decreases n - i,
        {
            let held = str_eq(self.entries[i].display.as_str(), display);
            if held {
                proof {
                    assert(forall|j: int| 0 <= j < t0.len() ==> t0[j] == (
                    self.entries@[j].display@,
                    self.entries@[j].pid,
                    ));
                    lemma_holder_skip(t0, display@, i as int);
                    assert(t0.skip(i as int)[0] == t0[i as int]);
                    assert(spec_holder(t0, display@) == Some(t0[i as int].1));
                    lemma_holder_index_found(t0, display@);
                    assert(spec_holder_index(t0, display@) == i as int) by {
                        let idx = spec_holder_index(t0, display@);
                        if idx < i {
                            assert(t0[idx].0 == display@);
                        }
                        if idx > i {
                            assert(t0[i as int].0 != display@);
                        }
                    }
                }
                let p = self.entries[i].pid;
                if holder_alive {
                    return LockAttempt::HeldBy { pid: p };
                }
                self.entries.set(i, LockEntry { display: display.to_owned(), pid });
                proof {
                    assert(table_model(self.entries@) =~= t0.update(
                        i as int,
                        (display@, pid),
                    ));
                    lemma_holder_update(t0, i as int, (display@, pid), display@);
                }
                return LockAttempt::Acquired;
            }
            i = i + 1;
        }
        proof {
            assert(forall|j: int| 0 <= j < t0.len() ==> t0[j] == (
            self.entries@[j].display@,
            self.entries@[j].pid,
            ));
            lemma_holder_none_when_absent(t0, display@);
        }
        self.entries.push(LockEntry { display: display.to_owned(), pid });
        proof {
            assert(table_model(self.entries@) =~= t0.push((display@, pid)));
        }
        LockAttempt::Acquired
    }

    /// Release the display's lock, if held.
    pub fn release(&mut self, display: &str)
        ensures
            table_model(final(self).entries@) == spec_release(
                table_model(old(self).entries@),
                display@,
            ),
    {
        let ghost t0 = table_model(self.entries@);
        let n = self.entries.len();
        let mut i: usize = 0;
        while i < n
            invariant
                i <= n,
                n == self.entries@.len(),
                t0 == table_model(self.entries@),
                t0 == table_model(old(self).entries@),
                forall|j: int| 0 <= j < i ==> self.entries@[j].display@ != display@,
            decreases n - i,
        {
            let held = str_eq(self.entries[i].display.as_str(), display);
            if held {
                proof {
                    assert(forall|j: int| 0 <= j < t0.len() ==> t0[j] == (
                    self.entries@[j].display@,
                    self.entries@[j].pid,
                    ));
                    lemma_holder_skip(t0, display@, i as int);
                    assert(t0.skip(i as int)[0] == t0[i as int]);
                    lemma_holder_index_found(t0, display@);
                    assert(spec_holder_index(t0, display@) == i as int) by {
                        let idx = spec_holder_index(t0, display@);
                        if idx < i {
                            assert(t0[idx].0 == display@);
                        }
                        if idx > i {
                            assert(t0[i as int].0 != display@);
                        }
                    }
                }
                self.entries.remove(i);
                proof {
                    assert(table_model(self.entries@) =~= t0.remove(i as int));
                }
                return ;
            }
            i = i + 1;
        }
        proof {
            assert(forall|j: int| 0 <= j < t0.len() ==> t0[j] == (
            self.entries@[j].display@,
            self.entries@[j].pid,
            ));
            lemma_holder_none_when_absent(t0, display@);
        }
    }
}

/// The file name of a display's lock in the runtime directory.
pub fn lock_file_name(display: &str) -> (name: String)
    ensures
        name@ == "snug-"@ + display@ + ".lock"@,
{
    let mut s = String::from_str("snug-");
    s.append(display);
    s.append(".lock");
    s
}

/// A held per-display lock, released by handing it back to the table.
pub struct LockGuard {
    pub display: String,
}

impl LockGuard {
    /// Acquire the display's lock for `pid`. Exactly the cases of
    /// `spec_acquire`: a free or stale lock is taken, a live owner blocks.
    pub fn new(table: &mut LockTable, display: &str, pid: u32, holder_alive: bool) -> (g:
        Option<LockGuard>)
        ensures
            ({
                let (t1, r) = spec_acquire(
                    table_model(old(table).entries@),
                    display@,
                    pid,
                    holder_alive,
                );
                &&& table_model(final(table).entries@) == t1
                &&& (g is Some <==> r == LockAttempt::Acquired)
                &&& (g is Some ==> g->0.display@ == display@)
            }),
    {
        match table.try_acquire(display, pid, holder_alive) {
            LockAttempt::Acquired => Some(LockGuard { display: display.to_owned() }),
            LockAttempt::HeldBy { .. } => None,
        }
    }

    /// Hand the lock back.
    pub fn release(self, table: &mut LockTable)
        ensures
            table_model(final(table).entries@) == spec_release(
                table_model(old(table).entries@),
                self.display@,
            ),
    {
        table.release(self.display.as_str());
    }
}

/// Lock mutual exclusion. From a directory where a display is free, one
/// acquisition succeeds; while its owner lives, any further attempt fails
/// and leaves the directory unchanged — exactly one of two attempts wins.
/// Once the owner is dead, a later attempt succeeds and replaces the stale
/// entry.
pub proof fn lemma_lock_mutual_exclusion(
    t: Seq<(Seq<char>, u32)>,
    d: Seq<char>,
    p1: u32,
    p2: u32,
)
    requires
        spec_holder(t, d) is None,
    ensures
        ({
            let (t1, r1) = spec_acquire(t, d, p1, false);
            let (t2, r2) = spec_acquire(t1, d, p2, true);
            let (t3, r3) = spec_acquire(t1, d, p2, false);
            &&& r1 == LockAttempt::Acquired
            &&& spec_holder(t1, d) == Some(p1)
            &&& r2 == (LockAttempt::HeldBy { pid: p1 })
            &&& t2 == t1
            &&& r3 == LockAttempt::Acquired
            &&& spec_holder(t3, d) == Some(p2)
        }),
{
    lemma_holder_push(t, (d, p1), d);
    let t1 = t.push((d, p1));
    lemma_holder_index_found(t1, d);
    lemma_holder_update(t1, spec_holder_index(t1, d), (d, p2), d);
}

/// Releasing is complete: whatever a display's entry was, after a release
/// the display is free again, and no other display's entry moves.
pub proof fn lemma_release_frees(t: Seq<(Seq<char>, u32)>, d: Seq<char>, other: Seq<char>)
    requires
        forall|i: int, j: int|
            0 <= i < j < t.len() ==> t[i].0 != t[j].0,
    ensures
        spec_holder(spec_release(t, d), d) is None,
        other != d ==> spec_holder(spec_release(t, d), other) == spec_holder(t, other),
{
    if spec_holder(t, d) is Some {
        lemma_holder_index_found(t, d);
        let i = spec_holder_index(t, d);
        assert forall|j: int| i < j < t.len() implies t[j].0 != t[i].0 by {}
        lemma_holder_remove(t, i, other);
    }
}

} // verus!
