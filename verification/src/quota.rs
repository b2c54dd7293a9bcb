//! Write quotas: how many bytes may be written under a quota id.
use vstd::prelude::*;
use vstd::string::*;

use crate::error::{ErrorKind, Failure, FailureView, VfsError, VfsErrorView};
use crate::number::{decimal, decimal_text};
use crate::table::Table;

verus! {

/// The bytes that were written under each quota id, kept in memory.
pub struct MemoryTracker {
    written: Table<u64>,
}

impl View for MemoryTracker {
    type V = Map<Seq<char>, u64>;

    closed spec fn view(&self) -> Map<Seq<char>, u64> {
        self.written@
    }
}

/// The bytes recorded under `id`: none, where nothing was recorded.
pub open spec fn recorded(tracker: Map<Seq<char>, u64>, id: Seq<char>) -> u64 {
    if tracker.contains_key(id) {
        tracker[id]
    } else {
        0
    }
}

impl Default for MemoryTracker {
    fn default() -> (r: MemoryTracker)
        ensures
            r@ == Map::<Seq<char>, u64>::empty(),
    {
        MemoryTracker { written: Table::new() }
    }
}

impl MemoryTracker {
    /// The bytes recorded under `id`.
    pub fn get_bytes_written(&self, id: &str) -> (r: Result<u64, VfsError>)
        ensures
            r == Ok::<u64, VfsError>(recorded(self@, id@)),
    {
        match self.written.get(id) {
            Some(bytes) => Ok(*bytes),
            None => Ok(0),
        }
    }

    /// Records `bytes` under `id`.
    pub fn set_bytes_written(&mut self, id: &str, bytes: u64) -> (r: Result<(), VfsError>)
        ensures
            r == Ok::<(), VfsError>(()),
            final(self)@ == old(self)@.insert(id@, bytes),
    {
        self.written.insert(id.to_owned(), bytes);
        Ok(())
    }
}

/// `a + b`, or the largest number where that is larger still.
pub open spec fn saturating_sum(a: u64, b: u64) -> u64 {
    if a + b > u64::MAX {
        u64::MAX
    } else {
        (a + b) as u64
    }
}

/// `a - b`, or zero where `b` is larger.
pub open spec fn saturating_difference(a: u64, b: u64) -> u64 {
    if a < b {
        0
    } else {
        (a - b) as u64
    }
}

/// What a write that would go over the quota is answered.
pub open spec fn quota_exceeded(id: Seq<char>, used: u64, requested: u64, limit: u64) -> FailureView {
    FailureView::new(
        ErrorKind::RateLimited,
        "write quota exceeded for '"@ + id + "': "@ + decimal(used as nat) + " used, "@ + decimal(
            requested as nat,
        ) + " requested, "@ + decimal(limit as nat) + " limit"@,
    ).with_context("quota_id"@, id).with_context(
        "quota_limit"@,
        decimal(limit as nat),
    ).with_context("quota_used"@, decimal(used as nat)).with_context(
        "quota_requested"@,
        decimal(requested as nat),
    )
}

/// What is left to do of a reservation.
#[derive(Clone, Copy, Debug, PartialEq, Eq, Structural)]
pub enum ReserveStep {
    /// Nothing: the bytes are reserved.
    Done,
    /// Ask the tracker how many bytes are recorded, then call [`QuotaState::loaded`].
    Load,
    /// Have the tracker record this total, then call [`QuotaState::stored`].
    Store(u64),
}

/// The state of a quota. The bytes themselves are recorded by a tracker, which is asked once.
pub struct QuotaState {
    /// The id under which the tracker records.
    pub id: String,
    /// The most bytes that may be written.
    pub limit: u64,
    /// The bytes written so far, once they are known.
    pub cache: Option<u64>,
}

/// The account of one quota id.
pub struct Ledger {
    /// The bytes written so far, once they are known.
    pub known: Option<u64>,
    /// The bytes that the tracker has recorded.
    pub recorded: u64,
}

impl Ledger {
    /// The bytes that count as written.
    pub open spec fn used(self) -> u64 {
        match self.known {
            Some(used) => used,
            None => self.recorded,
        }
    }

    /// Whether what is known is what is recorded.
    pub open spec fn settled(self) -> bool {
        self.used() == self.recorded
    }

    /// Whether `len` bytes more can be reserved.
    pub open spec fn grants(self, limit: u64, len: u64) -> bool {
        len == 0 || saturating_sum(self.used(), len) <= limit
    }

    /// The account after an attempt to reserve `len` bytes.
    pub open spec fn reserve(self, limit: u64, len: u64) -> Ledger {
        if len == 0 {
            self
        } else if self.grants(limit, len) {
            let total = saturating_sum(self.used(), len);
            Ledger { known: Some(total), recorded: total }
        } else {
            Ledger { known: Some(self.used()), recorded: self.recorded }
        }
    }

    /// The account after `len` reserved bytes are given back.
    pub open spec fn release(self, len: u64) -> Ledger {
        if len == 0 {
            self
        } else {
            let total = saturating_difference(
                match self.known {
                    Some(used) => used,
                    None => 0,
                },
                len,
            );
            Ledger { known: Some(total), recorded: total }
        }
    }
}

/// The result of a step, its error taken by what it says.
pub open spec fn step_view<T>(r: Result<T, VfsError>) -> Result<T, VfsErrorView> {
    match r {
        Ok(v) => Ok(v),
        Err(e) => Err(e@),
    }
}

/// What reserving `len` bytes asks for where `used` are written already: the new total is
/// recorded, or the write is refused.
pub open spec fn decision(id: Seq<char>, limit: u64, used: u64, len: u64) -> Result<
    ReserveStep,
    VfsErrorView,
> {
    if saturating_sum(used, len) > limit {
        Err(VfsErrorView::Raised(quota_exceeded(id, used, len, limit)))
    } else {
        Ok(ReserveStep::Store(saturating_sum(used, len)))
    }
}

impl QuotaState {
    /// The state of a quota of which nothing is known yet.
    pub fn new(id: String, limit: u64) -> (r: QuotaState)
        ensures
            r.id == id,
            r.limit == limit,
            r.cache is None,
    {
        QuotaState { id, limit, cache: None }
    }

    /// Whether nothing but the known total differs.
    pub open spec fn same_quota(self, other: QuotaState) -> bool {
        self.id == other.id && self.limit == other.limit
    }

    /// Starts to reserve `len` bytes.
    pub fn reserve(&mut self, len: u64) -> (r: Result<ReserveStep, VfsError>)
        ensures
            *final(self) == *old(self),
            step_view(r) == (if len == 0 {
                Ok::<ReserveStep, VfsErrorView>(ReserveStep::Done)
            } else {
                match old(self).cache {
                    Some(used) => decision(old(self).id@, old(self).limit, used, len),
                    None => Ok(ReserveStep::Load),
                }
            }),
    {
        if len == 0 {
            return Ok(ReserveStep::Done);
        }
        match self.cache {
            Some(used) => self.decide(used, len),
            None => Ok(ReserveStep::Load),
        }
    }

    /// Goes on with a reservation of `len` bytes when the tracker has said how many bytes are
    /// recorded.
    pub fn loaded(&mut self, len: u64, recorded: Result<u64, VfsError>) -> (r: Result<
        ReserveStep,
        VfsError,
    >)
        ensures
            final(self).same_quota(*old(self)),
            match recorded {
                Ok(used) => {
                    &&& step_view(r) == decision(old(self).id@, old(self).limit, used, len)
                    &&& final(self).cache == (if r is Err {
                        Some(used)
                    } else {
                        old(self).cache
                    })
                },
                Err(e) => {
                    &&& r == Err::<ReserveStep, VfsError>(e)
                    &&& final(self).cache == old(self).cache
                },
            },
    {
        match recorded {
            Ok(used) => self.decide(used, len),
            Err(e) => Err(e),
        }
    }

    /// Ends a reservation when the tracker has recorded `total`, or could not.
    pub fn stored(&mut self, total: u64, outcome: Result<(), VfsError>) -> (r: Result<(), VfsError>)
        ensures
            r == outcome,
            final(self).same_quota(*old(self)),
            final(self).cache == (if outcome is Ok {
                Some(total)
            } else {
                old(self).cache
            }),
    {
        match outcome {
            Ok(done) => {
                self.cache = Some(total);
                Ok(done)
            },
            Err(e) => Err(e),
        }
    }

    /// Gives `len` reserved bytes back. The result is the total for the tracker to record, if
    /// there is anything to record; whether the tracker can is of no account.
    pub fn release(&mut self, len: u64) -> (r: Option<u64>)
        ensures
            final(self).same_quota(*old(self)),
            len == 0 ==> r is None && final(self).cache == old(self).cache,
            len > 0 ==> {
                &&& r == Some(
                    saturating_difference(
                        match old(self).cache {
                            Some(used) => used,
                            None => 0,
                        },
                        len,
                    ),
                )
                &&& final(self).cache == r
            },
    {
        if len == 0 {
            return None;
        }
        let used: u64 = match self.cache {
            Some(used) => used,
            None => 0,
        };
        let total: u64 = if used < len {
            0
        } else {
            used - len
        };
        self.cache = Some(total);
        Some(total)
    }

    /// The quota as it stands with a tracker that keeps its records in memory.
    pub open spec fn ledger(self, tracker: MemoryTracker) -> Ledger {
        Ledger { known: self.cache, recorded: recorded(tracker@, self.id@) }
    }

    /// Reserves `len` bytes with a tracker that keeps its records in memory.
    pub fn reserve_tracked(&mut self, tracker: &mut MemoryTracker, len: u64) -> (r: Result<
        (),
        VfsError,
    >)
        ensures
            final(self).same_quota(*old(self)),
            final(self).ledger(*final(tracker)) == old(self).ledger(*old(tracker)).reserve(
                old(self).limit,
                len,
            ),
            forall|id: Seq<char>|
                id != old(self).id@ ==> recorded(final(tracker)@, id) == recorded(
                    old(tracker)@,
                    id,
                ),
            step_view(r) == (if old(self).ledger(*old(tracker)).grants(old(self).limit, len) {
                Ok(())
            } else {
                Err(
                    VfsErrorView::Raised(
                        quota_exceeded(
                            old(self).id@,
                            old(self).ledger(*old(tracker)).used(),
                            len,
                            old(self).limit,
                        ),
                    ),
                )
            }),
    {
        let mut step = self.reserve(len);
        if let Ok(ReserveStep::Load) = step {
            let answer = tracker.get_bytes_written(self.id.as_str());
            step = self.loaded(len, answer);
        }
        match step {
            Ok(ReserveStep::Store(total)) => {
                let outcome = tracker.set_bytes_written(self.id.as_str(), total);
                self.stored(total, outcome)
            },
            Ok(_) => Ok(()),
            Err(e) => Err(e),
        }
    }

    /// Gives `len` reserved bytes back to a tracker that keeps its records in memory.
    pub fn release_tracked(&mut self, tracker: &mut MemoryTracker, len: u64)
        ensures
            final(self).same_quota(*old(self)),
            final(self).ledger(*final(tracker)) == old(self).ledger(*old(tracker)).release(len),
            forall|id: Seq<char>|
                id != old(self).id@ ==> recorded(final(tracker)@, id) == recorded(
                    old(tracker)@,
                    id,
                ),
    {
        if let Some(total) = self.release(len) {
            let _ = tracker.set_bytes_written(self.id.as_str(), total);
        }
    }

    /// Decides on `len` bytes where `used` are written already.
    fn decide(&mut self, used: u64, len: u64) -> (r: Result<ReserveStep, VfsError>)
        ensures
            step_view(r) == decision(old(self).id@, old(self).limit, used, len),
            final(self).same_quota(*old(self)),
            final(self).cache == (if r is Err {
                Some(used)
            } else {
                old(self).cache
            }),
    {
        let total: u64 = if len > u64::MAX - used {
            u64::MAX
        } else {
            used + len
        };
        if total > self.limit {
            self.cache = Some(used);
            let failure = exceeded(self.id.as_str(), used, len, self.limit);
            return Err(VfsError::Raised(failure));
        }
        Ok(ReserveStep::Store(total))
    }
}

/// What a write that would go over the quota is answered.
fn exceeded(id: &str, used: u64, requested: u64, limit: u64) -> (r: Failure)
    ensures
        r@ == quota_exceeded(id@, used, requested, limit),
{
    let used_text = decimal_text(used);
    let requested_text = decimal_text(requested);
    let limit_text = decimal_text(limit);
    let mut message = "write quota exceeded for '".to_owned();
    message.append(id);
    message.append("': ");
    message.append(used_text.as_str());
    message.append(" used, ");
    message.append(requested_text.as_str());
    message.append(" requested, ");
    message.append(limit_text.as_str());
    message.append(" limit");
    Failure::new(ErrorKind::RateLimited, message.as_str()).with_context(
        "quota_id",
        id,
    ).with_context("quota_limit", limit_text.as_str()).with_context(
        "quota_used",
        used_text.as_str(),
    ).with_context("quota_requested", requested_text.as_str())
}

/// A write that one writer makes: its length, and whether the writer below takes it.
pub struct WriteAttempt {
    /// The number of bytes.
    pub len: u64,
    /// Whether the writer below takes them.
    pub ok: bool,
}

/// The account, and the bytes that the writer holds, after one write: it reserves its bytes
/// first and gives them back if it fails.
pub open spec fn write_step(ledger: Ledger, held: int, limit: u64, write: WriteAttempt) -> (
    Ledger,
    int,
) {
    if !ledger.grants(limit, write.len) {
        (ledger.reserve(limit, write.len), held)
    } else if write.ok {
        (ledger.reserve(limit, write.len), held + write.len)
    } else {
        (ledger.reserve(limit, write.len).release(write.len), held)
    }
}

/// The bytes that one writer holds reserved until it is closed.
pub struct QuotaWriter {
    /// The bytes reserved since the writer was opened or closed.
    pub reserved: u64,
}

impl QuotaWriter {
    /// A writer that has reserved nothing.
    pub fn new() -> (r: QuotaWriter)
        ensures
            r.reserved == 0,
    {
        QuotaWriter { reserved: 0 }
    }

    /// Takes note that `len` bytes were reserved and are about to be written.
    pub fn granted(&mut self, len: u64)
        requires
            old(self).reserved + len <= u64::MAX,
        ensures
            final(self).reserved == old(self).reserved + len,
    {
        self.reserved = self.reserved + len;
    }

    /// Takes note of how the write of `len` bytes ended. The result is the number of bytes to
    /// release: a write that failed gives back what was reserved for it.
    pub fn written(&mut self, len: u64, ok: bool) -> (r: u64)
        requires
            len <= old(self).reserved,
        ensures
            r == (if ok {
                0
            } else {
                len
            }),
            final(self).reserved == old(self).reserved - r,
    {
        if ok {
            0
        } else {
            self.reserved = self.reserved - len;
            len
        }
    }

    /// Writes `len` bytes under a quota whose records are kept in memory, where `outcome` is what
    /// the writer below answers if it is asked.
    pub fn write_tracked(
        &mut self,
        state: &mut QuotaState,
        tracker: &mut MemoryTracker,
        len: u64,
        outcome: Result<(), VfsError>,
    ) -> (r: Result<(), VfsError>)
        requires
            old(state).ledger(*old(tracker)).grants(old(state).limit, len) ==> old(self).reserved
                + len <= u64::MAX,
        ensures
            final(state).same_quota(*old(state)),
            (final(state).ledger(*final(tracker)), final(self).reserved as int) == write_step(
                old(state).ledger(*old(tracker)),
                old(self).reserved as int,
                old(state).limit,
                WriteAttempt { len, ok: outcome is Ok },
            ),
            forall|id: Seq<char>|
                id != old(state).id@ ==> recorded(final(tracker)@, id) == recorded(
                    old(tracker)@,
                    id,
                ),
            if old(state).ledger(*old(tracker)).grants(old(state).limit, len) {
                r == outcome
            } else {
                step_view(r) == Err::<(), VfsErrorView>(
                    VfsErrorView::Raised(
                        quota_exceeded(
                            old(state).id@,
                            old(state).ledger(*old(tracker)).used(),
                            len,
                            old(state).limit,
                        ),
                    ),
                )
            },
    {
        match state.reserve_tracked(tracker, len) {
            Ok(_) => {},
            Err(e) => {
                return Err(e);
            },
        }
        self.granted(len);
        let release = self.written(len, outcome.is_ok());
        state.release_tracked(tracker, release);
        outcome
    }

    /// Takes note of how closing the writer below ended: what was written stays counted.
    pub fn closed(&mut self, ok: bool)
        ensures
            final(self).reserved == (if ok {
                0
            } else {
                old(self).reserved
            }),
    {
        if ok {
            self.reserved = 0;
        }
    }

    /// Takes note of how aborting the writer below ended. The result is the number of bytes to
    /// release: what was written since the writer was opened or closed counts no longer.
    pub fn aborted(&mut self, ok: bool) -> (r: u64)
        ensures
            r == (if ok {
                old(self).reserved
            } else {
                0
            }),
            final(self).reserved == old(self).reserved - r,
    {
        if ok {
            let reserved: u64 = self.reserved;
            self.reserved = 0;
            reserved
        } else {
            0
        }
    }
}

/// Something that happens to a quota.
pub enum QuotaEvent {
    /// An attempt to reserve so many bytes.
    Reserve(u64),
    /// So many bytes are given back.
    Release(u64),
}

/// The account after a sequence of events.
pub open spec fn after_events(start: Ledger, limit: u64, events: Seq<QuotaEvent>) -> Ledger
    decreases events.len(),
{
    if events.len() == 0 {
        start
    } else {
        let ledger = after_events(start, limit, events.drop_last());
        match events.last() {
            QuotaEvent::Reserve(len) => ledger.reserve(limit, len),
            QuotaEvent::Release(len) => ledger.release(len),
        }
    }
}

/// Whatever is reserved and released, what is recorded stays within the limit, and what is
/// known is what is recorded.
pub proof fn law_quota_is_kept(start: Ledger, limit: u64, events: Seq<QuotaEvent>)
    requires
        start.settled(),
        start.recorded <= limit,
    ensures
        after_events(start, limit, events).settled(),
        after_events(start, limit, events).recorded <= limit,
    decreases events.len(),
{
    if events.len() > 0 {
        law_quota_is_kept(start, limit, events.drop_last());
    }
}

/// The bytes of the reservations among a sequence of events that are granted, all together.
pub open spec fn granted_length(start: Ledger, limit: u64, events: Seq<QuotaEvent>) -> nat
    decreases events.len(),
{
    if events.len() == 0 {
        0
    } else {
        let before = events.drop_last();
        granted_length(start, limit, before) + match events.last() {
            QuotaEvent::Reserve(len) => if after_events(start, limit, before).grants(limit, len) {
                len as nat
            } else {
                0
            },
            QuotaEvent::Release(_) => 0,
        }
    }
}

/// The bytes that the reservations among a sequence of events ask for, all together.
pub open spec fn requested_length(events: Seq<QuotaEvent>) -> nat
    decreases events.len(),
{
    if events.len() == 0 {
        0
    } else {
        requested_length(events.drop_last()) + match events.last() {
            QuotaEvent::Reserve(len) => len as nat,
            QuotaEvent::Release(_) => 0,
        }
    }
}

/// In whatever order reservations get their turn, the total is what it was at the start and what
/// was granted, so that no two of them are granted the same bytes, and it stays within the limit.
/// Totals that the numbers cannot hold are left out: they are cut off, which only a quota without
/// a limit allows.
pub proof fn law_total_is_what_was_granted(start: Ledger, limit: u64, events: Seq<QuotaEvent>)
    requires
        start.settled(),
        forall|i: int| 0 <= i < events.len() ==> #[trigger] events[i] is Reserve,
        limit < u64::MAX || start.used() + requested_length(events) <= u64::MAX,
    ensures
        after_events(start, limit, events).used() == start.used() + granted_length(
            start,
            limit,
            events,
        ),
        after_events(start, limit, events).recorded == start.recorded + granted_length(
            start,
            limit,
            events,
        ),
        granted_length(start, limit, events) <= requested_length(events),
        start.used() <= limit ==> start.used() + granted_length(start, limit, events) <= limit,
    decreases events.len(),
{
    if events.len() > 0 {
        let before = events.drop_last();
        assert forall|i: int| 0 <= i < before.len() implies #[trigger] before[i] is Reserve by {
            assert(before[i] == events[i]);
        }
        assert(events[events.len() - 1] is Reserve);
        law_total_is_what_was_granted(start, limit, before);
    }
}

/// A reservation that is refused leaves the bytes that count as written as they were.
pub proof fn law_refusal_changes_nothing(ledger: Ledger, limit: u64, len: u64)
    requires
        !ledger.grants(limit, len),
    ensures
        ledger.reserve(limit, len).used() == ledger.used(),
        ledger.reserve(limit, len).recorded == ledger.recorded,
{
}

/// Releasing what was reserved takes the account back to where it was. A total that the numbers
/// cannot hold is left out: it is cut off.
pub proof fn law_release_undoes_reserve(ledger: Ledger, limit: u64, len: u64)
    requires
        ledger.settled(),
        ledger.grants(limit, len),
        ledger.used() + len <= u64::MAX,
    ensures
        ledger.reserve(limit, len).used() == ledger.used() + len,
        ledger.reserve(limit, len).release(len).used() == ledger.used(),
        ledger.reserve(limit, len).release(len).recorded == ledger.recorded,
{
}

/// The tracker is asked once: whatever is reserved and released after that, the total stays
/// known.
pub proof fn law_total_stays_known(start: Ledger, limit: u64, events: Seq<QuotaEvent>)
    requires
        start.known is Some,
    ensures
        after_events(start, limit, events).known is Some,
    decreases events.len(),
{
    if events.len() > 0 {
        law_total_stays_known(start, limit, events.drop_last());
    }
}

/// What is recorded outlives the state: a quota of which nothing is known yet grants and refuses
/// as the one before it did.
pub proof fn law_record_outlives_state(ledger: Ledger, limit: u64, len: u64)
    requires
        ledger.settled(),
    ensures
        ({
            let fresh = Ledger { known: None, recorded: ledger.recorded };
            &&& fresh.grants(limit, len) == ledger.grants(limit, len)
            &&& fresh.reserve(limit, len).used() == ledger.reserve(limit, len).used()
            &&& fresh.reserve(limit, len).recorded == ledger.reserve(limit, len).recorded
        }),
{
}

/// The bytes of a sequence of writes, all together.
pub open spec fn total_length(writes: Seq<WriteAttempt>) -> nat
    decreases writes.len(),
{
    if writes.len() == 0 {
        0
    } else {
        total_length(writes.drop_last()) + writes.last().len as nat
    }
}

/// The account, and the bytes that the writer holds, after a sequence of writes.
pub open spec fn after_writes(start: Ledger, limit: u64, writes: Seq<WriteAttempt>) -> (
    Ledger,
    int,
)
    decreases writes.len(),
{
    if writes.len() == 0 {
        (start, 0)
    } else {
        let (ledger, held) = after_writes(start, limit, writes.drop_last());
        write_step(ledger, held, limit, writes.last())
    }
}

/// What a writer holds is exactly what its writes have added, so that aborting it takes the
/// account back to where it was. Totals that the numbers cannot hold are left out: they are cut
/// off, which only a quota without a limit allows.
pub proof fn law_abort_undoes_writes(start: Ledger, limit: u64, writes: Seq<WriteAttempt>)
    requires
        start.settled(),
        limit < u64::MAX || start.used() + total_length(writes) <= u64::MAX,
    ensures
        ({
            let (ledger, held) = after_writes(start, limit, writes);
            &&& ledger.settled()
            &&& 0 <= held <= total_length(writes)
            &&& ledger.used() == start.used() + held
            &&& ledger.release(held as u64).recorded == start.recorded
        }),
    decreases writes.len(),
{
    if writes.len() > 0 {
        law_abort_undoes_writes(start, limit, writes.drop_last());
    }
    lemma_known_after_writes(start, limit, writes);
}

/// The total is known as soon as something was written.
proof fn lemma_known_after_writes(start: Ledger, limit: u64, writes: Seq<WriteAttempt>)
    ensures
        after_writes(start, limit, writes).1 != 0 ==> after_writes(
            start,
            limit,
            writes,
        ).0.known is Some,
    decreases writes.len(),
{
    if writes.len() > 0 {
        lemma_known_after_writes(start, limit, writes.drop_last());
    }
}

/// Something that happens to one of the writers that share a quota.
pub enum SharedEvent {
    /// The writer writes.
    Write(int, WriteAttempt),
    /// The writer is closed, and whether the writer below could be.
    Close(int, bool),
    /// The writer is aborted, and whether the writer below could be.
    Abort(int, bool),
}

impl SharedEvent {
    /// The writer that it happens to.
    pub open spec fn writer(self) -> int {
        match self {
            SharedEvent::Write(writer, _) => writer,
            SharedEvent::Close(writer, _) => writer,
            SharedEvent::Abort(writer, _) => writer,
        }
    }
}

/// The account of a shared quota, and the bytes that its writers have written.
pub struct Shares {
    /// The account.
    pub ledger: Ledger,
    /// The bytes that each writer has written since it was opened or closed.
    pub held: Seq<int>,
    /// The bytes that were written and closed.
    pub closed: int,
}

/// The sum of a sequence of numbers.
pub open spec fn sum(numbers: Seq<int>) -> int
    decreases numbers.len(),
{
    if numbers.len() == 0 {
        0
    } else {
        sum(numbers.drop_last()) + numbers.last()
    }
}

impl Shares {
    /// The bytes that the writers have written and not taken back, open or closed.
    pub open spec fn counted(self) -> int {
        self.closed + sum(self.held)
    }

    /// What `event` leads to. What happens to a writer that there is not changes nothing.
    pub open spec fn step(self, limit: u64, event: SharedEvent) -> Shares {
        let w = event.writer();
        if !(0 <= w < self.held.len()) {
            self
        } else {
            match event {
                SharedEvent::Write(_, write) => {
                    let (ledger, held) = write_step(self.ledger, self.held[w], limit, write);
                    Shares { ledger, held: self.held.update(w, held), ..self }
                },
                SharedEvent::Close(_, ok) => if ok {
                    Shares {
                        held: self.held.update(w, 0),
                        closed: self.closed + self.held[w],
                        ..self
                    }
                } else {
                    self
                },
                SharedEvent::Abort(_, ok) => if ok {
                    Shares {
                        ledger: self.ledger.release(self.held[w] as u64),
                        held: self.held.update(w, 0),
                        ..self
                    }
                } else {
                    self
                },
            }
        }
    }
}

/// What a sequence of events leads to, where none of the writers has written anything at the
/// start.
pub open spec fn after_shared(
    start: Ledger,
    limit: u64,
    writers: nat,
    events: Seq<SharedEvent>,
) -> Shares
    decreases events.len(),
{
    if events.len() == 0 {
        Shares { ledger: start, held: Seq::new(writers, |w: int| 0), closed: 0 }
    } else {
        after_shared(start, limit, writers, events.drop_last()).step(limit, events.last())
    }
}

/// The bytes of all writes among a sequence of events.
pub open spec fn shared_length(events: Seq<SharedEvent>) -> nat
    decreases events.len(),
{
    if events.len() == 0 {
        0
    } else {
        shared_length(events.drop_last()) + match events.last() {
            SharedEvent::Write(_, write) => write.len as nat,
            _ => 0,
        }
    }
}

/// All writers of one quota share one budget: however they take turns, what counts as written is
/// what was written before and what they have written and not taken back, which stays within the
/// limit, and a write is refused exactly where it would go over. Totals that the numbers cannot
/// hold are left out: they are cut off, which only a quota without a limit allows.
pub proof fn law_writers_share_one_budget(
    start: Ledger,
    limit: u64,
    writers: nat,
    events: Seq<SharedEvent>,
)
    requires
        start.settled(),
        start.used() <= limit,
        limit < u64::MAX || start.used() + shared_length(events) <= u64::MAX,
    ensures
        ({
            let shares = after_shared(start, limit, writers, events);
            &&& shares.ledger.settled()
            &&& shares.ledger.used() == start.used() + shares.counted()
            &&& 0 <= shares.closed <= shares.counted()
            &&& start.used() + shares.counted() <= limit
            &&& forall|len: u64|
                limit < u64::MAX || start.used() + shares.counted() + len <= u64::MAX ==> (
                #[trigger] shares.ledger.grants(limit, len) <==> start.used() + shares.counted()
                    + len <= limit)
        }),
    decreases events.len(),
{
    lemma_shares(start, limit, writers, events);
    let shares = after_shared(start, limit, writers, events);
    lemma_sum_not_negative(shares.held);
    if events.len() > 0 {
        let before = after_shared(start, limit, writers, events.drop_last());
        law_writers_share_one_budget(start, limit, writers, events.drop_last());
        lemma_shares(start, limit, writers, events.drop_last());
        let w = events.last().writer();
        if 0 <= w < before.held.len() {
            lemma_sum_update(before.held, w, shares.held[w]);
            lemma_part_of_sum(before.held, w);
        }
    } else {
        lemma_sum_of_zeros(writers);
    }
}

/// However the writers of one quota take turns, aborting one of them takes back what it has
/// written, and nothing of what the others have. Totals that the numbers cannot hold are left
/// out: they are cut off, which only a quota without a limit allows.
pub proof fn law_abort_leaves_other_writers(
    start: Ledger,
    limit: u64,
    writers: nat,
    events: Seq<SharedEvent>,
    writer: int,
)
    requires
        start.settled(),
        limit < u64::MAX || start.used() + shared_length(events) <= u64::MAX,
        0 <= writer < writers,
    ensures
        ({
            let shares = after_shared(start, limit, writers, events);
            let left = shares.step(limit, SharedEvent::Abort(writer, true));
            &&& left.ledger.settled()
            &&& left.ledger.used() == shares.ledger.used() - shares.held[writer]
            &&& left.ledger.used() == start.used() + left.counted()
            &&& left.held == shares.held.update(writer, 0)
            &&& left.closed == shares.closed
        }),
{
    lemma_shares(start, limit, writers, events);
    let shares = after_shared(start, limit, writers, events);
    lemma_part_of_sum(shares.held, writer);
    lemma_sum_update(shares.held, writer, 0);
}

/// The account is what it was at the start and what the writers have added.
proof fn lemma_shares(start: Ledger, limit: u64, writers: nat, events: Seq<SharedEvent>)
    requires
        start.settled(),
        limit < u64::MAX || start.used() + shared_length(events) <= u64::MAX,
    ensures
        ({
            let shares = after_shared(start, limit, writers, events);
            &&& shares.ledger.settled()
            &&& shares.held.len() == writers
            &&& forall|w: int| 0 <= w < writers ==> #[trigger] shares.held[w] >= 0
            &&& shares.closed >= 0
            &&& 0 <= shares.counted() <= shared_length(events)
            &&& shares.ledger.used() == start.used() + shares.counted()
            &&& shares.counted() > 0 ==> shares.ledger.known is Some
        }),
    decreases events.len(),
{
    if events.len() > 0 {
        let before = after_shared(start, limit, writers, events.drop_last());
        let after = after_shared(start, limit, writers, events);
        lemma_shares(start, limit, writers, events.drop_last());
        let w = events.last().writer();
        if 0 <= w < writers {
            lemma_part_of_sum(before.held, w);
            lemma_sum_update(before.held, w, after.held[w]);
            lemma_sum_update(before.held, w, before.held[w]);
            assert(before.held.update(w, before.held[w]) =~= before.held);
            assert(after.held =~= before.held.update(w, after.held[w]));
        }
    } else {
        lemma_sum_of_zeros(writers);
    }
}

/// Changing one number changes the sum by as much.
proof fn lemma_sum_update(numbers: Seq<int>, i: int, value: int)
    requires
        0 <= i < numbers.len(),
    ensures
        sum(numbers.update(i, value)) == sum(numbers) - numbers[i] + value,
    decreases numbers.len(),
{
    let changed = numbers.update(i, value);
    if i == numbers.len() - 1 {
        assert(changed.drop_last() =~= numbers.drop_last());
    } else {
        assert(changed.drop_last() =~= numbers.drop_last().update(i, value));
        lemma_sum_update(numbers.drop_last(), i, value);
    }
}

/// A sum of numbers that are not negative is not negative.
proof fn lemma_sum_not_negative(numbers: Seq<int>)
    requires
        forall|i: int| 0 <= i < numbers.len() ==> #[trigger] numbers[i] >= 0,
    ensures
        sum(numbers) >= 0,
    decreases numbers.len(),
{
    if numbers.len() > 0 {
        assert forall|i: int| 0 <= i < numbers.drop_last().len() implies #[trigger]
            numbers.drop_last()[i] >= 0 by {
            assert(numbers.drop_last()[i] == numbers[i]);
        }
        lemma_sum_not_negative(numbers.drop_last());
    }
}

/// None of the numbers is larger than the sum of all, where none is negative.
proof fn lemma_part_of_sum(numbers: Seq<int>, i: int)
    requires
        0 <= i < numbers.len(),
        forall|j: int| 0 <= j < numbers.len() ==> #[trigger] numbers[j] >= 0,
    ensures
        numbers[i] <= sum(numbers),
{
    lemma_sum_update(numbers, i, 0);
    lemma_sum_not_negative(numbers.update(i, 0));
}

/// The sum of zeros is zero.
proof fn lemma_sum_of_zeros(n: nat)
    ensures
        sum(Seq::new(n, |i: int| 0)) == 0,
    decreases n,
{
    if n > 0 {
        let zeros = Seq::new(n, |i: int| 0int);
        assert(zeros.drop_last() =~= Seq::new((n - 1) as nat, |i: int| 0));
        lemma_sum_of_zeros((n - 1) as nat);
    }
}

/// Bytes are granted exactly if the bytes that count as written and they are together within the
/// limit, a sum that the numbers cannot hold counting as the largest number. Nothing is always
/// granted.
pub proof fn law_granted_within_the_limit(ledger: Ledger, limit: u64, len: u64)
    ensures
        ledger.grants(limit, 0),
        ledger.used() + len <= limit ==> ledger.grants(limit, len),
        len > 0 && ledger.used() + len > limit && limit < u64::MAX ==> !ledger.grants(limit, len),
        ledger.grants(u64::MAX, len),
        ledger.known is Some ==> ledger.used() == ledger.known->0,
        ledger.known is None ==> ledger.used() == ledger.recorded,
        ledger.settled() <==> ledger.used() == ledger.recorded,
{
}

/// A reservation that is granted adds its bytes to what is recorded, one that is refused records
/// nothing, and either way the total is known afterwards and what is known is what is recorded.
/// Giving bytes back takes them off what is known, down to nothing.
pub proof fn law_account_moves_by_the_length(ledger: Ledger, limit: u64, len: u64)
    requires
        len > 0,
    ensures
        ({
            let after = ledger.reserve(limit, len);
            let sum = ledger.used() + len;
            &&& after.known is Some
            &&& ledger.grants(limit, len) ==> after.known == Some(after.recorded)
                && after.recorded as int == (if sum > u64::MAX {
                u64::MAX as int
            } else {
                sum
            })
            &&& !ledger.grants(limit, len) ==> after.recorded == ledger.recorded && after.known
                == Some(ledger.used())
        }),
        ({
            let after = ledger.release(len);
            let used: int = if ledger.known is Some {
                ledger.known->0 as int
            } else {
                0
            };
            &&& after.known == Some(after.recorded)
            &&& after.recorded as int == (if used < len {
                0
            } else {
                used - len
            })
        }),
        ledger.reserve(limit, 0) == ledger,
        ledger.release(0) == ledger,
{
}

/// A reservation with `used` bytes written asks for the new total to be recorded if that is within
/// the limit, and is else refused with the id, the limit, and what is used and requested.
pub proof fn law_decides_by_the_total(id: Seq<char>, limit: u64, used: u64, len: u64)
    ensures
        used + len <= limit ==> decision(id, limit, used, len) == Ok::<ReserveStep, VfsErrorView>(
            ReserveStep::Store((used + len) as u64),
        ),
        used + len > limit && limit < u64::MAX ==> decision(id, limit, used, len) == Err::<
            ReserveStep,
            VfsErrorView,
        >(VfsErrorView::Raised(quota_exceeded(id, used, len, limit))),
        used + len > u64::MAX ==> decision(id, u64::MAX, used, len) == Ok::<
            ReserveStep,
            VfsErrorView,
        >(ReserveStep::Store(u64::MAX)),
        ({
            let f = quota_exceeded(id, used, len, limit);
            &&& f.kind == ErrorKind::RateLimited
            &&& f.message == "write quota exceeded for '"@ + id + "': "@ + decimal(used as nat)
                + " used, "@ + decimal(len as nat) + " requested, "@ + decimal(limit as nat)
                + " limit"@
            &&& f.context == seq![
                ("quota_id"@, id),
                ("quota_limit"@, decimal(limit as nat)),
                ("quota_used"@, decimal(used as nat)),
                ("quota_requested"@, decimal(len as nat)),
            ]
            &&& f.source is None
        }),
{
    assert(quota_exceeded(id, used, len, limit).context =~= seq![
        ("quota_id"@, id),
        ("quota_limit"@, decimal(limit as nat)),
        ("quota_used"@, decimal(used as nat)),
        ("quota_requested"@, decimal(len as nat)),
    ]);
}

/// A write that is refused or that fails leaves the writer with what it held, and one that is
/// made adds its bytes. What is recorded moves by the same number of bytes.
pub proof fn law_write_moves_account_and_writer_alike(
    ledger: Ledger,
    held: int,
    limit: u64,
    write: WriteAttempt,
)
    requires
        ledger.settled(),
        limit < u64::MAX || ledger.used() + write.len <= u64::MAX,
    ensures
        ({
            let (after, now) = write_step(ledger, held, limit, write);
            let moved: int = if write.ok && ledger.used() + write.len <= limit {
                write.len as int
            } else {
                0
            };
            &&& write.len > 0 ==> now == held + moved && after.recorded == ledger.recorded + moved
            &&& write.len == 0 ==> now == held && after == ledger
            &&& after.settled()
        }),
{
}

/// The account of a quota is what its state knows and what the tracker has recorded under its id,
/// which is nothing where it has recorded nothing.
pub proof fn law_account_of_a_state(
    state: QuotaState,
    tracker: MemoryTracker,
    other: QuotaState,
    r: Result<ReserveStep, VfsError>,
)
    ensures
        state.ledger(tracker).known == state.cache,
        tracker@.contains_key(state.id@) ==> state.ledger(tracker).recorded == tracker@[state.id@],
        !tracker@.contains_key(state.id@) ==> state.ledger(tracker).recorded == 0,
        state.same_quota(other) <==> state.id == other.id && state.limit == other.limit,
        r is Ok <==> step_view(r) is Ok,
        r is Ok ==> step_view(r)->Ok_0 == r->Ok_0,
        r is Err ==> step_view(r)->Err_0 == r->Err_0@,
{
}

/// Sums and differences are exact where a number can hold them, and else the nearest number.
pub proof fn law_totals_are_cut_off_at_the_ends(a: u64, b: u64)
    ensures
        a + b <= u64::MAX ==> saturating_sum(a, b) == a + b,
        a + b > u64::MAX ==> saturating_sum(a, b) == u64::MAX,
        b <= a ==> saturating_difference(a, b) == a - b,
        b > a ==> saturating_difference(a, b) == 0,
{
}

} // verus!
