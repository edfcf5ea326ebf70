//! Sequencing of depth updates against the last applied update id.
//!
//! A [`SyncState`] looks only at the id range of each delta. Until a
//! watermark is installed every delta is held back. Afterwards a delta is
//! stale, admitted, or reveals a gap; a gap is final for this instance.
use crate::feed::DepthUpdate;
use vstd::prelude::*;

verus! {

/// Where a [`SyncState`] stands.
#[derive(Clone, Copy, Debug, PartialEq, Eq)]
pub enum SyncPhase {
    /// No watermark has been installed yet.
    Uninitialized,
    /// A watermark is installed and no gap has been seen.
    Synchronized,
    /// A gap was seen. Nothing leaves this phase.
    Desynchronized,
}

/// What the id range of a delta means in a given state.
#[derive(Clone, Copy, Debug, PartialEq, Eq)]
pub enum Verdict {
    /// There is no watermark to hold the delta against: keep it for later.
    Buffer,
    /// Everything the delta covers has been applied already.
    Stale,
    /// The delta covers the next expected update id.
    Admit,
    /// Update ids between the watermark and the delta are missing.
    Gap,
}

/// What [`SyncState::process_delta`] did with a delta.
#[derive(Clone, Debug, PartialEq, Eq)]
pub enum Outcome {
    /// The delta was admitted and is handed back to be applied to the book.
    Applied(DepthUpdate),
    /// The delta was stored; the book is not to change.
    Buffered,
    /// The delta was dropped; the book is not to change.
    Stale,
    /// Updates were missed. The book must be rebuilt from a new snapshot.
    Gap,
}

/// The state of a [`SyncState`] as plain values.
pub struct SyncView {
    /// The last update id known to be applied, once one is known.
    pub watermark: Option<u64>,
    /// The deltas held back, oldest first.
    pub buffer: Seq<DepthUpdate>,
    /// Whether a gap has been seen.
    pub desynchronized: bool,
}

impl SyncView {
    pub open spec fn phase(self) -> SyncPhase {
        if self.desynchronized {
            SyncPhase::Desynchronized
        } else if self.watermark is None {
            SyncPhase::Uninitialized
        } else {
            SyncPhase::Synchronized
        }
    }

    /// Every delta held back ends above the watermark, where there is one:
    /// none of them is stale.
    pub open spec fn buffer_ahead(self) -> bool {
        self.watermark matches Some(w) ==> forall|i: int|
            0 <= i < self.buffer.len() ==> (#[trigger] self.buffer[i]).final_update_id > w
    }

    /// The verdict on a delta that covers the ids `first_id..=final_id`.
    pub open spec fn classify(self, first_id: u64, final_id: u64) -> Verdict {
        if self.desynchronized {
            Verdict::Gap
        } else {
            match self.watermark {
                None => Verdict::Buffer,
                Some(w) => if final_id <= w {
                    Verdict::Stale
                } else if first_id <= w + 1 {
                    Verdict::Admit
                } else {
                    Verdict::Gap
                },
            }
        }
    }

    /// The state after `update` has been processed.
    pub open spec fn step(self, update: DepthUpdate) -> SyncView {
        match self.classify(update.first_update_id, update.final_update_id) {
            Verdict::Buffer => SyncView { buffer: self.buffer.push(update), ..self },
            Verdict::Stale => self,
            Verdict::Admit => SyncView {
                watermark: Some(update.final_update_id),
                buffer: Seq::empty(),
                desynchronized: false,
            },
            Verdict::Gap => SyncView { desynchronized: true, ..self },
        }
    }

    /// What the caller is told about `update`.
    pub open spec fn outcome(self, update: DepthUpdate) -> Outcome {
        match self.classify(update.first_update_id, update.final_update_id) {
            Verdict::Buffer => Outcome::Buffered,
            Verdict::Stale => Outcome::Stale,
            Verdict::Admit => Outcome::Applied(update),
            Verdict::Gap => Outcome::Gap,
        }
    }
}

/// The sequencing state of one symbol session.
#[derive(Clone, Debug)]
pub struct SyncState {
    last_update_id: Option<u64>,
    buffer: Vec<DepthUpdate>,
    desynchronized: bool,
}

impl View for SyncState {
    type V = SyncView;

    closed spec fn view(&self) -> SyncView {
        SyncView {
            watermark: self.last_update_id,
            buffer: self.buffer@,
            desynchronized: self.desynchronized,
        }
    }
}

impl SyncState {
    /// A state without a watermark and with nothing held back.
    pub fn new() -> (s: SyncState)
        ensures
            s@ == (SyncView { watermark: None, buffer: Seq::empty(), desynchronized: false }),
    {
        SyncState { last_update_id: None, buffer: Vec::new(), desynchronized: false }
    }

    /// Installs or replaces the watermark. The deltas held back stay, and a
    /// state that has seen a gap stays desynchronized.
    pub fn set_last_update_id(&mut self, last_update_id: u64)
        ensures
            final(self)@ == (SyncView { watermark: Some(last_update_id), ..old(self)@ }),
    {
        self.last_update_id = Some(last_update_id);
    }

    /// The single transition of the state machine.
    ///
    /// Without a watermark the delta is held back. With one, a delta that
    /// ends at or below it is stale; one that reaches the id after it is
    /// admitted, which empties the buffer and moves the watermark to the
    /// delta's final id; one that starts beyond that id reveals a gap, after
    /// which every delta is answered with [`Outcome::Gap`].
    pub fn process_delta(&mut self, update: DepthUpdate) -> (outcome: Outcome)
        ensures
            final(self)@ == old(self)@.step(update),
            outcome == old(self)@.outcome(update),
    {
        if self.desynchronized {
            return Outcome::Gap;
        }
        let last_id = match self.last_update_id {
            None => {
                self.buffer.push(update);
                return Outcome::Buffered;
            },
            Some(id) => id,
        };
        if update.final_update_id <= last_id {
            return Outcome::Stale;
        }
        if update.first_update_id <= last_id + 1 {
            self.buffer.clear();
            self.last_update_id = Some(update.final_update_id);
            return Outcome::Applied(update);
        }
        self.desynchronized = true;
        Outcome::Gap
    }

    /// Hands out every delta held back, oldest first, and leaves none.
    pub fn drain_buffer(&mut self) -> (drained: Vec<DepthUpdate>)
        ensures
            drained@ == old(self)@.buffer,
            final(self)@ == (SyncView { buffer: Seq::empty(), ..old(self)@ }),
    {
        let mut drained: Vec<DepthUpdate> = Vec::new();
        core::mem::swap(&mut self.buffer, &mut drained);
        drained
    }

    /// What [`SyncState::process_delta`] would decide for `update`, without
    /// taking it.
    pub fn classify(&self, update: &DepthUpdate) -> (verdict: Verdict)
        ensures
            verdict == self@.classify(update.first_update_id, update.final_update_id),
    {
        if self.desynchronized {
            return Verdict::Gap;
        }
        match self.last_update_id {
            None => Verdict::Buffer,
            Some(last_id) => {
                if update.final_update_id <= last_id {
                    Verdict::Stale
                } else if update.first_update_id <= last_id + 1 {
                    Verdict::Admit
                } else {
                    Verdict::Gap
                }
            },
        }
    }

    pub fn last_update_id(&self) -> (w: Option<u64>)
        ensures
            w == self@.watermark,
    {
        self.last_update_id
    }

    pub fn phase(&self) -> (p: SyncPhase)
        ensures
            p == self@.phase(),
    {
        if self.desynchronized {
            SyncPhase::Desynchronized
        } else if self.last_update_id.is_none() {
            SyncPhase::Uninitialized
        } else {
            SyncPhase::Synchronized
        }
    }

    /// How many deltas are held back.
    pub fn buffered(&self) -> (n: usize)
        ensures
            n == self@.buffer.len(),
    {
        self.buffer.len()
    }
}

/// With a watermark `w` installed and no gap seen, a delta is stale exactly
/// when it ends at or below `w`, admitted exactly when it reaches `w + 1`
/// from at or below it, and a gap exactly when it starts beyond `w + 1`
/// and is not stale.
pub proof fn lemma_classify_synchronized(v: SyncView, w: u64, first_id: u64, final_id: u64)
    requires
        v.watermark == Some(w),
        !v.desynchronized,
    ensures
        v.classify(first_id, final_id) is Stale <==> final_id <= w,
        v.classify(first_id, final_id) is Admit <==> first_id <= w + 1 <= final_id,
        v.classify(first_id, final_id) is Gap <==> first_id > w + 1 && final_id > w,
        !(v.classify(first_id, final_id) is Buffer),
{
}

/// An admitted delta moves the watermark to its final id, strictly upwards,
/// and leaves nothing held back.
pub proof fn lemma_admit_advances(v: SyncView, update: DepthUpdate)
    requires
        v.classify(update.first_update_id, update.final_update_id) is Admit,
    ensures
        v.outcome(update) == Outcome::Applied(update),
        v.step(update).watermark == Some(update.final_update_id),
        v.watermark matches Some(w) && w < update.final_update_id,
        v.step(update).buffer.len() == 0,
        v.step(update).phase() is Synchronized,
{
}

/// A stale delta changes nothing.
pub proof fn lemma_stale_is_noop(v: SyncView, update: DepthUpdate)
    requires
        v.classify(update.first_update_id, update.final_update_id) is Stale,
    ensures
        v.step(update) == v,
        v.outcome(update) == Outcome::Stale,
{
}

/// A gap is final: a desynchronized state answers every delta with a gap,
/// does not change, and installing a watermark does not revive it.
pub proof fn lemma_gap_is_terminal(v: SyncView, update: DepthUpdate, id: u64)
    requires
        v.desynchronized,
    ensures
        v.step(update) == v,
        v.outcome(update) == Outcome::Gap,
        (SyncView { watermark: Some(id), ..v }).phase() is Desynchronized,
{
}

/// The first gap puts the state into its final phase.
pub proof fn lemma_gap_desynchronizes(v: SyncView, update: DepthUpdate)
    requires
        v.classify(update.first_update_id, update.final_update_id) is Gap,
    ensures
        v.step(update).phase() is Desynchronized,
        v.step(update).watermark == v.watermark,
        v.step(update).buffer == v.buffer,
{
}

/// The buffer never falls behind the watermark by a step of the state
/// machine: where every delta held back ends above the watermark, the same
/// holds after any delta has been processed. Installing a watermark over
/// deltas held back keeps it exactly when none of them is stale against the
/// new watermark.
pub proof fn lemma_buffer_stays_ahead(v: SyncView, update: DepthUpdate, id: u64)
    requires
        v.buffer_ahead(),
    ensures
        v.step(update).buffer_ahead(),
        (SyncView { buffer: Seq::empty(), ..v }).buffer_ahead(),
        (SyncView { watermark: Some(id), ..v }).buffer_ahead() <==> forall|i: int|
            0 <= i < v.buffer.len() ==> (#[trigger] v.buffer[i]).final_update_id > id,
{
    let installed = SyncView { watermark: Some(id), ..v };
    assert(installed.buffer == v.buffer);
    if installed.buffer_ahead() {
        assert forall|i: int| 0 <= i < v.buffer.len() implies (#[trigger] v.buffer[i]).final_update_id
            > id by {
            assert(installed.buffer[i].final_update_id > id);
        }
    }
}

/// Once a watermark is installed nothing more is held back: each step
/// leaves the buffer as it was or empties it, and the watermark never
/// moves down.
pub proof fn lemma_watermarked_step(v: SyncView, update: DepthUpdate)
    requires
        v.watermark is Some,
    ensures
        v.step(update).buffer == v.buffer || v.step(update).buffer.len() == 0,
        v.step(update).watermark matches Some(after) && after >= v.watermark->0,
{
}

} // verus!
