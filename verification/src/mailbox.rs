//! Cross-core mailbox: a single-slot, overwrite-semantics channel carrying a
//! snapshot of the ten display lines from the input core to the render core.
//!
//! Only the newest snapshot matters: a write landing on an unread value
//! replaces it, and the reader may skip values entirely.  The snapshot is an
//! owned value copied through the channel, so the reader can never observe a
//! partially-written table.

use vstd::prelude::*;

verus! {

/// Number of text lines on the display.
pub const DISPLAY_LINES: usize = 10;

/// Capacity of one display line's text.
pub const LINE_CAPACITY: usize = 50;

/// A snapshot of what to display: exactly ten slots, each optionally a line
/// of text with its dirty flag.  Absent content is an explicit empty slot,
/// never a shorter table.
pub struct DisplayLineTable {
    lines: Vec<Option<(Vec<u8>, bool)>>,
}

impl View for DisplayLineTable {
    type V = Seq<Option<(Seq<u8>, bool)>>;

    closed spec fn view(&self) -> Seq<Option<(Seq<u8>, bool)>> {
        self.lines@.map_values(
            |l: Option<(Vec<u8>, bool)>|
                match l {
                    Some(t) => Some((t.0@, t.1)),
                    None => None,
                },
        )
    }
}

impl DisplayLineTable {
    /// Exactly ten slots, each line within the line capacity.
    pub open spec fn wf(&self) -> bool {
        &&& self@.len() == DISPLAY_LINES
        &&& forall|i: int|
            0 <= i < self@.len() ==> (#[trigger] self@[i] matches Some(t) ==> t.0.len()
                <= LINE_CAPACITY)
    }

    /// A table of ten empty slots.
    pub fn new() -> (t: DisplayLineTable)
        ensures
            t.wf(),
            t@ =~= Seq::new(DISPLAY_LINES as nat, |i: int| None::<(Seq<u8>, bool)>),
    {
        let mut lines: Vec<Option<(Vec<u8>, bool)>> = Vec::new();
        let mut i: usize = 0;
        while i < DISPLAY_LINES
            invariant
                i <= DISPLAY_LINES,
                lines@.len() == i,
                forall|j: int| 0 <= j < i ==> lines@[j] is None,
            decreases DISPLAY_LINES - i,
        {
            lines.push(None);
            i += 1;
        }
        let t = DisplayLineTable { lines };
        proof {
            assert(forall|j: int| 0 <= j < t@.len() ==> t@[j] is None);
        }
        t
    }

    /// Put `text` with its dirty flag into slot `index`.
    pub fn set_line(&mut self, index: usize, text: Vec<u8>, dirty: bool)
        requires
            old(self).wf(),
            index < DISPLAY_LINES,
            text@.len() <= LINE_CAPACITY,
        ensures
            final(self).wf(),
            final(self)@ == old(self)@.update(index as int, Some((text@, dirty))),
    {
        self.lines.set(index, Some((text, dirty)));
        proof {
            assert(final(self)@ =~= old(self)@.update(index as int, Some((text@, dirty))));
        }
    }

    /// Empty slot `index`.
    pub fn clear_line(&mut self, index: usize)
        requires
            old(self).wf(),
            index < DISPLAY_LINES,
        ensures
            final(self).wf(),
            final(self)@ == old(self)@.update(index as int, None::<(Seq<u8>, bool)>),
    {
        self.lines.set(index, None);
        proof {
            assert(final(self)@ =~= old(self)@.update(index as int, None::<(Seq<u8>, bool)>));
        }
    }

    /// The contents of slot `index`.
    pub fn get_line(&self, index: usize) -> (r: &Option<(Vec<u8>, bool)>)
        requires
            self.wf(),
            index < DISPLAY_LINES,
        ensures
            match r {
                Some(t) => self@[index as int] == Some((t.0@, t.1)),
                None => self@[index as int] is None,
            },
    {
        &self.lines[index]
    }
}

/// The single-slot mailbox.  The renderer blocks until a first snapshot has
/// ever been written; afterwards it always reads the latest one.
pub struct Mailbox {
    slot: Option<DisplayLineTable>,
}

impl Mailbox {
    /// Whatever is in the slot is a well-formed snapshot.
    pub open spec fn wf(&self) -> bool {
        self.snapshot() matches Some(t) ==> t.wf()
    }

    /// The snapshot currently held, if any was ever written.
    pub closed spec fn snapshot(&self) -> Option<DisplayLineTable> {
        self.slot
    }

    /// An empty mailbox: nothing was ever written.
    pub fn new() -> (m: Mailbox)
        ensures
            m.wf(),
            m.snapshot() is None,
    {
        Mailbox { slot: None }
    }

    /// Deposit a snapshot, replacing whatever was there: a lost update is
    /// accepted by design, only the newest snapshot matters.
    pub fn write(&mut self, t: DisplayLineTable)
        requires
            old(self).wf(),
            t.wf(),
        ensures
            final(self).wf(),
            final(self).snapshot() == Some(t),
    {
        self.slot = Some(t);
    }

    /// Whether a snapshot has ever been written.
    pub fn has_snapshot(&self) -> (r: bool)
        ensures
            r == (self.snapshot() is Some),
    {
        self.slot.is_some()
    }

    /// The latest snapshot.  The renderer calls this only once a snapshot
    /// exists; until then it keeps waiting.
    pub fn read_latest(&self) -> (r: &DisplayLineTable)
        requires
            self.wf(),
            self.snapshot() is Some,
        ensures
            self.snapshot() == Some(*r),
            r.wf(),
    {
        match &self.slot {
            Some(t) => t,
            None => vstd::pervasive::unreached(),
        }
    }
}

} // verus!
