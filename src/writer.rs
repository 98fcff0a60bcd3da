use vstd::prelude::*;

verus! {

/// What a peer's writer observes: whichever comes first of a payload, the
/// end of its mailbox and the end of its connection's shutdown signal, or
/// the failure of the write it performed.
pub enum WriterEvent {
    Item(Vec<u8>),
    MailboxClosed,
    ShutdownClosed,
    WriteFailed,
}

/// What the writer does next.
pub enum WriterAction {
    /// Write these bytes to the connection.
    Write(Vec<u8>),
    /// Stop, and send the router the one disconnect notice for this peer.
    Report,
    /// Nothing: the writer has stopped already.
    Idle,
}

/// The writer of one registered peer: it writes payloads in mailbox order
/// until its first terminating event, then reports exactly once.
pub struct Writer {
    running: bool,
}

impl View for Writer {
    type V = bool;

    closed spec fn view(&self) -> bool {
        self.running
    }
}

/// Whether `e` ends the writer.
pub open spec fn ends_writer(e: WriterEvent) -> bool {
    !(e is Item)
}

/// Whether a writer that started running still runs after the events `evs`.
pub open spec fn still_running(evs: Seq<WriterEvent>) -> bool
    decreases evs.len(),
{
    if evs.len() == 0 {
        true
    } else {
        still_running(evs.drop_last()) && !ends_writer(evs.last())
    }
}

/// How many disconnect notices a writer that started running sends over the
/// events `evs`.
pub open spec fn reports(evs: Seq<WriterEvent>) -> nat
    decreases evs.len(),
{
    if evs.len() == 0 {
        0
    } else {
        reports(evs.drop_last()) + if still_running(evs.drop_last()) && ends_writer(evs.last()) {
            1nat
        } else {
            0nat
        }
    }
}

/// Whatever ends a writer (its mailbox closing, its shutdown signal closing
/// or a failed write), it sends exactly one disconnect notice; while none of
/// these has happened it sends none.
pub proof fn lemma_one_notice(evs: Seq<WriterEvent>)
    ensures
        still_running(evs) <==> forall|k: int| 0 <= k < evs.len() ==> !ends_writer(#[trigger] evs[k]),
        reports(evs) == if still_running(evs) {
            0nat
        } else {
            1nat
        },
    decreases evs.len(),
{
    if evs.len() > 0 {
        let front = evs.drop_last();
        lemma_one_notice(front);
        assert forall|k: int| 0 <= k < front.len() implies front[k] == evs[k] by {}
        if !ends_writer(evs.last()) && still_running(front) {
            assert forall|k: int| 0 <= k < evs.len() implies !ends_writer(#[trigger] evs[k]) by {
                if k < front.len() {
                    assert(front[k] == evs[k]);
                }
            }
        }
        if !still_running(front) {
            let k = choose|k: int| 0 <= k < front.len() && ends_writer(#[trigger] front[k]);
            assert(evs[k] == front[k]);
        }
    }
}

impl Writer {
    /// A running writer.
    pub fn new() -> (r: Writer)
        ensures
            r@,
    {
        Writer { running: true }
    }

    /// Whether the writer is still running.
    pub fn is_running(&self) -> (r: bool)
        ensures
            r == self@,
    {
        self.running
    }

    /// Decides the next step on event `ev`.
    pub fn on_event(&mut self, ev: WriterEvent) -> (r: WriterAction)
        ensures
            !old(self)@ ==> !final(self)@ && r is Idle,
            old(self)@ && !ends_writer(ev) ==> final(self)@ && (r matches WriterAction::Write(b)
                && ev matches WriterEvent::Item(i) && b@ == i@),
            old(self)@ && ends_writer(ev) ==> !final(self)@ && r is Report,
            final(self)@ == (old(self)@ && !ends_writer(ev)),
            r is Report <==> old(self)@ && ends_writer(ev),
    {
        if !self.running {
            return WriterAction::Idle;
        }
        match ev {
            WriterEvent::Item(bytes) => WriterAction::Write(bytes),
            _ => {
                self.running = false;
                WriterAction::Report
            },
        }
    }
}

} // verus!
