use vstd::prelude::*;

verus! {

/// The sync loop's state as mathematical values.
pub struct SyncView {
    /// The last content transmitted on the channel.
    pub snapshot: Option<Seq<char>>,
    /// Content handed out for transmission whose outcome is not known yet.
    pub pending: Option<Seq<char>>,
    /// Set once a transmission has failed: the loop has ended.
    pub stopped: bool,
}

pub open spec fn opt_text(o: Option<String>) -> Option<Seq<char>> {
    match o {
        Some(s) => Some(s@),
        None => None,
    }
}

/// The loop's state before the first read: nothing transmitted yet.
pub open spec fn sync_start() -> SyncView {
    SyncView { snapshot: None, pending: None, stopped: false }
}

/// What a clipboard read asks to transmit: the content, when the read
/// succeeded and its value differs from the snapshot.
pub open spec fn read_message(m: SyncView, read: Option<Seq<char>>) -> Option<Seq<char>> {
    if m.stopped {
        None
    } else {
        match read {
            Some(c) => if m.snapshot == Some(c) {
                None
            } else {
                Some(c)
            },
            None => None,
        }
    }
}

/// The state after a clipboard read.
pub open spec fn after_read(m: SyncView, read: Option<Seq<char>>) -> SyncView {
    if m.stopped {
        m
    } else {
        SyncView { pending: read_message(m, read), ..m }
    }
}

/// The state after the outcome of a transmission: the snapshot moves only on
/// success, and a failure ends the loop.
pub open spec fn after_sent(m: SyncView, ok: bool) -> SyncView {
    if m.stopped || m.pending is None {
        m
    } else if ok {
        SyncView { snapshot: m.pending, pending: None, stopped: false }
    } else {
        SyncView { snapshot: m.snapshot, pending: None, stopped: true }
    }
}

/// One polling tick in which every transmission succeeds.
pub open spec fn after_tick(m: SyncView, read: Option<Seq<char>>) -> SyncView {
    match read_message(m, read) {
        Some(_) => after_sent(after_read(m, read), true),
        None => after_read(m, read),
    }
}

/// The state after a sequence of reads, every transmission succeeding.
pub open spec fn run_reads(m: SyncView, reads: Seq<Option<Seq<char>>>) -> SyncView
    decreases reads.len(),
{
    if reads.len() == 0 {
        m
    } else {
        after_tick(run_reads(m, reads.drop_last()), reads.last())
    }
}

/// The messages transmitted, in order, over a sequence of reads.
pub open spec fn messages(m: SyncView, reads: Seq<Option<Seq<char>>>) -> Seq<Seq<char>>
    decreases reads.len(),
{
    if reads.len() == 0 {
        Seq::empty()
    } else {
        let prev = messages(m, reads.drop_last());
        match read_message(run_reads(m, reads.drop_last()), reads.last()) {
            Some(c) => prev.push(c),
            None => prev,
        }
    }
}

proof fn lemma_tick_settles(m: SyncView, read: Option<Seq<char>>)
    ensures
        after_tick(m, read).stopped == m.stopped,
        read_message(after_tick(m, read), read) is None,
        !m.stopped ==> after_tick(m, read).pending is None,
        !m.stopped && read is Some ==> after_tick(m, read).snapshot == read,
{
}

proof fn lemma_run_settles(m: SyncView, reads: Seq<Option<Seq<char>>>)
    requires
        !m.stopped,
        reads.len() > 0,
    ensures
        !run_reads(m, reads).stopped,
        reads.last() is Some ==> run_reads(m, reads).snapshot == reads.last(),
    decreases reads.len(),
{
    if reads.len() > 1 {
        lemma_run_settles(m, reads.drop_last());
    }
    lemma_tick_settles(run_reads(m, reads.drop_last()), reads.last());
}

/// Reading the same value again, or failing to read again, transmits nothing
/// more: repeating the last read of any sequence leaves the messages as they
/// were.
pub proof fn lemma_repeated_read_sends_nothing(
    m: SyncView,
    reads: Seq<Option<Seq<char>>>,
    read: Option<Seq<char>>,
)
    ensures
        messages(m, reads.push(read).push(read)) == messages(m, reads.push(read)),
{
    let once = reads.push(read);
    assert(once.push(read).drop_last() =~= once);
    assert(once.drop_last() =~= reads);
    lemma_tick_settles(run_reads(m, reads), read);
}

/// From a fresh loop, clipboard values that differ from one read to the next
/// are each transmitted exactly once, in the order read.
pub proof fn lemma_changed_reads_each_sent(values: Seq<Seq<char>>)
    requires
        forall|i: int| 0 < i < values.len() ==> #[trigger] values[i] != values[i - 1],
    ensures
        messages(sync_start(), values.map_values(|c: Seq<char>| Some(c))) == values,
    decreases values.len(),
{
    let reads = values.map_values(|c: Seq<char>| Some(c));
    if values.len() > 0 {
        let prefix = values.drop_last();
        assert(reads.drop_last() =~= prefix.map_values(|c: Seq<char>| Some(c)));
        lemma_changed_reads_each_sent(prefix);
        if prefix.len() > 0 {
            lemma_run_settles(sync_start(), reads.drop_last());
            assert(values[values.len() - 1] != values[values.len() - 2]);
        }
        assert(prefix.push(values.last()) =~= values);
    } else {
        assert(values =~= Seq::empty());
    }
}

/// Content that stays unchanged over two reads of a fresh loop is transmitted
/// once in all.
pub proof fn lemma_unchanged_content_sent_once(c: Seq<char>)
    ensures
        messages(sync_start(), seq![Some(c), Some(c)]) == seq![c],
{
    let empty = Seq::<Option<Seq<char>>>::empty();
    lemma_repeated_read_sends_nothing(sync_start(), empty, Some(c));
    assert(empty.push(Some(c)).push(Some(c)) =~= seq![Some(c), Some(c)]);
    let one = empty.push(Some(c));
    assert(one.drop_last() =~= empty);
    assert(run_reads(sync_start(), empty) == sync_start());
    assert(messages(sync_start(), empty) == Seq::<Seq<char>>::empty());
    assert(messages(sync_start(), one) =~= seq![c]);
}

/// What the driver of the sync loop does next.
#[derive(Debug, Clone, PartialEq, Eq)]
pub enum SyncAction {
    /// Transmit this content as one message, then report the outcome.
    Send(String),
    /// Wait one polling interval, then read the clipboard again.
    Sleep,
    /// The channel is gone: the loop ends.
    Stop,
}

/// Change detection for one channel: the local clipboard is polled, and
/// content is transmitted only when it differs from the last content
/// transmitted on this channel.
pub struct ClipboardSync {
    snapshot: Option<String>,
    pending: Option<String>,
    stopped: bool,
}

impl View for ClipboardSync {
    type V = SyncView;

    closed spec fn view(&self) -> SyncView {
        SyncView {
            snapshot: opt_text(self.snapshot),
            pending: opt_text(self.pending),
            stopped: self.stopped,
        }
    }
}

impl ClipboardSync {
    pub fn new() -> (r: Self)
        ensures
            r@ == sync_start(),
    {
        ClipboardSync { snapshot: None, pending: None, stopped: false }
    }

    /// The last content transmitted on the channel.
    pub fn snapshot(&self) -> (r: Option<&String>)
        ensures
            match r {
                Some(s) => self@.snapshot == Some(s@),
                None => self@.snapshot is None,
            },
    {
        self.snapshot.as_ref()
    }

    pub fn is_stopped(&self) -> (r: bool)
        ensures
            r == self@.stopped,
    {
        self.stopped
    }

    /// Takes the result of a clipboard read (`None` when the read failed)
    /// and says whether to transmit it.
    pub fn on_read(&mut self, read: Option<String>) -> (r: SyncAction)
        ensures
            final(self)@ == after_read(old(self)@, opt_text(read)),
            old(self)@.stopped ==> r is Stop,
            !old(self)@.stopped ==> match r {
                SyncAction::Send(c) => read_message(old(self)@, opt_text(read)) == Some(c@),
                SyncAction::Sleep => read_message(old(self)@, opt_text(read)) is None,
                SyncAction::Stop => false,
            },
    {
        if self.stopped {
            return SyncAction::Stop;
        }
        match read {
            Some(c) => {
                let unchanged = match &self.snapshot {
                    Some(s) => *s == c,
                    None => false,
                };
                if unchanged {
                    self.pending = None;
                    SyncAction::Sleep
                } else {
                    self.pending = Some(c.clone());
                    SyncAction::Send(c)
                }
            },
            None => {
                self.pending = None;
                SyncAction::Sleep
            },
        }
    }

    /// Takes the outcome of the transmission that `on_read` asked for.
    pub fn on_sent(&mut self, ok: bool) -> (r: SyncAction)
        ensures
            final(self)@ == after_sent(old(self)@, ok),
            r is Stop <==> final(self)@.stopped,
            r is Sleep <==> !final(self)@.stopped,
    {
        if self.stopped {
            return SyncAction::Stop;
        }
        if ok {
            match self.pending.take() {
                Some(c) => {
                    self.snapshot = Some(c);
                },
                None => {},
            }
            SyncAction::Sleep
        } else {
            if self.pending.is_some() {
                self.pending = None;
                self.stopped = true;
                SyncAction::Stop
            } else {
                SyncAction::Sleep
            }
        }
    }
}

} // verus!
