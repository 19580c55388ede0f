//! The diagnostics sink: an append-only record of what a program chose to
//! note down. Nothing in the scheduler depends on it.

use vstd::prelude::*;

verus! {

/// One entry of the record: a tag, the address it is about, and a number.
pub struct Record {
    /// What happened.
    pub tag: String,
    /// The address of the container concerned, or zero.
    pub address: usize,
    /// A number that goes with the tag.
    pub value: u64,
}

/// What an entry holds, as plain values.
pub struct RecordView {
    /// What happened.
    pub tag: Seq<char>,
    /// The address of the container concerned, or zero.
    pub address: usize,
    /// A number that goes with the tag.
    pub value: u64,
}

/// The sink. It keeps nothing until logging is enabled.
pub struct FlightRecorder {
    enabled: bool,
    records: Vec<Record>,
}

impl View for FlightRecorder {
    type V = Seq<RecordView>;

    closed spec fn view(&self) -> Seq<RecordView> {
        Seq::new(
            self.records.len() as nat,
            |i: int|
                RecordView {
                    tag: self.records[i].tag@,
                    address: self.records[i].address,
                    value: self.records[i].value,
                },
        )
    }
}

impl FlightRecorder {
    /// Whether entries are kept.
    pub closed spec fn enabled(&self) -> bool {
        self.enabled
    }

    /// The state after an entry was handed in: it is appended if logging is
    /// enabled, and nothing changes otherwise.
    pub open spec fn appended(&self, entry: RecordView) -> Seq<RecordView> {
        if self.enabled() {
            self@.push(entry)
        } else {
            self@
        }
    }

    /// An empty sink with logging disabled.
    pub fn new() -> (r: FlightRecorder)
        ensures
            !r.enabled(),
            r@ == Seq::<RecordView>::empty(),
    {
        let r = FlightRecorder { enabled: false, records: Vec::new() };
        assert(r@ =~= Seq::empty());
        r
    }

    /// Enables logging. What was kept so far stays.
    pub fn enable_logging(&mut self)
        ensures
            final(self).enabled(),
            final(self)@ == old(self)@,
    {
        self.enabled = true;
        assert(self@ =~= old(self)@);
    }

    /// Hands in an entry.
    pub fn record(&mut self, tag: &str, address: usize, value: u64)
        ensures
            final(self).enabled() == old(self).enabled(),
            final(self)@ == old(self).appended(RecordView { tag: tag@, address, value }),
    {
        if self.enabled {
            self.records.push(Record { tag: tag.to_string(), address, value });
            assert(self@ =~= old(self)@.push(RecordView { tag: tag@, address, value }));
        } else {
            assert(self@ =~= old(self)@);
        }
    }

    /// The number of entries kept.
    pub fn len(&self) -> (n: usize)
        ensures
            n == self@.len(),
    {
        self.records.len()
    }

    /// The tag of entry `i`.
    pub fn tag(&self, i: usize) -> (tag: &str)
        requires
            i < self@.len(),
        ensures
            tag@ == self@[i as int].tag,
    {
        self.records[i].tag.as_str()
    }
}

/// Notes `val` down in `sink`, as an entry about no container in particular.
pub fn log(sink: &mut FlightRecorder, val: &str)
    ensures
        final(sink).enabled() == old(sink).enabled(),
        final(sink)@ == old(sink).appended(RecordView { tag: val@, address: 0, value: 0 }),
{
    sink.record(val, 0, 0);
}

} // verus!
