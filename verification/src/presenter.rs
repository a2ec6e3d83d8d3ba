use vstd::prelude::*;
use crate::record::NetworkRecord;

verus! {

/// An event delivered to the presenter: either the user asked for a scan,
/// or a previously started scan finished with its records.
pub enum Message {
    ScanRequested,
    ScanCompleted(Vec<NetworkRecord>),
}

/// The scan screen's state: the records currently shown and whether a
/// scan is in flight. The surrounding event loop owns one value of this
/// and feeds every event through `update`.
pub struct Presenter {
    pub networks: Vec<NetworkRecord>,
    pub scanning: bool,
}

impl Default for Presenter {
    /// The initial state: no records, no scan in flight.
    fn default() -> (p: Presenter)
        ensures
            p.networks@.len() == 0,
            !p.scanning,
    {
        Presenter { networks: Vec::new(), scanning: false }
    }
}

impl Presenter {
    /// Step the state machine. The result says whether the caller must
    /// start a scan now; it is true exactly when a scan was requested
    /// while none was in flight, so overlapping requests never start a
    /// second scan. A request during a scan leaves the state unchanged; a
    /// completion replaces the record list wholesale and returns to idle.
    pub fn update(&mut self, msg: Message) -> (start_scan: bool)
        ensures
            start_scan == (msg is ScanRequested && !old(self).scanning),
            msg is ScanRequested && !old(self).scanning ==> final(self).scanning
                && final(self).networks@.len() == 0,
            msg is ScanRequested && old(self).scanning ==> final(self).scanning
                == old(self).scanning && final(self).networks@ == old(self).networks@,
            msg matches Message::ScanCompleted(records) ==> !final(self).scanning
                && final(self).networks@ == records@,
    {
        match msg {
            Message::ScanRequested => {
                if self.scanning {
                    false
                } else {
                    self.scanning = true;
                    self.networks = Vec::new();
                    true
                }
            },
            Message::ScanCompleted(records) => {
                self.networks = records;
                self.scanning = false;
                false
            },
        }
    }
}

} // verus!
