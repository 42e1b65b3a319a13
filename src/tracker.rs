use vstd::prelude::*;
use crate::model::{opt_int_view, opt_text_view, TrackerResponse, TrackerResponseV};

verus! {

#[derive(Debug)]
pub struct TrackerStatus {
    pub seeders: i64,
    pub leechers: i64,
    pub complete: i64,
    pub incomplete: i64,
}

#[derive(Debug)]
pub enum TrackerConnectionState {
    Connected(TrackerStatus),
    Timeout(String),
    NotContacted,
}

/// A discovery service's state for one torrent. Two trackers are the same
/// tracker when their announce URLs are equal.
#[derive(Debug)]
pub struct Tracker {
    pub announce: String,
    pub interval: i64,
    pub min_interval: Option<i64>,
    pub state: TrackerConnectionState,
    pub tracker_id: Option<String>,
}

/// What the state of a tracker becomes on a response.
pub open spec fn state_after(resp: TrackerResponseV) -> TrackerStateV {
    match resp {
        TrackerResponseV::Success { complete, incomplete, .. } => TrackerStateV::Connected {
            seeders: complete,
            leechers: incomplete,
            complete,
            incomplete,
        },
        TrackerResponseV::Failure(m) => TrackerStateV::Timeout(m),
        TrackerResponseV::Warning(m) => TrackerStateV::Timeout(m),
    }
}

/// `new` is `old` after the response `resp`: the state follows the
/// response; a success also sets the intervals and, when it carries one, the
/// tracker id, which is otherwise kept.
pub open spec fn updated(old: Tracker, resp: TrackerResponseV, new: Tracker) -> bool {
    &&& new.announce@ == old.announce@
    &&& new.state@ == state_after(resp)
    &&& match resp {
        TrackerResponseV::Success { interval, min_interval, tracker_id, .. } => {
            &&& new.interval == interval
            &&& opt_int_view(new.min_interval) == min_interval
            &&& opt_text_view(new.tracker_id) == match tracker_id {
                Some(t) => Some(t),
                None => opt_text_view(old.tracker_id),
            }
        },
        _ => {
            &&& new.interval == old.interval
            &&& new.min_interval == old.min_interval
            &&& opt_text_view(new.tracker_id) == opt_text_view(old.tracker_id)
        },
    }
}

/// The announce parameters that depend on a tracker's state: `trackerid`
/// once the tracker has given one, then `event=started` on first contact.
pub open spec fn extra_params(t: Tracker) -> Seq<(Seq<char>, Seq<char>)> {
    (match t.tracker_id {
        Some(id) => seq![("trackerid"@, id@)],
        None => seq![],
    }) + (match t.state {
        TrackerConnectionState::NotContacted => seq![("event"@, "started"@)],
        _ => seq![],
    })
}

pub open spec fn params_view(v: Seq<(String, String)>) -> Seq<(Seq<char>, Seq<char>)> {
    v.map_values(|p: (String, String)| (p.0@, p.1@))
}

pub enum TrackerStateV {
    Connected { seeders: int, leechers: int, complete: int, incomplete: int },
    Timeout(Seq<char>),
    NotContacted,
}

impl TrackerConnectionState {
    pub open spec fn view(self) -> TrackerStateV {
        match self {
            TrackerConnectionState::Connected(s) => TrackerStateV::Connected {
                seeders: s.seeders as int,
                leechers: s.leechers as int,
                complete: s.complete as int,
                incomplete: s.incomplete as int,
            },
            TrackerConnectionState::Timeout(m) => TrackerStateV::Timeout(m@),
            TrackerConnectionState::NotContacted => TrackerStateV::NotContacted,
        }
    }
}

impl Tracker {
    pub fn new(announce: String) -> (r: Tracker)
        ensures
            r.announce@ == announce@,
            r.interval == 0,
            r.min_interval is None,
            r.state@ == TrackerStateV::NotContacted,
            r.tracker_id is None,
    {
        Tracker {
            announce,
            interval: 0,
            min_interval: None,
            state: TrackerConnectionState::NotContacted,
            tracker_id: None,
        }
    }

    /// Takes in a tracker's response. A success sets the intervals, the
    /// counts and, when it carries one, the tracker id; a failure or a
    /// warning sets the state to a timeout with its message.
    pub fn update(&mut self, resp: &TrackerResponse)
        ensures
            updated(*old(self), resp@, *final(self)),
            !(final(self).state@ is NotContacted),
    {
        match resp {
            TrackerResponse::Success(success) => {
                self.interval = success.interval;
                self.min_interval = success.min_interval;
                match &success.tracker_id {
                    Some(id) => {
                        self.tracker_id = Some(id.clone());
                    },
                    None => {},
                }
                self.state = TrackerConnectionState::Connected(
                    TrackerStatus {
                        seeders: success.complete,
                        leechers: success.incomplete,
                        complete: success.complete,
                        incomplete: success.incomplete,
                    },
                );
            },
            TrackerResponse::Failure(msg) => {
                self.state = TrackerConnectionState::Timeout(msg.clone());
            },
            TrackerResponse::Warning(msg) => {
                self.state = TrackerConnectionState::Timeout(msg.clone());
            },
        }
    }

    /// Records that an announce could not reach the tracker.
    pub fn record_transport_error(&mut self, message: String)
        ensures
            final(self).announce@ == old(self).announce@,
            final(self).state@ == TrackerStateV::Timeout(message@),
            final(self).interval == old(self).interval,
            final(self).min_interval == old(self).min_interval,
            opt_text_view(final(self).tracker_id) == opt_text_view(old(self).tracker_id),
    {
        self.state = TrackerConnectionState::Timeout(message);
    }

    /// The announce parameters that this tracker's state adds to a request.
    pub fn announce_params(&self) -> (r: Vec<(String, String)>)
        ensures
            params_view(r@) == extra_params(*self),
    {
        let mut r: Vec<(String, String)> = Vec::new();
        match &self.tracker_id {
            Some(id) => {
                r.push(("trackerid".to_owned(), id.clone()));
            },
            None => {},
        }
        if self.is_first_contact() {
            r.push(("event".to_owned(), "started".to_owned()));
        }
        assert(params_view(r@) =~= extra_params(*self));
        r
    }

    /// The seconds to wait before the next announce: the interval, or none
    /// when the interval is negative.
    pub fn poll_delay(&self) -> (r: u64)
        ensures
            r == if self.interval < 0 {
                0
            } else {
                self.interval as int
            },
    {
        if self.interval < 0 {
            0
        } else {
            self.interval as u64
        }
    }

    /// Whether the next announce is the first: it then carries the
    /// `started` event.
    pub fn is_first_contact(&self) -> (r: bool)
        ensures
            r == (self.state@ is NotContacted),
    {
        match self.state {
            TrackerConnectionState::NotContacted => true,
            _ => false,
        }
    }
}

impl From<String> for Tracker {
    fn from(value: String) -> (r: Tracker)
        ensures
            r.announce@ == value@,
            r.state@ == TrackerStateV::NotContacted,
    {
        Tracker {
            announce: value,
            interval: 0,
            min_interval: None,
            state: TrackerConnectionState::NotContacted,
            tracker_id: None,
        }
    }
}

impl vstd::std_specs::convert::FromSpecImpl<String> for Tracker {
    open spec fn obeys_from_spec() -> bool {
        true
    }

    open spec fn from_spec(v: String) -> Tracker {
        Tracker {
            announce: v,
            interval: 0,
            min_interval: None,
            state: TrackerConnectionState::NotContacted,
            tracker_id: None,
        }
    }
}

impl PartialEq for Tracker {
    fn eq(&self, other: &Tracker) -> (r: bool)
        ensures
            r == (self.announce@ == other.announce@),
    {
        self.announce == other.announce
    }
}

impl vstd::std_specs::cmp::PartialEqSpecImpl for Tracker {
    open spec fn obeys_eq_spec() -> bool {
        true
    }

    open spec fn eq_spec(&self, other: &Tracker) -> bool {
        self.announce@ == other.announce@
    }
}

} // verus!
