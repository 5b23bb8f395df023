use vstd::prelude::*;
use std::collections::VecDeque;

verus! {

/// How a status message is shown.
#[derive(Clone, Copy, PartialEq, Eq, Structural, Debug)]
pub enum MessageKind {
    /// Shown once at the front, then dropped; a newer one replaces it.
    Temp,
    /// Stays until acknowledged.
    Critical,
    /// Stays until acknowledged.
    Notice,
}

pub type MessageView = Seq<(Seq<char>, MessageKind)>;

/// The log after posting `text` of kind `kind`: a transient message goes to the
/// front, replacing a transient one already there; any other goes to the back.
pub open spec fn posted(log: MessageView, kind: MessageKind, text: Seq<char>) -> MessageView {
    if kind == MessageKind::Temp {
        if log.len() > 0 && log[0].1 == MessageKind::Temp {
            seq![(text, kind)] + log.subrange(1, log.len() as int)
        } else {
            seq![(text, kind)] + log
        }
    } else {
        log.push((text, kind))
    }
}

/// The log without its front message, if there is one.
pub open spec fn dismissed(log: MessageView) -> MessageView {
    if log.len() > 0 {
        log.subrange(1, log.len() as int)
    } else {
        log
    }
}

/// Whether the front message is shown only once.
pub open spec fn front_is_transient(log: MessageView) -> bool {
    log.len() > 0 && log[0].1 == MessageKind::Temp
}

/// The log after a display refresh: a transient front message has been shown
/// and goes, unless the refresh only followed a resize.
pub open spec fn refreshed(log: MessageView, resized: bool) -> MessageView {
    if !resized && front_is_transient(log) {
        dismissed(log)
    } else {
        log
    }
}

/// An ordered log of status messages; only the front one is shown.
pub struct MessageLog {
    items: VecDeque<(String, MessageKind)>,
}

impl View for MessageLog {
    type V = MessageView;

    closed spec fn view(&self) -> MessageView {
        self.items@.map_values(|m: (String, MessageKind)| (m.0@, m.1))
    }
}

impl MessageLog {
    pub fn new() -> (r: MessageLog)
        ensures
            r@ == Seq::<(Seq<char>, MessageKind)>::empty(),
    {
        let r = MessageLog { items: VecDeque::new() };
        assert(r@ =~= Seq::<(Seq<char>, MessageKind)>::empty());
        r
    }

    pub fn len(&self) -> (r: usize)
        ensures
            r == self@.len(),
    {
        self.items.len()
    }

    pub fn post(&mut self, kind: MessageKind, text: String)
        ensures
            final(self)@ == posted(old(self)@, kind, text@),
    {
        let ghost tv = text@;
        if kind == MessageKind::Temp && self.front_is_transient() {
            self.items.pop_front();
            self.items.push_front((text, kind));
        } else if kind == MessageKind::Temp {
            self.items.push_front((text, kind));
        } else {
            self.items.push_back((text, kind));
        }
        assert(self@ =~= posted(old(self)@, kind, tv));
    }

    /// The message on show, if any.
    pub fn front(&self) -> (r: Option<(String, MessageKind)>)
        ensures
            match r {
                Some(m) => self@.len() > 0 && (m.0@, m.1) == self@[0],
                None => self@.len() == 0,
            },
    {
        if self.items.len() == 0 {
            None
        } else {
            let m = &self.items[0];
            Some((m.0.clone(), m.1))
        }
    }

    pub fn front_is_transient(&self) -> (r: bool)
        ensures
            r == front_is_transient(self@),
    {
        self.items.len() > 0 && self.items[0].1 == MessageKind::Temp
    }

    /// Dismisses the front message; does nothing on an empty log.
    pub fn acknowledge(&mut self)
        ensures
            final(self)@ == dismissed(old(self)@),
    {
        self.items.pop_front();
        assert(self@ =~= dismissed(old(self)@));
    }

    /// Records that the front message was displayed by a refresh.
    pub fn after_refresh(&mut self, resized: bool)
        ensures
            final(self)@ == refreshed(old(self)@, resized),
    {
        if !resized && self.front_is_transient() {
            self.acknowledge();
        }
    }
}

} // verus!
