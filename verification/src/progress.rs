//! Progress: how many entries have been made, and how many in the second
//! that is running.

use vstd::prelude::*;

verus! {

/// What a producer tells the progress display.
#[derive(Debug, Clone)]
pub enum ProgressMessage {
    /// One entry was made.
    Progress,
    /// One entry was made, and there is something to say.
    ProgressWithMessage(String),
    /// There is something to say.
    Message(String),
}

pub type ProgressData = ProgressMessage;

impl ProgressMessage {
    /// By how many entries the message moves the display on.
    pub open spec fn spec_increment(&self) -> u64 {
        match self {
            ProgressMessage::Progress => 1,
            ProgressMessage::ProgressWithMessage(_) => 1,
            ProgressMessage::Message(_) => 0,
        }
    }

    /// By how many entries the message moves the display on.
    #[verifier::when_used_as_spec(spec_increment)]
    pub fn increment(&self) -> (inc: u64)
        ensures
            inc == self.spec_increment(),
    {
        match self {
            ProgressMessage::Progress => 1,
            ProgressMessage::ProgressWithMessage(_) => 1,
            ProgressMessage::Message(_) => 0,
        }
    }

    /// The text to print, if the message has one.
    pub fn text(&self) -> (text: Option<&str>)
        ensures
            match self {
                ProgressMessage::Progress => text is None,
                ProgressMessage::ProgressWithMessage(s) => text matches Some(t) && t@ == s@,
                ProgressMessage::Message(s) => text matches Some(t) && t@ == s@,
            },
    {
        match self {
            ProgressMessage::Progress => None,
            ProgressMessage::ProgressWithMessage(s) => Some(s.as_str()),
            ProgressMessage::Message(s) => Some(s.as_str()),
        }
    }
}

/// `a + b`, or the largest number if that is too large.
pub open spec fn capped_sum(a: u64, b: u64) -> u64 {
    if a + b <= u64::MAX {
        (a + b) as u64
    } else {
        u64::MAX
    }
}

/// The number of entries that `messages` report: one for each message that
/// reports progress, none for a message that only has something to say.
pub open spec fn reported(messages: Seq<ProgressMessage>) -> nat
    decreases messages.len(),
{
    if messages.len() == 0 {
        0
    } else {
        reported(messages.drop_last()) + messages.last().spec_increment() as nat
    }
}

/// The count after `messages` were counted from `start` on, each as `record`
/// counts it.
pub open spec fn counted(start: u64, messages: Seq<ProgressMessage>) -> u64
    decreases messages.len(),
{
    if messages.len() == 0 {
        start
    } else {
        capped_sum(counted(start, messages.drop_last()), messages.last().spec_increment())
    }
}

/// The display stands at the number of entries reported: counting
/// `messages` from 0 gives the number of those among them that report
/// progress, or the largest number if there are more.
pub proof fn lemma_count_is_reported(messages: Seq<ProgressMessage>)
    ensures
        counted(0, messages) == if reported(messages) <= u64::MAX {
            reported(messages)
        } else {
            u64::MAX as nat
        },
    decreases messages.len(),
{
    if messages.len() > 0 {
        lemma_count_is_reported(messages.drop_last());
    }
}

/// The counts behind the progress display.
#[derive(Debug, Clone, Copy, PartialEq, Eq, Structural)]
pub struct Throughput {
    /// The entries made so far.
    pub count: u64,
    /// The entries made since the rate was last shown.
    pub current_count: u64,
}

impl Throughput {
    /// Nothing made yet.
    pub fn new() -> (throughput: Self)
        ensures
            throughput == (Throughput { count: 0, current_count: 0 }),
    {
        Throughput { count: 0, current_count: 0 }
    }

    /// Counts `message`. `elapsed_secs` is the number of whole seconds since
    /// the rate was last shown: from one second on the rate is due again, and
    /// is returned; the count for the next rate starts at 0 then.
    pub fn record(&mut self, message: &ProgressMessage, elapsed_secs: u64) -> (rate: Option<u64>)
        ensures
            final(self).count == capped_sum(old(self).count, message.spec_increment()),
            rate == if elapsed_secs >= 1 {
                Some(capped_sum(old(self).current_count, message.spec_increment()))
            } else {
                None
            },
            final(self).current_count == if elapsed_secs >= 1 {
                0
            } else {
                capped_sum(old(self).current_count, message.spec_increment())
            },
    {
        let inc = message.increment();
        self.count = add_capped(self.count, inc);
        let current = add_capped(self.current_count, inc);
        if elapsed_secs >= 1 {
            self.current_count = 0;
            Some(current)
        } else {
            self.current_count = current;
            None
        }
    }

    /// The entries made per second, over `total_secs` whole seconds in all.
    /// A run of less than a second counts as one second: its average is the
    /// number of entries made.
    pub fn average(&self, total_secs: u64) -> (rate: u64)
        ensures
            rate == if total_secs == 0 {
                self.count
            } else {
                self.count / total_secs
            },
    {
        if total_secs == 0 {
            self.count
        } else {
            self.count / total_secs
        }
    }
}

/// `a + b`, or the largest number if that is too large.
fn add_capped(a: u64, b: u64) -> (sum: u64)
    ensures
        sum == capped_sum(a, b),
{
    if a <= u64::MAX - b {
        a + b
    } else {
        u64::MAX
    }
}

} // verus!
