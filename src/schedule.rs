use crate::date::{date_of_text, date_text, lemma_date_text_round_trip, Date};
use crate::error::Error;
use crate::text::{chars_equal, chars_of};
use vstd::prelude::*;

verus! {

/// When a task is meant to be done.
#[derive(Clone, Copy, Debug, PartialEq, Eq, Structural)]
pub enum Scheduled {
    /// No date: ready whenever.
    Anytime,
    /// Deliberately deferred, with no date.
    Someday,
    /// On a specific calendar day.
    Day(Date),
}

pub open spec fn anytime_text() -> Seq<char> {
    seq!['a', 'n', 'y', 't', 'i', 'm', 'e']
}

pub open spec fn someday_text() -> Seq<char> {
    seq!['s', 'o', 'm', 'e', 'd', 'a', 'y']
}

/// The persisted text of a schedule.
pub open spec fn scheduled_text(s: Scheduled) -> Seq<char> {
    match s {
        Scheduled::Anytime => anytime_text(),
        Scheduled::Someday => someday_text(),
        Scheduled::Day(d) => date_text(d),
    }
}

/// The schedule that a persisted text names; any text but the two tokens and
/// a strict `YYYY-MM-DD` date of an existing day is rejected.
pub open spec fn scheduled_of_text(t: Seq<char>) -> Result<Scheduled, Error> {
    if t == anytime_text() {
        Ok(Scheduled::Anytime)
    } else if t == someday_text() {
        Ok(Scheduled::Someday)
    } else {
        match date_of_text(t) {
            Some(d) => Ok(Scheduled::Day(d)),
            None => Err(Error::InvalidEncoding),
        }
    }
}

impl Scheduled {
    pub open spec fn wf(self) -> bool {
        match self {
            Scheduled::Day(d) => d.wf(),
            _ => true,
        }
    }

    /// The schedule's persisted text: `anytime`, `someday` or `YYYY-MM-DD`.
    pub fn to_string(&self) -> (r: String)
        requires
            self.wf(),
        ensures
            r@ == scheduled_text(*self),
    {
        match self {
            Scheduled::Anytime => {
                proof {
                    reveal_strlit("anytime");
                    assert("anytime"@ =~= anytime_text());
                }
                "anytime".to_owned()
            },
            Scheduled::Someday => {
                proof {
                    reveal_strlit("someday");
                    assert("someday"@ =~= someday_text());
                }
                "someday".to_owned()
            },
            Scheduled::Day(d) => d.to_iso_string(),
        }
    }

    /// Reads a schedule from its persisted text.
    pub fn from_str(s: &str) -> (r: Result<Scheduled, Error>)
        ensures
            r == scheduled_of_text(s@),
    {
        let cs = chars_of(s);
        let anytime = chars_of("anytime");
        let someday = chars_of("someday");
        proof {
            reveal_strlit("anytime");
            reveal_strlit("someday");
            assert(anytime@ =~= anytime_text());
            assert(someday@ =~= someday_text());
        }
        if chars_equal(&cs, &anytime) {
            Ok(Scheduled::Anytime)
        } else if chars_equal(&cs, &someday) {
            Ok(Scheduled::Someday)
        } else {
            match Date::parse_iso(s) {
                Some(d) => Ok(Scheduled::Day(d)),
                None => Err(Error::InvalidEncoding),
            }
        }
    }
}

/// Reading back the persisted text of a schedule gives the same schedule.
pub proof fn lemma_scheduled_round_trip(s: Scheduled)
    requires
        s.wf(),
    ensures
        scheduled_of_text(scheduled_text(s)) == Ok::<Scheduled, Error>(s),
{
    if let Scheduled::Day(d) = s {
        lemma_date_text_round_trip(d);
        let t = date_text(d);
        assert(t.len() == 10);
        assert(t != anytime_text());
        assert(t != someday_text());
    }
}

} // verus!
