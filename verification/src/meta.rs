//! The completed per-message record and its presentation helpers.

use vstd::prelude::*;
use vstd::string::StrSliceExecFns;
use vstd::string::StringExecFns;
use crate::flags::Flag;
use crate::fragment::{EnvelopeAddress, EnvelopeAddressModel};
use crate::text::{
    chars_of,
    decode_lossy,
    find_char,
    index_of_char,
    lossy_decode,
    starts_with,
    starts_with_spec,
    string_of,
    sub_vec,
    trim,
    trim_spec,
    view_opt_bytes,
    view_opt_str,
};
use crate::timestamp::Timestamp;

verus! {

/// A completed message record: everything the correlator extracted for one
/// sequence number.
///
/// `seq` is the session-local position and never persisted as identity;
/// `uid` is stable within one mailbox generation and `mod_seq` grows
/// monotonically with every modification, so a later observation of the
/// same `uid` with a higher `mod_seq` replaces the earlier one.  All other
/// fields are advisory and may be absent.
#[derive(Clone, Debug)]
pub struct MessageMeta {
    pub seq: u32,
    pub uid: u32,
    pub mod_seq: u64,
    pub flags: Vec<Flag>,
    pub mid: Option<String>,
    pub dt: Option<Timestamp>,
    pub subject: Option<String>,
    pub sender: Option<String>,
    pub raw: Option<Vec<u8>>,
}

/// The mathematical value of a [`MessageMeta`].
pub struct MetaModel {
    pub seq: u32,
    pub uid: u32,
    pub mod_seq: u64,
    pub flags: Seq<Flag>,
    pub mid: Option<Seq<char>>,
    pub dt: Option<Timestamp>,
    pub subject: Option<Seq<char>>,
    pub sender: Option<Seq<char>>,
    pub raw: Option<Seq<u8>>,
}

impl View for MessageMeta {
    type V = MetaModel;

    open spec fn view(&self) -> MetaModel {
        MetaModel {
            seq: self.seq,
            uid: self.uid,
            mod_seq: self.mod_seq,
            flags: self.flags@,
            mid: view_opt_str(self.mid),
            dt: self.dt,
            subject: view_opt_str(self.subject),
            sender: view_opt_str(self.sender),
            raw: view_opt_bytes(self.raw),
        }
    }
}

/// The byte string of an optional envelope field, empty when absent.
pub open spec fn or_empty(o: Option<Seq<u8>>) -> Seq<u8> {
    match o {
        Some(b) => b,
        None => Seq::empty(),
    }
}

/// A sender address formatted as `name <mailbox@host>`, each part decoded
/// permissively and an absent part shown empty.
pub open spec fn spec_format_sender(a: EnvelopeAddressModel) -> Seq<char> {
    lossy_decode(or_empty(a.name)) + " <"@ + lossy_decode(or_empty(a.mailbox)) + "@"@
        + lossy_decode(or_empty(a.host)) + ">"@
}

fn decode_part(part: &Option<Vec<u8>>) -> (r: String)
    ensures
        r@ == lossy_decode(or_empty(view_opt_bytes(*part))),
{
    match part {
        Some(v) => decode_lossy(v.as_slice()),
        None => {
            let empty: Vec<u8> = Vec::new();
            proof {
                assert(empty@ =~= Seq::<u8>::empty());
            }
            decode_lossy(empty.as_slice())
        },
    }
}

/// Formats one envelope sender address as `name <mailbox@host>`.
pub fn format_sender(a: &EnvelopeAddress) -> (r: String)
    ensures
        r@ == spec_format_sender(a@),
{
    let mut s = decode_part(&a.name);
    s.append(" <");
    let mb = decode_part(&a.mailbox);
    s.append(mb.as_str());
    s.append("@");
    let host = decode_part(&a.host);
    s.append(host.as_str());
    s.append(">");
    proof {
        assert(s@ =~= spec_format_sender(a@));
    }
    s
}

/// The style a message date is shown in, depending on how far in the past
/// it lies.
#[derive(Clone, Copy, Debug, PartialEq, Eq, Structural)]
pub enum DateStyle {
    /// Less than a day old: show the time of day.
    TimeOfDay,
    /// Less than twenty-six weeks old: show month and day.
    MonthDay,
    /// Older: show the full date.
    FullDate,
}

/// The display style for a message sent `dt` when the clock reads `now`,
/// both in epoch seconds.
pub open spec fn spec_date_style(dt: int, now: int) -> DateStyle {
    let diff = now - dt;
    if diff < 86400 {
        DateStyle::TimeOfDay
    } else if diff < 15724800 {
        DateStyle::MonthDay
    } else {
        DateStyle::FullDate
    }
}

impl MessageMeta {
    /// Whether the message still lacks the seen flag.
    pub fn unread(&self) -> (r: bool)
        ensures
            r == !self.flags@.contains(Flag::Seen),
    {
        let mut i: usize = 0;
        while i < self.flags.len()
            invariant
                i <= self.flags@.len(),
                forall|j: int| 0 <= j < i ==> self.flags@[j] != Flag::Seen,
            decreases self.flags@.len() - i,
        {
            if self.flags[i] == Flag::Seen {
                return false;
            }
            i += 1;
        }
        true
    }

    /// The sender's display name: the part before an angle bracket,
    /// trimmed, or a placeholder when no sender text is present.
    pub open spec fn spec_sender_name(self) -> Seq<char> {
        match view_opt_str(self.sender) {
            None => "(no sender)"@,
            Some(s) => if trim_spec(s).len() == 0 {
                "(no sender)"@
            } else {
                match index_of_char(s, '<') {
                    Some(i) => trim_spec(s.take(i)),
                    None => s,
                }
            },
        }
    }

    pub fn sender_name(&self) -> (r: String)
        ensures
            r@ == self.spec_sender_name(),
    {
        match &self.sender {
            None => "(no sender)".to_owned(),
            Some(s) => {
                let cs = chars_of(s.as_str());
                let trimmed = trim(&cs);
                if trimmed.len() == 0 {
                    "(no sender)".to_owned()
                } else {
                    match find_char(&cs, '<') {
                        Some(i) => {
                            let head = sub_vec(&cs, 0, i);
                            proof {
                                assert(head@ =~= cs@.take(i as int));
                            }
                            let t = trim(&head);
                            string_of(&t)
                        },
                        None => string_of(&cs),
                    }
                }
            },
        }
    }

    /// The displayed subject: a leading reply marker stripped, or a
    /// placeholder when absent.
    pub open spec fn spec_subject_display(self) -> Seq<char> {
        match view_opt_str(self.subject) {
            None => "(no subject)"@,
            Some(s) => if starts_with_spec(s, "Re: "@) {
                s.skip(4)
            } else {
                s
            },
        }
    }

    pub fn subject_display(&self) -> (r: String)
        ensures
            r@ == self.spec_subject_display(),
    {
        match &self.subject {
            None => "(no subject)".to_owned(),
            Some(s) => {
                let cs = chars_of(s.as_str());
                let re = chars_of("Re: ");
                if starts_with(&cs, &re) {
                    proof {
                        reveal_strlit("Re: ");
                    }
                    let rest = sub_vec(&cs, 4, cs.len());
                    proof {
                        assert(rest@ =~= cs@.skip(4));
                    }
                    string_of(&rest)
                } else {
                    string_of(&cs)
                }
            },
        }
    }

    /// Picks the display style for this message's date from the clock
    /// reading `now_utc_seconds`.
    pub fn date_style(&self, now_utc_seconds: i64) -> (r: Option<DateStyle>)
        ensures
            match self.dt {
                Some(ts) => r == Some(
                    spec_date_style(ts.utc_seconds as int, now_utc_seconds as int),
                ),
                None => r is None,
            },
    {
        match &self.dt {
            None => None,
            Some(ts) => {
                let diff: i128 = now_utc_seconds as i128 - ts.utc_seconds as i128;
                if diff < 86400 {
                    Some(DateStyle::TimeOfDay)
                } else if diff < 15724800 {
                    Some(DateStyle::MonthDay)
                } else {
                    Some(DateStyle::FullDate)
                }
            },
        }
    }
}

} // verus!
