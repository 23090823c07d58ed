//! The attribute fragments a retrieval session delivers.
//!
//! A multi-part reply describes one message through several independently
//! arriving typed values, each tagged with the transient sequence number of
//! the message it belongs to.  The transport hands fragments over as plain
//! values of these types; envelope text arrives as raw bytes and is decoded
//! permissively later, since it is advisory rather than structural.

use vstd::prelude::*;

verus! {

/// One mailbox address as an envelope delivers it: display name, local
/// mailbox part and host, each possibly absent.
#[derive(Clone, Debug)]
pub struct EnvelopeAddress {
    pub name: Option<Vec<u8>>,
    pub mailbox: Option<Vec<u8>>,
    pub host: Option<Vec<u8>>,
}

/// The mathematical value of an [`EnvelopeAddress`].
pub struct EnvelopeAddressModel {
    pub name: Option<Seq<u8>>,
    pub mailbox: Option<Seq<u8>>,
    pub host: Option<Seq<u8>>,
}

impl View for EnvelopeAddress {
    type V = EnvelopeAddressModel;

    open spec fn view(&self) -> EnvelopeAddressModel {
        EnvelopeAddressModel {
            name: match self.name {
                Some(v) => Some(v@),
                None => None,
            },
            mailbox: match self.mailbox {
                Some(v) => Some(v@),
                None => None,
            },
            host: match self.host {
                Some(v) => Some(v@),
                None => None,
            },
        }
    }
}

/// The structured envelope bundle delivered as one fragment kind: advisory
/// header fields describing the message.
#[derive(Clone, Debug)]
pub struct Envelope {
    pub message_id: Option<Vec<u8>>,
    pub date: Option<Vec<u8>>,
    pub subject: Option<Vec<u8>>,
    pub sender: Option<EnvelopeAddress>,
}

/// The mathematical value of an [`Envelope`].
pub struct EnvelopeModel {
    pub message_id: Option<Seq<u8>>,
    pub date: Option<Seq<u8>>,
    pub subject: Option<Seq<u8>>,
    pub sender: Option<EnvelopeAddressModel>,
}

impl View for Envelope {
    type V = EnvelopeModel;

    open spec fn view(&self) -> EnvelopeModel {
        EnvelopeModel {
            message_id: match self.message_id {
                Some(v) => Some(v@),
                None => None,
            },
            date: match self.date {
                Some(v) => Some(v@),
                None => None,
            },
            subject: match self.subject {
                Some(v) => Some(v@),
                None => None,
            },
            sender: match self.sender {
                Some(a) => Some(a@),
                None => None,
            },
        }
    }
}

/// One typed value arriving for a sequence number.  A fragment is
/// ephemeral: it is buffered until its message's record completes and never
/// persisted directly.
#[derive(Clone, Debug)]
pub enum AttributeFragment {
    /// The stable-within-mailbox-generation identifier; mandatory for a
    /// completed record.
    UniqueId(u32),
    /// The monotonic modification stamp; mandatory for a completed record.
    ChangeVersion(u64),
    /// A date string from the internal store date or a header; normalised
    /// later, absent from the record if that fails.
    InternalOrHeaderDate(String),
    /// Protocol flag tokens; filtered through the flag vocabulary.
    Flags(Vec<String>),
    /// The envelope bundle; its fields are copied through permissively.
    EnvelopeRecord(Envelope),
    /// The raw message content; payload only.
    RawContent(Vec<u8>),
}

/// The mathematical value of an [`AttributeFragment`].
pub enum FragmentModel {
    UniqueId(u32),
    ChangeVersion(u64),
    InternalOrHeaderDate(Seq<char>),
    Flags(Seq<Seq<char>>),
    EnvelopeRecord(EnvelopeModel),
    RawContent(Seq<u8>),
}

impl View for AttributeFragment {
    type V = FragmentModel;

    open spec fn view(&self) -> FragmentModel {
        match self {
            AttributeFragment::UniqueId(u) => FragmentModel::UniqueId(*u),
            AttributeFragment::ChangeVersion(cv) => FragmentModel::ChangeVersion(*cv),
            AttributeFragment::InternalOrHeaderDate(s) => FragmentModel::InternalOrHeaderDate(s@),
            AttributeFragment::Flags(ts) => FragmentModel::Flags(
                ts@.map_values(|t: String| t@),
            ),
            AttributeFragment::EnvelopeRecord(e) => FragmentModel::EnvelopeRecord(e@),
            AttributeFragment::RawContent(b) => FragmentModel::RawContent(b@),
        }
    }
}

/// Which fragment kinds count toward completing a record in this session:
/// the caller requests a fixed set of attribute kinds before the stream
/// starts, and a record is complete once one fragment of each requested
/// countable kind has been counted.
#[derive(Clone, Copy, Debug, PartialEq, Eq, Structural)]
pub struct KindConfig {
    pub unique_id: bool,
    pub change_version: bool,
    pub date: bool,
    pub flags: bool,
    pub envelope: bool,
    pub raw: bool,
}

/// One where a kind counts, zero where it does not.
pub open spec fn count_one(b: bool) -> nat {
    if b {
        1
    } else {
        0
    }
}

impl KindConfig {
    /// How many countable fragments complete a record under this
    /// configuration.
    pub open spec fn spec_total(self) -> nat {
        count_one(self.unique_id) + count_one(self.change_version) + count_one(self.date)
            + count_one(self.flags) + count_one(self.envelope) + count_one(self.raw)
    }

    pub fn total(&self) -> (r: u32)
        ensures
            r == self.spec_total(),
    {
        let mut r: u32 = 0;
        if self.unique_id {
            r += 1;
        }
        if self.change_version {
            r += 1;
        }
        if self.date {
            r += 1;
        }
        if self.flags {
            r += 1;
        }
        if self.envelope {
            r += 1;
        }
        if self.raw {
            r += 1;
        }
        r
    }

    /// Whether a fragment of this kind counts toward completion.
    pub open spec fn spec_countable(self, f: FragmentModel) -> bool {
        match f {
            FragmentModel::UniqueId(_) => self.unique_id,
            FragmentModel::ChangeVersion(_) => self.change_version,
            FragmentModel::InternalOrHeaderDate(_) => self.date,
            FragmentModel::Flags(_) => self.flags,
            FragmentModel::EnvelopeRecord(_) => self.envelope,
            FragmentModel::RawContent(_) => self.raw,
        }
    }

    pub fn countable(&self, f: &AttributeFragment) -> (r: bool)
        ensures
            r == self.spec_countable(f@),
    {
        match f {
            AttributeFragment::UniqueId(_) => self.unique_id,
            AttributeFragment::ChangeVersion(_) => self.change_version,
            AttributeFragment::InternalOrHeaderDate(_) => self.date,
            AttributeFragment::Flags(_) => self.flags,
            AttributeFragment::EnvelopeRecord(_) => self.envelope,
            AttributeFragment::RawContent(_) => self.raw,
        }
    }

    /// The full metadata-and-content request: identifier, change version,
    /// store date, flags and raw content.
    pub fn full_fetch() -> (r: KindConfig)
        ensures
            r == (KindConfig {
                unique_id: true,
                change_version: true,
                date: true,
                flags: true,
                envelope: false,
                raw: true,
            }),
    {
        KindConfig {
            unique_id: true,
            change_version: true,
            date: true,
            flags: true,
            envelope: false,
            raw: true,
        }
    }

    /// The envelope-metadata request: identifier, change version, flags and
    /// envelope.
    pub fn envelope_fetch() -> (r: KindConfig)
        ensures
            r == (KindConfig {
                unique_id: true,
                change_version: true,
                date: false,
                flags: true,
                envelope: true,
                raw: false,
            }),
    {
        KindConfig {
            unique_id: true,
            change_version: true,
            date: false,
            flags: true,
            envelope: true,
            raw: false,
        }
    }
}

/// How many of the buffered fragments count toward completion.
pub open spec fn countable_count(k: KindConfig, s: Seq<FragmentModel>) -> nat
    decreases s.len(),
{
    if s.len() == 0 {
        0
    } else {
        countable_count(k, s.drop_last()) + count_one(k.spec_countable(s.last()))
    }
}

} // verus!
