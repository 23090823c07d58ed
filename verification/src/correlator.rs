//! The fetch-response correlator.
//!
//! A retrieval session answers with attribute fragments keyed by transient
//! sequence numbers, interleaved arbitrarily across the messages in flight.
//! The correlator buffers the fragments of each sequence number until the
//! count of countable kinds reaches the session's configured total, then
//! extracts one completed record, evicts the buffered state exactly once
//! and never revisits it: a fragment arriving for an already-completed
//! number is reported as anomalous, not merged into a stale buffer.
//!
//! Completed records come out in the order their completing fragments
//! arrive, which is independent of sequence-number order; consumers treat
//! the output as an unordered stream keyed by the stable identifier.

use std::collections::HashMap;
use std::collections::HashSet;
use vstd::prelude::*;
use crate::datetime::{fuzzy_datetime_parser, spec_normalize};
use crate::flags::{classify_outcome, spec_classify, spec_classify_outcome, Flag, FlagOutcome};
use crate::fragment::{count_one, countable_count, AttributeFragment, FragmentModel, KindConfig};
use crate::meta::{format_sender, spec_format_sender, MessageMeta, MetaModel};
use crate::text::{decode_lossy, lossy_decode, view_opt_bytes, view_opt_str};

verus! {

broadcast use vstd::std_specs::hash::group_hash_axioms;

/// The mandatory field a malformed reply failed to deliver before its
/// record completed.  The identifier and the change version are what make a
/// record referenceable, so completing without either is a hard error for
/// that record — though never for the session.
#[derive(Clone, Copy, Debug, PartialEq, Eq, Structural)]
pub enum MissingField {
    UniqueId,
    ChangeVersion,
}

/// Diagnostics gathered while extracting one completed record; none of
/// them is fatal.
#[derive(Clone, Debug)]
pub struct ExtractionNotes {
    /// Flag tokens outside the vocabulary, in arrival order.
    pub unknown_flags: Vec<String>,
    /// The date string that failed every normalisation pattern, if one did;
    /// the record's date is left absent then.
    pub unparsed_date: Option<String>,
}

/// The mathematical value of [`ExtractionNotes`].
pub struct NotesModel {
    pub unknown_flags: Seq<Seq<char>>,
    pub unparsed_date: Option<Seq<char>>,
}

impl View for ExtractionNotes {
    type V = NotesModel;

    open spec fn view(&self) -> NotesModel {
        NotesModel {
            unknown_flags: self.unknown_flags@.map_values(|s: String| s@),
            unparsed_date: view_opt_str(self.unparsed_date),
        }
    }
}

/// The running value of record extraction after some prefix of a buffer:
/// for each scalar the latest fragment wins, flags and their diagnostics
/// accumulate in order.
pub struct ExtractState {
    pub uid: Option<u32>,
    pub mod_seq: Option<u64>,
    pub date_text: Option<Seq<char>>,
    pub flags: Seq<Flag>,
    pub unknown_flags: Seq<Seq<char>>,
    pub mid: Option<Seq<char>>,
    pub subject: Option<Seq<char>>,
    pub sender: Option<Seq<char>>,
    pub raw: Option<Seq<u8>>,
}

/// Extraction before any fragment: everything absent.
pub open spec fn ext_init() -> ExtractState {
    ExtractState {
        uid: None,
        mod_seq: None,
        date_text: None,
        flags: Seq::empty(),
        unknown_flags: Seq::empty(),
        mid: None,
        subject: None,
        sender: None,
        raw: None,
    }
}

/// The recognized flags among `tokens`, in order.
pub open spec fn flags_kept(tokens: Seq<Seq<char>>) -> Seq<Flag>
    decreases tokens.len(),
{
    if tokens.len() == 0 {
        Seq::empty()
    } else {
        flags_kept(tokens.drop_last()) + match spec_classify(tokens.last()) {
            Some(f) => seq![f],
            None => Seq::empty(),
        }
    }
}

/// The tokens of `tokens` outside the vocabulary, in order.
pub open spec fn flags_unknown(tokens: Seq<Seq<char>>) -> Seq<Seq<char>>
    decreases tokens.len(),
{
    if tokens.len() == 0 {
        Seq::empty()
    } else {
        flags_unknown(tokens.drop_last()) + if spec_classify_outcome(
            tokens.last(),
        ) is Unrecognized {
            seq![tokens.last()]
        } else {
            Seq::empty()
        }
    }
}

/// How one fragment advances the extraction value.  An envelope overwrites
/// the advisory fields with its own, decoded permissively; its date, when
/// present, replaces the date text to be normalised.
pub open spec fn ext_step(st: ExtractState, f: FragmentModel) -> ExtractState {
    match f {
        FragmentModel::UniqueId(u) => ExtractState { uid: Some(u), ..st },
        FragmentModel::ChangeVersion(cv) => ExtractState { mod_seq: Some(cv), ..st },
        FragmentModel::InternalOrHeaderDate(s) => ExtractState { date_text: Some(s), ..st },
        FragmentModel::Flags(ts) => ExtractState {
            flags: st.flags + flags_kept(ts),
            unknown_flags: st.unknown_flags + flags_unknown(ts),
            ..st
        },
        FragmentModel::EnvelopeRecord(e) => ExtractState {
            mid: match e.message_id {
                Some(b) => Some(lossy_decode(b)),
                None => None,
            },
            date_text: match e.date {
                Some(b) => Some(lossy_decode(b)),
                None => st.date_text,
            },
            subject: match e.subject {
                Some(b) => Some(lossy_decode(b)),
                None => None,
            },
            sender: match e.sender {
                Some(a) => Some(spec_format_sender(a)),
                None => None,
            },
            ..st
        },
        FragmentModel::RawContent(b) => ExtractState { raw: Some(b), ..st },
    }
}

/// The extraction value of a whole buffer.
pub open spec fn ext_fold(frags: Seq<FragmentModel>) -> ExtractState
    decreases frags.len(),
{
    if frags.len() == 0 {
        ext_init()
    } else {
        ext_step(ext_fold(frags.drop_last()), frags.last())
    }
}

/// What extracting a completed buffer for sequence number `seq` yields: the
/// record and its diagnostics, or the mandatory field the reply never
/// delivered.
pub open spec fn spec_extract(seq: u32, frags: Seq<FragmentModel>) -> Result<
    (MetaModel, NotesModel),
    MissingField,
> {
    let st = ext_fold(frags);
    match (st.uid, st.mod_seq) {
        (None, _) => Err(MissingField::UniqueId),
        (Some(_), None) => Err(MissingField::ChangeVersion),
        (Some(uid), Some(mod_seq)) => {
            let dt = match st.date_text {
                Some(s) => spec_normalize(s),
                None => None,
            };
            Ok(
                (
                    MetaModel {
                        seq,
                        uid,
                        mod_seq,
                        flags: st.flags,
                        mid: st.mid,
                        dt,
                        subject: st.subject,
                        sender: st.sender,
                        raw: st.raw,
                    },
                    NotesModel {
                        unknown_flags: st.unknown_flags,
                        unparsed_date: if dt is None {
                            st.date_text
                        } else {
                            None
                        },
                    },
                ),
            )
        },
    }
}

/// The view of an extraction result.
pub open spec fn view_extracted(r: Result<(MessageMeta, ExtractionNotes), MissingField>) -> Result<
    (MetaModel, NotesModel),
    MissingField,
> {
    match r {
        Ok((m, n)) => Ok((m@, n@)),
        Err(e) => Err(e),
    }
}

/// Extracts the completed record of sequence number `seq` out of its
/// buffered fragments.
fn extract_record(seq: u32, frags: &Vec<AttributeFragment>) -> (r: Result<
    (MessageMeta, ExtractionNotes),
    MissingField,
>)
    ensures
        view_extracted(r) == spec_extract(seq, frags@.map_values(|f: AttributeFragment| f@)),
{
    let ghost fm = frags@.map_values(|f: AttributeFragment| f@);
    let mut uid: Option<u32> = None;
    let mut mod_seq: Option<u64> = None;
    let mut date_text: Option<String> = None;
    let mut flags: Vec<Flag> = Vec::new();
    let mut unknown_flags: Vec<String> = Vec::new();
    let mut mid: Option<String> = None;
    let mut subject: Option<String> = None;
    let mut sender: Option<String> = None;
    let mut raw: Option<Vec<u8>> = None;
    let mut i: usize = 0;
    proof {
        assert(fm.take(0) =~= Seq::<FragmentModel>::empty());
    }
    while i < frags.len()
        invariant
            i <= frags@.len(),
            fm == frags@.map_values(|f: AttributeFragment| f@),
            ({
                let st = ext_fold(fm.take(i as int));
                &&& uid == st.uid
                &&& mod_seq == st.mod_seq
                &&& view_opt_str(date_text) == st.date_text
                &&& flags@ == st.flags
                &&& unknown_flags@.map_values(|s: String| s@) == st.unknown_flags
                &&& view_opt_str(mid) == st.mid
                &&& view_opt_str(subject) == st.subject
                &&& view_opt_str(sender) == st.sender
                &&& view_opt_bytes(raw) == st.raw
            }),
        decreases frags@.len() - i,
    {
        proof {
            assert(fm.take(i + 1).drop_last() =~= fm.take(i as int));
            assert(fm.take(i + 1).last() == fm[i as int]);
            assert(fm[i as int] == frags@[i as int]@);
        }
        match &frags[i] {
            AttributeFragment::UniqueId(u) => {
                uid = Some(*u);
            },
            AttributeFragment::ChangeVersion(cv) => {
                mod_seq = Some(*cv);
            },
            AttributeFragment::InternalOrHeaderDate(s) => {
                date_text = Some(s.clone());
            },
            AttributeFragment::Flags(tokens) => {
                let ghost tv = tokens@.map_values(|t: String| t@);
                let ghost flags0 = flags@;
                let ghost unknown0 = unknown_flags@.map_values(|s: String| s@);
                let mut j: usize = 0;
                proof {
                    assert(tv.take(0) =~= Seq::<Seq<char>>::empty());
                    assert(flags0 + flags_kept(tv.take(0)) =~= flags0);
                    assert(unknown0 + flags_unknown(tv.take(0)) =~= unknown0);
                }
                while j < tokens.len()
                    invariant
                        j <= tokens@.len(),
                        tv == tokens@.map_values(|t: String| t@),
                        flags@ == flags0 + flags_kept(tv.take(j as int)),
                        unknown_flags@.map_values(|s: String| s@) == unknown0 + flags_unknown(
                            tv.take(j as int),
                        ),
                    decreases tokens@.len() - j,
                {
                    proof {
                        assert(tv.take(j + 1).drop_last() =~= tv.take(j as int));
                        assert(tv.take(j + 1).last() == tokens@[j as int]@);
                    }
                    let ghost kept0 = flags@;
                    let ghost unk0 = unknown_flags@.map_values(|s: String| s@);
                    match classify_outcome(tokens[j].as_str()) {
                        FlagOutcome::Recognized(f) => {
                            flags.push(f);
                            proof {
                                assert(kept0.push(f) =~= kept0 + seq![f]);
                                assert(flags_kept(tv.take(j + 1)) =~= flags_kept(
                                    tv.take(j as int),
                                ) + seq![f]);
                                assert(flags0 + (flags_kept(tv.take(j as int)) + seq![f]) =~= (
                                flags0 + flags_kept(tv.take(j as int))) + seq![f]);
                                assert(unk0 + flags_unknown(tv.take(j + 1)) =~= unk0
                                    + flags_unknown(tv.take(j as int)));
                            }
                        },
                        FlagOutcome::Suppressed => {
                            proof {
                                assert(flags_kept(tv.take(j + 1)) =~= flags_kept(tv.take(j as int)));
                                assert(flags_unknown(tv.take(j + 1)) =~= flags_unknown(
                                    tv.take(j as int),
                                ));
                            }
                        },
                        FlagOutcome::Unrecognized => {
                            unknown_flags.push(tokens[j].clone());
                            proof {
                                assert(unknown_flags@.map_values(|s: String| s@) =~= unk0.push(
                                    tokens@[j as int]@,
                                ));
                                assert(unk0.push(tokens@[j as int]@) =~= unk0 + seq![
                                    tokens@[j as int]@,
                                ]);
                                assert(flags_unknown(tv.take(j + 1)) =~= flags_unknown(
                                    tv.take(j as int),
                                ) + seq![tokens@[j as int]@]);
                                assert(unknown0 + (flags_unknown(tv.take(j as int)) + seq![
                                    tokens@[j as int]@,
                                ]) =~= (unknown0 + flags_unknown(tv.take(j as int))) + seq![
                                    tokens@[j as int]@,
                                ]);
                                assert(flags_kept(tv.take(j + 1)) =~= flags_kept(tv.take(j as int)));
                            }
                        },
                    }
                    j += 1;
                }
                proof {
                    assert(tv.take(tokens@.len() as int) =~= tv);
                }
            },
            AttributeFragment::EnvelopeRecord(e) => {
                mid = match &e.message_id {
                    Some(b) => Some(decode_lossy(b.as_slice())),
                    None => None,
                };
                match &e.date {
                    Some(b) => {
                        date_text = Some(decode_lossy(b.as_slice()));
                    },
                    None => {},
                }
                subject = match &e.subject {
                    Some(b) => Some(decode_lossy(b.as_slice())),
                    None => None,
                };
                sender = match &e.sender {
                    Some(a) => Some(format_sender(a)),
                    None => None,
                };
            },
            AttributeFragment::RawContent(b) => {
                let copy = b.clone();
                proof {
                    assert(copy@ =~= b@);
                }
                raw = Some(copy);
            },
        }
        i += 1;
    }
    proof {
        assert(fm.take(frags@.len() as int) =~= fm);
    }
    let uid = match uid {
        Some(u) => u,
        None => {
            return Err(MissingField::UniqueId);
        },
    };
    let mod_seq = match mod_seq {
        Some(cv) => cv,
        None => {
            return Err(MissingField::ChangeVersion);
        },
    };
    let dt = match &date_text {
        Some(s) => fuzzy_datetime_parser(s.as_str()),
        None => None,
    };
    let unparsed_date = match dt {
        Some(_) => None,
        None => date_text,
    };
    Ok(
        (
            MessageMeta { seq, uid, mod_seq, flags, mid, dt, subject, sender, raw },
            ExtractionNotes { unknown_flags, unparsed_date },
        ),
    )
}

/// What one pushed fragment led to.
#[derive(Debug)]
pub enum PushOutcome {
    /// The fragment was buffered; its sequence number is still incomplete.
    Pending,
    /// The fragment completed its sequence number: here is the record, with
    /// the non-fatal diagnostics gathered while extracting it.
    Completed(MessageMeta, ExtractionNotes),
    /// The sequence number completed but the reply never delivered a
    /// mandatory field: fatal to this record, not to the session.
    Malformed(u32, MissingField),
    /// A fragment for a sequence number that already completed — a protocol
    /// anomaly, worth a log line; the fragment is ignored.
    Anomalous(u32),
}

/// The mathematical value of a [`PushOutcome`].
pub enum OutcomeModel {
    Pending,
    Completed(MetaModel, NotesModel),
    Malformed(u32, MissingField),
    Anomalous(u32),
}

impl View for PushOutcome {
    type V = OutcomeModel;

    open spec fn view(&self) -> OutcomeModel {
        match self {
            PushOutcome::Pending => OutcomeModel::Pending,
            PushOutcome::Completed(m, n) => OutcomeModel::Completed(m@, n@),
            PushOutcome::Malformed(s, f) => OutcomeModel::Malformed(*s, *f),
            PushOutcome::Anomalous(s) => OutcomeModel::Anomalous(*s),
        }
    }
}

/// The per-sequence-number accumulator: the count of countable fragments
/// received so far and the buffer of raw fragments.
struct PartialRecord {
    count: u32,
    frags: Vec<AttributeFragment>,
}

/// The mathematical state of a correlator: the configured countable kinds,
/// the buffered fragments of each in-flight sequence number, and the set of
/// sequence numbers already completed and evicted.
pub struct AccModel {
    pub kinds: KindConfig,
    pub parts: Map<u32, Seq<FragmentModel>>,
    pub done: Set<u32>,
}

/// How one fragment for `seq` advances the correlator state, and what it
/// emits:
/// - a number already completed is never revisited: the state is unchanged
///   and the fragment reported anomalous;
/// - otherwise the fragment joins the number's buffer; while fewer
///   countable fragments than the configured total have arrived, nothing
///   is emitted;
/// - the instant the count reaches the total, the buffer is extracted into
///   a completed record (or a malformed-reply report), the number's state
///   is evicted, and the number is marked done.
pub open spec fn spec_step(m: AccModel, seq: u32, f: FragmentModel) -> (AccModel, OutcomeModel) {
    if m.done.contains(seq) {
        (m, OutcomeModel::Anomalous(seq))
    } else {
        let buf = if m.parts.contains_key(seq) {
            m.parts[seq]
        } else {
            Seq::empty()
        };
        let grown = buf.push(f);
        if countable_count(m.kinds, grown) < m.kinds.spec_total() {
            (AccModel { parts: m.parts.insert(seq, grown), ..m }, OutcomeModel::Pending)
        } else {
            let out = match spec_extract(seq, grown) {
                Ok((meta, notes)) => OutcomeModel::Completed(meta, notes),
                Err(mf) => OutcomeModel::Malformed(seq, mf),
            };
            (
                AccModel { parts: m.parts.remove(seq), done: m.done.insert(seq), ..m },
                out,
            )
        }
    }
}

/// Consumes the fragment stream of one session and assembles completed
/// records, one per sequence number.  Owned by one session: created at
/// session start, discarded — with any incomplete buffers — at session end.
pub struct ResponseAccumulator {
    kinds: KindConfig,
    parts: HashMap<u32, PartialRecord>,
    done: HashSet<u32>,
}

impl View for ResponseAccumulator {
    type V = AccModel;

    closed spec fn view(&self) -> AccModel {
        AccModel {
            kinds: self.kinds,
            parts: self.parts@.map_values(
                |p: PartialRecord| p.frags@.map_values(|f: AttributeFragment| f@),
            ),
            done: self.done@,
        }
    }
}

impl ResponseAccumulator {
    /// The correlator's internal well-formedness: at least one countable
    /// kind is configured, each buffered number is still short of the
    /// total and not yet done, and each buffer's count is the count of its
    /// countable fragments.
    pub closed spec fn inv(self) -> bool {
        &&& self.kinds.spec_total() >= 1
        &&& forall|n: u32| #[trigger]
            self.parts@.contains_key(n) ==> {
                let frags = self.parts@[n].frags@.map_values(|f: AttributeFragment| f@);
                &&& self.parts@[n].count == countable_count(self.kinds, frags)
                &&& countable_count(self.kinds, frags) < self.kinds.spec_total()
                &&& !self.done@.contains(n)
            }
    }

    /// An accumulator for the given countable kinds, with nothing buffered
    /// and nothing done.
    pub fn with_kinds(kinds: KindConfig) -> (r: ResponseAccumulator)
        requires
            kinds.spec_total() >= 1,
        ensures
            r.inv(),
            r@ == (AccModel { kinds, parts: Map::<u32, Seq<FragmentModel>>::empty(), done: Set::<
                u32,
            >::empty() }),
    {
        let r = ResponseAccumulator { kinds, parts: HashMap::new(), done: HashSet::new() };
        proof {
            assert(r@.parts =~= Map::<u32, Seq<FragmentModel>>::empty());
        }
        r
    }

    /// An accumulator for the full metadata-and-content session.
    pub fn new() -> (r: ResponseAccumulator)
        ensures
            r.inv(),
            r@ == (AccModel {
                kinds: KindConfig {
                    unique_id: true,
                    change_version: true,
                    date: true,
                    flags: true,
                    envelope: false,
                    raw: true,
                },
                parts: Map::<u32, Seq<FragmentModel>>::empty(),
                done: Set::<u32>::empty(),
            }),
    {
        Self::with_kinds(KindConfig::full_fetch())
    }

    /// Feeds one fragment for sequence number `seq` through the
    /// correlator.  The state advances and the outcome is emitted exactly
    /// as [`spec_step`] says.
    pub fn push(self, seq: u32, frag: AttributeFragment) -> (r: (ResponseAccumulator, PushOutcome))
        requires
            self.inv(),
        ensures
            r.0.inv(),
            (r.0@, r.1@) == spec_step(self@, seq, frag@),
    {
        let ghost m0 = self@;
        let mut acc = self;
        if acc.done.contains(&seq) {
            return (acc, PushOutcome::Anomalous(seq));
        }
        let ghost parts0 = acc.parts@;
        let ghost fragv = frag@;
        let mut entry: PartialRecord = match acc.parts.remove(&seq) {
            Some(p) => p,
            None => PartialRecord { count: 0, frags: Vec::new() },
        };
        let ghost buf = if m0.parts.contains_key(seq) {
            m0.parts[seq]
        } else {
            Seq::<FragmentModel>::empty()
        };
        proof {
            if parts0.contains_key(seq) {
                assert(m0.parts[seq] == parts0[seq].frags@.map_values(|f: AttributeFragment| f@));
            }
            assert(entry.frags@.map_values(|f: AttributeFragment| f@) =~= buf);
            assert(entry.count == countable_count(m0.kinds, buf));
        }
        let is_countable = acc.kinds.countable(&frag);
        entry.frags.push(frag);
        if is_countable {
            entry.count += 1;
        }
        let ghost grown = entry.frags@.map_values(|f: AttributeFragment| f@);
        proof {
            assert(grown =~= buf.push(fragv));
            assert(grown.drop_last() =~= buf);
            assert(grown.last() == fragv);
            assert(countable_count(m0.kinds, grown) == countable_count(m0.kinds, buf) + count_one(
                m0.kinds.spec_countable(fragv),
            ));
            assert(entry.count == countable_count(m0.kinds, grown));
        }
        let total = acc.kinds.total();
        if entry.count < total {
            acc.parts.insert(seq, entry);
            proof {
                assert(acc@.parts =~= m0.parts.insert(seq, grown));
                assert(acc@ == spec_step(m0, seq, grown.last()).0);
            }
            (acc, PushOutcome::Pending)
        } else {
            acc.done.insert(seq);
            let out = match extract_record(seq, &entry.frags) {
                Ok((m, notes)) => PushOutcome::Completed(m, notes),
                Err(mf) => PushOutcome::Malformed(seq, mf),
            };
            proof {
                assert(acc@.parts =~= m0.parts.remove(seq));
                assert(acc@.done =~= m0.done.insert(seq));
                assert(acc@ == spec_step(m0, seq, grown.last()).0);
            }
            (acc, out)
        }
    }
}

/// The correlator state at session start: nothing buffered, nothing done.
pub open spec fn initial(kinds: KindConfig) -> AccModel {
    AccModel { kinds, parts: Map::empty(), done: Set::empty() }
}

/// A whole event stream fed through [`spec_step`], each event's outcome
/// collected beside its sequence number.
pub open spec fn spec_run(m: AccModel, evs: Seq<(u32, FragmentModel)>) -> (
    AccModel,
    Seq<(u32, OutcomeModel)>,
)
    decreases evs.len(),
{
    if evs.len() == 0 {
        (m, Seq::empty())
    } else {
        let prior = spec_run(m, evs.drop_last());
        let e = evs.last();
        let stepped = spec_step(prior.0, e.0, e.1);
        (stepped.0, prior.1.push((e.0, stepped.1)))
    }
}

/// The fragments of the stream that belong to sequence number `n`, in
/// arrival order.
pub open spec fn own_frags(evs: Seq<(u32, FragmentModel)>, n: u32) -> Seq<FragmentModel>
    decreases evs.len(),
{
    if evs.len() == 0 {
        Seq::empty()
    } else if evs.last().0 == n {
        own_frags(evs.drop_last(), n).push(evs.last().1)
    } else {
        own_frags(evs.drop_last(), n)
    }
}

/// Whether an outcome completes its sequence number — a record, or a
/// malformed-reply report.
pub open spec fn is_completion(o: OutcomeModel) -> bool {
    o is Completed || o is Malformed
}

/// How many outcomes of the run complete sequence number `n`.
pub open spec fn completions_for(outs: Seq<(u32, OutcomeModel)>, n: u32) -> nat
    decreases outs.len(),
{
    if outs.len() == 0 {
        0
    } else {
        completions_for(outs.drop_last(), n) + if outs.last().0 == n && is_completion(
            outs.last().1,
        ) {
            1nat
        } else {
            0nat
        }
    }
}

/// The shortest prefix of `frags` holding `need` countable fragments, or
/// all of `frags` when they never amount to that many.
pub open spec fn prefix_upto(k: KindConfig, frags: Seq<FragmentModel>, need: nat) -> Seq<
    FragmentModel,
>
    decreases frags.len(),
{
    if need == 0 {
        Seq::empty()
    } else if frags.len() == 0 {
        frags
    } else {
        seq![frags.first()] + prefix_upto(
            k,
            frags.drop_first(),
            (need - count_one(k.spec_countable(frags.first()))) as nat,
        )
    }
}

/// The completion emitted for sequence number `n` out of the buffer
/// `frags`.
pub open spec fn completion_outcome(n: u32, frags: Seq<FragmentModel>) -> OutcomeModel {
    match spec_extract(n, frags) {
        Ok((meta, notes)) => OutcomeModel::Completed(meta, notes),
        Err(mf) => OutcomeModel::Malformed(n, mf),
    }
}

proof fn lemma_countable_count_front(k: KindConfig, s: Seq<FragmentModel>)
    requires
        s.len() > 0,
    ensures
        countable_count(k, s) == count_one(k.spec_countable(s.first())) + countable_count(
            k,
            s.drop_first(),
        ),
    decreases s.len(),
{
    if s.len() == 1 {
        assert(s.drop_last() =~= Seq::<FragmentModel>::empty());
        assert(s.drop_first() =~= Seq::<FragmentModel>::empty());
        assert(s.last() == s.first());
    } else {
        let dl = s.drop_last();
        lemma_countable_count_front(k, dl);
        assert(dl.first() == s.first());
        assert(s.drop_first().drop_last() =~= dl.drop_first());
        assert(s.drop_first().last() == s.last());
        assert(s.drop_first().len() > 0);
    }
}

proof fn lemma_prefix_upto_short(k: KindConfig, s: Seq<FragmentModel>, need: nat)
    requires
        countable_count(k, s) < need,
    ensures
        prefix_upto(k, s, need) == s,
    decreases s.len(),
{
    reveal_with_fuel(prefix_upto, 3);
    if s.len() == 0 {
    } else {
        lemma_countable_count_front(k, s);
        let c = count_one(k.spec_countable(s.first()));
        lemma_prefix_upto_short(k, s.drop_first(), (need - c) as nat);
        assert(seq![s.first()] + s.drop_first() =~= s);
    }
}

proof fn lemma_prefix_upto_exact(k: KindConfig, s: Seq<FragmentModel>, f: FragmentModel, need: nat)
    requires
        need >= 1,
        countable_count(k, s) == need - 1,
        k.spec_countable(f),
    ensures
        prefix_upto(k, s.push(f), need) == s.push(f),
    decreases s.len(),
{
    reveal_with_fuel(prefix_upto, 3);
    if s.len() == 0 {
        assert(s.push(f).drop_first() =~= Seq::<FragmentModel>::empty());
        assert(seq![s.push(f).first()] + Seq::<FragmentModel>::empty() =~= s.push(f));
    } else {
        lemma_countable_count_front(k, s);
        let c = count_one(k.spec_countable(s.first()));
        assert(s.push(f).first() == s.first());
        assert(s.push(f).drop_first() =~= s.drop_first().push(f));
        lemma_prefix_upto_exact(k, s.drop_first(), f, (need - c) as nat);
        assert(seq![s.first()] + s.drop_first().push(f) =~= s.push(f));
    }
}

proof fn lemma_prefix_upto_push_complete(k: KindConfig, s: Seq<FragmentModel>, f: FragmentModel, need: nat)
    requires
        countable_count(k, s) >= need,
    ensures
        prefix_upto(k, s.push(f), need) == prefix_upto(k, s, need),
    decreases s.len(),
{
    if need == 0 {
    } else if s.len() == 0 {
        assert(false);
    } else {
        lemma_countable_count_front(k, s);
        let c = count_one(k.spec_countable(s.first()));
        assert(s.push(f).first() == s.first());
        assert(s.push(f).drop_first() =~= s.drop_first().push(f));
        lemma_prefix_upto_push_complete(k, s.drop_first(), f, (need - c) as nat);
    }
}

proof fn lemma_no_completion_at(outs: Seq<(u32, OutcomeModel)>, n: u32, i: int)
    requires
        completions_for(outs, n) == 0,
        0 <= i < outs.len(),
        outs[i].0 == n,
    ensures
        !is_completion(outs[i].1),
    decreases outs.len(),
{
    if i == outs.len() - 1 {
    } else {
        assert(outs.drop_last()[i] == outs[i]);
        lemma_no_completion_at(outs.drop_last(), n, i);
    }
}

proof fn lemma_run_invariant(kinds: KindConfig, evs: Seq<(u32, FragmentModel)>)
    requires
        kinds.spec_total() >= 1,
    ensures
        ({
            let m = spec_run(initial(kinds), evs).0;
            let outs = spec_run(initial(kinds), evs).1;
            &&& m.kinds == kinds
            &&& outs.len() == evs.len()
            &&& forall|n: u32|
                #![trigger own_frags(evs, n)]
                {
                    let own = own_frags(evs, n);
                    &&& (countable_count(kinds, own) >= kinds.spec_total() ==> m.done.contains(n)
                        && !m.parts.contains_key(n) && completions_for(outs, n) == 1)
                    &&& (countable_count(kinds, own) < kinds.spec_total() ==> !m.done.contains(n)
                        && completions_for(outs, n) == 0 && (m.parts.contains_key(n) <==> own.len()
                        > 0) && (m.parts.contains_key(n) ==> m.parts[n] == own))
                }
            &&& forall|i: int|
                #![trigger outs[i]]
                0 <= i < outs.len() ==> outs[i].0 == evs[i].0 && (is_completion(outs[i].1)
                    ==> outs[i].1 == completion_outcome(
                    evs[i].0,
                    prefix_upto(kinds, own_frags(evs, evs[i].0), kinds.spec_total()),
                ))
        }),
    decreases evs.len(),
{
    let k = kinds.spec_total();
    if evs.len() == 0 {
        assert forall|n: u32| #![trigger own_frags(evs, n)] countable_count(kinds, own_frags(evs, n))
            < k implies !spec_run(initial(kinds), evs).0.done.contains(n) && completions_for(
            spec_run(initial(kinds), evs).1,
            n,
        ) == 0 && (spec_run(initial(kinds), evs).0.parts.contains_key(n) <==> own_frags(
            evs,
            n,
        ).len() > 0) && (spec_run(initial(kinds), evs).0.parts.contains_key(n) ==> spec_run(
            initial(kinds),
            evs,
        ).0.parts[n] == own_frags(evs, n)) by {
            assert(!Set::<u32>::empty().contains(n));
            assert(!Map::<u32, Seq<FragmentModel>>::empty().contains_key(n));
        }
    } else {
        let evs0 = evs.drop_last();
        lemma_run_invariant(kinds, evs0);
        let e = evs.last();
        let s = e.0;
        let f = e.1;
        let m1 = spec_run(initial(kinds), evs0).0;
        let outs0 = spec_run(initial(kinds), evs0).1;
        let m2 = spec_step(m1, s, f).0;
        let o = spec_step(m1, s, f).1;
        let outs = spec_run(initial(kinds), evs).1;
        assert(spec_run(initial(kinds), evs).0 == m2);
        assert(outs == outs0.push((s, o)));
        assert(outs.drop_last() =~= outs0);
        let own0s = own_frags(evs0, s);
        let owns = own_frags(evs, s);
        assert(owns == own0s.push(f));
        // the buffer that the step sees for s is exactly s's own fragments so far
        let buf = if m1.parts.contains_key(s) {
            m1.parts[s]
        } else {
            Seq::<FragmentModel>::empty()
        };
        if !m1.done.contains(s) {
            assert(countable_count(kinds, own0s) < k);
            assert(buf =~= own0s);
        }
        // per-number clause
        assert forall|n: u32|
            #![trigger own_frags(evs, n)]
            {
                let own = own_frags(evs, n);
                &&& (countable_count(kinds, own) >= k ==> m2.done.contains(n)
                    && !m2.parts.contains_key(n) && completions_for(outs, n) == 1)
                &&& (countable_count(kinds, own) < k ==> !m2.done.contains(n)
                    && completions_for(outs, n) == 0 && (m2.parts.contains_key(n) <==> own.len()
                    > 0) && (m2.parts.contains_key(n) ==> m2.parts[n] == own))
            } by {
            let own = own_frags(evs, n);
            let own0 = own_frags(evs0, n);
            if n != s {
                assert(own == own0);
                assert(completions_for(outs, n) == completions_for(outs0, n));
            } else {
                assert(own == own0s.push(f));
                assert(own.drop_last() =~= own0s);
                assert(own.last() == f);
                assert(countable_count(kinds, own) == countable_count(kinds, own0s) + count_one(
                    kinds.spec_countable(f),
                ));
                if m1.done.contains(s) {
                    assert(countable_count(kinds, own0s) >= k);
                    assert(countable_count(kinds, own) >= k);
                    assert(o == OutcomeModel::Anomalous(s));
                    assert(outs.last() == (s, o));
                    assert(!is_completion(o));
                    assert(outs.len() > 0);
                    assert(completions_for(outs, s) == completions_for(outs.drop_last(), s)
                        + if outs.last().0 == s && is_completion(outs.last().1) {
                        1nat
                    } else {
                        0nat
                    });
                    assert(outs.drop_last() == outs0);
                    assert(completions_for(outs, s) == completions_for(outs0, s));
                } else {
                    let grown = buf.push(f);
                    assert(grown == own);
                    if countable_count(kinds, grown) < k {
                        assert(o is Pending);
                        assert(completions_for(outs, s) == completions_for(outs0, s));
                        assert(m2.parts.contains_key(s));
                        assert(m2.parts[s] == own);
                    } else {
                        assert(is_completion(o));
                        assert(completions_for(outs, s) == completions_for(outs0, s) + 1);
                        assert(m2.done.contains(s));
                        assert(!m2.parts.contains_key(s));
                    }
                }
            }
        }
        // per-index clause
        assert forall|i: int|
            #![trigger outs[i]]
            0 <= i < outs.len() implies outs[i].0 == evs[i].0 && (is_completion(outs[i].1)
            ==> outs[i].1 == completion_outcome(
            evs[i].0,
            prefix_upto(kinds, own_frags(evs, evs[i].0), k),
        )) by {
            if i < outs.len() - 1 {
                assert(outs[i] == outs0[i]);
                assert(evs0[i] == evs[i]);
                let q = evs[i].0;
                let ownq0 = own_frags(evs0, q);
                let ownq = own_frags(evs, q);
                if is_completion(outs[i].1) {
                    if q == s {
                        assert(ownq == own0s.push(f));
                        if countable_count(kinds, own0s) >= k {
                            lemma_prefix_upto_push_complete(kinds, own0s, f, k);
                        } else {
                            assert(completions_for(outs0, s) == 0);
                            lemma_no_completion_at(outs0, s, i);
                            assert(false);
                        }
                    } else {
                        assert(ownq == ownq0);
                    }
                }
            } else {
                assert(outs[i] == (s, o));
                assert(evs[i] == e);
                if is_completion(o) {
                    assert(!m1.done.contains(s));
                    let grown = buf.push(f);
                    assert(countable_count(kinds, grown) >= k);
                    assert(o == completion_outcome(s, grown));
                    assert(countable_count(kinds, own0s) < k);
                    assert(grown.drop_last() =~= buf);
                    assert(countable_count(kinds, grown) == countable_count(kinds, own0s)
                        + count_one(kinds.spec_countable(f)));
                    assert(kinds.spec_countable(f));
                    assert(countable_count(kinds, own0s) == k - 1);
                    lemma_prefix_upto_exact(kinds, own0s, f, k);
                    assert(grown == owns);
                }
            }
        }
    }
}

/// For any interleaving whatever, a sequence number whose fragments amount
/// to at least the configured total of countable fragments is completed
/// exactly once, and what it emits is computed from that number's own
/// fragments alone: the shortest prefix of them holding the configured
/// total.  When that buffer extracts cleanly the emission is the completed
/// record; when the reply never delivered a mandatory field it is the
/// malformed-reply report — either way, exactly one emission, independent
/// of how other numbers' fragments interleave.
pub proof fn lemma_complete_number_emits_once(
    kinds: KindConfig,
    evs: Seq<(u32, FragmentModel)>,
    n: u32,
)
    requires
        kinds.spec_total() >= 1,
        countable_count(kinds, own_frags(evs, n)) >= kinds.spec_total(),
    ensures
        completions_for(spec_run(initial(kinds), evs).1, n) == 1,
        forall|i: int|
            #![trigger spec_run(initial(kinds), evs).1[i]]
            0 <= i < spec_run(initial(kinds), evs).1.len() && spec_run(initial(kinds), evs).1[i].0
                == n && is_completion(spec_run(initial(kinds), evs).1[i].1) ==> spec_run(
                initial(kinds),
                evs,
            ).1[i].1 == completion_outcome(
                n,
                prefix_upto(kinds, own_frags(evs, n), kinds.spec_total()),
            ),
{
    lemma_run_invariant(kinds, evs);
    let outs = spec_run(initial(kinds), evs).1;
    assert forall|i: int|
        #![trigger outs[i]]
        0 <= i < outs.len() && outs[i].0 == n && is_completion(outs[i].1) implies outs[i].1
        == completion_outcome(n, prefix_upto(kinds, own_frags(evs, n), kinds.spec_total())) by {
        assert(outs[i].0 == evs[i].0);
    }
}

/// A sequence number whose fragments never amount to the configured total
/// of countable fragments before session end yields no emission at all:
/// its buffered state is simply discarded with the session.
pub proof fn lemma_incomplete_number_never_emits(
    kinds: KindConfig,
    evs: Seq<(u32, FragmentModel)>,
    n: u32,
)
    requires
        kinds.spec_total() >= 1,
        countable_count(kinds, own_frags(evs, n)) < kinds.spec_total(),
    ensures
        completions_for(spec_run(initial(kinds), evs).1, n) == 0,
{
    lemma_run_invariant(kinds, evs);
}

} // verus!
