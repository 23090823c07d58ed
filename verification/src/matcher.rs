//! The cross-store matcher.
//!
//! Rows imported into the durable store from an archival source initially
//! lack the stable identifier and change version that a retrieval session
//! delivers.  Given one such row and the completed records of a session,
//! the matcher decides which record — if any — the row corresponds to, so
//! the identifier can be backfilled exactly once per row.
//!
//! Matching proceeds in strict priority order and stops at the first rule
//! that yields a decision: an exact message-id match first (never for the
//! synthetic ids of ephemeral chat messages), then a composite fallback on
//! normalised date, subject and sender address.  Zero surviving candidates
//! report the row unmatched; candidates that agree on identifier and
//! change version match; genuinely distinct candidates are ambiguous and
//! the matcher refuses to guess.

use vstd::prelude::*;
use crate::meta::{MessageMeta, MetaModel};
use crate::text::{
    chars_of,
    ends_with,
    ends_with_spec,
    find_char,
    index_of_char,
    string_of,
    sub_vec,
    trim,
    trim_spec,
    vec_chars_eq,
    view_opt_str,
};
use crate::timestamp::Timestamp;

verus! {

/// Subjects longer than this arrive truncated from the remote side; a
/// subject of exactly this length is compared as a prefix.
pub const SUBJECT_TRUNCATION_LIMIT: usize = 998;

/// A row of the durable store that still lacks its stable key.
#[derive(Clone, Debug)]
pub struct PersistedRow {
    pub id: i64,
    pub unid: Option<u32>,
    pub mod_seq: Option<u64>,
    pub mid: Option<String>,
    pub subject: Option<String>,
    pub sender: Option<String>,
    pub dt: Option<Timestamp>,
}

/// The mathematical value of a [`PersistedRow`].
pub struct RowModel {
    pub id: i64,
    pub unid: Option<u32>,
    pub mod_seq: Option<u64>,
    pub mid: Option<Seq<char>>,
    pub subject: Option<Seq<char>>,
    pub sender: Option<Seq<char>>,
    pub dt: Option<Timestamp>,
}

impl View for PersistedRow {
    type V = RowModel;

    open spec fn view(&self) -> RowModel {
        RowModel {
            id: self.id,
            unid: self.unid,
            mod_seq: self.mod_seq,
            mid: view_opt_str(self.mid),
            subject: view_opt_str(self.subject),
            sender: view_opt_str(self.sender),
            dt: self.dt,
        }
    }
}

/// What the matcher decided for one row.
#[derive(Clone, Copy, Debug, PartialEq, Eq, Structural)]
pub enum MatchDecision {
    /// Exactly one candidate key survived: write this identifier and
    /// change version into the row.
    Matched(u32, u64),
    /// No candidate survived; the row stays as it is.
    Unmatched,
    /// Several genuinely distinct candidates survived; the matcher never
    /// guesses, the row stays as it is.
    Ambiguous,
}

/// Whether a sender string is one of the two forms the matcher reads: an
/// angle-bracket-delimited address, or a bare address.
pub open spec fn spec_sender_wf(s: Seq<char>) -> bool {
    match index_of_char(s, '<') {
        Some(i) => index_of_char(s.skip(i + 1), '>') is Some,
        None => true,
    }
}

/// The mailbox address inside a sender string: the text between the first
/// angle bracket pair, or the whole string trimmed when no bracket opens.
pub open spec fn spec_sender_address(s: Seq<char>) -> Seq<char> {
    match index_of_char(s, '<') {
        None => trim_spec(s),
        Some(i) => {
            let rest = s.skip(i + 1);
            match index_of_char(rest, '>') {
                Some(j) => rest.take(j),
                None => rest,
            }
        },
    }
}

/// Extracts the mailbox address from an angle-bracket-delimited or bare
/// sender string.
pub fn sender_address(s: &str) -> (r: String)
    requires
        spec_sender_wf(s@),
    ensures
        r@ == spec_sender_address(s@),
{
    let cs = chars_of(s);
    match find_char(&cs, '<') {
        None => {
            let t = trim(&cs);
            string_of(&t)
        },
        Some(i) => {
            let rest = sub_vec(&cs, i + 1, cs.len());
            proof {
                assert(rest@ =~= cs@.skip(i + 1));
            }
            match find_char(&rest, '>') {
                Some(j) => {
                    let addr = sub_vec(&rest, 0, j);
                    proof {
                        assert(addr@ =~= rest@.take(j as int));
                    }
                    string_of(&addr)
                },
                None => string_of(&rest),
            }
        },
    }
}

/// Whether a synthetic message-id of an ephemeral chat message ends the
/// string; such ids are never used for matching.
pub open spec fn spec_chat_mid(s: Seq<char>) -> bool {
    ends_with_spec(s, "chat@gmail.com>"@)
}

/// Subject equality under the truncation rule: a subject of exactly the
/// truncation limit equals any subject it is a prefix of; otherwise
/// subjects compare exactly, and an absent subject only equals an absent
/// one.
pub open spec fn spec_subjects_match(a: Option<Seq<char>>, b: Option<Seq<char>>) -> bool {
    match (a, b) {
        (Some(x), Some(y)) => if x.len() == SUBJECT_TRUNCATION_LIMIT {
            y.len() >= SUBJECT_TRUNCATION_LIMIT && x == y.take(SUBJECT_TRUNCATION_LIMIT as int)
        } else {
            x == y
        },
        (None, None) => true,
        _ => false,
    }
}

/// Sender equality by extracted mailbox address; an absent sender only
/// equals an absent one.
pub open spec fn spec_senders_match(a: Option<Seq<char>>, b: Option<Seq<char>>) -> bool {
    match (a, b) {
        (Some(x), Some(y)) => spec_sender_address(x) == spec_sender_address(y),
        (None, None) => true,
        _ => false,
    }
}

/// Date equality as a join key: both present and naming the same instant.
pub open spec fn spec_dates_match(a: Option<Timestamp>, b: Option<Timestamp>) -> bool {
    match (a, b) {
        (Some(x), Some(y)) => x.spec_same_instant(y),
        _ => false,
    }
}

/// Whether the record's message-id exactly equals the row's.
pub open spec fn spec_mid_match(rec: MetaModel, row: RowModel) -> bool {
    match (rec.mid, row.mid) {
        (Some(a), Some(b)) => a == b,
        _ => false,
    }
}

/// Whether the record survives the composite fallback against the row:
/// equal normalised date, subject under the truncation rule, and sender
/// mailbox address.
pub open spec fn spec_composite_match(rec: MetaModel, row: RowModel) -> bool {
    &&& spec_dates_match(rec.dt, row.dt)
    &&& spec_subjects_match(rec.subject, row.subject)
    &&& spec_senders_match(rec.sender, row.sender)
}

/// The candidate keys — identifier and change version — of the records
/// whose message-id equals the row's, in order.
pub open spec fn mid_keys(recs: Seq<MetaModel>, row: RowModel) -> Seq<(u32, u64)>
    decreases recs.len(),
{
    if recs.len() == 0 {
        Seq::empty()
    } else {
        let p = mid_keys(recs.drop_last(), row);
        if spec_mid_match(recs.last(), row) {
            p.push((recs.last().uid, recs.last().mod_seq))
        } else {
            p
        }
    }
}

/// The candidate keys of the records surviving the composite fallback, in
/// order.
pub open spec fn composite_keys(recs: Seq<MetaModel>, row: RowModel) -> Seq<(u32, u64)>
    decreases recs.len(),
{
    if recs.len() == 0 {
        Seq::empty()
    } else {
        let p = composite_keys(recs.drop_last(), row);
        if spec_composite_match(recs.last(), row) {
            p.push((recs.last().uid, recs.last().mod_seq))
        } else {
            p
        }
    }
}

/// Whether every surviving candidate names the same identifier and change
/// version: candidates differing only in advisory fields — a truncated
/// subject, say — count as one.
pub open spec fn uniform_keys(ks: Seq<(u32, u64)>) -> bool {
    forall|i: int, j: int| 0 <= i < ks.len() && 0 <= j < ks.len() ==> ks[i] == ks[j]
}

/// The decision over a set of candidate keys: none — unmatched; all one
/// key — matched; genuinely distinct keys — ambiguous, never a guess.
pub open spec fn spec_keys_decision(ks: Seq<(u32, u64)>) -> MatchDecision {
    if ks.len() == 0 {
        MatchDecision::Unmatched
    } else if uniform_keys(ks) {
        MatchDecision::Matched(ks[0].0, ks[0].1)
    } else {
        MatchDecision::Ambiguous
    }
}

/// The matcher's decision for one row against the session's records:
/// message-id exact match decides when it names one key; when the id is
/// absent, synthetic, unknown or ambiguous, the composite fallback on
/// date, subject and sender decides.
pub open spec fn spec_decide(row: RowModel, recs: Seq<MetaModel>) -> MatchDecision {
    let k1 = mid_keys(recs, row);
    if (match row.mid {
        Some(m) => !spec_chat_mid(m),
        None => false,
    }) && k1.len() > 0 && uniform_keys(k1) {
        MatchDecision::Matched(k1[0].0, k1[0].1)
    } else {
        spec_keys_decision(composite_keys(recs, row))
    }
}

/// Whether a possibly absent sender string is well-formed for address
/// extraction.
pub open spec fn spec_sender_ok(o: Option<Seq<char>>) -> bool {
    match o {
        Some(s) => spec_sender_wf(s),
        None => true,
    }
}

fn subjects_match(a: &Option<String>, b: &Option<String>) -> (r: bool)
    ensures
        r == spec_subjects_match(view_opt_str(*a), view_opt_str(*b)),
{
    match (a, b) {
        (Some(x), Some(y)) => {
            let xc = chars_of(x.as_str());
            let yc = chars_of(y.as_str());
            if xc.len() == SUBJECT_TRUNCATION_LIMIT {
                if yc.len() >= SUBJECT_TRUNCATION_LIMIT {
                    let yp = sub_vec(&yc, 0, SUBJECT_TRUNCATION_LIMIT);
                    proof {
                        assert(yp@ =~= yc@.take(SUBJECT_TRUNCATION_LIMIT as int));
                    }
                    vec_chars_eq(&xc, &yp)
                } else {
                    false
                }
            } else {
                vec_chars_eq(&xc, &yc)
            }
        },
        (None, None) => true,
        _ => false,
    }
}

fn senders_match(a: &Option<String>, b: &Option<String>) -> (r: bool)
    requires
        spec_sender_ok(view_opt_str(*a)),
        spec_sender_ok(view_opt_str(*b)),
    ensures
        r == spec_senders_match(view_opt_str(*a), view_opt_str(*b)),
{
    match (a, b) {
        (Some(x), Some(y)) => {
            let xa = sender_address(x.as_str());
            let ya = sender_address(y.as_str());
            let xc = chars_of(xa.as_str());
            let yc = chars_of(ya.as_str());
            vec_chars_eq(&xc, &yc)
        },
        (None, None) => true,
        _ => false,
    }
}

fn dates_match(a: &Option<Timestamp>, b: &Option<Timestamp>) -> (r: bool)
    ensures
        r == spec_dates_match(*a, *b),
{
    match (a, b) {
        (Some(x), Some(y)) => x.same_instant(y),
        _ => false,
    }
}

fn mid_match(rec: &MessageMeta, row: &PersistedRow) -> (r: bool)
    ensures
        r == spec_mid_match(rec@, row@),
{
    match (&rec.mid, &row.mid) {
        (Some(a), Some(b)) => crate::text::str_eq(a.as_str(), b.as_str()),
        _ => false,
    }
}

fn keys_decision(ks: &Vec<(u32, u64)>) -> (r: MatchDecision)
    ensures
        r == spec_keys_decision(ks@),
{
    if ks.len() == 0 {
        return MatchDecision::Unmatched;
    }
    let first = ks[0];
    let mut i: usize = 1;
    while i < ks.len()
        invariant
            1 <= i <= ks@.len(),
            first == ks@[0],
            forall|j: int| 0 <= j < i ==> (#[trigger] ks@[j]) == ks@[0],
        decreases ks@.len() - i,
    {
        if ks[i].0 != first.0 || ks[i].1 != first.1 {
            proof {
                assert(!uniform_keys(ks@));
            }
            return MatchDecision::Ambiguous;
        }
        proof {
            assert((ks@[i as int].0, ks@[i as int].1) == ks@[i as int]);
        }
        i += 1;
    }
    proof {
        assert(uniform_keys(ks@));
    }
    MatchDecision::Matched(first.0, first.1)
}

/// Decides which record, if any, the row corresponds to.  The decision is
/// exactly [`spec_decide`]: message-id first, composite fallback second,
/// and never a guess among genuinely distinct candidates.
pub fn decide_row(row: &PersistedRow, records: &Vec<MessageMeta>) -> (r: MatchDecision)
    requires
        spec_sender_ok(row@.sender),
        forall|i: int| 0 <= i < records@.len() ==> spec_sender_ok((#[trigger] records@[i])@.sender),
    ensures
        r == spec_decide(row@, records@.map_values(|m: MessageMeta| m@)),
{
    let ghost recs = records@.map_values(|m: MessageMeta| m@);
    let rule1 = match &row.mid {
        Some(m) => {
            let mc = chars_of(m.as_str());
            let suffix = chars_of("chat@gmail.com>");
            !ends_with(&mc, &suffix)
        },
        None => false,
    };
    if rule1 {
        let mut keys: Vec<(u32, u64)> = Vec::new();
        let mut i: usize = 0;
        proof {
            assert(recs.take(0) =~= Seq::<MetaModel>::empty());
        }
        while i < records.len()
            invariant
                i <= records@.len(),
                recs == records@.map_values(|m: MessageMeta| m@),
                keys@ == mid_keys(recs.take(i as int), row@),
            decreases records@.len() - i,
        {
            proof {
                assert(recs.take(i + 1).drop_last() =~= recs.take(i as int));
                assert(recs.take(i + 1).last() == records@[i as int]@);
            }
            if mid_match(&records[i], row) {
                keys.push((records[i].uid, records[i].mod_seq));
            }
            i += 1;
        }
        proof {
            assert(recs.take(records@.len() as int) =~= recs);
        }
        if keys.len() > 0 {
            let d = keys_decision(&keys);
            if let MatchDecision::Matched(u, cv) = d {
                return MatchDecision::Matched(u, cv);
            }
        }
    }
    let mut keys: Vec<(u32, u64)> = Vec::new();
    let mut i: usize = 0;
    proof {
        assert(recs.take(0) =~= Seq::<MetaModel>::empty());
    }
    while i < records.len()
        invariant
            i <= records@.len(),
            recs == records@.map_values(|m: MessageMeta| m@),
            keys@ == composite_keys(recs.take(i as int), row@),
            spec_sender_ok(row@.sender),
            forall|j: int| 0 <= j < records@.len() ==> spec_sender_ok(
                (#[trigger] records@[j])@.sender,
            ),
        decreases records@.len() - i,
    {
        proof {
            assert(recs.take(i + 1).drop_last() =~= recs.take(i as int));
            assert(recs.take(i + 1).last() == records@[i as int]@);
        }
        let rec = &records[i];
        if dates_match(&rec.dt, &row.dt) && subjects_match(&rec.subject, &row.subject)
            && senders_match(&rec.sender, &row.sender) {
            keys.push((rec.uid, rec.mod_seq));
        }
        i += 1;
    }
    proof {
        assert(recs.take(records@.len() as int) =~= recs);
    }
    keys_decision(&keys)
}

/// Writes the matched identifier and change version into a row that still
/// lacks them: the backfill that happens exactly once per row.
pub fn apply_match(row: &mut PersistedRow, uid: u32, mod_seq: u64)
    requires
        old(row)@.unid is None,
    ensures
        final(row)@ == (RowModel { unid: Some(uid), mod_seq: Some(mod_seq), ..old(row)@ }),
{
    row.unid = Some(uid);
    row.mod_seq = Some(mod_seq);
}

} // verus!
