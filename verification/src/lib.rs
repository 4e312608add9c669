//! Dialect inference for delimiter-separated byte streams.
//!
//! Every plausible dialect is a concrete state machine run in parallel over
//! the input; machines whose structural invariants fail are evicted, the
//! survivors are ranked, and the winning dialect drives a second pass that
//! rewrites the stream as ASCII-separated values (`0x1F` between fields,
//! `0x1E` between records).

use vstd::prelude::*;
use crate::dialects::{best_of, select_best, to_asv_spec, Dialect, DialectModel};
use crate::key_value::{kv_finalize, kv_initial, kv_run, kv_wf, KeyValueDialectValidator};
use crate::single_byte_detector::{
    sb_finalize, sb_run, sb_seed, sb_wf, SbState, SingleByteDialectValidator, SB_SEED_COUNT,
};

pub mod dialects;
pub mod key_value;
pub mod single_byte;
pub mod single_byte_detector;
pub mod single_byte_normalizer;

verus! {

/// A structural invariant of a candidate dialect that the input violated.
/// Such a violation only evicts the candidate; it is never fatal.
#[derive(Clone, Copy, Debug, PartialEq, Eq, Structural)]
pub enum StructuralViolation {
    /// A cell exceeded the per-dialect byte budget.
    CellTooLong,
    /// The first row declared more columns than the detector accepts.
    TooManyColumns,
    /// A data row produced more columns than the first row.
    InconsistentRowLength,
    /// A data row ended before reaching the column count of the first row.
    MissingColumn,
    /// A row ended while still in its first column.
    OnlyOneColumn,
    /// Every row analyzed so far was broken, past the analysis budget.
    AllRowsBroken,
}

/// The initial hypothesis states the sniffer seeds, in order.
pub open spec fn seed_states() -> Seq<SbState> {
    Seq::new(SB_SEED_COUNT as nat, |i: int| sb_seed(i, None))
}

/// The models of a row of dialects.
pub open spec fn dialect_views(ds: Seq<Dialect>) -> Seq<DialectModel> {
    ds.map_values(|d: Dialect| d@)
}

/// The views of a row of single-byte candidates.
pub open spec fn sb_views(vs: Seq<SingleByteDialectValidator>) -> Seq<SbState> {
    vs.map_values(|v: SingleByteDialectValidator| v@)
}

/// The candidates that survive feeding `bytes` whole to each given state,
/// in their original order, each advanced to its final state.
pub open spec fn sb_surviving(states: Seq<SbState>, bytes: Seq<u8>) -> Seq<SbState>
    decreases states.len(),
{
    if states.len() == 0 {
        Seq::<SbState>::empty()
    } else {
        let front = sb_surviving(states.drop_last(), bytes);
        match sb_run(states.last(), bytes) {
            Ok(n) => front.push(n),
            Err(_) => front,
        }
    }
}

/// The key-value candidates that survive `bytes`, in order, advanced.
pub open spec fn kv_surviving(states: Seq<KeyValueDialectValidator>, bytes: Seq<u8>) -> Seq<
    KeyValueDialectValidator,
>
    decreases states.len(),
{
    if states.len() == 0 {
        Seq::<KeyValueDialectValidator>::empty()
    } else {
        let front = kv_surviving(states.drop_last(), bytes);
        match kv_run(states.last(), bytes) {
            Ok(n) => front.push(n),
            Err(_) => front,
        }
    }
}

/// The dialects into which the first `k` surviving single-byte candidates
/// finalize, in order.
pub open spec fn sb_finalized_prefix(states: Seq<SbState>, k: int) -> Seq<DialectModel>
    decreases k,
{
    if k <= 0 {
        Seq::<DialectModel>::empty()
    } else {
        let front = sb_finalized_prefix(states, k - 1);
        match sb_finalize(states[k - 1]) {
            Some(m) => front.push(DialectModel::SingleByte(m)),
            None => front,
        }
    }
}

/// The dialects into which the first `k` surviving key-value candidates
/// finalize, in order.
pub open spec fn kv_finalized_prefix(states: Seq<KeyValueDialectValidator>, k: int) -> Seq<
    DialectModel,
>
    decreases k,
{
    if k <= 0 {
        Seq::<DialectModel>::empty()
    } else {
        let front = kv_finalized_prefix(states, k - 1);
        match kv_finalize(states[k - 1]) {
            Some(m) => front.push(DialectModel::KeyValue(m)),
            None => front,
        }
    }
}

/// Everything detection yields on given bytes: the finalized single-byte
/// survivors, then the finalized key-value survivors.
pub open spec fn detected_dialects(bytes: Seq<u8>) -> Seq<DialectModel> {
    let sb = sb_surviving(seed_states(), bytes);
    let kv = kv_surviving(seq![kv_initial()], bytes);
    sb_finalized_prefix(sb, sb.len() as int) + kv_finalized_prefix(kv, kv.len() as int)
}

/// The whole pipeline as a function of the input bytes alone: detection,
/// selection of the maximum under the preference order, and the ASV
/// rewrite. Identical bytes therefore give an identical dialect selection
/// and identical output.
pub open spec fn pipeline_spec(bytes: Seq<u8>) -> Option<Seq<u8>> {
    match best_of(detected_dialects(bytes)) {
        None => None,
        Some(m) => Some(to_asv_spec(m, bytes)),
    }
}

/// The validator fan-out: every candidate dialect machine run in parallel
/// over the same stream, failing candidates evicted as they break.
pub struct CsvSniffer {
    pub sb_validators: Vec<SingleByteDialectValidator>,
    pub kv_validators: Vec<KeyValueDialectValidator>,
}

impl CsvSniffer {
    /// Every live candidate's internal invariants hold.
    pub open spec fn wf(self) -> bool {
        &&& forall|i: int|
            0 <= i < self.sb_validators@.len() ==> sb_wf((#[trigger] self.sb_validators@[i])@)
        &&& forall|i: int|
            0 <= i < self.kv_validators@.len() ==> kv_wf(#[trigger] self.kv_validators@[i])
    }

    /// Every live candidate can still consume `n` more bytes without its
    /// byte counter overflowing.
    pub open spec fn budget_ok(self, n: int) -> bool {
        &&& forall|i: int|
            0 <= i < self.sb_validators@.len() ==> (#[trigger] self.sb_validators@[i])@.current_byte
                + n <= usize::MAX
        &&& forall|i: int|
            0 <= i < self.kv_validators@.len() ==> (#[trigger] self.kv_validators@[i]).current_byte
                + n <= usize::MAX
    }

    /// A sniffer holding every seeded candidate of both families, none of
    /// which has consumed a byte yet.
    pub fn new() -> (r: CsvSniffer)
        ensures
            sb_views(r.sb_validators@) == seed_states(),
            r.kv_validators@ == seq![kv_initial()],
            r.wf(),
            forall|n: int| 0 <= n <= usize::MAX ==> r.budget_ok(n),
    {
        let sb_validators = SingleByteDialectValidator::make(None);
        let kv_validators = KeyValueDialectValidator::make();
        let r = CsvSniffer { sb_validators, kv_validators };
        proof {
            assert(sb_views(r.sb_validators@) =~= seed_states());
            assert(r.kv_validators@ =~= seq![kv_initial()]);
            assert forall|i: int| 0 <= i < r.sb_validators@.len() implies sb_wf(
                (#[trigger] r.sb_validators@[i])@,
            ) by {
                assert(r.sb_validators@[i]@ == sb_seed(i, None));
            }
        }
        r
    }

    /// Feed one chunk to every live candidate, evicting those it breaks.
    pub fn process_chunk(&mut self, chunk: &[u8])
        requires
            old(self).wf(),
            old(self).budget_ok(chunk@.len() as int),
        ensures
            final(self).wf(),
            sb_views(final(self).sb_validators@) == sb_surviving(
                sb_views(old(self).sb_validators@),
                chunk@,
            ),
            final(self).kv_validators@ == kv_surviving(old(self).kv_validators@, chunk@),
    {
        let ghost sb_orig = self.sb_validators@;
        let ghost kv_orig = self.kv_validators@;
        let mut pending_sb: Vec<SingleByteDialectValidator> = Vec::new();
        core::mem::swap(&mut self.sb_validators, &mut pending_sb);
        let mut kept_sb: Vec<SingleByteDialectValidator> = Vec::new();
        let ghost mut k: int = 0;
        while pending_sb.len() > 0
            invariant
                sb_orig == old(self).sb_validators@,
                0 <= k && k + pending_sb@.len() == sb_orig.len(),
                pending_sb@ == sb_orig.subrange(k, sb_orig.len() as int),
                sb_views(kept_sb@) == sb_surviving(sb_views(sb_orig.subrange(0, k)), chunk@),
                forall|i: int| 0 <= i < sb_orig.len() ==> sb_wf((#[trigger] sb_orig[i])@),
                forall|i: int|
                    0 <= i < sb_orig.len() ==> (#[trigger] sb_orig[i])@.current_byte + chunk@.len()
                        <= usize::MAX,
                forall|i: int| 0 <= i < kept_sb@.len() ==> sb_wf((#[trigger] kept_sb@[i])@),
            decreases pending_sb@.len(),
        {
            let mut v = pending_sb.remove(0);
            proof {
                assert(v == sb_orig[k]);
                assert(pending_sb@ =~= sb_orig.subrange(k + 1, sb_orig.len() as int));
            }
            let keep = v.try_process_chunk(chunk).is_ok();
            if keep {
                kept_sb.push(v);
            }
            proof {
                k = k + 1;
                let views_now = sb_views(sb_orig.subrange(0, k));
                assert(views_now.drop_last() =~= sb_views(sb_orig.subrange(0, k - 1)));
                assert(views_now.last() == sb_orig[k - 1]@);
                assert(sb_views(kept_sb@) =~= sb_surviving(views_now, chunk@));
            }
        }
        proof {
            assert(sb_orig.subrange(0, sb_orig.len() as int) =~= sb_orig);
        }
        self.sb_validators = kept_sb;
        let mut pending_kv: Vec<KeyValueDialectValidator> = Vec::new();
        core::mem::swap(&mut self.kv_validators, &mut pending_kv);
        let mut kept_kv: Vec<KeyValueDialectValidator> = Vec::new();
        let ghost mut k: int = 0;
        while pending_kv.len() > 0
            invariant
                kv_orig == old(self).kv_validators@,
                0 <= k && k + pending_kv@.len() == kv_orig.len(),
                pending_kv@ == kv_orig.subrange(k, kv_orig.len() as int),
                kept_kv@ == kv_surviving(kv_orig.subrange(0, k), chunk@),
                forall|i: int| 0 <= i < kv_orig.len() ==> kv_wf(#[trigger] kv_orig[i]),
                forall|i: int|
                    0 <= i < kv_orig.len() ==> (#[trigger] kv_orig[i]).current_byte + chunk@.len()
                        <= usize::MAX,
                forall|i: int| 0 <= i < kept_kv@.len() ==> kv_wf(#[trigger] kept_kv@[i]),
            decreases pending_kv@.len(),
        {
            let mut v = pending_kv.remove(0);
            proof {
                assert(v == kv_orig[k]);
                assert(pending_kv@ =~= kv_orig.subrange(k + 1, kv_orig.len() as int));
            }
            let keep = v.try_process_chunk(chunk).is_ok();
            if keep {
                kept_kv.push(v);
            }
            proof {
                k = k + 1;
                let now = kv_orig.subrange(0, k);
                assert(now.drop_last() =~= kv_orig.subrange(0, k - 1));
                assert(now.last() == kv_orig[k - 1]);
                assert(kept_kv@ =~= kv_surviving(now, chunk@));
            }
        }
        proof {
            assert(kv_orig.subrange(0, kv_orig.len() as int) =~= kv_orig);
        }
        self.kv_validators = kept_kv;
    }

    /// Validate a whole in-memory source against every candidate dialect.
    pub fn process(&mut self, input: &[u8])
        requires
            old(self).wf(),
            old(self).budget_ok(input@.len() as int),
        ensures
            final(self).wf(),
            sb_views(final(self).sb_validators@) == sb_surviving(
                sb_views(old(self).sb_validators@),
                input@,
            ),
            final(self).kv_validators@ == kv_surviving(old(self).kv_validators@, input@),
    {
        self.process_chunk(input);
    }

    /// Consume the sniffer and return the dialects of every candidate
    /// that survived the stream and finalizes. Every single-byte dialect
    /// returned satisfies the dialect invariants.
    pub fn dialects(self) -> (r: Vec<Dialect>)
        requires
            self.wf(),
        ensures
            dialect_views(r@) == sb_finalized_prefix(
                sb_views(self.sb_validators@),
                self.sb_validators@.len() as int,
            ) + kv_finalized_prefix(self.kv_validators@, self.kv_validators@.len() as int),
            forall|i: int|
                0 <= i < r@.len() ==> ((#[trigger] r@[i])@ matches DialectModel::SingleByte(m)
                    ==> m.wf()),
    {
        let CsvSniffer { mut sb_validators, mut kv_validators } = self;
        let ghost sb_all = sb_views(sb_validators@);
        let ghost kv_all = kv_validators@;
        let mut out: Vec<Dialect> = Vec::new();
        let mut i: usize = 0;
        let sb_len = sb_validators.len();
        while i < sb_len
            invariant
                sb_len == sb_validators@.len(),
                sb_all.len() == sb_len,
                i <= sb_len,
                forall|j: int|
                    i <= j < sb_len ==> (#[trigger] sb_validators@[j])@ == sb_all[j] && sb_wf(
                        sb_all[j],
                    ),
                dialect_views(out@) == sb_finalized_prefix(sb_all, i as int),
                forall|j: int|
                    0 <= j < out@.len() ==> ((#[trigger] out@[j])@
                        matches DialectModel::SingleByte(m) ==> m.wf()),
            decreases sb_len - i,
        {
            let found = sb_validators[i].finalize();
            if let Some(d) = found {
                out.push(Dialect::SingleByte(d));
            }
            i = i + 1;
            proof {
                assert(dialect_views(out@) =~= sb_finalized_prefix(sb_all, i as int));
            }
        }
        proof {
            assert(sb_finalized_prefix(sb_all, sb_all.len() as int) + kv_finalized_prefix(
                kv_all,
                0,
            ) =~= sb_finalized_prefix(sb_all, sb_all.len() as int));
        }
        let mut i: usize = 0;
        let kv_len = kv_validators.len();
        while i < kv_len
            invariant
                kv_len == kv_validators@.len(),
                kv_all.len() == kv_len,
                i <= kv_len,
                forall|j: int|
                    i <= j < kv_len ==> (#[trigger] kv_validators@[j]) == kv_all[j] && kv_wf(
                        kv_all[j],
                    ),
                dialect_views(out@) == sb_finalized_prefix(
                    sb_all,
                    sb_all.len() as int,
                ) + kv_finalized_prefix(kv_all, i as int),
                forall|j: int|
                    0 <= j < out@.len() ==> ((#[trigger] out@[j])@
                        matches DialectModel::SingleByte(m) ==> m.wf()),
            decreases kv_len - i,
        {
            let ghost prev = i as int;
            let ghost out_prev = out@;
            let mut v = kv_validators[i];
            let found = v.finalize();
            proof {
                assert(found == kv_finalize(kv_all[prev]));
            }
            if let Some(d) = found {
                out.push(Dialect::KeyValue(d));
            }
            i = i + 1;
            proof {
                let ghost sb_part = sb_finalized_prefix(sb_all, sb_all.len() as int);
                match found {
                    Some(d2) => {
                        assert(out@ == out_prev.push(Dialect::KeyValue(d2)));
                        assert(Dialect::KeyValue(d2)@ == DialectModel::KeyValue(d2));
                        assert(dialect_views(out@) =~= dialect_views(out_prev).push(
                            DialectModel::KeyValue(d2),
                        ));
                        assert(sb_part + kv_finalized_prefix(kv_all, prev + 1) =~= (sb_part
                            + kv_finalized_prefix(kv_all, prev)).push(DialectModel::KeyValue(d2)));
                    },
                    None => {
                        assert(out@ == out_prev);
                    },
                }
                assert(kv_finalized_prefix(kv_all, prev + 1) == (match kv_finalize(kv_all[prev]) {
                    Some(m) => kv_finalized_prefix(kv_all, prev).push(DialectModel::KeyValue(m)),
                    None => kv_finalized_prefix(kv_all, prev),
                }));
                assert(dialect_views(out_prev) == sb_finalized_prefix(
                    sb_all,
                    sb_all.len() as int,
                ) + kv_finalized_prefix(kv_all, prev));
                assert(dialect_views(out@) =~= sb_finalized_prefix(
                    sb_all,
                    sb_all.len() as int,
                ) + kv_finalized_prefix(kv_all, i as int));
            }
        }
        out
    }
}

/// The whole pipeline on one in-memory source: detect the dialect, pick
/// the maximum under the preference order, and rewrite the source as ASV.
/// Nothing is returned when no dialect survives. The result is a function
/// of the input bytes alone, so detection and normalization are
/// deterministic.
pub fn csv_to_asv(input: &[u8]) -> (r: Option<Vec<u8>>)
    ensures
        match pipeline_spec(input@) {
            None => r is None,
            Some(o) => r matches Some(v) && v@ == o,
        },
{
    let input_len = input.len();
    let mut sniffer = CsvSniffer::new();
    sniffer.process(input);
    let found = sniffer.dialects();
    proof {
        assert(dialect_views(found@) == detected_dialects(input@));
        assert(found@.map_values(|d: Dialect| d@) =~= dialect_views(found@));
    }
    match select_best(&found) {
        None => None,
        Some(i) => {
            let out = found[i].to_asv(input);
            Some(out)
        },
    }
}

} // verus!
