//! The tagged dialect record, the capability shared by the two validator
//! families, the cross-family preference order, and the dispatch into the
//! per-family normalizers.

use vstd::prelude::*;
use crate::StructuralViolation;
use crate::key_value::{
    KeyValueDialect, KeyValueDialectNormalizer, KeyValueDialectValidator, kv_finalize,
    kv_header_bytes, kv_nrm_run, kv_wf,
};
use crate::single_byte::{SbDialectModel, SingleByteDialect, sb_rank_cmp};
use crate::single_byte::{lemma_sb_rank_antisymmetric, lemma_sb_rank_transitive};
use crate::single_byte_detector::{sb_wf, SingleByteDialectValidator};
use crate::single_byte_normalizer::{sbn_normalize_spec, SingleByteDialectNormalizer};

verus! {

/// A concrete hypothesis describing how source bytes partition into rows
/// and fields.
#[derive(Clone, Debug, PartialEq, Eq, Hash)]
pub enum Dialect {
    SingleByte(SingleByteDialect),
    KeyValue(KeyValueDialect),
}

/// Mathematical image of a [`Dialect`].
pub ghost enum DialectModel {
    SingleByte(SbDialectModel),
    KeyValue(KeyValueDialect),
}

impl View for Dialect {
    type V = DialectModel;

    open spec fn view(&self) -> DialectModel {
        match self {
            Dialect::SingleByte(d) => DialectModel::SingleByte(d@),
            Dialect::KeyValue(d) => DialectModel::KeyValue(*d),
        }
    }
}

/// The capability a candidate dialect machine offers the sniffer: consume
/// chunks until the stream ends, then collapse into a dialect or nothing.
pub trait DialectGroupValidator: Sized {
    /// The candidate's internal invariants.
    spec fn candidate_wf(&self) -> bool;

    /// How many bytes the candidate has consumed.
    spec fn bytes_consumed(&self) -> int;

    /// Feed one chunk; an error evicts the candidate and is never fatal
    /// to the sniff.
    fn try_process_chunk(&mut self, chunk: &[u8]) -> (r: Result<(), StructuralViolation>)
        requires
            old(self).candidate_wf(),
            old(self).bytes_consumed() + chunk@.len() <= usize::MAX,
        ensures
            r is Ok ==> final(self).candidate_wf(),
    ;

    /// Collapse the accumulated state into a dialect, if the whole stream
    /// was acceptable.
    fn finalize(&mut self) -> (r: Option<Dialect>)
        requires
            old(self).candidate_wf(),
    ;
}

impl DialectGroupValidator for SingleByteDialectValidator {
    open spec fn candidate_wf(&self) -> bool {
        sb_wf(self@)
    }

    open spec fn bytes_consumed(&self) -> int {
        self@.current_byte as int
    }

    fn try_process_chunk(&mut self, chunk: &[u8]) -> (r: Result<(), StructuralViolation>) {
        SingleByteDialectValidator::try_process_chunk(self, chunk)
    }

    fn finalize(&mut self) -> (r: Option<Dialect>) {
        match SingleByteDialectValidator::finalize(self) {
            Some(d) => Some(Dialect::SingleByte(d)),
            None => None,
        }
    }
}

impl DialectGroupValidator for KeyValueDialectValidator {
    open spec fn candidate_wf(&self) -> bool {
        kv_wf(*self)
    }

    open spec fn bytes_consumed(&self) -> int {
        self.current_byte as int
    }

    fn try_process_chunk(&mut self, chunk: &[u8]) -> (r: Result<(), StructuralViolation>) {
        KeyValueDialectValidator::try_process_chunk(self, chunk)
    }

    fn finalize(&mut self) -> (r: Option<Dialect>) {
        match KeyValueDialectValidator::finalize(self) {
            Some(d) => Some(Dialect::KeyValue(d)),
            None => None,
        }
    }
}

/// The preference order across the two families: any key-value dialect
/// outranks any single-byte dialect, single-byte dialects follow the
/// ranking signals, and key-value dialects compare by row count then
/// separator.
pub open spec fn dialect_rank_cmp(a: DialectModel, b: DialectModel) -> core::cmp::Ordering {
    match (a, b) {
        (DialectModel::SingleByte(x), DialectModel::SingleByte(y)) => sb_rank_cmp(x, y),
        (DialectModel::SingleByte(_), DialectModel::KeyValue(_)) => core::cmp::Ordering::Less,
        (DialectModel::KeyValue(_), DialectModel::SingleByte(_)) => core::cmp::Ordering::Greater,
        (DialectModel::KeyValue(x), DialectModel::KeyValue(y)) => {
            if x.total_rows > y.total_rows {
                core::cmp::Ordering::Greater
            } else if x.total_rows < y.total_rows {
                core::cmp::Ordering::Less
            } else if x.field_separator > y.field_separator {
                core::cmp::Ordering::Greater
            } else if x.field_separator < y.field_separator {
                core::cmp::Ordering::Less
            } else {
                core::cmp::Ordering::Equal
            }
        },
    }
}

/// Every dialect ties with itself under the preference order.
pub proof fn lemma_dialect_rank_reflexive(a: DialectModel)
    ensures
        dialect_rank_cmp(a, a) == core::cmp::Ordering::Equal,
{
    match a {
        DialectModel::SingleByte(x) => {
            crate::single_byte::lemma_sb_rank_reflexive(x);
        },
        DialectModel::KeyValue(_) => {},
    }
}

/// A dialect no worse than one that itself is no worse than a third is no
/// worse than that third.
pub proof fn lemma_dialect_rank_chain(a: DialectModel, b: DialectModel, c: DialectModel)
    requires
        dialect_rank_cmp(a, b) != core::cmp::Ordering::Greater,
        dialect_rank_cmp(c, b) != core::cmp::Ordering::Less,
    ensures
        dialect_rank_cmp(a, c) != core::cmp::Ordering::Greater,
{
    match (a, b, c) {
        (
            DialectModel::SingleByte(x),
            DialectModel::SingleByte(y),
            DialectModel::SingleByte(z),
        ) => {
            lemma_sb_rank_antisymmetric(x, y);
            lemma_sb_rank_antisymmetric(x, z);
            lemma_sb_rank_transitive(z, y, x);
        },
        _ => {},
    }
}

fn rank_cmp_exec(a: &Dialect, b: &Dialect) -> (r: core::cmp::Ordering)
    ensures
        r == dialect_rank_cmp(a@, b@),
{
    match (a, b) {
        (Dialect::SingleByte(x), Dialect::SingleByte(y)) => {
            match x.partial_cmp(y) {
                Some(o) => o,
                None => core::cmp::Ordering::Equal,
            }
        },
        (Dialect::SingleByte(_), Dialect::KeyValue(_)) => core::cmp::Ordering::Less,
        (Dialect::KeyValue(_), Dialect::SingleByte(_)) => core::cmp::Ordering::Greater,
        (Dialect::KeyValue(x), Dialect::KeyValue(y)) => {
            if x.total_rows > y.total_rows {
                core::cmp::Ordering::Greater
            } else if x.total_rows < y.total_rows {
                core::cmp::Ordering::Less
            } else if x.field_separator > y.field_separator {
                core::cmp::Ordering::Greater
            } else if x.field_separator < y.field_separator {
                core::cmp::Ordering::Less
            } else {
                core::cmp::Ordering::Equal
            }
        },
    }
}

/// The winner of a left-to-right maximum scan over the first `k`
/// dialects, later candidates winning ties.
pub open spec fn best_fold(ds: Seq<DialectModel>, k: int) -> DialectModel
    decreases k,
{
    if k <= 1 {
        ds[0]
    } else {
        let prev = best_fold(ds, k - 1);
        if dialect_rank_cmp(ds[k - 1], prev) != core::cmp::Ordering::Less {
            ds[k - 1]
        } else {
            prev
        }
    }
}

/// The dialect the pipeline selects from a detection result: the maximum
/// under the preference order, the last of rank-equal survivors.
pub open spec fn best_of(ds: Seq<DialectModel>) -> Option<DialectModel> {
    if ds.len() == 0 {
        None
    } else {
        Some(best_fold(ds, ds.len() as int))
    }
}

/// Pick the winning dialect from the finalized survivors: the maximum
/// under the preference order, the last of rank-equal survivors. Yields
/// its index, or nothing when no dialect survived.
pub fn select_best(dialects: &Vec<Dialect>) -> (r: Option<usize>)
    ensures
        r is None <==> dialects@.len() == 0,
        r matches Some(i) ==> i < dialects@.len() && dialects@[i as int]@ == best_of(
            dialects@.map_values(|d: Dialect| d@),
        ).unwrap() && (forall|j: int|
            0 <= j < dialects@.len() ==> dialect_rank_cmp(
                (#[trigger] dialects@[j])@,
                dialects@[i as int]@,
            ) != core::cmp::Ordering::Greater),
{
    let ghost models = dialects@.map_values(|d: Dialect| d@);
    if dialects.len() == 0 {
        return None;
    }
    let mut best: usize = 0;
    let mut i: usize = 1;
    proof {
        assert(models[0] == dialects@[0]@);
    }
    while i < dialects.len()
        invariant
            1 <= i <= dialects@.len(),
            best < i,
            models == dialects@.map_values(|d: Dialect| d@),
            models.len() == dialects@.len(),
            forall|j: int| 0 <= j < models.len() ==> models[j] == (#[trigger] dialects@[j])@,
            dialects@[best as int]@ == best_fold(models, i as int),
            forall|j: int|
                0 <= j < i ==> dialect_rank_cmp(
                    (#[trigger] dialects@[j])@,
                    dialects@[best as int]@,
                ) != core::cmp::Ordering::Greater,
        decreases dialects@.len() - i,
    {
        let o = rank_cmp_exec(&dialects[i], &dialects[best]);
        let ghost old_best = best;
        if !matches!(o, core::cmp::Ordering::Less) {
            best = i;
            proof {
                assert forall|j: int|
                    0 <= j < i + 1 implies dialect_rank_cmp(
                    (#[trigger] dialects@[j])@,
                    dialects@[best as int]@,
                ) != core::cmp::Ordering::Greater by {
                    if j < i {
                        lemma_dialect_rank_chain(
                            dialects@[j]@,
                            dialects@[old_best as int]@,
                            dialects@[i as int]@,
                        );
                    } else {
                        lemma_dialect_rank_reflexive(dialects@[i as int]@);
                    }
                }
            }
        }
        i = i + 1;
    }
    Some(best)
}

/// The ASV image of a source under a dialect: for single-byte dialects
/// the synthetic header when none was detected then the streamed rewrite,
/// for key-value dialects the fixed header then the streamed rewrite.
pub open spec fn to_asv_spec(d: DialectModel, bytes: Seq<u8>) -> Seq<u8> {
    match d {
        DialectModel::SingleByte(m) => sbn_normalize_spec(m, bytes),
        DialectModel::KeyValue(k) => kv_header_bytes() + kv_nrm_run(k.field_separator, 0usize, bytes).1,
    }
}

impl SingleByteDialect {
    /// An equal dialect value, built field by field.
    pub fn duplicate(&self) -> (r: SingleByteDialect)
        ensures
            r@ == self@,
    {
        let header: Option<Vec<String>> = match &self.header {
            None => None,
            Some(h) => {
                let mut copy: Vec<String> = Vec::new();
                let mut i: usize = 0;
                while i < h.len()
                    invariant
                        i <= h@.len(),
                        copy@.len() == i,
                        forall|j: int| 0 <= j < i ==> (#[trigger] copy@[j])@ == h@[j]@,
                    decreases h@.len() - i,
                {
                    copy.push(h[i].clone());
                    i = i + 1;
                }
                proof {
                    assert(copy.deep_view() =~~= h.deep_view());
                }
                Some(copy)
            },
        };
        let mut empty_columns: Vec<bool> = Vec::new();
        let mut i: usize = 0;
        while i < self.empty_columns.len()
            invariant
                i <= self.empty_columns@.len(),
                empty_columns@.len() == i,
                forall|j: int| 0 <= j < i ==> empty_columns@[j] == self.empty_columns@[j],
            decreases self.empty_columns@.len() - i,
        {
            empty_columns.push(self.empty_columns[i]);
            i = i + 1;
        }
        let mut numeric_columns: Vec<bool> = Vec::new();
        let mut i: usize = 0;
        while i < self.numeric_columns.len()
            invariant
                i <= self.numeric_columns@.len(),
                numeric_columns@.len() == i,
                forall|j: int| 0 <= j < i ==> numeric_columns@[j] == self.numeric_columns@[j],
            decreases self.numeric_columns@.len() - i,
        {
            numeric_columns.push(self.numeric_columns[i]);
            i = i + 1;
        }
        let r = SingleByteDialect {
            header,
            field_separator: self.field_separator,
            quote_char: self.quote_char,
            escape_char: self.escape_char,
            empty_columns,
            numeric_columns,
            record_terminator: self.record_terminator,
            field_separator_is_terminator: self.field_separator_is_terminator,
            has_escaped_line_breaks: self.has_escaped_line_breaks,
            has_quoted_line_breaks: self.has_quoted_line_breaks,
            total_rows: self.total_rows,
        };
        proof {
            assert(r@.empty_columns =~= self@.empty_columns);
            assert(r@.numeric_columns =~= self@.numeric_columns);
            assert(r@ =~~= self@);
        }
        r
    }
}

impl Dialect {
    /// Second pass of the pipeline: rewrite the whole source as ASV under
    /// this dialect.
    pub fn to_asv(&self, src: &[u8]) -> (out: Vec<u8>)
        requires
            self@ matches DialectModel::SingleByte(m) ==> m.wf(),
        ensures
            out@ == to_asv_spec(self@, src@),
    {
        match self {
            Dialect::SingleByte(sb) => {
                let mut normalizer = SingleByteDialectNormalizer::new(sb.duplicate());
                normalizer.normalize(src);
                normalizer.take_output()
            },
            Dialect::KeyValue(kv) => {
                let mut normalizer = KeyValueDialectNormalizer::new(kv);
                normalizer.normalize(src);
                normalizer.take_output()
            },
        }
    }
}

} // verus!
