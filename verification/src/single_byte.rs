//! The single-byte delimited CSV family: dialect record, its mathematical
//! model, and the well-formedness invariants every finalized dialect obeys.

use vstd::prelude::*;

verus! {

/// How a record ends: the two-byte `\r\n` pair, or one single byte.
#[derive(Clone, Copy, Debug, PartialEq, Eq, Hash, Structural)]
pub enum RecordTerminator {
    Crlf,
    Byte(u8),
}

/// Frozen dialect record produced when a single-byte candidate survives the
/// whole stream. Immutable after finalization.
#[derive(Clone, Debug, Hash, PartialEq, Eq)]
pub struct SingleByteDialect {
    /// One text string per physical column, when a header row was detected.
    pub header: Option<Vec<String>>,
    pub field_separator: u8,
    /// Inside a quoted span, field and record separators are inert.
    pub quote_char: Option<u8>,
    /// The byte after an escape byte is taken literally.
    pub escape_char: Option<u8>,
    /// True per column iff every data-row cell of that column was empty.
    pub empty_columns: Vec<bool>,
    /// True per column iff every data-row cell held only ASCII digits.
    pub numeric_columns: Vec<bool>,
    pub record_terminator: RecordTerminator,
    /// Every row ended with a trailing separator, so the last physical
    /// column was a phantom and has been popped.
    pub field_separator_is_terminator: bool,
    pub has_escaped_line_breaks: bool,
    pub has_quoted_line_breaks: bool,
    /// Data rows consumed, excluding the header row when one was detected.
    pub total_rows: usize,
}

/// Mathematical image of a [`SingleByteDialect`].
#[verifier::ext_equal]
pub ghost struct SbDialectModel {
    pub header: Option<Seq<Seq<char>>>,
    pub field_separator: u8,
    pub quote_char: Option<u8>,
    pub escape_char: Option<u8>,
    pub empty_columns: Seq<bool>,
    pub numeric_columns: Seq<bool>,
    pub record_terminator: RecordTerminator,
    pub field_separator_is_terminator: bool,
    pub has_escaped_line_breaks: bool,
    pub has_quoted_line_breaks: bool,
    pub total_rows: nat,
}

impl View for SingleByteDialect {
    type V = SbDialectModel;

    open spec fn view(&self) -> SbDialectModel {
        SbDialectModel {
            header: match self.header {
                Some(h) => Some(h.deep_view()),
                None => None,
            },
            field_separator: self.field_separator,
            quote_char: self.quote_char,
            escape_char: self.escape_char,
            empty_columns: self.empty_columns@,
            numeric_columns: self.numeric_columns@,
            record_terminator: self.record_terminator,
            field_separator_is_terminator: self.field_separator_is_terminator,
            has_escaped_line_breaks: self.has_escaped_line_breaks,
            has_quoted_line_breaks: self.has_quoted_line_breaks,
            total_rows: self.total_rows as nat,
        }
    }
}

impl SbDialectModel {
    /// What finalization guarantees of every dialect it emits: the
    /// per-column vectors agree with each other and with the header, and
    /// at least one column is non-empty.
    pub open spec fn wf(self) -> bool {
        &&& self.empty_columns.len() == self.numeric_columns.len()
        &&& (self.header matches Some(h) ==> h.len() == self.empty_columns.len())
        &&& exists|i: int| 0 <= i < self.empty_columns.len() && !self.empty_columns[i]
    }
}

/// How many of the first `k` columns are numeric and non-empty.
pub open spec fn sb_numeric_nonempty_prefix(num: Seq<bool>, emp: Seq<bool>, k: int) -> int
    decreases k,
{
    if k <= 0 {
        0
    } else {
        sb_numeric_nonempty_prefix(num, emp, k - 1) + if num[k - 1] && !emp[k - 1] {
            1int
        } else {
            0int
        }
    }
}

/// One rung of a lexicographic comparison: larger key wins, equal keys
/// fall through to the tiebreaker.
pub open spec fn sb_rank_rung(x: int, y: int, tie: core::cmp::Ordering) -> core::cmp::Ordering {
    if x > y {
        core::cmp::Ordering::Greater
    } else if x < y {
        core::cmp::Ordering::Less
    } else {
        tie
    }
}

impl SbDialectModel {
    /// Count of columns that are numeric and non-empty, the third ranking
    /// signal.
    pub open spec fn numeric_nonempty_count(self) -> int {
        sb_numeric_nonempty_prefix(
            self.numeric_columns,
            self.empty_columns,
            if self.numeric_columns.len() <= self.empty_columns.len() {
                self.numeric_columns.len() as int
            } else {
                self.empty_columns.len() as int
            },
        )
    }

    /// Some header cell runs past one hundred characters.
    pub open spec fn has_long_header(self) -> bool {
        match self.header {
            Some(h) => exists|i: int| 0 <= i < h.len() && (#[trigger] h[i]).len() > 100,
            None => false,
        }
    }

    /// The ranking signals, most significant first: header presence,
    /// trailing-separator style, numeric-and-non-empty column count,
    /// absence of escaped then quoted line breaks, absence of overlong
    /// headers, row count, and a CRLF terminator.
    pub open spec fn rank_key(self) -> Seq<int> {
        seq![
            if self.header is Some { 1int } else { 0int },
            if self.field_separator_is_terminator { 1int } else { 0int },
            self.numeric_nonempty_count(),
            if self.has_escaped_line_breaks { 0int } else { 1int },
            if self.has_quoted_line_breaks { 0int } else { 1int },
            if self.has_long_header() { 0int } else { 1int },
            self.total_rows as int,
            if self.record_terminator is Crlf { 1int } else { 0int },
        ]
    }
}

/// The preference policy: a lexicographic comparison of the ranking
/// signals of the two dialects.
pub open spec fn sb_rank_cmp(a: SbDialectModel, b: SbDialectModel) -> core::cmp::Ordering {
    let x = a.rank_key();
    let y = b.rank_key();
    sb_rank_rung(x[0], y[0],
    sb_rank_rung(x[1], y[1],
    sb_rank_rung(x[2], y[2],
    sb_rank_rung(x[3], y[3],
    sb_rank_rung(x[4], y[4],
    sb_rank_rung(x[5], y[5],
    sb_rank_rung(x[6], y[6],
    sb_rank_rung(x[7], y[7], core::cmp::Ordering::Equal))))))))
}

/// The ranking is reflexive: every dialect compares equal to itself.
pub proof fn lemma_sb_rank_reflexive(a: SbDialectModel)
    ensures
        sb_rank_cmp(a, a) == core::cmp::Ordering::Equal,
{
}

/// The ranking is total and antisymmetric: swapping the operands exactly
/// mirrors the verdict, so of two dialects one always compares
/// greater-or-equal, and mutual greater-or-equal means equal.
pub proof fn lemma_sb_rank_antisymmetric(a: SbDialectModel, b: SbDialectModel)
    ensures
        (sb_rank_cmp(a, b) == core::cmp::Ordering::Greater) <==> (sb_rank_cmp(b, a)
            == core::cmp::Ordering::Less),
        (sb_rank_cmp(a, b) == core::cmp::Ordering::Equal) <==> (sb_rank_cmp(b, a)
            == core::cmp::Ordering::Equal),
{
}

/// The ranking is transitive, both in its strict and its equal form.
pub proof fn lemma_sb_rank_transitive(a: SbDialectModel, b: SbDialectModel, c: SbDialectModel)
    ensures
        sb_rank_cmp(a, b) != core::cmp::Ordering::Less && sb_rank_cmp(b, c)
            != core::cmp::Ordering::Less ==> sb_rank_cmp(a, c) != core::cmp::Ordering::Less,
        sb_rank_cmp(a, b) == core::cmp::Ordering::Equal && sb_rank_cmp(b, c)
            == core::cmp::Ordering::Equal ==> sb_rank_cmp(a, c) == core::cmp::Ordering::Equal,
{
}

impl SingleByteDialect {
    fn count_numeric_nonempty(&self) -> (r: usize)
        ensures
            r as int == self@.numeric_nonempty_count(),
    {
        let n = if self.numeric_columns.len() <= self.empty_columns.len() {
            self.numeric_columns.len()
        } else {
            self.empty_columns.len()
        };
        let mut count: usize = 0;
        let mut i: usize = 0;
        while i < n
            invariant
                i <= n,
                count <= i,
                n <= self.numeric_columns@.len(),
                n <= self.empty_columns@.len(),
                count as int == sb_numeric_nonempty_prefix(
                    self.numeric_columns@,
                    self.empty_columns@,
                    i as int,
                ),
            decreases n - i,
        {
            if self.numeric_columns[i] && !self.empty_columns[i] {
                count = count + 1;
            }
            i = i + 1;
        }
        count
    }

    fn has_long_header_exec(&self) -> (r: bool)
        ensures
            r == self@.has_long_header(),
    {
        match &self.header {
            None => false,
            Some(h) => {
                let ghost hm = h.deep_view();
                proof {
                    assert(self@.header == Some(hm));
                    assert(hm.len() == h@.len());
                }
                let mut i: usize = 0;
                while i < h.len()
                    invariant
                        i <= h@.len(),
                        hm == h.deep_view(),
                        self@.header == Some(hm),
                        hm.len() == h@.len(),
                        forall|j: int| 0 <= j < i ==> (#[trigger] hm[j]).len() <= 100,
                    decreases h@.len() - i,
                {
                    proof {
                        assert(hm[i as int] == h@[i as int]@);
                    }
                    if h[i].as_str().unicode_len() > 100 {
                        proof {
                            assert(hm[i as int].len() > 100);
                            assert(self@.header.unwrap() == hm);
                            assert(self@.header.unwrap()[i as int].len() > 100);
                            assert(self@.has_long_header());
                        }
                        return true;
                    }
                    i = i + 1;
                }
                proof {
                    if self@.has_long_header() {
                        let w = choose|k: int|
                            0 <= k < self@.header.unwrap().len() && (#[trigger] self@.header.unwrap()[k]).len()
                                > 100;
                        assert(hm[w].len() > 100);
                        assert(false);
                    }
                }
                false
            },
        }
    }
}

impl PartialOrd for SingleByteDialect {
    /// The preference policy of the detector, decided signal by signal.
    fn partial_cmp(&self, other: &Self) -> (r: Option<core::cmp::Ordering>) {
        if self.header.is_some() && other.header.is_none() {
            return Some(core::cmp::Ordering::Greater);
        }
        if self.header.is_none() && other.header.is_some() {
            return Some(core::cmp::Ordering::Less);
        }
        if self.field_separator_is_terminator && !other.field_separator_is_terminator {
            return Some(core::cmp::Ordering::Greater);
        }
        if !self.field_separator_is_terminator && other.field_separator_is_terminator {
            return Some(core::cmp::Ordering::Less);
        }
        let numeric_self = self.count_numeric_nonempty();
        let numeric_other = other.count_numeric_nonempty();
        if numeric_self > numeric_other {
            return Some(core::cmp::Ordering::Greater);
        }
        if numeric_self < numeric_other {
            return Some(core::cmp::Ordering::Less);
        }
        if !self.has_escaped_line_breaks && other.has_escaped_line_breaks {
            return Some(core::cmp::Ordering::Greater);
        }
        if self.has_escaped_line_breaks && !other.has_escaped_line_breaks {
            return Some(core::cmp::Ordering::Less);
        }
        if !self.has_quoted_line_breaks && other.has_quoted_line_breaks {
            return Some(core::cmp::Ordering::Greater);
        }
        if self.has_quoted_line_breaks && !other.has_quoted_line_breaks {
            return Some(core::cmp::Ordering::Less);
        }
        let long_self = self.has_long_header_exec();
        let long_other = other.has_long_header_exec();
        if !long_self && long_other {
            return Some(core::cmp::Ordering::Greater);
        }
        if long_self && !long_other {
            return Some(core::cmp::Ordering::Less);
        }
        if self.total_rows > other.total_rows {
            return Some(core::cmp::Ordering::Greater);
        }
        if self.total_rows < other.total_rows {
            return Some(core::cmp::Ordering::Less);
        }
        let self_crlf = matches!(self.record_terminator, RecordTerminator::Crlf);
        let other_crlf = matches!(other.record_terminator, RecordTerminator::Crlf);
        if self_crlf && !other_crlf {
            return Some(core::cmp::Ordering::Greater);
        }
        if !self_crlf && other_crlf {
            return Some(core::cmp::Ordering::Less);
        }
        Some(core::cmp::Ordering::Equal)
    }
}

impl vstd::std_specs::cmp::PartialOrdSpecImpl for SingleByteDialect {
    open spec fn obeys_partial_cmp_spec() -> bool {
        true
    }

    open spec fn partial_cmp_spec(&self, other: &Self) -> Option<core::cmp::Ordering> {
        Some(sb_rank_cmp(self@, other@))
    }
}

} // verus!
