//! One candidate state machine per single-byte dialect hypothesis, and the
//! factory that seeds the whole hypothesis space.
//!
//! The model is a pure per-byte transition over [`SbState`]; the executable
//! validator is proved to follow it byte for byte, so everything the
//! detector decides is a function of the input bytes alone.

use vstd::prelude::*;
use vstd::string::StrSliceExecFns;
use crate::StructuralViolation;
use crate::single_byte::{RecordTerminator, SingleByteDialect};

verus! {

/// Largest cell (in bytes) the single-byte detector accepts.
pub const SB_MAX_CELL_BYTES: usize = 10 * 1024 * 1024;

/// Largest column index the first row may declare.
pub const SB_MAX_COLUMNS: usize = 5000;

/// Mathematical state of one single-byte candidate.
#[verifier::ext_equal]
pub ghost struct SbState {
    /// Raw bytes of each first-row cell, the header candidate.
    pub first_row: Seq<Seq<u8>>,
    pub quote_active: bool,
    pub escape_active: bool,
    pub quote_char: Option<u8>,
    pub escape_char: Option<u8>,
    pub current_cell_is_numeric: bool,
    pub current_cell_is_ascii: bool,
    pub ascii_columns: Seq<bool>,
    pub numeric_columns: Seq<bool>,
    pub col_min_len: Seq<usize>,
    pub col_max_len: Seq<usize>,
    pub prev_char_was_cr: bool,
    pub record_terminator: RecordTerminator,
    pub field_separator_is_terminator: bool,
    pub field_separator: u8,
    pub has_escaped_line_breaks: bool,
    pub has_quoted_line_breaks: bool,
    pub current_row: usize,
    pub current_col: usize,
    pub current_cell_byte: usize,
    pub current_byte: usize,
    pub has_headers_user: Option<bool>,
}

/// The five per-column vectors stay in lockstep.
pub open spec fn sb_cols_aligned(s: SbState) -> bool {
    &&& s.ascii_columns.len() == s.first_row.len()
    &&& s.numeric_columns.len() == s.first_row.len()
    &&& s.col_min_len.len() == s.first_row.len()
    &&& s.col_max_len.len() == s.first_row.len()
}

/// The five per-column vectors stay in lockstep, counters respect their
/// budgets, and nothing outruns the bytes consumed.
pub open spec fn sb_wf(s: SbState) -> bool {
    &&& sb_cols_aligned(s)
    &&& s.current_cell_byte <= SB_MAX_CELL_BYTES
    &&& s.first_row.len() <= SB_MAX_COLUMNS + 2
    &&& (if s.current_row == 0 {
        s.first_row.len() == s.current_col + 1
    } else {
        1 <= s.first_row.len() && s.current_col <= s.first_row.len()
    })
    &&& s.current_row <= s.current_byte
    &&& (s.current_row == 0 ==> (forall|i: int|
        0 <= i < s.col_max_len.len() ==> s.col_max_len[i] == 0))
}

/// Open a fresh speculative column: empty header cell, extreme length
/// bounds, and optimistic ASCII/numeric flags.
pub open spec fn sb_push_first_row_cell(s: SbState) -> SbState {
    SbState {
        first_row: s.first_row.push(Seq::<u8>::empty()),
        col_min_len: s.col_min_len.push(usize::MAX),
        col_max_len: s.col_max_len.push(0usize),
        ascii_columns: s.ascii_columns.push(true),
        numeric_columns: s.numeric_columns.push(true),
        ..s
    }
}

/// Drop the most recently opened speculative column.
pub open spec fn sb_pop_first_row_cell(s: SbState) -> SbState {
    SbState {
        first_row: s.first_row.drop_last(),
        col_min_len: s.col_min_len.drop_last(),
        col_max_len: s.col_max_len.drop_last(),
        ascii_columns: s.ascii_columns.drop_last(),
        numeric_columns: s.numeric_columns.drop_last(),
        ..s
    }
}

/// Reset the per-cell flags and move to the next column.
pub open spec fn sb_close_cell(s: SbState) -> SbState {
    SbState {
        quote_active: false,
        escape_active: false,
        current_cell_is_ascii: true,
        current_cell_is_numeric: true,
        current_cell_byte: 0,
        current_col: (s.current_col + 1) as usize,
        ..s
    }
}

/// A field ends. In a data row the column must already exist and its
/// statistics absorb the cell; in the first row a new column is opened,
/// within the column budget.
pub open spec fn sb_end_field(s: SbState) -> Result<SbState, StructuralViolation> {
    if s.current_row != 0 {
        if s.current_col == s.ascii_columns.len() {
            Err(StructuralViolation::InconsistentRowLength)
        } else {
            let i = s.current_col as int;
            let updated = SbState {
                ascii_columns: s.ascii_columns.update(i, s.ascii_columns[i] && s.current_cell_is_ascii),
                numeric_columns: s.numeric_columns.update(
                    i,
                    s.numeric_columns[i] && s.current_cell_is_numeric,
                ),
                col_min_len: s.col_min_len.update(
                    i,
                    if s.current_cell_byte < s.col_min_len[i] {
                        s.current_cell_byte
                    } else {
                        s.col_min_len[i]
                    },
                ),
                col_max_len: s.col_max_len.update(
                    i,
                    if s.current_cell_byte > s.col_max_len[i] {
                        s.current_cell_byte
                    } else {
                        s.col_max_len[i]
                    },
                ),
                ..s
            };
            Ok(sb_close_cell(updated))
        }
    } else {
        let pushed = sb_push_first_row_cell(s);
        if s.current_col > SB_MAX_COLUMNS {
            Err(StructuralViolation::TooManyColumns)
        } else {
            Ok(sb_close_cell(pushed))
        }
    }
}

/// A row ends: data rows must close exactly at the known column count, a
/// row with a single column is fatal, and the first row pops the
/// speculative column that closing its last field just opened.
pub open spec fn sb_end_row(s: SbState) -> Result<SbState, StructuralViolation> {
    if s.current_row != 0 && s.current_col != s.first_row.len() - 1 {
        Err(StructuralViolation::MissingColumn)
    } else if s.current_col == 0 {
        Err(StructuralViolation::OnlyOneColumn)
    } else {
        match sb_end_field(s) {
            Err(e) => Err(e),
            Ok(closed) => {
                let trimmed = if s.current_row == 0 {
                    sb_pop_first_row_cell(closed)
                } else {
                    closed
                };
                Ok(
                    SbState {
                        prev_char_was_cr: false,
                        current_col: 0,
                        current_row: (s.current_row + 1) as usize,
                        ..trimmed
                    },
                )
            },
        }
    }
}

/// Escape handling: an armed escape consumes the byte literally; the
/// escape byte itself arms it.
pub open spec fn sb_try_escape(s: SbState, c: u8) -> (SbState, bool) {
    if s.escape_active {
        (SbState { escape_active: false, ..s }, true)
    } else if s.escape_char == Some(c) {
        (SbState { escape_active: true, ..s }, true)
    } else {
        (s, false)
    }
}

/// Quote handling: the quote byte toggles the span; a byte inside an
/// active span is consumed. The byte that opens a span is not consumed
/// here and falls through to the later rules.
pub open spec fn sb_try_quote(s: SbState, c: u8) -> (SbState, bool) {
    match s.quote_char {
        Some(q) => {
            let toggled = SbState {
                quote_active: if q == c {
                    !s.quote_active
                } else {
                    s.quote_active
                },
                ..s
            };
            (toggled, s.quote_active)
        },
        None => (s, false),
    }
}

/// Record-terminator handling. A single-byte terminator ends the row on
/// its byte; under CRLF a carriage return is consumed silently and a line
/// feed ends the row only right after one.
pub open spec fn sb_try_next_row(s: SbState, c: u8) -> Result<
    (SbState, bool),
    StructuralViolation,
> {
    match s.record_terminator {
        RecordTerminator::Byte(t) => {
            if c == t {
                match sb_end_row(s) {
                    Ok(next) => Ok((next, true)),
                    Err(e) => Err(e),
                }
            } else {
                Ok((s, false))
            }
        },
        RecordTerminator::Crlf => {
            if c == 13u8 {
                Ok((SbState { prev_char_was_cr: true, ..s }, true))
            } else if c == 10u8 && s.prev_char_was_cr {
                match sb_end_row(SbState { prev_char_was_cr: false, ..s }) {
                    Ok(next) => Ok((next, true)),
                    Err(e) => Err(e),
                }
            } else {
                Ok((SbState { prev_char_was_cr: false, ..s }, false))
            }
        },
    }
}

/// Field-separator handling.
pub open spec fn sb_try_next_field(s: SbState, c: u8) -> Result<
    (SbState, bool),
    StructuralViolation,
> {
    if c == s.field_separator {
        match sb_end_field(s) {
            Ok(next) => Ok((next, true)),
            Err(e) => Err(e),
        }
    } else {
        Ok((s, false))
    }
}

/// An ordinary byte: captured into the header candidate during the first
/// row, folded into the cell predicates, and counted against the cell
/// budget.
pub open spec fn sb_try_next_char(s: SbState, c: u8) -> Result<SbState, StructuralViolation> {
    let captured = if s.current_row == 0 {
        SbState {
            first_row: s.first_row.update(
                s.current_col as int,
                s.first_row[s.current_col as int].push(c),
            ),
            ..s
        }
    } else {
        s
    };
    let counted = SbState {
        current_cell_is_numeric: captured.current_cell_is_numeric && 48 <= c <= 57,
        current_cell_is_ascii: captured.current_cell_is_ascii && c < 128,
        current_cell_byte: (captured.current_cell_byte + 1) as usize,
        ..captured
    };
    if counted.current_cell_byte > SB_MAX_CELL_BYTES {
        Err(StructuralViolation::CellTooLong)
    } else {
        Ok(counted)
    }
}

/// One byte through the single-byte detector, in the detector's fixed
/// order: escape, quote, record terminator, field separator, ordinary
/// byte. A byte consumed by escape or quote handling is still tested
/// against the terminator unless the dialect lets the matching construct
/// span line breaks.
#[verifier::opaque]
pub open spec fn sb_step(s: SbState, c: u8) -> Result<SbState, StructuralViolation> {
    let esc = sb_try_escape(s, c);
    if esc.1 {
        if !s.has_escaped_line_breaks {
            match sb_try_next_row(esc.0, c) {
                Ok(p) => Ok(p.0),
                Err(e) => Err(e),
            }
        } else {
            Ok(esc.0)
        }
    } else {
        let qt = sb_try_quote(esc.0, c);
        if qt.1 {
            if !s.has_quoted_line_breaks {
                match sb_try_next_row(qt.0, c) {
                    Ok(p) => Ok(p.0),
                    Err(e) => Err(e),
                }
            } else {
                Ok(qt.0)
            }
        } else {
            match sb_try_next_row(qt.0, c) {
                Err(e) => Err(e),
                Ok((after_row, true)) => Ok(after_row),
                Ok((after_row, false)) => match sb_try_next_field(after_row, c) {
                    Err(e) => Err(e),
                    Ok((after_field, true)) => Ok(after_field),
                    Ok((after_field, false)) => sb_try_next_char(after_field, c),
                },
            }
        }
    }
}

/// `sb_step` over every byte in order, also advancing the byte counter, as
/// the detector's chunk loop does.
pub open spec fn sb_run(s: SbState, bytes: Seq<u8>) -> Result<SbState, StructuralViolation>
    decreases bytes.len(),
{
    if bytes.len() == 0 {
        Ok(s)
    } else {
        match sb_step(s, bytes[0]) {
            Ok(next) => sb_run(
                SbState { current_byte: (next.current_byte + 1) as usize, ..next },
                bytes.drop_first(),
            ),
            Err(e) => Err(e),
        }
    }
}

/// Feeding one stream in pieces equals feeding it whole: the chunk
/// boundaries chosen by a caller cannot change what the detector sees.
pub proof fn lemma_sb_run_app(s: SbState, a: Seq<u8>, b: Seq<u8>)
    ensures
        sb_run(s, a + b) == match sb_run(s, a) {
            Ok(m) => sb_run(m, b),
            Err(e) => Err::<SbState, StructuralViolation>(e),
        },
    decreases a.len(),
{
    if a.len() == 0 {
        assert(a + b =~= b);
    } else {
        assert((a + b)[0] == a[0]);
        match sb_step(s, a[0]) {
            Ok(next) => {
                let stepped = SbState { current_byte: (next.current_byte + 1) as usize, ..next };
                assert((a + b).drop_first() =~= a.drop_first() + b);
                lemma_sb_run_app(stepped, a.drop_first(), b);
            },
            Err(_) => {},
        }
    }
}

proof fn lemma_sb_run_one(s: SbState, c: u8)
    ensures
        sb_run(s, seq![c]) == match sb_step(s, c) {
            Ok(n) => Ok::<SbState, StructuralViolation>(
                SbState { current_byte: (n.current_byte + 1) as usize, ..n },
            ),
            Err(e) => Err::<SbState, StructuralViolation>(e),
        },
{
    let bytes = seq![c];
    assert(bytes[0] == c);
    assert(bytes.drop_first() =~= Seq::<u8>::empty());
    match sb_step(s, c) {
        Ok(n) => {
            let m = SbState { current_byte: (n.current_byte + 1) as usize, ..n };
            assert(sb_run(m, Seq::<u8>::empty()) == Ok::<SbState, StructuralViolation>(m));
        },
        Err(_) => {},
    }
}

proof fn lemma_sb_end_field_wf(s: SbState)
    requires
        sb_wf(s),
        s.current_byte < usize::MAX,
    ensures
        sb_end_field(s) matches Ok(n) ==> {
            &&& sb_wf(SbState { current_byte: (s.current_byte + 1) as usize, ..n })
            &&& n.current_row == s.current_row
            &&& n.current_col == s.current_col + 1
            &&& n.current_byte == s.current_byte
            &&& n.first_row.len() == if s.current_row == 0 {
                s.first_row.len() + 1
            } else {
                s.first_row.len()
            }
        },
{
}

proof fn lemma_sb_end_row_wf(s: SbState)
    requires
        sb_wf(s),
        s.current_byte < usize::MAX,
    ensures
        sb_end_row(s) matches Ok(n) ==> {
            &&& sb_wf(SbState { current_byte: (s.current_byte + 1) as usize, ..n })
            &&& n.current_row == s.current_row + 1
            &&& n.current_byte == s.current_byte
        },
{
    if s.current_row != 0 && s.current_col != s.first_row.len() - 1 {
    } else if s.current_col == 0 {
    } else {
        lemma_sb_end_field_wf(s);
    }
}

#[verifier::rlimit(100)]
proof fn lemma_sb_try_next_row_wf(s: SbState, c: u8)
    requires
        sb_wf(s),
        s.current_byte < usize::MAX,
    ensures
        sb_try_next_row(s, c) matches Ok(p) ==> p.0.current_byte == s.current_byte && sb_wf(
            SbState { current_byte: (p.0.current_byte + 1) as usize, ..p.0 },
        ),
{
    lemma_sb_end_row_wf(s);
    if s.record_terminator is Crlf && c == 10u8 && s.prev_char_was_cr {
        lemma_sb_end_row_wf(SbState { prev_char_was_cr: false, ..s });
    }
}

proof fn lemma_sb_chunk_advance(start: SbState, bytes: Seq<u8>, pos: int, before: SbState, after: SbState)
    requires
        0 <= pos < bytes.len(),
        sb_run(start, bytes.take(pos)) == Ok::<SbState, StructuralViolation>(before),
        sb_step(before, bytes[pos]) == Ok::<SbState, StructuralViolation>(after),
    ensures
        sb_run(start, bytes.take(pos + 1)) == Ok::<SbState, StructuralViolation>(
            SbState { current_byte: (after.current_byte + 1) as usize, ..after },
        ),
{
    let c = bytes[pos];
    lemma_sb_run_app(start, bytes.take(pos), seq![c]);
    lemma_sb_run_one(before, c);
    assert(bytes.take(pos) + seq![c] =~= bytes.take(pos + 1));
}

proof fn lemma_sb_chunk_error(start: SbState, bytes: Seq<u8>, pos: int, before: SbState, e: StructuralViolation)
    requires
        0 <= pos < bytes.len(),
        sb_run(start, bytes.take(pos)) == Ok::<SbState, StructuralViolation>(before),
        sb_step(before, bytes[pos]) == Err::<SbState, StructuralViolation>(e),
    ensures
        sb_run(start, bytes) == Err::<SbState, StructuralViolation>(e),
{
    let c = bytes[pos];
    lemma_sb_run_app(start, bytes.take(pos), seq![c]);
    lemma_sb_run_one(before, c);
    assert(bytes.take(pos) + seq![c] =~= bytes.take(pos + 1));
    lemma_sb_run_app(start, bytes.take(pos + 1), bytes.skip(pos + 1));
    assert(bytes.take(pos + 1) + bytes.skip(pos + 1) =~= bytes);
}

/// A byte of input preserves the machine's invariants and advances the row
/// count by at most the one byte consumed.
#[verifier::rlimit(100)]
pub proof fn lemma_sb_step_wf(s: SbState, c: u8)
    requires
        sb_wf(s),
        s.current_byte < usize::MAX,
    ensures
        sb_step(s, c) matches Ok(n) ==> n.current_byte == s.current_byte && sb_wf(
            SbState { current_byte: (n.current_byte + 1) as usize, ..n },
        ),
{
    reveal(sb_step);
    let esc = sb_try_escape(s, c);
    if esc.1 {
        lemma_sb_try_next_row_wf(esc.0, c);
    } else {
        let qt = sb_try_quote(esc.0, c);
        if qt.1 {
            lemma_sb_try_next_row_wf(qt.0, c);
        } else {
            lemma_sb_try_next_row_wf(qt.0, c);
            match sb_try_next_row(qt.0, c) {
                Ok((after_row, false)) => {
                    lemma_sb_end_field_wf(after_row);
                },
                _ => {},
            }
        }
    }
}

/// The field separator of the `k`-th rung of the hypothesis space: the
/// zero-initialized default, tab, comma, semicolon, pipe, colon.
pub open spec fn sb_seed_sep(k: int) -> u8 {
    if k == 0 {
        0u8
    } else if k == 1 {
        9u8
    } else if k == 2 {
        44u8
    } else if k == 3 {
        59u8
    } else if k == 4 {
        124u8
    } else {
        58u8
    }
}

/// The quote hypothesis of the `k`-th rung: none, double quote, single
/// quote.
pub open spec fn sb_seed_quote(k: int) -> Option<u8> {
    if k == 0 {
        Option::<u8>::None
    } else if k == 1 {
        Some(34u8)
    } else {
        Some(39u8)
    }
}

/// The `i`-th seeded hypothesis, for `i` below [`SB_SEED_COUNT`]: the
/// de-duplicated product of record terminator, field separator, quote
/// character, escape character and quoted-line-break tolerance, with one
/// speculative first-row column already open.
pub open spec fn sb_seed(i: int, has_headers: Option<bool>) -> SbState {
    SbState {
        first_row: seq![Seq::<u8>::empty()],
        quote_active: false,
        escape_active: false,
        quote_char: sb_seed_quote((i / 4) % 3),
        escape_char: if (i / 2) % 2 == 0 {
            Option::<u8>::None
        } else {
            Some(92u8)
        },
        current_cell_is_numeric: false,
        current_cell_is_ascii: false,
        ascii_columns: seq![true],
        numeric_columns: seq![true],
        col_min_len: seq![usize::MAX],
        col_max_len: seq![0usize],
        prev_char_was_cr: false,
        record_terminator: if i / 72 == 0 {
            RecordTerminator::Crlf
        } else {
            RecordTerminator::Byte(10u8)
        },
        field_separator_is_terminator: false,
        field_separator: sb_seed_sep((i / 12) % 6),
        has_escaped_line_breaks: false,
        has_quoted_line_breaks: i % 2 == 1,
        current_row: 0,
        current_col: 0,
        current_cell_byte: 0,
        current_byte: 0,
        has_headers_user: has_headers,
    }
}

/// How many distinct hypotheses the factory seeds.
pub const SB_SEED_COUNT: usize = 144;

/// One executable candidate state machine, proved to follow [`sb_step`]
/// byte for byte.
#[derive(Clone, Debug, PartialEq, Eq, Hash)]
pub struct SingleByteDialectValidator {
    pub first_row: Vec<Vec<u8>>,
    pub quote_active: bool,
    pub escape_active: bool,
    pub quote_char: Option<u8>,
    pub escape_char: Option<u8>,
    pub current_cell_is_numeric: bool,
    pub current_cell_is_ascii: bool,
    pub ascii_columns: Vec<bool>,
    pub numeric_columns: Vec<bool>,
    pub col_min_len: Vec<usize>,
    pub col_max_len: Vec<usize>,
    pub prev_char_was_cr: bool,
    pub record_terminator: RecordTerminator,
    pub field_separator_is_terminator: bool,
    pub field_separator: u8,
    pub has_escaped_line_breaks: bool,
    pub has_quoted_line_breaks: bool,
    pub current_row: usize,
    pub current_col: usize,
    pub current_cell_byte: usize,
    pub current_byte: usize,
    pub has_headers_user: Option<bool>,
}

impl View for SingleByteDialectValidator {
    type V = SbState;

    open spec fn view(&self) -> SbState {
        SbState {
            first_row: self.first_row.deep_view(),
            quote_active: self.quote_active,
            escape_active: self.escape_active,
            quote_char: self.quote_char,
            escape_char: self.escape_char,
            current_cell_is_numeric: self.current_cell_is_numeric,
            current_cell_is_ascii: self.current_cell_is_ascii,
            ascii_columns: self.ascii_columns@,
            numeric_columns: self.numeric_columns@,
            col_min_len: self.col_min_len@,
            col_max_len: self.col_max_len@,
            prev_char_was_cr: self.prev_char_was_cr,
            record_terminator: self.record_terminator,
            field_separator_is_terminator: self.field_separator_is_terminator,
            field_separator: self.field_separator,
            has_escaped_line_breaks: self.has_escaped_line_breaks,
            has_quoted_line_breaks: self.has_quoted_line_breaks,
            current_row: self.current_row,
            current_col: self.current_col,
            current_cell_byte: self.current_cell_byte,
            current_byte: self.current_byte,
            has_headers_user: self.has_headers_user,
        }
    }
}

impl SingleByteDialectValidator {
    /// Seed the whole hypothesis space: every combination of record
    /// terminator, field separator, quote, escape and quoted-line-break
    /// tolerance this detector entertains, de-duplicated.
    pub fn make(has_headers: Option<bool>) -> (r: Vec<SingleByteDialectValidator>)
        ensures
            r@.len() == SB_SEED_COUNT,
            forall|i: int| 0 <= i < SB_SEED_COUNT ==> (#[trigger] r@[i])@ == sb_seed(i, has_headers),
    {
        let mut r: Vec<SingleByteDialectValidator> = Vec::new();
        let mut i: usize = 0;
        while i < SB_SEED_COUNT
            invariant
                i <= SB_SEED_COUNT,
                r@.len() == i,
                forall|j: int| 0 <= j < i ==> (#[trigger] r@[j])@ == sb_seed(j, has_headers),
            decreases SB_SEED_COUNT - i,
        {
            let record_terminator = if i / 72 == 0 {
                RecordTerminator::Crlf
            } else {
                RecordTerminator::Byte(10u8)
            };
            let sep_k = (i / 12) % 6;
            let field_separator: u8 = if sep_k == 0 {
                0u8
            } else if sep_k == 1 {
                9u8
            } else if sep_k == 2 {
                44u8
            } else if sep_k == 3 {
                59u8
            } else if sep_k == 4 {
                124u8
            } else {
                58u8
            };
            let quote_k = (i / 4) % 3;
            let quote_char: Option<u8> = if quote_k == 0 {
                None
            } else if quote_k == 1 {
                Some(34u8)
            } else {
                Some(39u8)
            };
            let escape_char: Option<u8> = if (i / 2) % 2 == 0 {
                None
            } else {
                Some(92u8)
            };
            let mut first_row: Vec<Vec<u8>> = Vec::new();
            first_row.push(Vec::new());
            let mut ascii_columns: Vec<bool> = Vec::new();
            ascii_columns.push(true);
            let mut numeric_columns: Vec<bool> = Vec::new();
            numeric_columns.push(true);
            let mut col_min_len: Vec<usize> = Vec::new();
            col_min_len.push(usize::MAX);
            let mut col_max_len: Vec<usize> = Vec::new();
            col_max_len.push(0);
            let v = SingleByteDialectValidator {
                first_row,
                quote_active: false,
                escape_active: false,
                quote_char,
                escape_char,
                current_cell_is_numeric: false,
                current_cell_is_ascii: false,
                ascii_columns,
                numeric_columns,
                col_min_len,
                col_max_len,
                prev_char_was_cr: false,
                record_terminator,
                field_separator_is_terminator: false,
                field_separator,
                has_escaped_line_breaks: false,
                has_quoted_line_breaks: i % 2 == 1,
                current_row: 0,
                current_col: 0,
                current_cell_byte: 0,
                current_byte: 0,
                has_headers_user: has_headers,
            };
            proof {
                assert(v@ =~~= sb_seed(i as int, has_headers));
            }
            r.push(v);
            i = i + 1;
        }
        r
    }

    fn push_first_row_cell(&mut self)
        ensures
            final(self)@ == sb_push_first_row_cell(old(self)@),
    {
        self.first_row.push(Vec::new());
        self.col_min_len.push(usize::MAX);
        self.col_max_len.push(0);
        self.ascii_columns.push(true);
        self.numeric_columns.push(true);
        proof {
            assert(self@ =~~= sb_push_first_row_cell(old(self)@));
        }
    }

    fn pop_first_row_cell(&mut self)
        requires
            old(self)@.first_row.len() >= 1,
            old(self)@.col_min_len.len() >= 1,
            old(self)@.col_max_len.len() >= 1,
            old(self)@.ascii_columns.len() >= 1,
            old(self)@.numeric_columns.len() >= 1,
        ensures
            final(self)@ == sb_pop_first_row_cell(old(self)@),
    {
        let _ = self.first_row.pop();
        let _ = self.col_min_len.pop();
        let _ = self.col_max_len.pop();
        let _ = self.ascii_columns.pop();
        let _ = self.numeric_columns.pop();
        proof {
            assert(self@ =~~= sb_pop_first_row_cell(old(self)@));
        }
    }

    fn push_first_row_char(&mut self, c: u8)
        requires
            old(self)@.current_col < old(self)@.first_row.len(),
        ensures
            final(self)@ == (SbState {
                first_row: old(self)@.first_row.update(
                    old(self)@.current_col as int,
                    old(self)@.first_row[old(self)@.current_col as int].push(c),
                ),
                ..old(self)@
            }),
    {
        let i = self.current_col;
        self.first_row[i].push(c);
        proof {
            assert(self@ =~~= (SbState {
                first_row: old(self)@.first_row.update(
                    old(self)@.current_col as int,
                    old(self)@.first_row[old(self)@.current_col as int].push(c),
                ),
                ..old(self)@
            }));
        }
    }

    fn try_escape(&mut self, c: u8) -> (consumed: bool)
        ensures
            ({
                let p = sb_try_escape(old(self)@, c);
                final(self)@ == p.0 && consumed == p.1
            }),
    {
        if self.escape_active {
            self.escape_active = false;
            return true;
        }
        if let Some(e) = self.escape_char {
            if c == e {
                self.escape_active = true;
                true
            } else {
                false
            }
        } else {
            false
        }
    }

    fn try_quote(&mut self, c: u8) -> (consumed: bool)
        ensures
            ({
                let p = sb_try_quote(old(self)@, c);
                final(self)@ == p.0 && consumed == p.1
            }),
    {
        if let Some(q) = self.quote_char {
            let was_active = self.quote_active;
            if q == c {
                self.quote_active = !self.quote_active;
            }
            was_active
        } else {
            false
        }
    }

    fn end_field(&mut self) -> (r: Result<(), StructuralViolation>)
        requires
            sb_wf(old(self)@),
        ensures
            match sb_end_field(old(self)@) {
                Ok(n) => r is Ok && final(self)@ == n,
                Err(e) => r == Err::<(), StructuralViolation>(e),
            },
    {
        if self.current_row != 0 {
            if self.current_col == self.ascii_columns.len() {
                return Err(StructuralViolation::InconsistentRowLength);
            }
            let i = self.current_col;
            let was_ascii = self.ascii_columns[i];
            self.ascii_columns[i] = was_ascii && self.current_cell_is_ascii;
            let was_numeric = self.numeric_columns[i];
            self.numeric_columns[i] = was_numeric && self.current_cell_is_numeric;
            let low = self.col_min_len[i];
            self.col_min_len[i] = if self.current_cell_byte < low {
                self.current_cell_byte
            } else {
                low
            };
            let high = self.col_max_len[i];
            self.col_max_len[i] = if self.current_cell_byte > high {
                self.current_cell_byte
            } else {
                high
            };
        } else {
            self.push_first_row_cell();
            if self.current_col > SB_MAX_COLUMNS {
                return Err(StructuralViolation::TooManyColumns);
            }
        }
        self.quote_active = false;
        self.escape_active = false;
        self.current_cell_is_ascii = true;
        self.current_cell_is_numeric = true;
        self.current_cell_byte = 0;
        self.current_col = self.current_col + 1;
        Ok(())
    }

    fn end_row(&mut self) -> (r: Result<(), StructuralViolation>)
        requires
            sb_wf(old(self)@),
            old(self)@.current_row < usize::MAX,
        ensures
            match sb_end_row(old(self)@) {
                Ok(n) => r is Ok && final(self)@ == n,
                Err(e) => r == Err::<(), StructuralViolation>(e),
            },
    {
        if self.current_row != 0 && self.current_col != self.first_row.len() - 1 {
            return Err(StructuralViolation::MissingColumn);
        }
        if self.current_col == 0 {
            return Err(StructuralViolation::OnlyOneColumn);
        }
        let was_first_row = self.current_row == 0;
        if let Err(e) = self.end_field() {
            return Err(e);
        }
        if was_first_row {
            self.pop_first_row_cell();
        }
        self.prev_char_was_cr = false;
        self.current_col = 0;
        self.current_row = self.current_row + 1;
        Ok(())
    }

    fn try_next_row(&mut self, c: u8) -> (r: Result<bool, StructuralViolation>)
        requires
            sb_wf(old(self)@),
            old(self)@.current_row < usize::MAX,
        ensures
            match sb_try_next_row(old(self)@, c) {
                Ok(p) => r == Ok::<bool, StructuralViolation>(p.1) && final(self)@ == p.0,
                Err(e) => r == Err::<bool, StructuralViolation>(e),
            },
    {
        match self.record_terminator {
            RecordTerminator::Byte(t) => {
                if c == t {
                    match self.end_row() {
                        Ok(()) => Ok(true),
                        Err(e) => Err(e),
                    }
                } else {
                    Ok(false)
                }
            },
            RecordTerminator::Crlf => {
                if c == 13u8 {
                    self.prev_char_was_cr = true;
                    Ok(true)
                } else if c == 10u8 && self.prev_char_was_cr {
                    self.prev_char_was_cr = false;
                    match self.end_row() {
                        Ok(()) => Ok(true),
                        Err(e) => Err(e),
                    }
                } else {
                    self.prev_char_was_cr = false;
                    Ok(false)
                }
            },
        }
    }

    fn try_next_field(&mut self, c: u8) -> (r: Result<bool, StructuralViolation>)
        requires
            sb_wf(old(self)@),
        ensures
            match sb_try_next_field(old(self)@, c) {
                Ok(p) => r == Ok::<bool, StructuralViolation>(p.1) && final(self)@ == p.0,
                Err(e) => r == Err::<bool, StructuralViolation>(e),
            },
    {
        if c == self.field_separator {
            match self.end_field() {
                Ok(()) => Ok(true),
                Err(e) => Err(e),
            }
        } else {
            Ok(false)
        }
    }

    fn try_next_char(&mut self, c: u8) -> (r: Result<(), StructuralViolation>)
        requires
            sb_wf(old(self)@),
        ensures
            match sb_try_next_char(old(self)@, c) {
                Ok(n) => r is Ok && final(self)@ == n,
                Err(e) => r == Err::<(), StructuralViolation>(e),
            },
    {
        if self.current_row == 0 {
            self.push_first_row_char(c);
        }
        self.current_cell_is_numeric = self.current_cell_is_numeric && 48 <= c && c <= 57;
        self.current_cell_is_ascii = self.current_cell_is_ascii && c < 128;
        self.current_cell_byte = self.current_cell_byte + 1;
        if self.current_cell_byte > SB_MAX_CELL_BYTES {
            Err(StructuralViolation::CellTooLong)
        } else {
            Ok(())
        }
    }

    fn try_process_byte(&mut self, c: u8) -> (r: Result<(), StructuralViolation>)
        requires
            sb_wf(old(self)@),
            old(self)@.current_byte < usize::MAX,
        ensures
            match sb_step(old(self)@, c) {
                Ok(n) => r is Ok && final(self)@ == n,
                Err(e) => r == Err::<(), StructuralViolation>(e),
            },
    {
        proof {
            reveal(sb_step);
        }
        let heslb = self.has_escaped_line_breaks;
        let hqlb = self.has_quoted_line_breaks;
        if self.try_escape(c) {
            if !heslb {
                if let Err(e) = self.try_next_row(c) {
                    return Err(e);
                }
            }
            return Ok(());
        }
        if self.try_quote(c) {
            if !hqlb {
                if let Err(e) = self.try_next_row(c) {
                    return Err(e);
                }
            }
            return Ok(());
        }
        match self.try_next_row(c) {
            Err(e) => {
                return Err(e);
            },
            Ok(true) => {
                return Ok(());
            },
            Ok(false) => {},
        }
        match self.try_next_field(c) {
            Err(e) => {
                return Err(e);
            },
            Ok(true) => {
                return Ok(());
            },
            Ok(false) => {},
        }
        self.try_next_char(c)
    }


    fn all_bytes_ascii_exec(cell: &Vec<u8>) -> (r: bool)
        ensures
            r == sb_all_bytes_ascii(cell@),
    {
        let mut i: usize = 0;
        while i < cell.len()
            invariant
                i <= cell@.len(),
                forall|j: int| 0 <= j < i ==> #[trigger] cell@[j] < 128,
            decreases cell@.len() - i,
        {
            if cell[i] >= 128 {
                return false;
            }
            i = i + 1;
        }
        true
    }

    fn all_chars_digits_exec(text: &String) -> (r: bool)
        ensures
            r == sb_all_chars_digits(text@),
    {
        let slice = text.as_str();
        let n = slice.unicode_len();
        let mut i: usize = 0;
        while i < n
            invariant
                i <= n,
                n == text@.len(),
                slice@ == text@,
                forall|j: int| 0 <= j < i ==> 48 <= (#[trigger] text@[j]) as u32 <= 57,
            decreases n - i,
        {
            let c = slice.get_char(i);
            let code = c as u32;
            if code < 48 || code > 57 {
                return false;
            }
            i = i + 1;
        }
        true
    }

    /// Decode the captured first row and decide whether it is a header,
    /// honoring the caller's override first.
    pub fn try_get_headers(&self) -> (r: Option<Vec<String>>)
        requires
            sb_cols_aligned(self@),
        ensures
            match sb_headers(self@) {
                Some(m) => r matches Some(h) && h.deep_view() == m,
                None => r is None,
            },
    {
        let n = self.first_row.len();
        let mut decoded: Vec<String> = Vec::new();
        let mut i: usize = 0;
        while i < n
            invariant
                i <= n,
                n == self@.first_row.len(),
                sb_cols_aligned(self@),
                decoded@.len() == i,
                forall|j: int| 0 <= j < i ==> vstd::utf8::valid_utf8(#[trigger] self@.first_row[j]),
                forall|j: int|
                    0 <= j < i ==> (#[trigger] decoded@[j])@ == vstd::utf8::decode_utf8(
                        self@.first_row[j],
                    ),
            decreases n - i,
        {
            proof {
                assert(self@.first_row[i as int] == self.first_row@[i as int]@);
            }
            match utf8_to_string(&self.first_row[i]) {
                None => {
                    proof {
                        assert(!vstd::utf8::valid_utf8(self@.first_row[i as int]));
                    }
                    return None;
                },
                Some(text) => {
                    decoded.push(text);
                },
            }
            i = i + 1;
        }
        let ghost hdr = Seq::new(
            self@.first_row.len(),
            |k: int| vstd::utf8::decode_utf8(self@.first_row[k]),
        );
        proof {
            assert(decoded.deep_view() =~~= hdr);
        }
        match self.has_headers_user {
            Some(true) => {
                return Some(decoded);
            },
            Some(false) => {
                return None;
            },
            None => {},
        }
        let mut known = false;
        let mut i: usize = 0;
        while i < n
            invariant
                i <= n,
                n == self@.first_row.len(),
                decoded@.len() == n,
                decoded.deep_view() == hdr,
                hdr.len() == n,
                forall|j: int| 0 <= j < n ==> (#[trigger] decoded@[j])@ == hdr[j],
                known == (exists|j: int| 0 <= j < i && sb_known_header(#[trigger] hdr[j])),
            decreases n - i,
        {
            proof {
                assert(decoded@[i as int]@ == hdr[i as int]);
            }
            if is_known_header(&decoded[i]) {
                known = true;
            }
            i = i + 1;
        }
        let mut len_out = false;
        let mut i: usize = 0;
        while i < n
            invariant
                i <= n,
                n == self@.first_row.len(),
                sb_cols_aligned(self@),
                len_out == (exists|j: int|
                    0 <= j < i && !(self@.col_min_len[j] <= (#[trigger] self@.first_row[j]).len()
                        <= self@.col_max_len[j])),
            decreases n - i,
        {
            proof {
                assert(self@.first_row[i as int] == self.first_row@[i as int]@);
            }
            let cell_len = self.first_row[i].len();
            if !(self.col_min_len[i] <= cell_len && cell_len <= self.col_max_len[i]) {
                len_out = true;
            }
            i = i + 1;
        }
        let mut ascii_breach = false;
        let mut i: usize = 0;
        while i < n
            invariant
                i <= n,
                n == self@.first_row.len(),
                sb_cols_aligned(self@),
                ascii_breach == (exists|j: int|
                    0 <= j < i && self@.ascii_columns[j] && !sb_all_bytes_ascii(
                        #[trigger] self@.first_row[j],
                    )),
            decreases n - i,
        {
            proof {
                assert(self@.first_row[i as int] == self.first_row@[i as int]@);
            }
            if self.ascii_columns[i] && !Self::all_bytes_ascii_exec(&self.first_row[i]) {
                ascii_breach = true;
            }
            i = i + 1;
        }
        let mut digit_breach = false;
        let mut i: usize = 0;
        while i < n
            invariant
                i <= n,
                n == self@.first_row.len(),
                sb_cols_aligned(self@),
                decoded@.len() == n,
                hdr.len() == n,
                forall|j: int| 0 <= j < n ==> (#[trigger] decoded@[j])@ == hdr[j],
                digit_breach == (exists|j: int|
                    0 <= j < i && self@.numeric_columns[j] && !sb_all_chars_digits(
                        #[trigger] hdr[j],
                    )),
            decreases n - i,
        {
            proof {
                assert(decoded@[i as int]@ == hdr[i as int]);
            }
            if self.numeric_columns[i] && !Self::all_chars_digits_exec(&decoded[i]) {
                digit_breach = true;
            }
            i = i + 1;
        }
        if known || len_out || ascii_breach || digit_breach {
            Some(decoded)
        } else {
            None
        }
    }

    /// Collapse this candidate into a dialect: the phantom trailing
    /// column is popped, per-column emptiness is frozen, an all-empty
    /// table is rejected, and the header decision fixes the data-row
    /// count. The result always satisfies the dialect invariants.
    pub fn finalize(&mut self) -> (r: Option<SingleByteDialect>)
        requires
            sb_wf(old(self)@),
        ensures
            match sb_finalize(old(self)@) {
                Some(m) => r matches Some(d) && d@ == m && d@.wf(),
                None => r is None,
            },
    {
        let last = self.col_max_len.len() - 1;
        let last_col_is_empty = self.col_max_len[last] == 0;
        let last_name_is_empty = self.first_row[last].len() == 0;
        if last_col_is_empty && last_name_is_empty {
            self.field_separator_is_terminator = true;
            self.pop_first_row_cell();
        }
        proof {
            assert(self@ =~~= sb_check_fsit(old(self)@));
        }
        let ghost t = self@;
        let n = self.col_max_len.len();
        let mut empty_columns: Vec<bool> = Vec::new();
        let mut all_empty = true;
        let mut i: usize = 0;
        while i < n
            invariant
                i <= n,
                n == self@.col_max_len.len(),
                empty_columns@.len() == i,
                forall|j: int|
                    0 <= j < i ==> #[trigger] empty_columns@[j] == (self@.col_max_len[j] == 0),
                all_empty == (forall|j: int| 0 <= j < i ==> #[trigger] self@.col_max_len[j] == 0),
            decreases n - i,
        {
            let is_empty = self.col_max_len[i] == 0;
            empty_columns.push(is_empty);
            if !is_empty {
                all_empty = false;
            }
            i = i + 1;
        }
        let ghost empty_spec = Seq::new(t.col_max_len.len(), |k: int| t.col_max_len[k] == 0);
        proof {
            assert(empty_columns@ =~= empty_spec);
        }
        if all_empty {
            return None;
        }
        proof {
            if self.current_row == 0 {
                let w = choose|k: int| 0 <= k < empty_spec.len() && !empty_spec[k];
                assert(self@.col_max_len[w] != 0);
                assert(old(self)@.col_max_len[w] == self@.col_max_len[w]);
                assert(false);
            }
        }
        let header = self.try_get_headers();
        let total_rows = if header.is_some() {
            self.current_row - 1
        } else {
            self.current_row
        };
        let mut numeric_columns: Vec<bool> = Vec::new();
        core::mem::swap(&mut self.numeric_columns, &mut numeric_columns);
        let d = SingleByteDialect {
            header,
            field_separator: self.field_separator,
            quote_char: self.quote_char,
            escape_char: self.escape_char,
            empty_columns,
            numeric_columns,
            record_terminator: self.record_terminator,
            field_separator_is_terminator: self.field_separator_is_terminator,
            has_escaped_line_breaks: self.has_escaped_line_breaks,
            has_quoted_line_breaks: self.has_quoted_line_breaks,
            total_rows,
        };
        proof {
            let m = match sb_finalize(old(self)@) {
                Some(m) => m,
                None => arbitrary(),
            };
            assert(!(forall|j: int| 0 <= j < n ==> t.col_max_len[j] == 0));
            let w = choose|j: int| 0 <= j < n && !(t.col_max_len[j] == 0);
            assert(!empty_spec[w]);
            assert(d@.empty_columns =~= m.empty_columns);
            assert(d@.header == m.header);
            assert(d@ =~~= m);
            assert(!d@.empty_columns[w]);
        }
        Some(d)
    }

    /// Feed one chunk of the stream to this candidate. An error means the
    /// input violated the candidate's structure; the caller evicts it.
    #[verifier::rlimit(100)]
    pub fn try_process_chunk(&mut self, chunk: &[u8]) -> (r: Result<(), StructuralViolation>)
        requires
            sb_wf(old(self)@),
            old(self)@.current_byte + chunk@.len() <= usize::MAX,
        ensures
            match sb_run(old(self)@, chunk@) {
                Ok(n) => r is Ok && final(self)@ == n && sb_wf(n),
                Err(e) => r == Err::<(), StructuralViolation>(e),
            },
    {
        let ghost start = self@;
        let mut pos: usize = 0;
        while pos < chunk.len()
            invariant
                start == old(self)@,
                pos <= chunk@.len(),
                start.current_byte + chunk@.len() <= usize::MAX,
                sb_run(start, chunk@.take(pos as int)) == Ok::<SbState, StructuralViolation>(self@),
                sb_wf(self@),
                self@.current_byte == start.current_byte + pos,
            decreases chunk@.len() - pos,
        {
            let c = chunk[pos];
            let ghost before = self@;
            proof {
                lemma_sb_step_wf(before, c);
            }
            let res = self.try_process_byte(c);
            if let Err(e) = res {
                proof {
                    lemma_sb_chunk_error(start, chunk@, pos as int, before, e);
                }
                return Err(e);
            }
            proof {
                lemma_sb_chunk_advance(start, chunk@, pos as int, before, self@);
            }
            self.current_byte = self.current_byte + 1;
            pos = pos + 1;
        }
        proof {
            assert(chunk@.take(pos as int) =~= chunk@);
        }
        Ok(())
    }
}

/// Trailing-separator detection at end of stream: if the last tracked
/// column stayed empty in every data row and its header cell is empty,
/// every row ended with the separator, so that column is a phantom.
pub open spec fn sb_check_fsit(s: SbState) -> SbState {
    if s.col_max_len.last() == 0 && s.first_row.last().len() == 0 {
        SbState { field_separator_is_terminator: true, ..sb_pop_first_row_cell(s) }
    } else {
        s
    }
}

/// The fixed vocabulary of cell texts that mark a first row as a header.
pub open spec fn sb_known_header(cell: Seq<char>) -> bool {
    ||| cell == "email"@
    ||| cell == "id"@
    ||| cell == "full_name"@
    ||| cell == "phone_number"@
    ||| cell == "address"@
    ||| cell == "phone"@
    ||| cell == "password"@
    ||| cell == "first_name"@
    ||| cell == "fio"@
    ||| cell == "\u{430}\u{434}\u{440}\u{435}\u{441}"@
    ||| cell == "date_of_birth"@
    ||| cell == "time"@
    ||| cell == "status"@
    ||| cell == "city"@
    ||| cell == "admin"@
    ||| cell == "country"@
    ||| cell == "created_at"@
    ||| cell == "gender"@
    ||| cell == "instagram"@
    ||| cell == "ip"@
    ||| cell == "last_name"@
    ||| cell == "lastname"@
    ||| cell == "vip"@
    ||| cell == "work"@
    ||| cell == "\u{442}\u{435}\u{43b}\u{435}\u{444}\u{43e}\u{43d}"@
}

/// Every byte of the cell is ASCII.
pub open spec fn sb_all_bytes_ascii(cell: Seq<u8>) -> bool {
    forall|j: int| 0 <= j < cell.len() ==> #[trigger] cell[j] < 128
}

/// Every character of the cell is an ASCII digit.
pub open spec fn sb_all_chars_digits(cell: Seq<char>) -> bool {
    forall|j: int| 0 <= j < cell.len() ==> 48 <= (#[trigger] cell[j]) as u32 <= 57
}

/// The first row decoded as text, when it is a header: every cell must be
/// valid UTF-8, the caller's override wins, and otherwise a header is
/// assumed when a known header word appears, a first-row cell's byte
/// length falls outside the lengths seen in its column, a first-row cell
/// is non-ASCII in an all-ASCII column, or a first-row cell has a
/// non-digit character in an all-digit column.
pub open spec fn sb_headers(s: SbState) -> Option<Seq<Seq<char>>> {
    if !(forall|i: int| 0 <= i < s.first_row.len() ==> vstd::utf8::valid_utf8(#[trigger] s.first_row[i])) {
        None
    } else {
        let hdr = Seq::new(s.first_row.len(), |i: int| vstd::utf8::decode_utf8(s.first_row[i]));
        if s.has_headers_user == Some(true) {
            Some(hdr)
        } else if s.has_headers_user == Some(false) {
            None
        } else {
            let fires = {
                ||| exists|i: int| 0 <= i < hdr.len() && sb_known_header(#[trigger] hdr[i])
                ||| exists|i: int|
                    0 <= i < s.first_row.len() && !(s.col_min_len[i] <= (#[trigger] s.first_row[i]).len()
                        <= s.col_max_len[i])
                ||| exists|i: int|
                    0 <= i < s.first_row.len() && s.ascii_columns[i] && !sb_all_bytes_ascii(
                        #[trigger] s.first_row[i],
                    )
                ||| exists|i: int|
                    0 <= i < hdr.len() && s.numeric_columns[i] && !sb_all_chars_digits(
                        #[trigger] hdr[i],
                    )
            };
            if fires {
                Some(hdr)
            } else {
                None
            }
        }
    }
}

/// What finalization yields: nothing when every column is empty, else the
/// frozen dialect with the phantom trailing column popped, the header
/// decision, and the data-row count.
pub open spec fn sb_finalize(s: SbState) -> Option<crate::single_byte::SbDialectModel> {
    let t = sb_check_fsit(s);
    let empty = Seq::new(t.col_max_len.len(), |i: int| t.col_max_len[i] == 0);
    if forall|i: int| 0 <= i < empty.len() ==> #[trigger] empty[i] {
        None
    } else {
        let hdr = sb_headers(t);
        Some(
            crate::single_byte::SbDialectModel {
                header: hdr,
                field_separator: t.field_separator,
                quote_char: t.quote_char,
                escape_char: t.escape_char,
                empty_columns: empty,
                numeric_columns: t.numeric_columns,
                record_terminator: t.record_terminator,
                field_separator_is_terminator: t.field_separator_is_terminator,
                has_escaped_line_breaks: t.has_escaped_line_breaks,
                has_quoted_line_breaks: t.has_quoted_line_breaks,
                total_rows: if hdr is Some {
                    (t.current_row - 1) as nat
                } else {
                    t.current_row as nat
                },
            },
        )
    }
}

/// Relies on `String::from_utf8`: it succeeds exactly on valid UTF-8
/// input and returns the string decoding those bytes.
#[verifier::external_body]
fn utf8_to_string(bytes: &Vec<u8>) -> (r: Option<String>)
    ensures
        r is Some <==> vstd::utf8::valid_utf8(bytes@),
        r matches Some(s) ==> s@ == vstd::utf8::decode_utf8(bytes@),
{
    String::from_utf8(bytes.clone()).ok()
}

fn str_cell_eq(s: &String, lit: &str) -> (r: bool)
    ensures
        r == (s@ == lit@),
{
    let owned: String = lit.to_owned();
    s.eq(&owned)
}

fn is_known_header(s: &String) -> (r: bool)
    ensures
        r == sb_known_header(s@),
{
    str_cell_eq(s, "email") || str_cell_eq(s, "id") || str_cell_eq(s, "full_name")
        || str_cell_eq(s, "phone_number") || str_cell_eq(s, "address") || str_cell_eq(s, "phone")
        || str_cell_eq(s, "password") || str_cell_eq(s, "first_name") || str_cell_eq(s, "fio")
        || str_cell_eq(s, "\u{430}\u{434}\u{440}\u{435}\u{441}") || str_cell_eq(s, "date_of_birth")
        || str_cell_eq(s, "time") || str_cell_eq(s, "status") || str_cell_eq(s, "city")
        || str_cell_eq(s, "admin") || str_cell_eq(s, "country") || str_cell_eq(s, "created_at")
        || str_cell_eq(s, "gender") || str_cell_eq(s, "instagram") || str_cell_eq(s, "ip")
        || str_cell_eq(s, "last_name") || str_cell_eq(s, "lastname") || str_cell_eq(s, "vip")
        || str_cell_eq(s, "work") || str_cell_eq(s, "\u{442}\u{435}\u{43b}\u{435}\u{444}\u{43e}\u{43d}")
}

} // verus!
