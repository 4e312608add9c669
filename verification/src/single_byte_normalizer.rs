//! Second pass for the single-byte family: stream the source again under
//! the winning dialect and emit its ASV image, dropping columns that were
//! empty in every data row and synthesizing a header when none was found.

use vstd::prelude::*;
use crate::single_byte::{RecordTerminator, SingleByteDialect, SbDialectModel};

verus! {

/// Mutable cursor of the single-byte normalizer.
#[derive(Clone, Copy, Debug, PartialEq, Eq, Structural)]
pub struct SbNrmState {
    pub escape_active: bool,
    pub quote_active: bool,
    pub current_column: usize,
    pub prev_char_was_cr: bool,
    pub is_first_row: bool,
}

/// Where every normalization starts: top of the first row, nothing armed.
pub open spec fn sbn_initial() -> SbNrmState {
    SbNrmState {
        escape_active: false,
        quote_active: false,
        current_column: 0,
        prev_char_was_cr: false,
        is_first_row: true,
    }
}

/// The column exists and was not empty in every data row, so its bytes
/// and separator are emitted.
pub open spec fn sbn_should_emit(d: SbDialectModel, col: usize) -> bool {
    col < d.empty_columns.len() && !d.empty_columns[col as int]
}

/// A field ends: the cursor enters the next source column, and the
/// separator is emitted unless that column is dropped as empty, never
/// after the last physical column.
pub open spec fn sbn_end_field(d: SbDialectModel, s: SbNrmState) -> (SbNrmState, Seq<u8>) {
    let next = SbNrmState {
        quote_active: false,
        escape_active: false,
        current_column: (s.current_column + 1) as usize,
        ..s
    };
    if next.current_column == d.empty_columns.len() {
        (next, Seq::<u8>::empty())
    } else if sbn_should_emit(d, next.current_column) {
        (next, seq![31u8])
    } else {
        (next, Seq::<u8>::empty())
    }
}

/// A row ends: the trailing cell is closed like a field, then one record
/// separator is emitted and the cursor returns to column zero of a
/// non-first row.
pub open spec fn sbn_end_row(d: SbDialectModel, s: SbNrmState) -> (SbNrmState, Seq<u8>) {
    let closed = sbn_end_field(d, s);
    (
        SbNrmState {
            prev_char_was_cr: false,
            current_column: 0,
            is_first_row: false,
            ..closed.0
        },
        closed.1 + seq![30u8],
    )
}

/// Escape handling: the armed byte is emitted literally, the escape byte
/// itself is consumed silently.
pub open spec fn sbn_try_escape(d: SbDialectModel, s: SbNrmState, c: u8) -> (
    SbNrmState,
    Seq<u8>,
    bool,
) {
    if s.escape_active {
        (SbNrmState { escape_active: false, ..s }, seq![c], true)
    } else if d.escape_char == Some(c) {
        (SbNrmState { escape_active: true, ..s }, Seq::<u8>::empty(), true)
    } else {
        (s, Seq::<u8>::empty(), false)
    }
}

/// Quote handling: the quote byte toggles the span silently; any other
/// byte inside an active span is emitted literally.
pub open spec fn sbn_try_quote(d: SbDialectModel, s: SbNrmState, c: u8) -> (
    SbNrmState,
    Seq<u8>,
    bool,
) {
    match d.quote_char {
        Some(q) => {
            if q == c {
                (SbNrmState { quote_active: !s.quote_active, ..s }, Seq::<u8>::empty(), true)
            } else if s.quote_active {
                (s, seq![c], true)
            } else {
                (s, Seq::<u8>::empty(), false)
            }
        },
        None => (s, Seq::<u8>::empty(), false),
    }
}

/// Record-terminator handling, mirroring the detector: a single-byte
/// terminator ends the row on its byte; under CRLF a carriage return is
/// consumed silently and a line feed ends the row only right after one.
pub open spec fn sbn_try_next_row(d: SbDialectModel, s: SbNrmState, c: u8) -> (
    SbNrmState,
    Seq<u8>,
    bool,
) {
    match d.record_terminator {
        RecordTerminator::Byte(t) => {
            if c == t {
                let done = sbn_end_row(d, s);
                (done.0, done.1, true)
            } else {
                (s, Seq::<u8>::empty(), false)
            }
        },
        RecordTerminator::Crlf => {
            if c == 13u8 {
                (SbNrmState { prev_char_was_cr: true, ..s }, Seq::<u8>::empty(), true)
            } else if c == 10u8 && s.prev_char_was_cr {
                let done = sbn_end_row(d, SbNrmState { prev_char_was_cr: false, ..s });
                (done.0, done.1, true)
            } else {
                (SbNrmState { prev_char_was_cr: false, ..s }, Seq::<u8>::empty(), false)
            }
        },
    }
}

/// Field-separator handling.
pub open spec fn sbn_try_next_field(d: SbDialectModel, s: SbNrmState, c: u8) -> (
    SbNrmState,
    Seq<u8>,
    bool,
) {
    if c == d.field_separator {
        let done = sbn_end_field(d, s);
        (done.0, done.1, true)
    } else {
        (s, Seq::<u8>::empty(), false)
    }
}

/// An ordinary byte: dropped when it sits in an elided empty column of
/// the first row, emitted verbatim otherwise.
pub open spec fn sbn_try_next_char(d: SbDialectModel, s: SbNrmState, c: u8) -> Seq<u8> {
    if s.is_first_row && !sbn_should_emit(d, s.current_column) {
        Seq::<u8>::empty()
    } else {
        seq![c]
    }
}

/// One byte through the normalizer. When the dialect lets escapes or
/// quotes span line breaks their handling precedes terminator handling;
/// otherwise the terminator is recognized first.
pub open spec fn sbn_step(d: SbDialectModel, s: SbNrmState, c: u8) -> (SbNrmState, Seq<u8>) {
    let esc_first = sbn_try_escape(d, s, c);
    if d.has_escaped_line_breaks && esc_first.2 {
        (esc_first.0, esc_first.1)
    } else {
        let q_first = sbn_try_quote(d, s, c);
        if d.has_quoted_line_breaks && q_first.2 {
            (q_first.0, q_first.1)
        } else {
            let row = sbn_try_next_row(d, s, c);
            if row.2 {
                (row.0, row.1)
            } else {
                let esc = sbn_try_escape(d, row.0, c);
                if !d.has_escaped_line_breaks && esc.2 {
                    (esc.0, esc.1)
                } else {
                    let quote = sbn_try_quote(d, row.0, c);
                    if !d.has_quoted_line_breaks && quote.2 {
                        (quote.0, quote.1)
                    } else {
                        let field = sbn_try_next_field(d, quote.0, c);
                        if field.2 {
                            (field.0, field.1)
                        } else {
                            (field.0, sbn_try_next_char(d, field.0, c))
                        }
                    }
                }
            }
        }
    }
}

/// `sbn_step` over every byte in order, concatenating the emissions.
pub open spec fn sbn_run(d: SbDialectModel, s: SbNrmState, bytes: Seq<u8>) -> (SbNrmState, Seq<u8>)
    decreases bytes.len(),
{
    if bytes.len() == 0 {
        (s, Seq::<u8>::empty())
    } else {
        let first = sbn_step(d, s, bytes[0]);
        let rest = sbn_run(d, first.0, bytes.drop_first());
        (rest.0, first.1 + rest.1)
    }
}

/// Normalizing one stream in pieces equals normalizing it whole: chunk
/// boundaries change neither the final cursor nor one byte of the output.
pub proof fn lemma_sbn_run_app(d: SbDialectModel, s: SbNrmState, a: Seq<u8>, b: Seq<u8>)
    ensures
        sbn_run(d, s, a + b).0 == sbn_run(d, sbn_run(d, s, a).0, b).0,
        sbn_run(d, s, a + b).1 == sbn_run(d, s, a).1 + sbn_run(d, sbn_run(d, s, a).0, b).1,
    decreases a.len(),
{
    if a.len() == 0 {
        assert(a + b =~= b);
        assert(sbn_run(d, s, a).1 + sbn_run(d, s, b).1 =~= sbn_run(d, s, b).1);
    } else {
        assert((a + b)[0] == a[0]);
        let first = sbn_step(d, s, a[0]);
        assert((a + b).drop_first() =~= a.drop_first() + b);
        lemma_sbn_run_app(d, first.0, a.drop_first(), b);
        let mid = sbn_run(d, first.0, a.drop_first());
        let tail = sbn_run(d, mid.0, b);
        assert(first.1 + (mid.1 + tail.1) =~= (first.1 + mid.1) + tail.1);
    }
}

proof fn lemma_sbn_run_one(d: SbDialectModel, s: SbNrmState, c: u8)
    ensures
        sbn_run(d, s, seq![c]) == sbn_step(d, s, c),
{
    let bytes = seq![c];
    assert(bytes[0] == c);
    assert(bytes.drop_first() =~= Seq::<u8>::empty());
    let first = sbn_step(d, s, c);
    assert(sbn_run(d, first.0, Seq::<u8>::empty()).1 =~= Seq::<u8>::empty());
    assert(first.1 + Seq::<u8>::empty() =~= first.1);
}

/// The synthetic header cell emitted per column when no header was
/// detected: the bytes of `__NO_HEADER__` and a field separator.
pub open spec fn sbn_no_header_token() -> Seq<u8> {
    seq![95u8, 95u8, 78u8, 79u8, 95u8, 72u8, 69u8, 65u8, 68u8, 69u8, 82u8, 95u8, 95u8, 31u8]
}

/// The token repeated once per column.
pub open spec fn sbn_repeat_token(n: nat) -> Seq<u8>
    decreases n,
{
    if n == 0 {
        Seq::<u8>::empty()
    } else {
        sbn_repeat_token((n - 1) as nat) + sbn_no_header_token()
    }
}

/// The synthetic header line: one token per physical column, with the
/// final field separator replaced by the record separator.
pub open spec fn sbn_header_line(n: nat) -> Seq<u8> {
    sbn_repeat_token(n).update(sbn_repeat_token(n).len() - 1, 30u8)
}

/// The whole second pass: the synthetic header when the dialect found
/// none, then the ASV image of the source bytes.
pub open spec fn sbn_normalize_spec(d: SbDialectModel, bytes: Seq<u8>) -> Seq<u8> {
    let prefix = if d.header is None {
        sbn_header_line(d.empty_columns.len())
    } else {
        Seq::<u8>::empty()
    };
    prefix + sbn_run(d, sbn_initial(), bytes).1
}

/// Streams a source already validated as a single-byte dialect into ASV
/// form.
#[derive(Debug)]
pub struct SingleByteDialectNormalizer {
    pub dialect: SingleByteDialect,
    pub state: SbNrmState,
    /// Bytes emitted so far and not yet drained by the caller.
    pub out: Vec<u8>,
}

impl SingleByteDialectNormalizer {
    /// Fresh normalizer for one dialect, at the top of the first row,
    /// with an empty output buffer.
    pub fn new(dialect: SingleByteDialect) -> (r: SingleByteDialectNormalizer)
        ensures
            r.dialect == dialect,
            r.state == sbn_initial(),
            r.out@ == Seq::<u8>::empty(),
    {
        SingleByteDialectNormalizer {
            dialect,
            state: SbNrmState {
                escape_active: false,
                quote_active: false,
                current_column: 0,
                prev_char_was_cr: false,
                is_first_row: true,
            },
            out: Vec::new(),
        }
    }

    fn should_emit_current_column(&self) -> (r: bool)
        ensures
            r == sbn_should_emit(self.dialect@, self.state.current_column),
    {
        if self.state.current_column < self.dialect.empty_columns.len() {
            !self.dialect.empty_columns[self.state.current_column]
        } else {
            false
        }
    }

    /// Emit the synthetic header when the dialect carries none; with a
    /// detected header the first source row serves instead.
    pub fn emit_header(&mut self)
        requires
            old(self).dialect@.header is None ==> old(self).dialect@.empty_columns.len() >= 1,
        ensures
            final(self).dialect == old(self).dialect,
            final(self).state == old(self).state,
            final(self).out@ == old(self).out@ + (if old(self).dialect@.header is None {
                sbn_header_line(old(self).dialect@.empty_columns.len())
            } else {
                Seq::<u8>::empty()
            }),
    {
        if self.dialect.header.is_some() {
            proof {
                assert(self.out@ =~= old(self).out@ + Seq::<u8>::empty());
            }
            return;
        }
        let n = self.dialect.empty_columns.len();
        let ghost base = self.out@;
        let mut k: usize = 0;
        while k < n
            invariant
                k <= n,
                n == self.dialect@.empty_columns.len(),
                self.dialect == old(self).dialect,
                self.state == old(self).state,
                self.out@ == base + sbn_repeat_token(k as nat),
            decreases n - k,
        {
            self.out.push(95u8);
            self.out.push(95u8);
            self.out.push(78u8);
            self.out.push(79u8);
            self.out.push(95u8);
            self.out.push(72u8);
            self.out.push(69u8);
            self.out.push(65u8);
            self.out.push(68u8);
            self.out.push(69u8);
            self.out.push(82u8);
            self.out.push(95u8);
            self.out.push(95u8);
            self.out.push(31u8);
            k = k + 1;
            proof {
                assert(sbn_repeat_token(k as nat) == sbn_repeat_token(
                    (k - 1) as nat,
                ) + sbn_no_header_token());
                assert(self.out@ =~= base + sbn_repeat_token(k as nat));
            }
        }
        proof {
            lemma_sbn_repeat_token_len(n as nat);
        }
        let last = self.out.len() - 1;
        self.out[last] = 30u8;
        proof {
            assert(self.out@ =~= base + sbn_header_line(n as nat));
        }
    }

    /// Stream one chunk of the source, appending its ASV image to `out`.
    pub fn process_chunk(&mut self, chunk: &[u8])
        requires
            old(self).state.current_column + chunk@.len() <= usize::MAX,
        ensures
            final(self).dialect == old(self).dialect,
            final(self).state == sbn_run(old(self).dialect@, old(self).state, chunk@).0,
            final(self).out@ == old(self).out@ + sbn_run(
                old(self).dialect@,
                old(self).state,
                chunk@,
            ).1,
    {
        let ghost d = self.dialect@;
        let ghost start = self.state;
        let ghost base = self.out@;
        let mut pos: usize = 0;
        while pos < chunk.len()
            invariant
                pos <= chunk@.len(),
                d == self.dialect@,
                self.dialect == old(self).dialect,
                start == old(self).state,
                base == old(self).out@,
                start.current_column + chunk@.len() <= usize::MAX,
                self.state == sbn_run(d, start, chunk@.take(pos as int)).0,
                self.out@ == base + sbn_run(d, start, chunk@.take(pos as int)).1,
                self.state.current_column <= start.current_column + pos,
            decreases chunk@.len() - pos,
        {
            let c = chunk[pos];
            let ghost before = self.state;
            self.process_byte(c);
            pos = pos + 1;
            proof {
                lemma_sbn_run_app(d, start, chunk@.take(pos - 1 as int), seq![c]);
                lemma_sbn_run_one(d, before, c);
                assert(chunk@.take(pos - 1 as int) + seq![c] =~= chunk@.take(pos as int));
                assert(self.out@ =~= base + sbn_run(d, start, chunk@.take(pos as int)).1);
            }
        }
        proof {
            assert(chunk@.take(pos as int) =~= chunk@);
        }
    }

    fn end_field(&mut self)
        requires
            old(self).state.current_column < usize::MAX,
        ensures
            final(self).dialect == old(self).dialect,
            ({
                let done = sbn_end_field(old(self).dialect@, old(self).state);
                final(self).state == done.0 && final(self).out@ == old(self).out@ + done.1
            }),
    {
        self.state.quote_active = false;
        self.state.escape_active = false;
        self.state.current_column = self.state.current_column + 1;
        if self.state.current_column == self.dialect.empty_columns.len() {
            proof {
                assert(self.out@ =~= old(self).out@ + Seq::<u8>::empty());
            }
            return;
        }
        let should_emit = self.should_emit_current_column();
        if should_emit {
            self.out.push(31u8);
            proof {
                assert(self.out@ =~= old(self).out@ + seq![31u8]);
            }
        } else {
            proof {
                assert(self.out@ =~= old(self).out@ + Seq::<u8>::empty());
            }
        }
    }

    fn end_row(&mut self)
        requires
            old(self).state.current_column < usize::MAX,
        ensures
            final(self).dialect == old(self).dialect,
            ({
                let done = sbn_end_row(old(self).dialect@, old(self).state);
                final(self).state == done.0 && final(self).out@ == old(self).out@ + done.1
            }),
    {
        self.end_field();
        self.state.prev_char_was_cr = false;
        self.state.current_column = 0;
        self.state.is_first_row = false;
        self.out.push(30u8);
        proof {
            let done = sbn_end_row(old(self).dialect@, old(self).state);
            assert(self.out@ =~= old(self).out@ + done.1);
        }
    }

    fn process_byte(&mut self, c: u8)
        requires
            old(self).state.current_column < usize::MAX,
        ensures
            final(self).dialect == old(self).dialect,
            ({
                let done = sbn_step(old(self).dialect@, old(self).state, c);
                final(self).state == done.0 && final(self).out@ == old(self).out@ + done.1
                    && final(self).state.current_column <= old(self).state.current_column + 1
            }),
    {
        let heslb = self.dialect.has_escaped_line_breaks;
        let hqlb = self.dialect.has_quoted_line_breaks;
        if heslb && self.try_escape(c) {
            return;
        }
        if hqlb && self.try_quote(c) {
            return;
        }
        if self.try_next_row(c) {
            return;
        }
        if !heslb && self.try_escape(c) {
            return;
        }
        if !hqlb && self.try_quote(c) {
            return;
        }
        if self.try_next_field(c) {
            return;
        }
        self.try_next_char(c);
    }

    fn try_escape(&mut self, c: u8) -> (consumed: bool)
        ensures
            final(self).dialect == old(self).dialect,
            ({
                let done = sbn_try_escape(old(self).dialect@, old(self).state, c);
                final(self).state == done.0 && final(self).out@ == old(self).out@ + done.1
                    && consumed == done.2
            }),
    {
        if self.state.escape_active {
            self.state.escape_active = false;
            self.out.push(c);
            proof {
                assert(self.out@ =~= old(self).out@ + seq![c]);
            }
            return true;
        }
        let armed = if let Some(e) = self.dialect.escape_char {
            c == e
        } else {
            false
        };
        if armed {
            self.state.escape_active = true;
        }
        proof {
            assert(self.out@ =~= old(self).out@ + Seq::<u8>::empty());
        }
        armed
    }

    fn try_quote(&mut self, c: u8) -> (consumed: bool)
        ensures
            final(self).dialect == old(self).dialect,
            ({
                let done = sbn_try_quote(old(self).dialect@, old(self).state, c);
                final(self).state == done.0 && final(self).out@ == old(self).out@ + done.1
                    && consumed == done.2
            }),
    {
        if let Some(q) = self.dialect.quote_char {
            if q == c {
                self.state.quote_active = !self.state.quote_active;
                proof {
                    assert(self.out@ =~= old(self).out@ + Seq::<u8>::empty());
                }
                return true;
            }
            if self.state.quote_active {
                self.out.push(c);
                proof {
                    assert(self.out@ =~= old(self).out@ + seq![c]);
                }
                return true;
            }
        }
        proof {
            assert(self.out@ =~= old(self).out@ + Seq::<u8>::empty());
        }
        false
    }

    fn try_next_row(&mut self, c: u8) -> (consumed: bool)
        requires
            old(self).state.current_column < usize::MAX,
        ensures
            final(self).dialect == old(self).dialect,
            ({
                let done = sbn_try_next_row(old(self).dialect@, old(self).state, c);
                final(self).state == done.0 && final(self).out@ == old(self).out@ + done.1
                    && consumed == done.2
            }),
    {
        match self.dialect.record_terminator {
            RecordTerminator::Byte(t) => {
                if c == t {
                    self.end_row();
                    true
                } else {
                    proof {
                        assert(self.out@ =~= old(self).out@ + Seq::<u8>::empty());
                    }
                    false
                }
            },
            RecordTerminator::Crlf => {
                if c == 13u8 {
                    self.state.prev_char_was_cr = true;
                    proof {
                        assert(self.out@ =~= old(self).out@ + Seq::<u8>::empty());
                    }
                    true
                } else if c == 10u8 && self.state.prev_char_was_cr {
                    self.state.prev_char_was_cr = false;
                    self.end_row();
                    true
                } else {
                    self.state.prev_char_was_cr = false;
                    proof {
                        assert(self.out@ =~= old(self).out@ + Seq::<u8>::empty());
                    }
                    false
                }
            },
        }
    }

    fn try_next_field(&mut self, c: u8) -> (consumed: bool)
        requires
            old(self).state.current_column < usize::MAX,
        ensures
            final(self).dialect == old(self).dialect,
            ({
                let done = sbn_try_next_field(old(self).dialect@, old(self).state, c);
                final(self).state == done.0 && final(self).out@ == old(self).out@ + done.1
                    && consumed == done.2
            }),
    {
        if c == self.dialect.field_separator {
            self.end_field();
            true
        } else {
            proof {
                assert(self.out@ =~= old(self).out@ + Seq::<u8>::empty());
            }
            false
        }
    }

    fn try_next_char(&mut self, c: u8)
        ensures
            final(self).dialect == old(self).dialect,
            final(self).state == old(self).state,
            final(self).out@ == old(self).out@ + sbn_try_next_char(
                old(self).dialect@,
                old(self).state,
                c,
            ),
    {
        if self.state.is_first_row && !self.should_emit_current_column() {
            proof {
                assert(self.out@ =~= old(self).out@ + Seq::<u8>::empty());
            }
            return;
        }
        self.out.push(c);
        proof {
            assert(self.out@ =~= old(self).out@ + seq![c]);
        }
    }

    /// Whole-stream convenience: the synthetic header when needed, then
    /// the ASV image of the entire source.
    pub fn normalize(&mut self, src: &[u8])
        requires
            old(self).state == sbn_initial(),
            old(self).dialect@.header is None ==> old(self).dialect@.empty_columns.len() >= 1,
        ensures
            final(self).out@ == old(self).out@ + sbn_normalize_spec(old(self).dialect@, src@),
            final(self).dialect == old(self).dialect,
    {
        let n = src.len();
        proof {
            assert(src@.len() == n);
        }
        self.emit_header();
        self.process_chunk(src);
    }

    /// Hand the accumulated output to the caller, leaving the buffer
    /// empty.
    pub fn take_output(&mut self) -> (r: Vec<u8>)
        ensures
            r@ == old(self).out@,
            final(self).out@ == Seq::<u8>::empty(),
            final(self).dialect == old(self).dialect,
            final(self).state == old(self).state,
    {
        let mut swapped: Vec<u8> = Vec::new();
        core::mem::swap(&mut self.out, &mut swapped);
        swapped
    }
}

/// The repeated token line is fourteen bytes per column.
pub proof fn lemma_sbn_repeat_token_len(n: nat)
    ensures
        sbn_repeat_token(n).len() == 14 * n,
    decreases n,
{
    if n > 0 {
        lemma_sbn_repeat_token_len((n - 1) as nat);
    }
}

} // verus!
