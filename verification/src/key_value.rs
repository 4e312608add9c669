//! The `key: value` line format: one candidate state machine and its
//! normalizer.
//!
//! A row is `key<sep>value` terminated by a line feed; carriage returns are
//! ignored. A row with no separator evicts the candidate, a row with more
//! than one separator is merely counted as broken, and the candidate
//! finalizes into a dialect only when a strict majority of its rows were
//! clean `key: value` pairs.

use vstd::prelude::*;
use crate::StructuralViolation;

verus! {

/// Largest cell (in bytes) the key-value detector accepts.
pub const KV_MAX_CELL_BYTES: usize = 512;

/// Once this many rows were consumed and every one of them was broken, the
/// candidate gives up.
pub const KV_BROKEN_ROW_BUDGET: usize = 10000;

/// Frozen dialect record for the `key: value` family.
#[derive(Clone, Copy, Debug, Default, Hash, PartialEq, Eq)]
pub struct KeyValueDialect {
    pub total_rows: usize,
    pub field_separator: u8,
}

/// One candidate state machine for the `key: value` family.
#[derive(Clone, Copy, Debug, PartialEq, Eq, Hash)]
pub struct KeyValueDialectValidator {
    pub field_separator: u8,
    pub broken_rows: usize,
    pub current_row: usize,
    pub current_col: usize,
    pub current_cell_byte: usize,
    pub current_byte: usize,
}

/// The state every key-value candidate starts from.
pub open spec fn kv_initial() -> KeyValueDialectValidator {
    KeyValueDialectValidator {
        field_separator: 58u8,
        broken_rows: 0,
        current_row: 0,
        current_col: 0,
        current_cell_byte: 0,
        current_byte: 0,
    }
}

/// Counters never outrun the bytes consumed, and a live candidate's cell
/// budget is intact.
pub open spec fn kv_wf(v: KeyValueDialectValidator) -> bool {
    &&& v.current_cell_byte <= KV_MAX_CELL_BYTES
    &&& v.broken_rows <= v.current_row
    &&& v.current_row + v.current_col <= v.current_byte
}

/// A field ends: reset the cell byte count, move to the next column.
pub open spec fn kv_end_field(v: KeyValueDialectValidator) -> KeyValueDialectValidator {
    KeyValueDialectValidator {
        current_cell_byte: 0,
        current_col: (v.current_col + 1) as usize,
        ..v
    }
}

/// A row ends: a row still in its first column is fatal, a row with more
/// than one separator counts as broken, and an all-broken run past the
/// budget is fatal.
pub open spec fn kv_end_row(v: KeyValueDialectValidator) -> Result<
    KeyValueDialectValidator,
    StructuralViolation,
> {
    if v.current_col == 0 {
        Err(StructuralViolation::OnlyOneColumn)
    } else {
        let broken = if v.current_col != 1 {
            (v.broken_rows + 1) as usize
        } else {
            v.broken_rows
        };
        let next = KeyValueDialectValidator {
            broken_rows: broken,
            current_col: 0,
            current_row: (v.current_row + 1) as usize,
            ..v
        };
        if next.broken_rows == next.current_row && next.broken_rows > KV_BROKEN_ROW_BUDGET {
            Err(StructuralViolation::AllRowsBroken)
        } else {
            Ok(next)
        }
    }
}

/// One byte through the key-value detector. A carriage return is consumed
/// silently, a line feed ends the row, the separator ends the field, and
/// any other byte grows the current cell within its budget.
pub open spec fn kv_step(v: KeyValueDialectValidator, c: u8) -> Result<
    KeyValueDialectValidator,
    StructuralViolation,
> {
    if c == 13u8 {
        Ok(v)
    } else if c == 10u8 {
        kv_end_row(v)
    } else if c == v.field_separator {
        Ok(kv_end_field(v))
    } else {
        let next = KeyValueDialectValidator {
            current_cell_byte: (v.current_cell_byte + 1) as usize,
            ..v
        };
        if next.current_cell_byte > KV_MAX_CELL_BYTES {
            Err(StructuralViolation::CellTooLong)
        } else {
            Ok(next)
        }
    }
}

/// `kv_step` over every byte in order, also advancing the byte counter, as
/// the detector's chunk loop does.
pub open spec fn kv_run(v: KeyValueDialectValidator, bytes: Seq<u8>) -> Result<
    KeyValueDialectValidator,
    StructuralViolation,
>
    decreases bytes.len(),
{
    if bytes.len() == 0 {
        Ok(v)
    } else {
        match kv_step(v, bytes[0]) {
            Ok(next) => kv_run(
                KeyValueDialectValidator {
                    current_byte: (next.current_byte + 1) as usize,
                    ..next
                },
                bytes.drop_first(),
            ),
            Err(e) => Err(e),
        }
    }
}

/// Finalization accepts exactly when a strict majority of the consumed rows
/// were clean `key:value` pairs.
pub open spec fn kv_finalize(v: KeyValueDialectValidator) -> Option<KeyValueDialect> {
    if v.broken_rows * 2 < v.current_row {
        Some(
            KeyValueDialect {
                total_rows: v.current_row,
                field_separator: v.field_separator,
            },
        )
    } else {
        None
    }
}

/// Feeding one stream in pieces equals feeding it whole: the chunk
/// boundaries chosen by a caller cannot change what the detector sees.
pub proof fn lemma_kv_run_app(v: KeyValueDialectValidator, a: Seq<u8>, b: Seq<u8>)
    ensures
        kv_run(v, a + b) == match kv_run(v, a) {
            Ok(m) => kv_run(m, b),
            Err(e) => Err::<KeyValueDialectValidator, StructuralViolation>(e),
        },
    decreases a.len(),
{
    if a.len() == 0 {
        assert(a + b =~= b);
    } else {
        assert((a + b)[0] == a[0]);
        match kv_step(v, a[0]) {
            Ok(next) => {
                let stepped = KeyValueDialectValidator {
                    current_byte: (next.current_byte + 1) as usize,
                    ..next
                };
                assert((a + b).drop_first() =~= a.drop_first() + b);
                lemma_kv_run_app(stepped, a.drop_first(), b);
            },
            Err(_) => {},
        }
    }
}

proof fn lemma_kv_run_one(v: KeyValueDialectValidator, c: u8)
    ensures
        kv_run(v, seq![c]) == match kv_step(v, c) {
            Ok(n) => Ok::<KeyValueDialectValidator, StructuralViolation>(
                KeyValueDialectValidator { current_byte: (n.current_byte + 1) as usize, ..n },
            ),
            Err(e) => Err::<KeyValueDialectValidator, StructuralViolation>(e),
        },
{
    let s = seq![c];
    assert(s[0] == c);
    assert(s.drop_first() =~= Seq::<u8>::empty());
    match kv_step(v, c) {
        Ok(n) => {
            let m = KeyValueDialectValidator { current_byte: (n.current_byte + 1) as usize, ..n };
            assert(kv_run(m, Seq::<u8>::empty()) == Ok::<KeyValueDialectValidator, StructuralViolation>(m));
        },
        Err(_) => {},
    }
}

impl KeyValueDialectValidator {
    /// Every candidate of this family: a single machine splitting on `:`.
    pub fn make() -> (r: Vec<KeyValueDialectValidator>)
        ensures
            r@.len() == 1,
            r@[0] == kv_initial(),
    {
        let v = KeyValueDialectValidator {
            field_separator: 58u8,
            broken_rows: 0,
            current_row: 0,
            current_col: 0,
            current_cell_byte: 0,
            current_byte: 0,
        };
        let mut out: Vec<KeyValueDialectValidator> = Vec::new();
        out.push(v);
        out
    }

    fn end_field(&mut self)
        requires
            old(self).current_col < usize::MAX,
        ensures
            *final(self) == kv_end_field(*old(self)),
    {
        self.current_cell_byte = 0;
        self.current_col = self.current_col + 1;
    }

    fn end_row(&mut self) -> (r: Result<(), StructuralViolation>)
        requires
            old(self).current_row < usize::MAX,
            old(self).broken_rows <= old(self).current_row,
        ensures
            match kv_end_row(*old(self)) {
                Ok(v) => r is Ok && *final(self) == v,
                Err(e) => r == Err::<(), StructuralViolation>(e),
            },
    {
        if self.current_col == 0 {
            return Err(StructuralViolation::OnlyOneColumn);
        }
        if self.current_col != 1 {
            self.broken_rows = self.broken_rows + 1;
        }
        self.current_col = 0;
        self.current_row = self.current_row + 1;
        if self.broken_rows == self.current_row && self.broken_rows > KV_BROKEN_ROW_BUDGET {
            Err(StructuralViolation::AllRowsBroken)
        } else {
            Ok(())
        }
    }

    fn try_process_byte(&mut self, c: u8) -> (r: Result<(), StructuralViolation>)
        requires
            kv_wf(*old(self)),
            old(self).current_byte < usize::MAX,
        ensures
            match kv_step(*old(self), c) {
                Ok(v) => r is Ok && *final(self) == v,
                Err(e) => r == Err::<(), StructuralViolation>(e),
            },
    {
        if c == 13u8 {
            Ok(())
        } else if c == 10u8 {
            self.end_row()
        } else if c == self.field_separator {
            self.end_field();
            Ok(())
        } else {
            self.current_cell_byte = self.current_cell_byte + 1;
            if self.current_cell_byte > KV_MAX_CELL_BYTES {
                Err(StructuralViolation::CellTooLong)
            } else {
                Ok(())
            }
        }
    }

    /// Feed one chunk of the stream to this candidate. An error means the
    /// input violated the candidate's structure; the caller evicts it.
    pub fn try_process_chunk(&mut self, chunk: &[u8]) -> (r: Result<(), StructuralViolation>)
        requires
            kv_wf(*old(self)),
            old(self).current_byte + chunk@.len() <= usize::MAX,
        ensures
            match kv_run(*old(self), chunk@) {
                Ok(v) => r is Ok && *final(self) == v && kv_wf(v),
                Err(e) => r == Err::<(), StructuralViolation>(e),
            },
    {
        let ghost start = *self;
        let mut pos: usize = 0;
        while pos < chunk.len()
            invariant
                start == *old(self),
                pos <= chunk@.len(),
                start.current_byte + chunk@.len() <= usize::MAX,
                kv_run(start, chunk@.take(pos as int)) == Ok::<KeyValueDialectValidator, StructuralViolation>(*self),
                kv_wf(*self),
                self.current_byte == start.current_byte + pos,
            decreases chunk@.len() - pos,
        {
            let c = chunk[pos];
            let ghost before = *self;
            let res = self.try_process_byte(c);
            proof {
                lemma_kv_run_app(start, chunk@.take(pos as int), seq![c]);
                lemma_kv_run_one(before, c);
                assert(chunk@.take(pos as int) + seq![c] =~= chunk@.take(pos + 1 as int));
            }
            if let Err(e) = res {
                proof {
                    lemma_kv_run_app(start, chunk@.take(pos + 1 as int), chunk@.skip(pos + 1 as int));
                    assert(chunk@.take(pos + 1 as int) + chunk@.skip(pos + 1 as int) =~= chunk@);
                    assert(kv_run(start, chunk@) == Err::<KeyValueDialectValidator, StructuralViolation>(e));
                }
                return Err(e);
            }
            self.current_byte = self.current_byte + 1;
            pos = pos + 1;
        }
        proof {
            assert(chunk@.take(pos as int) =~= chunk@);
        }
        Ok(())
    }

    /// Collapse this candidate into a dialect: accepted exactly when a
    /// strict majority of the consumed rows were clean `key:value` pairs.
    pub fn finalize(&mut self) -> (r: Option<KeyValueDialect>)
        requires
            old(self).broken_rows <= old(self).current_row,
        ensures
            r == kv_finalize(*old(self)),
            *final(self) == *old(self),
    {
        if self.broken_rows < self.current_row - self.broken_rows {
            Some(
                KeyValueDialect {
                    total_rows: self.current_row,
                    field_separator: self.field_separator,
                },
            )
        } else {
            None
        }
    }
}

/// The fixed header the key-value normalizer emits: `login`, a field
/// separator, `password`, a record separator.
pub open spec fn kv_header_bytes() -> Seq<u8> {
    seq![108u8, 111u8, 103u8, 105u8, 110u8, 31u8, 112u8, 97u8, 115u8, 115u8, 119u8, 111u8, 114u8, 100u8, 30u8]
}

/// One byte through the key-value normalizer: carriage returns vanish, a
/// line feed becomes the record separator and reopens the key column, the
/// first dialect separator of a row becomes the field separator, and every
/// other byte (later separators included) passes through unchanged.
pub open spec fn kv_nrm_step(sep: u8, col: usize, c: u8) -> (usize, Seq<u8>) {
    if c == 13u8 {
        (col, Seq::<u8>::empty())
    } else if c == 10u8 {
        (0usize, seq![30u8])
    } else if c == sep && col == 0 {
        (1usize, seq![31u8])
    } else {
        (col, seq![c])
    }
}

/// `kv_nrm_step` over every byte in order, concatenating the emissions.
pub open spec fn kv_nrm_run(sep: u8, col: usize, bytes: Seq<u8>) -> (usize, Seq<u8>)
    decreases bytes.len(),
{
    if bytes.len() == 0 {
        (col, Seq::<u8>::empty())
    } else {
        let first = kv_nrm_step(sep, col, bytes[0]);
        let rest = kv_nrm_run(sep, first.0, bytes.drop_first());
        (rest.0, first.1 + rest.1)
    }
}

/// Normalizing one stream in pieces equals normalizing it whole: chunk
/// boundaries change neither the final state nor one byte of the output.
pub proof fn lemma_kv_nrm_run_app(sep: u8, col: usize, a: Seq<u8>, b: Seq<u8>)
    ensures
        kv_nrm_run(sep, col, a + b).0 == kv_nrm_run(sep, kv_nrm_run(sep, col, a).0, b).0,
        kv_nrm_run(sep, col, a + b).1 == kv_nrm_run(sep, col, a).1 + kv_nrm_run(sep, kv_nrm_run(sep, col, a).0, b).1,
    decreases a.len(),
{
    if a.len() == 0 {
        assert(a + b =~= b);
        assert(kv_nrm_run(sep, col, a).1 + kv_nrm_run(sep, col, b).1 =~= kv_nrm_run(sep, col, b).1);
    } else {
        assert((a + b)[0] == a[0]);
        let first = kv_nrm_step(sep, col, a[0]);
        assert((a + b).drop_first() =~= a.drop_first() + b);
        lemma_kv_nrm_run_app(sep, first.0, a.drop_first(), b);
        assert(first.1 + (kv_nrm_run(sep, first.0, a.drop_first()).1 + kv_nrm_run(sep, kv_nrm_run(sep, first.0, a.drop_first()).0, b).1)
            =~= (first.1 + kv_nrm_run(sep, first.0, a.drop_first()).1) + kv_nrm_run(sep, kv_nrm_run(sep, first.0, a.drop_first()).0, b).1);
    }
}

proof fn lemma_kv_nrm_run_one(sep: u8, col: usize, c: u8)
    ensures
        kv_nrm_run(sep, col, seq![c]) == kv_nrm_step(sep, col, c),
{
    let s = seq![c];
    assert(s[0] == c);
    assert(s.drop_first() =~= Seq::<u8>::empty());
    let first = kv_nrm_step(sep, col, c);
    assert(kv_nrm_run(sep, first.0, Seq::<u8>::empty()).1 =~= Seq::<u8>::empty());
    assert(first.1 + Seq::<u8>::empty() =~= first.1);
}

/// Streams a source already validated as key-value into ASV form.
#[derive(Debug)]
pub struct KeyValueDialectNormalizer {
    pub field_separator: u8,
    pub current_column: usize,
    /// Bytes emitted so far and not yet drained by the caller.
    pub out: Vec<u8>,
}

impl KeyValueDialectNormalizer {
    /// Fresh normalizer for one dialect, at the start of a row, with an
    /// empty output buffer.
    pub fn new(dialect: &KeyValueDialect) -> (r: KeyValueDialectNormalizer)
        ensures
            r.field_separator == dialect.field_separator,
            r.current_column == 0,
            r.out@ == Seq::<u8>::empty(),
    {
        KeyValueDialectNormalizer {
            field_separator: dialect.field_separator,
            current_column: 0,
            out: Vec::new(),
        }
    }

    /// Emit the fixed `login`/`password` header once, before any content.
    pub fn emit_header(&mut self)
        ensures
            final(self).out@ == old(self).out@ + kv_header_bytes(),
            final(self).field_separator == old(self).field_separator,
            final(self).current_column == old(self).current_column,
    {
        self.out.push(108u8);
        self.out.push(111u8);
        self.out.push(103u8);
        self.out.push(105u8);
        self.out.push(110u8);
        self.out.push(31u8);
        self.out.push(112u8);
        self.out.push(97u8);
        self.out.push(115u8);
        self.out.push(115u8);
        self.out.push(119u8);
        self.out.push(111u8);
        self.out.push(114u8);
        self.out.push(100u8);
        self.out.push(30u8);
        proof {
            assert(self.out@ =~= old(self).out@ + kv_header_bytes());
        }
    }

    /// Stream one chunk of the source, appending its ASV image to `out`.
    pub fn process_chunk(&mut self, chunk: &[u8])
        ensures
            final(self).field_separator == old(self).field_separator,
            final(self).current_column == kv_nrm_run(old(self).field_separator, old(self).current_column, chunk@).0,
            final(self).out@ == old(self).out@ + kv_nrm_run(old(self).field_separator, old(self).current_column, chunk@).1,
    {
        let sep = self.field_separator;
        let ghost start_col = self.current_column;
        let ghost start_out = self.out@;
        let mut pos: usize = 0;
        while pos < chunk.len()
            invariant
                pos <= chunk@.len(),
                self.field_separator == sep,
                start_col == old(self).current_column,
                start_out == old(self).out@,
                self.current_column == kv_nrm_run(sep, start_col, chunk@.take(pos as int)).0,
                self.out@ == start_out + kv_nrm_run(sep, start_col, chunk@.take(pos as int)).1,
            decreases chunk@.len() - pos,
        {
            let c = chunk[pos];
            let ghost col_before = self.current_column;
            if c == 13u8 {
                // carriage returns are consumed silently
            } else if c == 10u8 {
                self.out.push(30u8);
                self.current_column = 0;
            } else if c == sep && self.current_column == 0 {
                self.out.push(31u8);
                self.current_column = 1;
            } else {
                self.out.push(c);
            }
            pos = pos + 1;
            proof {
                lemma_kv_nrm_run_app(sep, start_col, chunk@.take(pos - 1 as int), seq![c]);
                lemma_kv_nrm_run_one(sep, col_before, c);
                assert(chunk@.take(pos - 1 as int) + seq![c] =~= chunk@.take(pos as int));
                assert(self.out@ =~= start_out + kv_nrm_run(sep, start_col, chunk@.take(pos as int)).1);
            }
        }
        proof {
            assert(chunk@.take(pos as int) =~= chunk@);
        }
    }

    /// Whole-stream convenience: the fixed header, then the ASV image of
    /// the entire source.
    pub fn normalize(&mut self, src: &[u8])
        requires
            old(self).current_column == 0,
        ensures
            final(self).out@ == old(self).out@ + kv_header_bytes() + kv_nrm_run(old(self).field_separator, 0usize, src@).1,
    {
        self.emit_header();
        self.process_chunk(src);
    }

    /// Hand the accumulated output to the caller, leaving the buffer empty.
    pub fn take_output(&mut self) -> (r: Vec<u8>)
        ensures
            r@ == old(self).out@,
            final(self).out@ == Seq::<u8>::empty(),
            final(self).field_separator == old(self).field_separator,
            final(self).current_column == old(self).current_column,
    {
        let mut swapped: Vec<u8> = Vec::new();
        core::mem::swap(&mut self.out, &mut swapped);
        swapped
    }
}

} // verus!
