use brutal_csv::csv_to_asv;
use brutal_csv::CsvSniffer;
use brutal_csv::dialects::{select_best, Dialect};
use brutal_csv::key_value::KeyValueDialectValidator;
use brutal_csv::single_byte::RecordTerminator;
use brutal_csv::single_byte_detector::SingleByteDialectValidator;
use brutal_csv::StructuralViolation;

fn detect(input: &[u8]) -> Vec<Dialect> {
    let mut sniffer = CsvSniffer::new();
    sniffer.process(input);
    sniffer.dialects()
}

fn best(input: &[u8]) -> Option<Dialect> {
    let ds = detect(input);
    select_best(&ds).map(|i| ds[i].clone())
}

// A plain comma dialect with CRLF rows and a header row.
#[test]
fn comma_crlf_with_header() {
    let input = b"a,b,c\r\n1,2,3\r\n4,5,6\r\n";
    let out = csv_to_asv(input).expect("a dialect must be selected");
    assert_eq!(out, b"a\x1fb\x1fc\x1e1\x1f2\x1f3\x1e4\x1f5\x1f6\x1e".to_vec());
    match best(input).unwrap() {
        Dialect::SingleByte(d) => {
            assert_eq!(d.field_separator, b',');
            assert_eq!(d.record_terminator, RecordTerminator::Crlf);
            assert_eq!(
                d.header.as_ref().map(|h| h.clone()),
                Some(vec!["a".to_string(), "b".to_string(), "c".to_string()])
            );
            assert_eq!(d.total_rows, 2);
        }
        other => panic!("expected a single-byte dialect, got {:?}", other),
    }
}

// Every row, header included, ends with the separator: the trailing
// column is a phantom and is popped.
#[test]
fn trailing_separator_is_terminator() {
    let input = b"a;b;\r\n1;2;\r\n3;4;\r\n";
    match best(input).unwrap() {
        Dialect::SingleByte(d) => {
            assert!(d.field_separator_is_terminator);
            assert_eq!(d.empty_columns.len(), 2);
        }
        other => panic!("expected a single-byte dialect, got {:?}", other),
    }
    let out = csv_to_asv(input).unwrap();
    assert_eq!(out, b"a\x1fb\x1e1\x1f2\x1e3\x1f4\x1e".to_vec());
}

// A column that is empty in every data row is dropped from the emitted
// first row only.
#[test]
fn empty_column_elided_in_first_row() {
    let input = b"name,age\na,\nb,\n";
    match best(input).unwrap() {
        Dialect::SingleByte(d) => {
            assert_eq!(d.empty_columns, vec![false, true]);
            assert!(d.header.is_some());
        }
        other => panic!("expected a single-byte dialect, got {:?}", other),
    }
    let out = csv_to_asv(input).unwrap();
    assert_eq!(out, b"name\x1ea\x1eb\x1e".to_vec());
}

// Clean key-value lines: zero broken rows, key-value wins the ranking.
#[test]
fn key_value_selected() {
    let input = b"user: alice\npass: s3cret\nuser: bob\npass: hunter2\n";
    match best(input).unwrap() {
        Dialect::KeyValue(d) => {
            assert_eq!(d.total_rows, 4);
            assert_eq!(d.field_separator, b':');
        }
        other => panic!("expected a key-value dialect, got {:?}", other),
    }
    let out = csv_to_asv(input).unwrap();
    assert_eq!(
        out,
        b"login\x1fpassword\x1euser\x1f alice\x1epass\x1f s3cret\x1euser\x1f bob\x1epass\x1f hunter2\x1e"
            .to_vec()
    );
}

// A quoted comma in the header does not split the field.
#[test]
fn quoted_comma_in_header() {
    let input = b"\"a,b\",\"c\"\r\n1,2\r\n";
    let out = csv_to_asv(input).unwrap();
    assert_eq!(out, b"a,b\x1fc\x1e1\x1f2\x1e".to_vec());
    match best(input).unwrap() {
        Dialect::SingleByte(d) => {
            assert_eq!(d.field_separator, b',');
            assert_eq!(d.quote_char, Some(b'"'));
            assert_eq!(d.record_terminator, RecordTerminator::Crlf);
        }
        other => panic!("expected a single-byte dialect, got {:?}", other),
    }
}

// Empty input and one-line single-column input select nothing.
#[test]
fn empty_and_single_column_rejected() {
    assert_eq!(csv_to_asv(b""), None);
    assert_eq!(csv_to_asv(b"abc\r\n"), None);
    assert_eq!(csv_to_asv(b"justonecolumn"), None);
}

// Input whose values are all empty selects nothing.
#[test]
fn all_empty_values_rejected() {
    assert_eq!(csv_to_asv(b",,\n,,\n"), None);
}

// With CRLF and LF terminators mixed, only the line-feed candidate sees
// consistent rows.
#[test]
fn mixed_terminators() {
    let input = b"a,b\r\nc,d\ne,f\r\n";
    match best(input).unwrap() {
        Dialect::SingleByte(d) => {
            assert_eq!(d.record_terminator, RecordTerminator::Byte(b'\n'));
        }
        other => panic!("expected a single-byte dialect, got {:?}", other),
    }
}

// The detection result and the output are a function of the bytes alone.
#[test]
fn pipeline_deterministic() {
    let input = b"a,b,c\r\n1,2,3\r\n4,5,6\r\n";
    assert_eq!(csv_to_asv(input), csv_to_asv(input));
    assert_eq!(detect(input), detect(input));
}

// Splitting the stream at any chunk boundary changes nothing.
#[test]
fn chunk_boundaries_irrelevant() {
    let input = b"a,b,c\r\n1,2,3\r\n4,5,6\r\n".to_vec();
    let whole = detect(&input);
    for cut in 0..input.len() {
        let mut sniffer = CsvSniffer::new();
        sniffer.process_chunk(&input[..cut]);
        sniffer.process_chunk(&input[cut..]);
        assert_eq!(sniffer.dialects(), whole);
    }
}

// Re-running the pipeline on its own ASV output detects nothing, because
// the ASV separators are outside the seeded hypothesis space.
#[test]
fn asv_output_detects_nothing() {
    let first = csv_to_asv(b"a,b,c\r\n1,2,3\r\n4,5,6\r\n").unwrap();
    assert_eq!(csv_to_asv(&first), None);
}

fn comma_crlf_validator() -> SingleByteDialectValidator {
    // Index 24 of the seeded space: CRLF, comma, no quote, no escape,
    // no quoted line breaks.
    let v = SingleByteDialectValidator::make(None).swap_remove(24);
    assert_eq!(v.field_separator, b',');
    assert_eq!(v.record_terminator, RecordTerminator::Crlf);
    assert_eq!(v.quote_char, None);
    assert_eq!(v.escape_char, None);
    assert!(!v.has_quoted_line_breaks);
    v
}

// A cell past ten mebibytes evicts the candidate.
#[test]
fn oversized_cell_evicts() {
    let mut v = comma_crlf_validator();
    let chunk = vec![b'x'; 10 * 1024 * 1024 + 1];
    assert_eq!(v.try_process_chunk(&chunk), Err(StructuralViolation::CellTooLong));
}

// More than five thousand columns in the first row evict the candidate.
#[test]
fn oversized_first_row_evicts() {
    let mut v = comma_crlf_validator();
    let chunk = vec![b','; 5002];
    assert_eq!(
        v.try_process_chunk(&chunk),
        Err(StructuralViolation::TooManyColumns)
    );
}

// The remaining structural violations, each on a smallest input.
#[test]
fn structural_violation_variants() {
    let mut v = comma_crlf_validator();
    assert_eq!(
        v.try_process_chunk(b"abc\r\n"),
        Err(StructuralViolation::OnlyOneColumn)
    );
    let mut v = comma_crlf_validator();
    assert_eq!(
        v.try_process_chunk(b"a,b\r\nc\r\n"),
        Err(StructuralViolation::MissingColumn)
    );
    let mut v = comma_crlf_validator();
    assert_eq!(
        v.try_process_chunk(b"a,b\r\n1,2,3,4\r\n"),
        Err(StructuralViolation::InconsistentRowLength)
    );
    let mut v = KeyValueDialectValidator::make().swap_remove(0);
    let row = b"a:b:c\n".repeat(10001);
    assert_eq!(
        v.try_process_chunk(&row),
        Err(StructuralViolation::AllRowsBroken)
    );
}

// Key-value finalization accepts exactly on a strict clean majority.
#[test]
fn key_value_majority_boundary() {
    let mut v = KeyValueDialectValidator::make().swap_remove(0);
    v.broken_rows = 2;
    v.current_row = 4;
    assert_eq!(v.finalize(), None);
    let mut v = KeyValueDialectValidator::make().swap_remove(0);
    v.broken_rows = 1;
    v.current_row = 4;
    let d = v.finalize().unwrap();
    assert_eq!(d.total_rows, 4);
}

// A known header word marks the first row as a header even when every
// other signal is silent.
#[test]
fn known_header_vocabulary() {
    let with_word = csv_to_asv(b"email,ab\r\nabcde,fg\r\n").unwrap();
    assert_eq!(with_word, b"email\x1fab\x1eabcde\x1ffg\x1e".to_vec());
    let without_word = csv_to_asv(b"emaiX,ab\r\nabcde,fg\r\n").unwrap();
    assert_eq!(
        without_word,
        b"__NO_HEADER__\x1f__NO_HEADER__\x1eemaiX\x1fab\x1eabcde\x1ffg\x1e".to_vec()
    );
}

// First-row bytes that are not UTF-8 can never become a header, so the
// synthetic header is emitted instead.
#[test]
fn invalid_utf8_header_rejected() {
    let input = b"\xff\xfe,x\r\n1,2\r\n";
    let out = csv_to_asv(input).unwrap();
    assert_eq!(
        out,
        b"__NO_HEADER__\x1f__NO_HEADER__\x1e\xff\xfe\x1fx\x1e1\x1f2\x1e".to_vec()
    );
}

// Spot checks of the ranking on concrete dialect values.
#[test]
fn ranking_spot_checks() {
    let ds = detect(b"a,b\r\nc,d\ne,f\r\n");
    // Both the CRLF survivor set and the LF survivor set finalize; the
    // comparison is exercised through selection.
    assert!(select_best(&ds).is_some());
    let header = best(b"a,b,c\r\n1,2,3\r\n4,5,6\r\n").unwrap();
    let no_header = best(b"aa,bb\r\ncc,dd\r\n").unwrap();
    match (&header, &no_header) {
        (Dialect::SingleByte(h), Dialect::SingleByte(n)) => {
            assert!(h.header.is_some());
            assert!(n.header.is_none());
            assert_eq!(h.partial_cmp(h), Some(std::cmp::Ordering::Equal));
        }
        _ => panic!("expected single-byte dialects"),
    }
}
