use csv_reader::byte_record::ByteRecord;
use csv_reader::error::Error;
use csv_reader::position::Position;
use csv_reader::reader::{Reader, ReaderBuilder};
use csv_reader::string_record::StringRecord;
use csv_reader::tokenizer::Terminator;

fn data(s: &str) -> Vec<u8> {
    s.as_bytes().to_vec()
}

fn field<'a>(rec: &'a ByteRecord, i: usize) -> &'a [u8] {
    rec.get(i).unwrap()
}

fn sfield<'a>(rec: &'a StringRecord, i: usize) -> &'a str {
    rec.get(i).unwrap()
}

#[test]
fn position_starts_at_origin() {
    let p = Position::new();
    assert_eq!(0, p.byte());
    assert_eq!(1, p.line());
    assert_eq!(0, p.record());
}

#[test]
fn position_setters() {
    let mut p = Position::new();
    p.set_byte(7);
    p.set_line(3);
    p.set_record(2);
    assert_eq!(7, p.byte());
    assert_eq!(3, p.line());
    assert_eq!(2, p.record());
}

#[test]
fn byte_record_push_and_get() {
    let mut rec = ByteRecord::new();
    assert_eq!(0, rec.len());
    assert!(rec.get(0).is_none());
    rec.push_field(b"one");
    rec.push_field(b"");
    rec.push_field(b"three");
    assert_eq!(3, rec.len());
    assert_eq!(&b"one"[..], field(&rec, 0));
    assert_eq!(&b""[..], field(&rec, 1));
    assert_eq!(&b"three"[..], field(&rec, 2));
    assert!(rec.get(3).is_none());
    rec.clear();
    assert_eq!(0, rec.len());
    rec.push_field(b"later");
    assert_eq!(1, rec.len());
    assert_eq!(&b"later"[..], field(&rec, 0));
}

#[test]
fn byte_record_copy_and_clone() {
    let mut rec = ByteRecord::new();
    rec.push_field(b"a");
    rec.push_field(b"bb");
    let cloned = rec.clone_record();
    assert_eq!(2, cloned.len());
    assert_eq!(&b"a"[..], field(&cloned, 0));
    assert_eq!(&b"bb"[..], field(&cloned, 1));
    let mut other = ByteRecord::new();
    other.push_field(b"zzz");
    other.copy_from(&rec);
    assert_eq!(2, other.len());
    assert_eq!(&b"bb"[..], field(&other, 1));
}

#[test]
fn string_record_push_and_get() {
    let mut rec = StringRecord::new();
    rec.push_field("hello");
    rec.push_field("wörld");
    assert_eq!(2, rec.len());
    assert_eq!("hello", sfield(&rec, 0));
    assert_eq!("wörld", sfield(&rec, 1));
    assert!(rec.get(2).is_none());
}

#[test]
fn string_record_from_byte_record_validates() {
    let mut good = ByteRecord::new();
    good.push_field(b"ok");
    let s = StringRecord::from_byte_record(&good).unwrap();
    assert_eq!("ok", sfield(&s, 0));

    let mut bad = ByteRecord::new();
    bad.push_field(b"fine");
    bad.push_field(b"ab\xFFcd");
    match StringRecord::from_byte_record(&bad) {
        Err(e) => {
            assert_eq!(1, e.field());
            assert_eq!(2, e.valid_up_to());
        }
        Ok(_) => panic!("invalid bytes were accepted as text"),
    }
}

// Setting text headers and reading them back as bytes gives the same
// data; setting byte headers and reading them back as text does too.
#[test]
fn header_round_trip() {
    let mut rdr = Reader::from_reader(data("a,b\nc,d"));
    let mut text = StringRecord::new();
    text.push_field("alpha");
    text.push_field("beta");
    rdr.set_headers(text);
    {
        let bytes = rdr.byte_headers().unwrap();
        assert_eq!(2, bytes.len());
        assert_eq!(&b"alpha"[..], field(bytes, 0));
        assert_eq!(&b"beta"[..], field(bytes, 1));
    }

    let mut raw = ByteRecord::new();
    raw.push_field(b"gamma");
    raw.push_field(b"delta");
    rdr.set_byte_headers(raw);
    let headers = rdr.headers().unwrap();
    assert_eq!(2, headers.len());
    assert_eq!("gamma", sfield(headers, 0));
    assert_eq!("delta", sfield(headers, 1));
}

// Byte headers set manually never fail as bytes, and the text accessor
// reports the first invalid field with no origin position.
#[test]
fn set_byte_headers_invalid_utf8() {
    let mut rdr = Reader::from_reader(data("a,b"));
    let mut raw = ByteRecord::new();
    raw.push_field(b"\xFFbad");
    rdr.set_byte_headers(raw);
    assert_eq!(1, rdr.byte_headers().unwrap().len());
    match rdr.headers() {
        Err(Error::Utf8 { pos: None, err }) => {
            assert_eq!(0, err.field());
            assert_eq!(0, err.valid_up_to());
        }
        other => panic!("match failed, got {:?}", other),
    }
}

#[test]
fn empty_input_is_end_of_stream() {
    let mut rdr = ReaderBuilder::new().has_headers(false).from_reader(Vec::new());
    let mut rec = ByteRecord::new();
    assert!(rdr.read_record_bytes(&mut rec).unwrap());
    assert_eq!(0, rec.len());
}

#[test]
fn trailing_record_without_terminator() {
    let mut rdr = ReaderBuilder::new().has_headers(false).from_reader(data("a,b\nc,d"));
    let mut rec = ByteRecord::new();
    assert!(!rdr.read_record_bytes(&mut rec).unwrap());
    assert!(!rdr.read_record_bytes(&mut rec).unwrap());
    assert_eq!(&b"c"[..], field(&rec, 0));
    assert_eq!(&b"d"[..], field(&rec, 1));
    assert!(rdr.read_record_bytes(&mut rec).unwrap());
}

#[test]
fn custom_delimiter() {
    let mut rdr = ReaderBuilder::new()
        .has_headers(false)
        .delimiter(0x3b)  // ';'
        .from_reader(data("a;b\nc;d"));
    let mut rec = ByteRecord::new();
    assert!(!rdr.read_record_bytes(&mut rec).unwrap());
    assert_eq!(2, rec.len());
    assert_eq!(&b"a"[..], field(&rec, 0));
    assert_eq!(&b"b"[..], field(&rec, 1));
}

#[test]
fn custom_terminator() {
    let mut rdr = ReaderBuilder::new()
        .has_headers(false)
        .terminator(Terminator::Any(0x7c))  // '|'
        .from_reader(data("a,b|c,d"));
    let mut rec = ByteRecord::new();
    assert!(!rdr.read_record_bytes(&mut rec).unwrap());
    assert_eq!(&b"a"[..], field(&rec, 0));
    assert!(!rdr.read_record_bytes(&mut rec).unwrap());
    assert_eq!(&b"c"[..], field(&rec, 0));
    assert!(rdr.read_record_bytes(&mut rec).unwrap());
}

#[test]
fn ascii_mode() {
    let mut rdr = ReaderBuilder::new()
        .has_headers(false)
        .ascii()
        .from_reader(b"a\x1fb\x1ec\x1fd".to_vec());
    let mut rec = ByteRecord::new();
    assert!(!rdr.read_record_bytes(&mut rec).unwrap());
    assert_eq!(2, rec.len());
    assert_eq!(&b"a"[..], field(&rec, 0));
    assert_eq!(&b"b"[..], field(&rec, 1));
    assert!(!rdr.read_record_bytes(&mut rec).unwrap());
    assert_eq!(&b"c"[..], field(&rec, 0));
    assert_eq!(&b"d"[..], field(&rec, 1));
}

#[test]
fn escaped_quotes_by_doubling() {
    let mut rdr = ReaderBuilder::new()
        .has_headers(false)
        .from_reader(data("\"a\"\"b\",c"));
    let mut rec = ByteRecord::new();
    assert!(!rdr.read_record_bytes(&mut rec).unwrap());
    assert_eq!(2, rec.len());
    assert_eq!(&b"a\"b"[..], field(&rec, 0));
    assert_eq!(&b"c"[..], field(&rec, 1));
}

#[test]
fn escape_character() {
    let mut rdr = ReaderBuilder::new()
        .has_headers(false)
        .escape(Some(0x5c))  // '\\'
        .from_reader(data("\"a\\\"b\",c"));
    let mut rec = ByteRecord::new();
    assert!(!rdr.read_record_bytes(&mut rec).unwrap());
    assert_eq!(2, rec.len());
    assert_eq!(&b"a\"b"[..], field(&rec, 0));
    assert_eq!(&b"c"[..], field(&rec, 1));
}

// The NFA engine of the tokenizer parses the same simple data the same
// way.
#[test]
fn nfa_mode() {
    let mut rdr = ReaderBuilder::new()
        .has_headers(false)
        .nfa(true)
        .from_reader(data("a,b\nc,d"));
    let mut rec = ByteRecord::new();
    assert!(!rdr.read_record_bytes(&mut rec).unwrap());
    assert_eq!(2, rec.len());
    assert_eq!(&b"a"[..], field(&rec, 0));
    assert_eq!(&b"b"[..], field(&rec, 1));
    assert!(!rdr.read_record_bytes(&mut rec).unwrap());
    assert_eq!(&b"c"[..], field(&rec, 0));
    assert_eq!(&b"d"[..], field(&rec, 1));
    assert!(rdr.read_record_bytes(&mut rec).unwrap());
}

// A tiny buffer capacity forces many tokenizer steps per record but
// changes nothing about the records read.
#[test]
fn tiny_buffer_capacity() {
    let mut rdr = ReaderBuilder::new()
        .has_headers(false)
        .buffer_capacity(1)
        .from_reader(data("aa,bb\ncc,dd"));
    let mut rec = ByteRecord::new();
    assert!(!rdr.read_record_bytes(&mut rec).unwrap());
    assert_eq!(&b"aa"[..], field(&rec, 0));
    assert_eq!(&b"bb"[..], field(&rec, 1));
    assert!(!rdr.read_record_bytes(&mut rec).unwrap());
    assert_eq!(&b"cc"[..], field(&rec, 0));
    assert_eq!(&b"dd"[..], field(&rec, 1));
    assert!(rdr.read_record_bytes(&mut rec).unwrap());
}

#[test]
fn position_advances_by_record() {
    let mut rdr = ReaderBuilder::new().has_headers(false).from_reader(data("a,b\nc,d"));
    let mut rec = ByteRecord::new();
    assert_eq!(0, rdr.position().byte());
    assert_eq!(1, rdr.position().line());
    assert_eq!(0, rdr.position().record());
    assert!(!rdr.read_record_bytes(&mut rec).unwrap());
    assert_eq!(4, rdr.position().byte());
    assert_eq!(2, rdr.position().line());
    assert_eq!(1, rdr.position().record());
}

// With header suppression on, the first raw read returns the second
// physical record, and the header accessor the first.
#[test]
fn suppressed_headers_skip_first_row() {
    let mut rdr = Reader::from_reader(data("h1,h2\nv1,v2"));
    let mut rec = ByteRecord::new();
    assert!(!rdr.read_record_bytes(&mut rec).unwrap());
    assert_eq!(&b"v1"[..], field(&rec, 0));
    assert_eq!(&b"v2"[..], field(&rec, 1));
    let headers = rdr.byte_headers().unwrap();
    assert_eq!(&b"h1"[..], field(headers, 0));
    assert_eq!(&b"h2"[..], field(headers, 1));
}

// Reading headers first and then records replays the header row once
// when suppression is off.
#[test]
fn unsuppressed_headers_replayed_once() {
    let mut rdr = ReaderBuilder::new().has_headers(false).from_reader(data("h1,h2\nv1,v2"));
    assert_eq!("h1", sfield(rdr.headers().unwrap(), 0));
    let mut rec = ByteRecord::new();
    assert!(!rdr.read_record_bytes(&mut rec).unwrap());
    assert_eq!(&b"h1"[..], field(&rec, 0));
    assert!(!rdr.read_record_bytes(&mut rec).unwrap());
    assert_eq!(&b"v1"[..], field(&rec, 0));
    assert!(rdr.read_record_bytes(&mut rec).unwrap());
}

// A record-level UTF-8 failure reports the field and offset and clears
// the record, and the stream stays usable.
#[test]
fn read_record_invalid_utf8_reports_field() {
    let mut rdr = ReaderBuilder::new()
        .has_headers(false)
        .from_reader(b"ok,a\xFFb\nx,y".to_vec());
    let mut rec = StringRecord::new();
    match rdr.read_record(&mut rec) {
        Err(Error::Utf8 { pos: Some(pos), err }) => {
            assert_eq!(0, pos.byte());
            assert_eq!(1, err.field());
            assert_eq!(1, err.valid_up_to());
            assert_eq!(0, rec.len());
        }
        other => panic!("match failed, got {:?}", other),
    }
    assert!(!rdr.read_record(&mut rec).unwrap());
    assert_eq!("x", sfield(&rec, 0));
    assert_eq!("y", sfield(&rec, 1));
}
