use csv_reader::byte_record::ByteRecord;
use csv_reader::error::Error;
use csv_reader::position::Position;
use csv_reader::reader::ReaderBuilder;
use csv_reader::string_record::StringRecord;

fn data(s: &str) -> Vec<u8> {
    s.as_bytes().to_vec()
}

fn field<'a>(rec: &'a ByteRecord, i: usize) -> &'a [u8] {
    rec.get(i).unwrap()
}

fn sfield<'a>(rec: &'a StringRecord, i: usize) -> &'a str {
    rec.get(i).unwrap()
}

fn pos(byte: u64, line: u64, record: u64) -> Position {
    let mut p = Position::new();
    p.set_byte(byte);
    p.set_line(line);
    p.set_record(record);
    p
}

#[test]
fn read_record_bytes() {
    let d = data("foo,\"b,ar\",baz\nabc,mno,xyz");
    let mut rdr = ReaderBuilder::new().has_headers(false).from_reader(d);
    let mut rec = ByteRecord::new();

    assert!(!rdr.read_record_bytes(&mut rec).unwrap());
    assert_eq!(3, rec.len());
    assert_eq!(&b"foo"[..], field(&rec, 0));
    assert_eq!(&b"b,ar"[..], field(&rec, 1));
    assert_eq!(&b"baz"[..], field(&rec, 2));

    assert!(!rdr.read_record_bytes(&mut rec).unwrap());
    assert_eq!(3, rec.len());
    assert_eq!(&b"abc"[..], field(&rec, 0));
    assert_eq!(&b"mno"[..], field(&rec, 1));
    assert_eq!(&b"xyz"[..], field(&rec, 2));

    assert!(rdr.read_record_bytes(&mut rec).unwrap());
}

#[test]
fn read_record_unequal_fails() {
    let d = data("foo\nbar,baz");
    let mut rdr = ReaderBuilder::new().has_headers(false).from_reader(d);
    let mut rec = ByteRecord::new();

    assert!(!rdr.read_record_bytes(&mut rec).unwrap());
    assert_eq!(1, rec.len());
    assert_eq!(&b"foo"[..], field(&rec, 0));

    match rdr.read_record_bytes(&mut rec) {
        Err(Error::UnequalLengths { expected_len, pos, len }) => {
            assert_eq!(1, expected_len);
            assert_eq!(4, pos.byte());
            assert_eq!(2, pos.line());
            assert_eq!(1, pos.record());
            assert_eq!(2, len);
        }
        other => panic!("match failed, got {:?}", other),
    }
}

#[test]
fn read_record_unequal_ok() {
    let d = data("foo\nbar,baz");
    let mut rdr = ReaderBuilder::new()
        .has_headers(false)
        .flexible(true)
        .from_reader(d);
    let mut rec = ByteRecord::new();

    assert!(!rdr.read_record_bytes(&mut rec).unwrap());
    assert_eq!(1, rec.len());
    assert_eq!(&b"foo"[..], field(&rec, 0));

    assert!(!rdr.read_record_bytes(&mut rec).unwrap());
    assert_eq!(2, rec.len());
    assert_eq!(&b"bar"[..], field(&rec, 0));
    assert_eq!(&b"baz"[..], field(&rec, 1));

    assert!(rdr.read_record_bytes(&mut rec).unwrap());
}

// Even after a field-count error, reading can continue.
#[test]
fn read_record_unequal_continue() {
    let d = data("foo\nbar,baz\nquux");
    let mut rdr = ReaderBuilder::new().has_headers(false).from_reader(d);
    let mut rec = ByteRecord::new();

    assert!(!rdr.read_record_bytes(&mut rec).unwrap());
    assert_eq!(1, rec.len());
    assert_eq!(&b"foo"[..], field(&rec, 0));

    match rdr.read_record_bytes(&mut rec) {
        Err(Error::UnequalLengths { expected_len, pos, len }) => {
            assert_eq!(1, expected_len);
            assert_eq!(4, pos.byte());
            assert_eq!(2, pos.line());
            assert_eq!(1, pos.record());
            assert_eq!(2, len);
        }
        other => panic!("match failed, got {:?}", other),
    }

    assert!(!rdr.read_record_bytes(&mut rec).unwrap());
    assert_eq!(1, rec.len());
    assert_eq!(&b"quux"[..], field(&rec, 0));

    assert!(rdr.read_record_bytes(&mut rec).unwrap());
}

#[test]
fn read_record_headers() {
    let d = data("foo,bar,baz\na,b,c\nd,e,f");
    let mut rdr = ReaderBuilder::new().has_headers(true).from_reader(d);
    let mut rec = StringRecord::new();

    assert!(!rdr.read_record(&mut rec).unwrap());
    assert_eq!(3, rec.len());
    assert_eq!("a", sfield(&rec, 0));

    assert!(!rdr.read_record(&mut rec).unwrap());
    assert_eq!(3, rec.len());
    assert_eq!("d", sfield(&rec, 0));

    assert!(rdr.read_record(&mut rec).unwrap());

    {
        let headers = rdr.byte_headers().unwrap();
        assert_eq!(3, headers.len());
        assert_eq!(&b"foo"[..], field(headers, 0));
        assert_eq!(&b"bar"[..], field(headers, 1));
        assert_eq!(&b"baz"[..], field(headers, 2));
    }
    {
        let headers = rdr.headers().unwrap();
        assert_eq!(3, headers.len());
        assert_eq!("foo", sfield(headers, 0));
        assert_eq!("bar", sfield(headers, 1));
        assert_eq!("baz", sfield(headers, 2));
    }
}

#[test]
fn read_record_headers_invalid_utf8() {
    let d = b"foo,b\xFFar,baz\na,b,c\nd,e,f".to_vec();
    let mut rdr = ReaderBuilder::new().has_headers(true).from_reader(d);
    let mut rec = StringRecord::new();

    assert!(!rdr.read_record(&mut rec).unwrap());
    assert_eq!(3, rec.len());
    assert_eq!("a", sfield(&rec, 0));

    assert!(!rdr.read_record(&mut rec).unwrap());
    assert_eq!(3, rec.len());
    assert_eq!("d", sfield(&rec, 0));

    assert!(rdr.read_record(&mut rec).unwrap());

    // The headers can be read as raw bytes, but reading them as text
    // gives the right UTF-8 error.
    {
        let headers = rdr.byte_headers().unwrap();
        assert_eq!(3, headers.len());
        assert_eq!(&b"foo"[..], field(headers, 0));
        assert_eq!(&b"b\xFFar"[..], field(headers, 1));
        assert_eq!(&b"baz"[..], field(headers, 2));
    }
    match rdr.headers() {
        Err(Error::Utf8 { pos: Some(pos), err }) => {
            assert_eq!(0, pos.byte());
            assert_eq!(1, pos.line());
            assert_eq!(0, pos.record());
            assert_eq!(1, err.field());
            assert_eq!(1, err.valid_up_to());
        }
        other => panic!("match failed, got {:?}", other),
    }
}

#[test]
fn read_record_no_headers_before() {
    let d = data("foo,bar,baz\na,b,c\nd,e,f");
    let mut rdr = ReaderBuilder::new().has_headers(false).from_reader(d);
    let mut rec = StringRecord::new();

    {
        let headers = rdr.headers().unwrap();
        assert_eq!(3, headers.len());
        assert_eq!("foo", sfield(headers, 0));
        assert_eq!("bar", sfield(headers, 1));
        assert_eq!("baz", sfield(headers, 2));
    }

    assert!(!rdr.read_record(&mut rec).unwrap());
    assert_eq!(3, rec.len());
    assert_eq!("foo", sfield(&rec, 0));

    assert!(!rdr.read_record(&mut rec).unwrap());
    assert_eq!(3, rec.len());
    assert_eq!("a", sfield(&rec, 0));

    assert!(!rdr.read_record(&mut rec).unwrap());
    assert_eq!(3, rec.len());
    assert_eq!("d", sfield(&rec, 0));

    assert!(rdr.read_record(&mut rec).unwrap());
}

#[test]
fn read_record_no_headers_after() {
    let d = data("foo,bar,baz\na,b,c\nd,e,f");
    let mut rdr = ReaderBuilder::new().has_headers(false).from_reader(d);
    let mut rec = StringRecord::new();

    assert!(!rdr.read_record(&mut rec).unwrap());
    assert_eq!(3, rec.len());
    assert_eq!("foo", sfield(&rec, 0));

    assert!(!rdr.read_record(&mut rec).unwrap());
    assert_eq!(3, rec.len());
    assert_eq!("a", sfield(&rec, 0));

    assert!(!rdr.read_record(&mut rec).unwrap());
    assert_eq!(3, rec.len());
    assert_eq!("d", sfield(&rec, 0));

    assert!(rdr.read_record(&mut rec).unwrap());

    let headers = rdr.headers().unwrap();
    assert_eq!(3, headers.len());
    assert_eq!("foo", sfield(headers, 0));
    assert_eq!("bar", sfield(headers, 1));
    assert_eq!("baz", sfield(headers, 2));
}

#[test]
fn seek() {
    let d = data("foo,bar,baz\na,b,c\nd,e,f\ng,h,i");
    let mut rdr = ReaderBuilder::new().from_reader(d);
    rdr.seek(&pos(18, 3, 2)).unwrap();

    let mut rec = StringRecord::new();

    assert_eq!(18, rdr.position().byte());
    assert!(!rdr.read_record(&mut rec).unwrap());
    assert_eq!(3, rec.len());
    assert_eq!("d", sfield(&rec, 0));

    assert_eq!(24, rdr.position().byte());
    assert_eq!(4, rdr.position().line());
    assert_eq!(3, rdr.position().record());
    assert!(!rdr.read_record(&mut rec).unwrap());
    assert_eq!(3, rec.len());
    assert_eq!("g", sfield(&rec, 0));

    assert!(rdr.read_record(&mut rec).unwrap());
}

// Asking for headers after a seek fails if the headers were not read
// before seeking.
#[test]
fn seek_headers_error() {
    let d = data("foo,bar,baz\na,b,c\nd,e,f\ng,h,i");
    let mut rdr = ReaderBuilder::new().from_reader(d);
    rdr.seek(&pos(18, 3, 2)).unwrap();
    match rdr.headers() {
        Err(Error::Seek) => {}
        other => panic!("match failed, got {:?}", other),
    }
}

// Headers can still be read after a seek if they were read before it.
#[test]
fn seek_headers() {
    let d = data("foo,bar,baz\na,b,c\nd,e,f\ng,h,i");
    let mut rdr = ReaderBuilder::new().from_reader(d);
    let saved = rdr.headers().unwrap().clone_record();
    rdr.seek(&pos(18, 3, 2)).unwrap();
    let headers = rdr.headers().unwrap();
    assert_eq!(saved.len(), headers.len());
    for i in 0..saved.len() {
        assert_eq!(sfield(&saved, i), sfield(headers, i));
    }
}

// Seeking to the current byte offset does no actual seek, so headers
// stay readable afterward.
#[test]
fn seek_headers_no_actual_seek() {
    let d = data("foo,bar,baz\na,b,c\nd,e,f\ng,h,i");
    let mut rdr = ReaderBuilder::new().from_reader(d);
    rdr.seek(&Position::new()).unwrap();
    assert_eq!("foo", sfield(rdr.headers().unwrap(), 0));
}
