//! The CSV interchange form of the ledger: a header line `tag,datetime`,
//! then one row per record with the tag quoted (inner quotes doubled) and the
//! datetime written bare as an RFC3339 string.
//!
//! The grammar is fixed here for both directions: rows end with `\n`, or with
//! `\r\n` on input; a field is either quoted (holding any characters, quotes
//! doubled) or bare (holding no comma, quote, newline or carriage return);
//! the first line is skipped as the header. Importing stops at the first
//! malformed row.

use vstd::prelude::*;
use vstd::string::StrSliceExecFns;
use vstd::string::StringExecFns;
use crate::chars::is_digit_char;
use crate::ledger::read_contents;
use crate::ledger::rows_sorted;
use crate::ledger::snapshot_rows;
use crate::ledger::write_contents;
use crate::ledger::empty_ledger;
use crate::ledger::read_all_tags;
use crate::ledger::record_tag;
use crate::text::chars_to_string;
use crate::text::str_to_chars;
use crate::TagError;

verus! {

/// Largest timestamp the datetime rendering is promised for:
/// 9999-12-31T23:59:59 UTC, the last second RFC3339 can express.
pub const MAX_RFC3339_TIMESTAMP: i64 = 253402300799;

/// The timestamp an RFC3339 datetime string denotes, if it denotes one.
pub uninterp spec fn rfc3339_value(s: Seq<char>) -> Option<i64>;

/// The characters the canonical datetime rendering consists of.
pub open spec fn is_plain_datetime_char(c: char) -> bool {
    is_digit_char(c) || c == '-' || c == 'T' || c == ':' || c == 'Z'
}

/// The characters a bare (unquoted) CSV field may hold.
pub open spec fn is_bare_char(c: char) -> bool {
    c != ',' && c != '"' && c != '\n' && c != '\r'
}

/// Relies on time's `OffsetDateTime::from_unix_timestamp` and the `Rfc3339`
/// formatter: a representable timestamp renders as the 20-character
/// `YYYY-MM-DDTHH:MM:SSZ` form of that UTC instant, the `Rfc3339` parser
/// reads that rendering back to the same timestamp, and every timestamp from
/// the Unix epoch up to `MAX_RFC3339_TIMESTAMP` is representable.
#[verifier::external_body]
fn format_rfc3339(ts: i64) -> (r: Result<String, String>)
    ensures
        r matches Ok(s) ==> {
            &&& rfc3339_value(s@) == Some(ts)
            &&& s@.len() == 20
            &&& forall|i: int| 0 <= i < s@.len() ==> is_plain_datetime_char(#[trigger] s@[i])
        },
        0 <= ts <= MAX_RFC3339_TIMESTAMP ==> r is Ok,
{
    let dt = time::OffsetDateTime::from_unix_timestamp(ts)
        .map_err(|e| format!("failed to convert timestamp {ts}: {e}"))?;
    dt.format(&time::format_description::well_known::Rfc3339)
        .map_err(|e| format!("failed to format timestamp {ts}: {e}"))
}

/// Relies on time's `OffsetDateTime::parse` with `Rfc3339`: the timestamp a
/// datetime string denotes; the result depends on the characters alone, and
/// `rfc3339_value` names it.
#[verifier::external_body]
fn parse_rfc3339(s: &str) -> (r: Result<i64, String>)
    ensures
        r matches Ok(v) ==> rfc3339_value(s@) == Some(v),
        r is Err ==> rfc3339_value(s@) is None,
{
    time::OffsetDateTime::parse(s, &time::format_description::well_known::Rfc3339)
        .map(|dt| dt.unix_timestamp())
        .map_err(|e| format!("failed to parse datetime {s}: {e}"))
}

// ------------------------- the canonical encoding -------------------------

/// A field's body as it stands between quotes: every quote doubled.
pub open spec fn escape_quotes(f: Seq<char>) -> Seq<char>
    decreases f.len(),
{
    if f.len() == 0 {
        Seq::empty()
    } else {
        (if f[0] == '"' {
            seq!['"', '"']
        } else {
            seq![f[0]]
        }) + escape_quotes(f.drop_first())
    }
}

/// One encoded row: the tag quoted, the datetime bare, `\n` at the end.
pub open spec fn encode_row(tag: Seq<char>, dt: Seq<char>) -> Seq<char> {
    seq!['"'] + escape_quotes(tag) + seq!['"', ','] + dt + seq!['\n']
}

/// The encoded rows, in order.
pub open spec fn encode_rows(rows: Seq<(Seq<char>, Seq<char>)>) -> Seq<char>
    decreases rows.len(),
{
    if rows.len() == 0 {
        Seq::empty()
    } else {
        encode_row(rows[0].0, rows[0].1) + encode_rows(rows.drop_first())
    }
}

/// The header line every export begins with.
pub open spec fn csv_header() -> Seq<char> {
    seq!['t', 'a', 'g', ',', 'd', 'a', 't', 'e', 't', 'i', 'm', 'e', '\n']
}

// ------------------------------ the grammar -------------------------------

/// Reads a bare field off the head of `s`: the characters up to the next
/// comma, newline or carriage return, which stay in the rest. A quote in a
/// bare field is malformed.
pub open spec fn parse_bare(s: Seq<char>) -> Option<(Seq<char>, Seq<char>)>
    decreases s.len(),
{
    if s.len() == 0 {
        Some((Seq::empty(), s))
    } else if s[0] == ',' || s[0] == '\n' || s[0] == '\r' {
        Some((Seq::empty(), s))
    } else if s[0] == '"' {
        None
    } else {
        match parse_bare(s.drop_first()) {
            None => None,
            Some(p) => Some((seq![s[0]] + p.0, p.1)),
        }
    }
}

/// Reads a quoted field's body off the head of `s`, which begins after the
/// opening quote: a doubled quote stands for one quote, a lone quote closes
/// the field, and anything else belongs to it. `None` when the field never
/// closes.
pub open spec fn parse_quoted(s: Seq<char>) -> Option<(Seq<char>, Seq<char>)>
    decreases s.len(),
{
    if s.len() == 0 {
        None
    } else if s[0] == '"' {
        if s.len() >= 2 && s[1] == '"' {
            match parse_quoted(s.subrange(2, s.len() as int)) {
                None => None,
                Some(p) => Some((seq!['"'] + p.0, p.1)),
            }
        } else {
            Some((Seq::empty(), s.drop_first()))
        }
    } else {
        match parse_quoted(s.drop_first()) {
            None => None,
            Some(p) => Some((seq![s[0]] + p.0, p.1)),
        }
    }
}

/// Reads one field off the head of `s`, quoted or bare.
pub open spec fn parse_field(s: Seq<char>) -> Option<(Seq<char>, Seq<char>)> {
    if s.len() > 0 && s[0] == '"' {
        parse_quoted(s.drop_first())
    } else {
        parse_bare(s)
    }
}

/// Consumes a row terminator off the head of `s`: a newline, or a carriage
/// return followed by a newline.
pub open spec fn parse_row_end(s: Seq<char>) -> Option<Seq<char>> {
    if s.len() > 0 && s[0] == '\n' {
        Some(s.drop_first())
    } else if s.len() >= 2 && s[0] == '\r' && s[1] == '\n' {
        Some(s.subrange(2, s.len() as int))
    } else {
        None
    }
}

/// Reads one row off the head of `s`: tag field, comma, datetime field,
/// row terminator.
pub open spec fn parse_row(s: Seq<char>) -> Option<(Seq<char>, Seq<char>, Seq<char>)> {
    match parse_field(s) {
        None => None,
        Some(p1) => if p1.1.len() > 0 && p1.1[0] == ',' {
            match parse_field(p1.1.drop_first()) {
                None => None,
                Some(p2) => match parse_row_end(p2.1) {
                    None => None,
                    Some(rest) => Some((p1.0, p2.0, rest)),
                },
            }
        } else {
            None
        },
    }
}

/// Reads all rows of `s` and resolves each datetime, failing on the first
/// malformed row or unparseable datetime.
pub open spec fn parse_records(s: Seq<char>) -> Option<Seq<(Seq<char>, i64)>>
    decreases s.len(),
{
    if s.len() == 0 {
        Some(Seq::empty())
    } else {
        match parse_row(s) {
            None => None,
            Some(row) => if row.2.len() < s.len() {
                match rfc3339_value(row.1) {
                    None => None,
                    Some(ts) => match parse_records(row.2) {
                        None => None,
                        Some(rs) => Some(seq![(row.0, ts)] + rs),
                    },
                }
            } else {
                None
            },
        }
    }
}

/// Drops the header line: everything up to and including the first newline.
pub open spec fn skip_header(s: Seq<char>) -> Option<Seq<char>>
    decreases s.len(),
{
    if s.len() == 0 {
        None
    } else if s[0] == '\n' {
        Some(s.drop_first())
    } else {
        skip_header(s.drop_first())
    }
}

/// What a CSV text denotes: its records after the header line. Empty text
/// denotes no records; non-empty text without a header line is malformed.
pub open spec fn csv_parse_records(text: Seq<char>) -> Option<Seq<(Seq<char>, i64)>> {
    if text.len() == 0 {
        Some(Seq::empty())
    } else {
        match skip_header(text) {
            None => None,
            Some(body) => parse_records(body),
        }
    }
}

/// The records a vector of (tag, timestamp) pairs denotes.
pub open spec fn rows_view(rows: Seq<(String, i64)>) -> Seq<(Seq<char>, i64)> {
    Seq::new(rows.len(), |i: int| (rows[i].0@, rows[i].1))
}

/// The ledger map after upserting `rows` in order into `m`.
pub open spec fn upsert_all(m: Map<Seq<char>, i64>, rows: Seq<(Seq<char>, i64)>) -> Map<
    Seq<char>,
    i64,
>
    decreases rows.len(),
{
    if rows.len() == 0 {
        m
    } else {
        upsert_all(m, rows.drop_last()).insert(rows.last().0, rows.last().1)
    }
}

// --------------------- the encoding parses back to itself ---------------------

proof fn lemma_escape_push(f: Seq<char>, c: char)
    ensures
        escape_quotes(f.push(c)) == escape_quotes(f) + (if c == '"' {
            seq!['"', '"']
        } else {
            seq![c]
        }),
    decreases f.len(),
{
    let enc_c: Seq<char> = if c == '"' {
        seq!['"', '"']
    } else {
        seq![c]
    };
    if f.len() == 0 {
        assert(f.push(c)[0] == c);
        assert(f.push(c).drop_first() =~= Seq::<char>::empty());
        assert(escape_quotes(Seq::<char>::empty()) =~= Seq::<char>::empty());
        assert(escape_quotes(f.push(c)) =~= enc_c);
    } else {
        assert(f.push(c).drop_first() =~= f.drop_first().push(c));
        lemma_escape_push(f.drop_first(), c);
        assert(escape_quotes(f.push(c)) =~= escape_quotes(f) + enc_c);
    }
}

proof fn lemma_encode_rows_push(rows: Seq<(Seq<char>, Seq<char>)>, row: (Seq<char>, Seq<char>))
    ensures
        encode_rows(rows.push(row)) == encode_rows(rows) + encode_row(row.0, row.1),
    decreases rows.len(),
{
    if rows.len() == 0 {
        assert(rows.push(row)[0] == row);
        assert(rows.push(row).drop_first() =~= Seq::<(Seq<char>, Seq<char>)>::empty());
        assert(encode_rows(Seq::<(Seq<char>, Seq<char>)>::empty()) =~= Seq::<char>::empty());
        assert(encode_rows(rows.push(row)) =~= encode_row(row.0, row.1));
        assert(encode_rows(rows) + encode_row(row.0, row.1) =~= encode_row(row.0, row.1));
    } else {
        assert(rows.push(row).drop_first() =~= rows.drop_first().push(row));
        lemma_encode_rows_push(rows.drop_first(), row);
        assert(rows.push(row)[0] == rows[0]);
        assert(encode_rows(rows.push(row)) =~= encode_rows(rows) + encode_row(row.0, row.1));
    }
}

proof fn lemma_parse_quoted_encoded(f: Seq<char>, rest: Seq<char>)
    requires
        rest.len() > 0,
        rest[0] == ',' || rest[0] == '\n',
    ensures
        parse_quoted(escape_quotes(f) + seq!['"'] + rest) == Some((f, rest)),
    decreases f.len(),
{
    let s = escape_quotes(f) + seq!['"'] + rest;
    if f.len() == 0 {
        assert(s =~= seq!['"'] + rest);
        assert(s[0] == '"');
        assert(s[1] == rest[0]);
        assert(!(s[1] == '"'));
        assert(s.drop_first() =~= rest);
    } else if f[0] == '"' {
        assert(escape_quotes(f) =~= seq!['"', '"'] + escape_quotes(f.drop_first()));
        assert(s[0] == '"' && s[1] == '"');
        assert(s.subrange(2, s.len() as int) =~= escape_quotes(f.drop_first()) + seq!['"']
            + rest);
        lemma_parse_quoted_encoded(f.drop_first(), rest);
        assert(seq!['"'] + f.drop_first() =~= f);
    } else {
        assert(escape_quotes(f) =~= seq![f[0]] + escape_quotes(f.drop_first()));
        assert(s[0] == f[0]);
        assert(s.drop_first() =~= escape_quotes(f.drop_first()) + seq!['"'] + rest);
        lemma_parse_quoted_encoded(f.drop_first(), rest);
        assert(seq![f[0]] + f.drop_first() =~= f);
    }
}

proof fn lemma_parse_bare_plain(f: Seq<char>, rest: Seq<char>)
    requires
        forall|i: int| 0 <= i < f.len() ==> is_bare_char(#[trigger] f[i]),
        rest.len() > 0,
        rest[0] == ',' || rest[0] == '\n',
    ensures
        parse_bare(f + rest) == Some((f, rest)),
    decreases f.len(),
{
    let s = f + rest;
    if f.len() == 0 {
        assert(s =~= rest);
    } else {
        assert(s[0] == f[0]);
        assert(is_bare_char(f[0]));
        assert(s.drop_first() =~= f.drop_first() + rest);
        lemma_parse_bare_plain(f.drop_first(), rest);
        assert(seq![f[0]] + f.drop_first() =~= f);
    }
}

proof fn lemma_parse_row_encoded(tag: Seq<char>, dt: Seq<char>, rest: Seq<char>)
    requires
        dt.len() > 0,
        forall|i: int| 0 <= i < dt.len() ==> is_bare_char(#[trigger] dt[i]),
    ensures
        parse_row(encode_row(tag, dt) + rest) == Some((tag, dt, rest)),
{
    let s = encode_row(tag, dt) + rest;
    let rest1 = seq![','] + dt + seq!['\n'] + rest;
    assert(s[0] == '"');
    assert(s.drop_first() =~= escape_quotes(tag) + seq!['"'] + rest1);
    lemma_parse_quoted_encoded(tag, rest1);
    assert(parse_field(s) == Some((tag, rest1)));
    assert(rest1[0] == ',');
    let rest2 = seq!['\n'] + rest;
    assert(rest1.drop_first() =~= dt + rest2);
    lemma_parse_bare_plain(dt, rest2);
    assert(dt[0] != '"');
    assert((dt + rest2)[0] == dt[0]);
    assert(parse_field(rest1.drop_first()) == Some((dt, rest2)));
    assert(rest2[0] == '\n');
    assert(rest2.drop_first() =~= rest);
}

/// One encoded row stands for one record: the datetime field is non-empty,
/// bare-safe, and denotes the record's timestamp; the tag is the record's.
pub open spec fn raw_row_denotes(raw: (Seq<char>, Seq<char>), rec: (Seq<char>, i64)) -> bool {
    &&& raw.1.len() > 0
    &&& forall|j: int| 0 <= j < raw.1.len() ==> is_bare_char(#[trigger] raw.1[j])
    &&& rfc3339_value(raw.1) == Some(rec.1)
    &&& raw.0 == rec.0
}

/// The encoded rows stand for the records, pointwise.
pub open spec fn raw_rows_denote(
    raws: Seq<(Seq<char>, Seq<char>)>,
    recs: Seq<(Seq<char>, i64)>,
) -> bool {
    &&& raws.len() == recs.len()
    &&& forall|i: int| 0 <= i < raws.len() ==> #[trigger] raw_row_denotes(raws[i], recs[i])
}

proof fn lemma_parse_records_encoded(raws: Seq<(Seq<char>, Seq<char>)>, recs: Seq<(Seq<char>, i64)>)
    requires
        raw_rows_denote(raws, recs),
    ensures
        parse_records(encode_rows(raws)) == Some(recs),
    decreases raws.len(),
{
    let s = encode_rows(raws);
    if raws.len() == 0 {
        assert(s =~= Seq::<char>::empty());
        assert(recs =~= Seq::<(Seq<char>, i64)>::empty());
    } else {
        let row0 = raws[0];
        assert(raw_row_denotes(raws[0], recs[0]));
        let tail = encode_rows(raws.drop_first());
        assert(s =~= encode_row(row0.0, row0.1) + tail);
        lemma_parse_row_encoded(row0.0, row0.1, tail);
        assert(encode_row(row0.0, row0.1).len() > 0);
        assert(tail.len() < s.len());
        assert forall|i: int|
            0 <= i < raws.drop_first().len() implies #[trigger] raw_row_denotes(
            raws.drop_first()[i],
            recs.drop_first()[i],
        ) by {
            assert(raws.drop_first()[i] == raws[i + 1]);
            assert(recs.drop_first()[i] == recs[i + 1]);
            assert(raw_row_denotes(raws[i + 1], recs[i + 1]));
        }
        lemma_parse_records_encoded(raws.drop_first(), recs.drop_first());
        assert(seq![(row0.0, recs[0].1)] + recs.drop_first() =~= recs);
    }
}

proof fn lemma_skip_header_line(line: Seq<char>, body: Seq<char>)
    requires
        forall|i: int| 0 <= i < line.len() ==> (#[trigger] line[i]) != '\n',
    ensures
        skip_header(line + seq!['\n'] + body) == Some(body),
    decreases line.len(),
{
    let s = line + seq!['\n'] + body;
    if line.len() == 0 {
        assert(s[0] == '\n');
        assert(s.drop_first() =~= body);
    } else {
        assert(s[0] == line[0]);
        assert(s.drop_first() =~= line.drop_first() + seq!['\n'] + body);
        lemma_skip_header_line(line.drop_first(), body);
    }
}

proof fn lemma_parse_encoded_csv(raws: Seq<(Seq<char>, Seq<char>)>, recs: Seq<(Seq<char>, i64)>)
    requires
        raw_rows_denote(raws, recs),
    ensures
        csv_parse_records(csv_header() + encode_rows(raws)) == Some(recs),
{
    let line: Seq<char> = seq!['t', 'a', 'g', ',', 'd', 'a', 't', 'e', 't', 'i', 'm', 'e'];
    assert(csv_header() + encode_rows(raws) =~= line + seq!['\n'] + encode_rows(raws));
    assert forall|i: int| 0 <= i < line.len() implies (#[trigger] line[i]) != '\n' by {
    }
    lemma_skip_header_line(line, encode_rows(raws));
    lemma_parse_records_encoded(raws, recs);
    assert((csv_header() + encode_rows(raws)).len() > 0);
}

// ------------------------------- the encoder -------------------------------

/// Appends the quoted form of `tag` to `out`.
fn encode_field_quoted(out: &mut Vec<char>, tag: &String)
    ensures
        final(out)@ == old(out)@ + seq!['"'] + escape_quotes(tag@) + seq!['"'],
{
    out.push('"');
    let s = tag.as_str();
    let n = s.unicode_len();
    let mut i: usize = 0;
    while i < n
        invariant
            n == tag@.len(),
            s@ == tag@,
            i <= n,
            out@ == old(out)@ + seq!['"'] + escape_quotes(tag@.subrange(0, i as int)),
        decreases n - i,
    {
        let c = s.get_char(i);
        proof {
            assert(tag@.subrange(0, i + 1) =~= tag@.subrange(0, i as int).push(tag@[i as int]));
            lemma_escape_push(tag@.subrange(0, i as int), tag@[i as int]);
        }
        if c == '"' {
            out.push('"');
            out.push('"');
        } else {
            out.push(c);
        }
        proof {
            assert(out@ =~= old(out)@ + seq!['"'] + escape_quotes(tag@.subrange(0, i + 1)));
        }
        i = i + 1;
    }
    proof {
        assert(tag@.subrange(0, n as int) =~= tag@);
    }
    out.push('"');
}

/// Appends the characters of `s` to `out`.
fn push_str_chars(out: &mut Vec<char>, s: &str)
    ensures
        final(out)@ == old(out)@ + s@,
{
    let n = s.unicode_len();
    let mut i: usize = 0;
    while i < n
        invariant
            n == s@.len(),
            i <= n,
            out@ == old(out)@ + s@.subrange(0, i as int),
        decreases n - i,
    {
        out.push(s.get_char(i));
        proof {
            assert(s@.subrange(0, i + 1) =~= s@.subrange(0, i as int).push(s@[i as int]));
            assert(out@ =~= old(out)@ + s@.subrange(0, i + 1));
        }
        i = i + 1;
    }
    proof {
        assert(s@.subrange(0, n as int) =~= s@);
    }
}

/// Appends one encoded row to `out`.
fn encode_record(out: &mut Vec<char>, tag: &String, dt: &String)
    ensures
        final(out)@ == old(out)@ + encode_row(tag@, dt@),
{
    encode_field_quoted(out, tag);
    out.push(',');
    push_str_chars(out, dt.as_str());
    out.push('\n');
    proof {
        assert(out@ =~= old(out)@ + encode_row(tag@, dt@));
    }
}

/// Renders rows as CSV text: the header line, then one encoded row per pair,
/// in order. The text parses back to exactly these records; rendering is
/// owed to succeed whenever every timestamp lies between the Unix epoch and
/// `MAX_RFC3339_TIMESTAMP`, and fails with an encoding error when a
/// timestamp cannot be rendered.
pub fn rows_to_csv(rows: &Vec<(String, i64)>) -> (r: Result<String, TagError>)
    ensures
        r matches Ok(s) ==> {
            &&& csv_parse_records(s@) == Some(rows_view(rows@))
            &&& s@.len() >= 13
            &&& s@.take(13) == csv_header()
        },
        (forall|i: int|
            0 <= i < rows@.len() ==> 0 <= #[trigger] rows@[i].1 <= MAX_RFC3339_TIMESTAMP) ==> r
            is Ok,
{
    let mut out: Vec<char> = Vec::new();
    out.push('t');
    out.push('a');
    out.push('g');
    out.push(',');
    out.push('d');
    out.push('a');
    out.push('t');
    out.push('e');
    out.push('t');
    out.push('i');
    out.push('m');
    out.push('e');
    out.push('\n');
    proof {
        assert(out@ =~= csv_header());
    }
    let ghost mut raws: Seq<(Seq<char>, Seq<char>)> = Seq::empty();
    let mut i: usize = 0;
    while i < rows.len()
        invariant
            i <= rows@.len(),
            raws.len() == i as int,
            out@ == csv_header() + encode_rows(raws),
            raw_rows_denote(raws, rows_view(rows@).take(i as int)),
        decreases rows@.len() - i,
    {
        let pair = &rows[i];
        match format_rfc3339(pair.1) {
            Err(m) => {
                proof {
                    assert(!(0 <= rows@[i as int].1 <= MAX_RFC3339_TIMESTAMP));
                }
                return Err(TagError::Encoding(m));
            },
            Ok(dt) => {
                encode_record(&mut out, &pair.0, &dt);
                proof {
                    let raws0 = raws;
                    lemma_encode_rows_push(raws0, (pair.0@, dt@));
                    raws = raws0.push((pair.0@, dt@));
                    assert(out@ =~= csv_header() + encode_rows(raws));
                    let recs1 = rows_view(rows@).take(i + 1);
                    assert(raw_row_denotes(raws[i as int], recs1[i as int])) by {
                        assert forall|j: int| 0 <= j < dt@.len() implies is_bare_char(
                            #[trigger] dt@[j],
                        ) by {
                            assert(is_plain_datetime_char(dt@[j]));
                        }
                    }
                    assert forall|k: int| 0 <= k < raws.len() implies #[trigger] raw_row_denotes(
                        raws[k],
                        recs1[k],
                    ) by {
                        if k < i as int {
                            assert(raws[k] == raws0[k]);
                            assert(recs1[k] == rows_view(rows@).take(i as int)[k]);
                            assert(raw_row_denotes(
                                raws0[k],
                                rows_view(rows@).take(i as int)[k],
                            ));
                        }
                    }
                }
                i = i + 1;
            },
        }
    }
    proof {
        assert(rows_view(rows@).take(rows@.len() as int) =~= rows_view(rows@));
        lemma_parse_encoded_csv(raws, rows_view(rows@));
        assert(out@.take(13) =~= csv_header());
    }
    Ok(chars_to_string(&out))
}

// ------------------------------- the parser --------------------------------

/// The characters of `s` from position `i` on.
pub open spec fn suffix_from(s: Seq<char>, i: int) -> Seq<char> {
    s.subrange(i, s.len() as int)
}

/// Reads a bare field starting at `pos`, mirroring `parse_bare`.
fn exec_parse_bare(v: &Vec<char>, pos: usize) -> (r: Option<(Vec<char>, usize)>)
    requires
        pos <= v@.len(),
    ensures
        match r {
            Some(p) => {
                &&& pos <= p.1 <= v@.len()
                &&& parse_bare(suffix_from(v@, pos as int)) == Some((
                    p.0@,
                    suffix_from(v@, p.1 as int),
                ))
            },
            None => parse_bare(suffix_from(v@, pos as int)) is None,
        },
    decreases v@.len() - pos,
{
    if pos == v.len() {
        proof {
            assert(suffix_from(v@, pos as int) =~= Seq::<char>::empty());
        }
        return Some((Vec::new(), pos));
    }
    let c = v[pos];
    proof {
        assert(suffix_from(v@, pos as int)[0] == c);
    }
    if c == ',' || c == '\n' || c == '\r' {
        return Some((Vec::new(), pos));
    }
    if c == '"' {
        return None;
    }
    proof {
        assert(suffix_from(v@, pos as int).drop_first() =~= suffix_from(v@, pos + 1));
    }
    match exec_parse_bare(v, pos + 1) {
        None => None,
        Some((f, np)) => {
            let mut f = f;
            f.insert(0, c);
            proof {
                assert(f@ =~= seq![c] + f@.drop_first());
                assert(f@.drop_first() =~= f@.subrange(1, f@.len() as int));
            }
            Some((f, np))
        },
    }
}

/// Reads a quoted field's body starting at `pos` (just after the opening
/// quote), mirroring `parse_quoted`.
fn exec_parse_quoted(v: &Vec<char>, pos: usize) -> (r: Option<(Vec<char>, usize)>)
    requires
        pos <= v@.len(),
    ensures
        match r {
            Some(p) => {
                &&& pos <= p.1 <= v@.len()
                &&& parse_quoted(suffix_from(v@, pos as int)) == Some((
                    p.0@,
                    suffix_from(v@, p.1 as int),
                ))
            },
            None => parse_quoted(suffix_from(v@, pos as int)) is None,
        },
    decreases v@.len() - pos,
{
    if pos == v.len() {
        return None;
    }
    let c = v[pos];
    proof {
        assert(suffix_from(v@, pos as int)[0] == c);
    }
    if c == '"' {
        if pos + 1 < v.len() && v[pos + 1] == '"' {
            proof {
                assert(suffix_from(v@, pos as int)[1] == v@[pos + 1]);
                assert(suffix_from(v@, pos as int).subrange(
                    2,
                    suffix_from(v@, pos as int).len() as int,
                ) =~= suffix_from(v@, pos + 2));
            }
            match exec_parse_quoted(v, pos + 2) {
                None => None,
                Some((f, np)) => {
                    let mut f = f;
                    f.insert(0, '"');
                    proof {
                        assert(f@ =~= seq!['"'] + f@.subrange(1, f@.len() as int));
                    }
                    Some((f, np))
                },
            }
        } else {
            proof {
                if pos + 1 < v@.len() {
                    assert(suffix_from(v@, pos as int)[1] == v@[pos + 1]);
                }
                assert(suffix_from(v@, pos as int).drop_first() =~= suffix_from(v@, pos + 1));
            }
            Some((Vec::new(), pos + 1))
        }
    } else {
        proof {
            assert(suffix_from(v@, pos as int).drop_first() =~= suffix_from(v@, pos + 1));
        }
        match exec_parse_quoted(v, pos + 1) {
            None => None,
            Some((f, np)) => {
                let mut f = f;
                f.insert(0, c);
                proof {
                    assert(f@ =~= seq![c] + f@.subrange(1, f@.len() as int));
                }
                Some((f, np))
            },
        }
    }
}

/// Reads one field starting at `pos`, mirroring `parse_field`.
fn exec_parse_field(v: &Vec<char>, pos: usize) -> (r: Option<(Vec<char>, usize)>)
    requires
        pos <= v@.len(),
    ensures
        match r {
            Some(p) => {
                &&& pos <= p.1 <= v@.len()
                &&& parse_field(suffix_from(v@, pos as int)) == Some((
                    p.0@,
                    suffix_from(v@, p.1 as int),
                ))
            },
            None => parse_field(suffix_from(v@, pos as int)) is None,
        },
{
    if pos < v.len() && v[pos] == '"' {
        proof {
            assert(suffix_from(v@, pos as int)[0] == v@[pos as int]);
            assert(suffix_from(v@, pos as int).drop_first() =~= suffix_from(v@, pos + 1));
        }
        exec_parse_quoted(v, pos + 1)
    } else {
        proof {
            if pos < v@.len() {
                assert(suffix_from(v@, pos as int)[0] == v@[pos as int]);
            } else {
                assert(suffix_from(v@, pos as int) =~= Seq::<char>::empty());
            }
        }
        exec_parse_bare(v, pos)
    }
}

/// Reads one row starting at `pos`, mirroring `parse_row`.
fn exec_parse_row(v: &Vec<char>, pos: usize) -> (r: Option<(Vec<char>, Vec<char>, usize)>)
    requires
        pos <= v@.len(),
    ensures
        match r {
            Some(t) => {
                &&& pos < t.2 <= v@.len()
                &&& parse_row(suffix_from(v@, pos as int)) == Some((
                    t.0@,
                    t.1@,
                    suffix_from(v@, t.2 as int),
                ))
            },
            None => parse_row(suffix_from(v@, pos as int)) is None,
        },
{
    match exec_parse_field(v, pos) {
        None => None,
        Some((f1, p1)) => {
            if p1 < v.len() && v[p1] == ',' {
                proof {
                    assert(suffix_from(v@, p1 as int)[0] == v@[p1 as int]);
                    assert(suffix_from(v@, p1 as int).drop_first() =~= suffix_from(v@, p1 + 1));
                }
                match exec_parse_field(v, p1 + 1) {
                    None => None,
                    Some((f2, p2)) => {
                        proof {
                            if p2 < v@.len() {
                                assert(suffix_from(v@, p2 as int)[0] == v@[p2 as int]);
                            } else {
                                assert(suffix_from(v@, p2 as int) =~= Seq::<char>::empty());
                            }
                            if p2 + 1 < v@.len() {
                                assert(suffix_from(v@, p2 as int)[1] == v@[p2 + 1]);
                            }
                        }
                        if p2 < v.len() && v[p2] == '\n' {
                            proof {
                                assert(suffix_from(v@, p2 as int).drop_first() =~= suffix_from(
                                    v@,
                                    p2 + 1,
                                ));
                            }
                            Some((f1, f2, p2 + 1))
                        } else if p2 < v.len() && v[p2] == '\r' && p2 + 1 < v.len() && v[p2 + 1]
                            == '\n' {
                            proof {
                                assert(suffix_from(v@, p2 as int).subrange(
                                    2,
                                    suffix_from(v@, p2 as int).len() as int,
                                ) =~= suffix_from(v@, p2 + 2));
                            }
                            Some((f1, f2, p2 + 2))
                        } else {
                            None
                        }
                    },
                }
            } else {
                proof {
                    if p1 < v@.len() {
                        assert(suffix_from(v@, p1 as int)[0] == v@[p1 as int]);
                    } else {
                        assert(suffix_from(v@, p1 as int) =~= Seq::<char>::empty());
                    }
                }
                None
            }
        },
    }
}

/// Finds the end of the header line, mirroring `skip_header`.
fn exec_skip_header(v: &Vec<char>, pos: usize) -> (r: Option<usize>)
    requires
        pos <= v@.len(),
    ensures
        match r {
            Some(np) => pos < np <= v@.len() && skip_header(suffix_from(v@, pos as int)) == Some(
                suffix_from(v@, np as int),
            ),
            None => skip_header(suffix_from(v@, pos as int)) is None,
        },
    decreases v@.len() - pos,
{
    if pos == v.len() {
        proof {
            assert(suffix_from(v@, pos as int) =~= Seq::<char>::empty());
        }
        return None;
    }
    proof {
        assert(suffix_from(v@, pos as int)[0] == v@[pos as int]);
        assert(suffix_from(v@, pos as int).drop_first() =~= suffix_from(v@, pos + 1));
    }
    if v[pos] == '\n' {
        Some(pos + 1)
    } else {
        exec_skip_header(v, pos + 1)
    }
}

/// Reads all rows starting at `pos` and resolves their datetimes, mirroring
/// `parse_records`.
fn exec_parse_records(v: &Vec<char>, pos: usize) -> (r: Result<Vec<(String, i64)>, TagError>)
    requires
        pos <= v@.len(),
    ensures
        match r {
            Ok(rows) => parse_records(suffix_from(v@, pos as int)) == Some(rows_view(rows@)),
            Err(_) => parse_records(suffix_from(v@, pos as int)) is None,
        },
    decreases v@.len() - pos,
{
    if pos == v.len() {
        proof {
            assert(suffix_from(v@, pos as int) =~= Seq::<char>::empty());
            assert(rows_view(Seq::<(String, i64)>::empty()) =~= Seq::<(Seq<char>, i64)>::empty());
        }
        return Ok(Vec::new());
    }
    match exec_parse_row(v, pos) {
        None => Err(TagError::Encoding(String::from_str("malformed CSV row"))),
        Some((tag, dt, np)) => {
            proof {
                assert(suffix_from(v@, np as int).len() < suffix_from(v@, pos as int).len());
            }
            let dt_s = chars_to_string(&dt);
            match parse_rfc3339(dt_s.as_str()) {
                Err(m) => Err(TagError::Encoding(m)),
                Ok(ts) => match exec_parse_records(v, np) {
                    Err(e) => Err(e),
                    Ok(rows) => {
                        let mut rows = rows;
                        let tag_s = chars_to_string(&tag);
                        rows.insert(0, (tag_s, ts));
                        proof {
                            assert(rows_view(rows@) =~= seq![(tag@, ts)] + rows_view(
                                rows@.subrange(1, rows@.len() as int),
                            ));
                        }
                        Ok(rows)
                    },
                },
            }
        },
    }
}

/// Parses CSV text into (tag, timestamp) rows: the first line is skipped as
/// the header, every later line must be a well-formed row with an RFC3339
/// datetime, and the first malformed row fails the whole parse. Empty text
/// holds no rows.
pub fn csv_to_rows(text: &str) -> (r: Result<Vec<(String, i64)>, TagError>)
    ensures
        r matches Ok(v) ==> csv_parse_records(text@) == Some(rows_view(v@)),
        r is Err ==> csv_parse_records(text@) is None,
{
    let v = str_to_chars(text);
    if v.len() == 0 {
        proof {
            assert(rows_view(Seq::<(String, i64)>::empty()) =~= Seq::<(Seq<char>, i64)>::empty());
        }
        return Ok(Vec::new());
    }
    proof {
        assert(suffix_from(v@, 0) =~= v@);
    }
    match exec_skip_header(&v, 0) {
        None => Err(TagError::Encoding(String::from_str("missing CSV header line"))),
        Some(body) => exec_parse_records(&v, body),
    }
}

// --------------------------- ledger in, ledger out ---------------------------

/// Renders one snapshot of the ledger as CSV text: the header line first,
/// then one row per pair in ascending key order. On success the text parses
/// back to rows that list exactly the snapshot's pairs.
pub fn export_csv(txn: &redb::ReadTransaction) -> (r: Result<String, TagError>)
    ensures
        r matches Ok(s) ==> {
            &&& exists|rows: Seq<(String, i64)>|
                #[trigger] snapshot_rows(rows, read_contents(*txn)) && rows_sorted(rows)
                    && csv_parse_records(s@) == Some(rows_view(rows))
            &&& s@.len() >= 13
            &&& s@.take(13) == csv_header()
        },
{
    let rows = match read_all_tags(txn) {
        Err(e) => {
            return Err(e);
        },
        Ok(rows) => rows,
    };
    let text = rows_to_csv(&rows)?;
    proof {
        assert(snapshot_rows(rows@, read_contents(*txn)) && rows_sorted(rows@)
            && csv_parse_records(text@) == Some(rows_view(rows@)));
    }
    Ok(text)
}

/// Upserts every row into the ledger, in order.
pub fn load_records(txn: &mut redb::WriteTransaction, rows: &Vec<(String, i64)>) -> (r: Result<
    (),
    TagError,
>)
    ensures
        r is Ok ==> write_contents(*final(txn)) == upsert_all(
            write_contents(*old(txn)),
            rows_view(rows@),
        ),
        rows@.len() == 0 ==> r is Ok && write_contents(*final(txn)) == write_contents(*old(txn)),
{
    let mut i: usize = 0;
    while i < rows.len()
        invariant
            i <= rows@.len(),
            write_contents(*txn) == upsert_all(
                write_contents(*old(txn)),
                rows_view(rows@).take(i as int),
            ),
        decreases rows@.len() - i,
    {
        let pair = &rows[i];
        match record_tag(txn, &pair.0, pair.1) {
            Err(e) => {
                return Err(e);
            },
            Ok(()) => {},
        }
        proof {
            assert(rows_view(rows@).take(i + 1).drop_last() =~= rows_view(rows@).take(i as int));
            assert(rows_view(rows@).take(i + 1).last() == (rows@[i as int].0@, rows@[i as int].1));
        }
        i = i + 1;
    }
    proof {
        assert(rows_view(rows@).take(rows@.len() as int) =~= rows_view(rows@));
    }
    Ok(())
}

/// Imports CSV text into the ledger inside the open write transaction: the
/// whole text is parsed first, and only then is every record upserted, so a
/// malformed row or datetime aborts the load with the ledger untouched.
/// Returns how many records were loaded. The caller commits.
pub fn import_csv(txn: &mut redb::WriteTransaction, text: &str) -> (r: Result<usize, TagError>)
    ensures
        r matches Ok(n) ==> csv_parse_records(text@) matches Some(recs) && n == recs.len()
            && write_contents(*final(txn)) == upsert_all(write_contents(*old(txn)), recs),
        csv_parse_records(text@) is None ==> r is Err && write_contents(*final(txn))
            == write_contents(*old(txn)),
        csv_parse_records(text@) matches Some(recs) && recs.len() == 0 ==> r is Ok,
{
    let rows = match csv_to_rows(text) {
        Err(e) => {
            return Err(e);
        },
        Ok(rows) => rows,
    };
    match load_records(txn, &rows) {
        Err(e) => Err(e),
        Ok(()) => Ok(rows.len()),
    }
}

/// Law: the rows read out of one ledger snapshot, upserted into an empty
/// ledger in any order, rebuild exactly the snapshot's map — the CSV
/// round-trip loses nothing and invents nothing.
pub proof fn lemma_snapshot_reload(rows: Seq<(String, i64)>, m: Map<Seq<char>, i64>)
    requires
        snapshot_rows(rows, m),
    ensures
        upsert_all(empty_ledger(), rows_view(rows)) == m,
    decreases rows.len(),
{
    if rows.len() == 0 {
        assert forall|k: Seq<char>| !(#[trigger] m.dom().contains(k)) by {
            if m.dom().contains(k) {
                let i = choose|i: int| 0 <= i < rows.len() && #[trigger] rows[i].0@ == k;
            }
        }
        assert(upsert_all(empty_ledger(), rows_view(rows)) =~= m);
    } else {
        let front = rows.drop_last();
        let lst = rows.last();
        let k = lst.0@;
        let m2 = m.remove(k);
        assert(m.contains_pair(rows[rows.len() - 1].0@, rows[rows.len() - 1].1));
        assert forall|i: int|
            0 <= i < front.len() implies m2.contains_pair(#[trigger] front[i].0@, front[i].1) by {
            assert(front[i] == rows[i]);
            assert(m.contains_pair(rows[i].0@, rows[i].1));
            assert(rows[i].0@ != k);
        }
        assert forall|kk: Seq<char>| m2.dom().contains(kk) implies exists|i: int|
            0 <= i < front.len() && #[trigger] front[i].0@ == kk by {
            let i = choose|i: int| 0 <= i < rows.len() && #[trigger] rows[i].0@ == kk;
            assert(i < rows.len() - 1);
            assert(front[i] == rows[i]);
        }
        assert forall|i: int, j: int|
            0 <= i < j < front.len() implies front[i].0@ != front[j].0@ by {
            assert(front[i] == rows[i] && front[j] == rows[j]);
        }
        assert(snapshot_rows(front, m2));
        lemma_snapshot_reload(front, m2);
        assert(rows_view(rows).drop_last() =~= rows_view(front));
        assert(rows_view(rows).last() == (lst.0@, lst.1));
        assert(m2.insert(k, lst.1) =~= m);
    }
}

} // verus!
