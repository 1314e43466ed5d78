//! Test data sources: reading CSV lines and JSON documents into records, and
//! the transformations that reshape records.

use vstd::prelude::*;
use crate::text::{new_uuid, views, owned, concat, chars_of, chars_between, trim_chars, trim_text, decimal, decimal_text, contains_string, copy_string, push_decimal};
use crate::event_persistence::{signed_decimal, parse_i64, parse_i64_text};
use crate::text::{lowercase, lowercase_text};
use crate::strmap::StrMap;
use crate::json::{JsonValue, JsonView, param_views, lemma_param_views_insert, json_text, array_view, members_view, lemma_array_view, lemma_members_view};
use crate::error::DataSourceError;

verus! {

/// Configuration for file-based data sources.
pub struct FileDataSourceConfig {
    pub file_path: String,
    pub streaming: bool,
    pub batch_size: Option<usize>,
    pub encoding: Option<String>,
}

/// Configuration for CSV data sources. Characters are single bytes.
pub struct CsvDataSourceConfig {
    pub file_config: FileDataSourceConfig,
    pub delimiter: Option<u8>,
    pub has_headers: bool,
    pub quote_char: Option<u8>,
    pub escape_char: Option<u8>,
}

/// Configuration for JSON data sources.
pub struct JsonDataSourceConfig {
    pub file_config: FileDataSourceConfig,
    pub json_path: Option<String>,
    pub array_path: Option<String>,
}

/// Configuration for YAML data sources.
pub struct YamlDataSourceConfig {
    pub file_config: FileDataSourceConfig,
    pub document_separator: bool,
    pub array_path: Option<String>,
}

/// Supported database types.
#[derive(Clone, Copy, Debug, PartialEq, Eq, Structural)]
pub enum DatabaseType {
    PostgreSQL,
    MySQL,
    SQLite,
}

/// A record of test data: named fields and metadata about where it came from.
pub struct DataRecord {
    pub id: String,
    pub fields: StrMap<JsonValue>,
    pub metadata: StrMap<String>,
}

/// A transformation named by its type, with its parameters.
pub struct DataTransformation {
    pub transformation_type: String,
    pub parameters: StrMap<JsonValue>,
}

/// Views of a map's strings.
pub open spec fn text_views(m: Map<Seq<char>, String>) -> Map<Seq<char>, Seq<char>> {
    Map::new(|k: Seq<char>| m.dom().contains(k), |k: Seq<char>| m[k]@)
}

/// The fields and metadata of a record, as mathematical maps.
pub open spec fn record_shape(r: DataRecord) -> (Map<Seq<char>, JsonView>, Map<Seq<char>, Seq<char>>) {
    (param_views(r.fields@), text_views(r.metadata@))
}

/// The shapes of a sequence of records.
pub open spec fn record_shapes(rs: Seq<DataRecord>) -> Seq<(Map<Seq<char>, JsonView>, Map<Seq<char>, Seq<char>>)> {
    rs.map_values(|r: DataRecord| record_shape(r))
}

// ---------------------------------------------------------------- CSV

/// Fields of a CSV line, scanned from position `i` with the fields found so
/// far, the current field and whether a quoted section is open. A quote
/// toggles quoting, two quotes inside quotes stand for one, and a delimiter
/// outside quotes ends a field; each field is trimmed.
pub open spec fn csv_scan(
    s: Seq<char>,
    i: int,
    d: char,
    q: char,
    fields: Seq<Seq<char>>,
    cur: Seq<char>,
    inq: bool,
) -> Seq<Seq<char>>
    decreases s.len() - i,
{
    if i >= s.len() || i < 0 {
        fields.push(trim_text(cur))
    } else if s[i] == q {
        if inq && i + 1 < s.len() && s[i + 1] == q {
            csv_scan(s, i + 2, d, q, fields, cur.push(q), inq)
        } else {
            csv_scan(s, i + 1, d, q, fields, cur, !inq)
        }
    } else if s[i] == d && !inq {
        csv_scan(s, i + 1, d, q, fields.push(trim_text(cur)), Seq::empty(), inq)
    } else {
        csv_scan(s, i + 1, d, q, fields, cur.push(s[i]), inq)
    }
}

/// A text as it is written inside a quoted CSV field: each quote doubled.
pub open spec fn csv_escaped(t: Seq<char>, q: char) -> Seq<char>
    decreases t.len(),
{
    if t.len() == 0 {
        Seq::empty()
    } else {
        (if t[0] == q { seq![q, q] } else { seq![t[0]] }) + csv_escaped(t.drop_first(), q)
    }
}

proof fn lemma_scan_escaped(
    s: Seq<char>,
    i: int,
    d: char,
    q: char,
    fields: Seq<Seq<char>>,
    cur: Seq<char>,
    t: Seq<char>,
)
    requires
        d != q,
        0 <= i,
        i + csv_escaped(t, q).len() <= s.len(),
        s.subrange(i, i + csv_escaped(t, q).len()) == csv_escaped(t, q),
    ensures
        csv_scan(s, i, d, q, fields, cur, true) == csv_scan(s, i + csv_escaped(t, q).len(), d, q, fields, cur + t, true),
    decreases t.len(),
{
    let e = csv_escaped(t, q);
    if t.len() == 0 {
        assert(cur + t =~= cur);
    } else {
        let rest = t.drop_first();
        let er = csv_escaped(rest, q);
        if t[0] == q {
            assert(e == seq![q, q] + er);
            assert(s[i] == e[0]);
            assert(s[i + 1] == e[1]);
            assert(s.subrange(i + 2, i + 2 + er.len()) =~= er) by {
                assert forall|k: int| 0 <= k < er.len() implies s[i + 2 + k] == er[k] by {
                    assert(s[i + 2 + k] == e[2 + k]);
                }
            }
            lemma_scan_escaped(s, i + 2, d, q, fields, cur.push(q), rest);
            assert(cur.push(q) + rest =~= cur + t);
        } else {
            assert(e == seq![t[0]] + er);
            assert(s[i] == e[0]);
            assert(s.subrange(i + 1, i + 1 + er.len()) =~= er) by {
                assert forall|k: int| 0 <= k < er.len() implies s[i + 1 + k] == er[k] by {
                    assert(s[i + 1 + k] == e[1 + k]);
                }
            }
            lemma_scan_escaped(s, i + 1, d, q, fields, cur.push(t[0]), rest);
            assert(cur.push(t[0]) + rest =~= cur + t);
        }
    }
}

proof fn lemma_scan_plain(
    s: Seq<char>,
    i: int,
    d: char,
    q: char,
    fields: Seq<Seq<char>>,
    cur: Seq<char>,
    t: Seq<char>,
)
    requires
        0 <= i,
        i + t.len() <= s.len(),
        s.subrange(i, i + t.len()) == t,
        forall|k: int| 0 <= k < t.len() ==> t[k] != d && t[k] != q,
    ensures
        csv_scan(s, i, d, q, fields, cur, false) == csv_scan(s, i + t.len(), d, q, fields, cur + t, false),
    decreases t.len(),
{
    if t.len() == 0 {
        assert(cur + t =~= cur);
    } else {
        let rest = t.drop_first();
        assert(s[i] == t[0]);
        assert(s.subrange(i + 1, i + 1 + rest.len()) =~= rest) by {
            assert forall|k: int| 0 <= k < rest.len() implies s[i + 1 + k] == rest[k] by {
                assert(s[i + 1 + k] == t[1 + k]);
            }
        }
        lemma_scan_plain(s, i + 1, d, q, fields, cur.push(t[0]), rest);
        assert(cur.push(t[0]) + rest =~= cur + t);
    }
}

/// Delimiter law: two pieces of text holding neither the delimiter nor the
/// quote, joined by the delimiter, read back as those two pieces (trimmed).
pub proof fn lemma_csv_two_plain_fields(a: Seq<char>, b: Seq<char>, d: char, q: char)
    requires
        d != q,
        forall|k: int| 0 <= k < a.len() ==> a[k] != d && a[k] != q,
        forall|k: int| 0 <= k < b.len() ==> b[k] != d && b[k] != q,
    ensures
        csv_fields(a + seq![d] + b, d, q) == seq![trim_text(a), trim_text(b)],
{
    let s = a + seq![d] + b;
    let none = Seq::<Seq<char>>::empty();
    let blank = Seq::<char>::empty();
    assert(s.subrange(0, a.len() as int) =~= a);
    lemma_scan_plain(s, 0, d, q, none, blank, a);
    assert(blank + a =~= a);
    let m = a.len() as int;
    assert(s[m] == d);
    assert(csv_scan(s, m, d, q, none, a, false) == csv_scan(s, m + 1, d, q, none.push(trim_text(a)), blank, false));
    assert(s.subrange(m + 1, m + 1 + b.len()) =~= b);
    lemma_scan_plain(s, m + 1, d, q, none.push(trim_text(a)), blank, b);
    assert(blank + b =~= b);
    assert(m + 1 + b.len() == s.len());
    assert(none.push(trim_text(a)).push(trim_text(b)) =~= seq![trim_text(a), trim_text(b)]);
}

/// Quoting law: any text written as a quoted CSV field, its quotes doubled,
/// reads back as that text (trimmed), whatever characters it holds,
/// delimiters and quotes included; two quotes inside quotes stand for one.
pub proof fn lemma_csv_quoted_field(t: Seq<char>, d: char, q: char)
    requires
        d != q,
    ensures
        csv_fields(seq![q] + csv_escaped(t, q) + seq![q], d, q) == seq![trim_text(t)],
{
    let e = csv_escaped(t, q);
    let s = seq![q] + e + seq![q];
    assert(s[0] == q);
    assert(s.subrange(1, 1 + e.len() as int) =~= e);
    let none = Seq::<Seq<char>>::empty();
    let blank = Seq::<char>::empty();
    assert(csv_scan(s, 0, d, q, none, blank, false) == csv_scan(s, 1, d, q, none, blank, true));
    lemma_scan_escaped(s, 1, d, q, none, blank, t);
    assert(blank + t =~= t);
    let last = 1 + e.len() as int;
    assert(s[last] == q);
    assert(last + 1 == s.len());
    assert(csv_scan(s, last, d, q, none, t, true) == csv_scan(s, last + 1, d, q, none, t, false));
    assert(csv_scan(s, last + 1, d, q, none, t, false) == none.push(trim_text(t)));
    assert(none.push(trim_text(t)) =~= seq![trim_text(t)]);
}

/// The fields of a CSV line.
pub open spec fn csv_fields(s: Seq<char>, d: char, q: char) -> Seq<Seq<char>> {
    csv_scan(s, 0, d, q, Seq::empty(), Seq::empty(), false)
}

/// Pieces of `s` between occurrences of `c` (std's `str::split` on a character).
pub open spec fn split_text(s: Seq<char>, c: char) -> Seq<Seq<char>>
    decreases s.len(),
{
    if s.len() == 0 {
        seq![Seq::<char>::empty()]
    } else {
        let p = split_text(s.drop_last(), c);
        if s.last() == c {
            p.push(Seq::empty())
        } else {
            p.update(p.len() - 1, p.last().push(s.last()))
        }
    }
}

proof fn lemma_split_nonempty(s: Seq<char>, c: char)
    ensures
        split_text(s, c).len() >= 1,
    decreases s.len(),
{
    if s.len() > 0 {
        lemma_split_nonempty(s.drop_last(), c);
    }
}

/// Fields keyed by position (`"0"`, `"1"`, ...), each piece trimmed, for
/// the first `n` pieces.
pub open spec fn indexed_fields(pieces: Seq<Seq<char>>, n: nat) -> Map<Seq<char>, JsonView>
    decreases n,
{
    if n == 0 {
        Map::empty()
    } else {
        indexed_fields(pieces, (n - 1) as nat).insert(
            decimal((n - 1) as nat),
            JsonView::String(trim_text(pieces[n - 1])),
        )
    }
}

/// Fields keyed by the first `n` headers, each with the trimmed piece in its
/// position, or empty text when the line is shorter; a repeated header keeps
/// its last value.
pub open spec fn header_fields(headers: Seq<Seq<char>>, pieces: Seq<Seq<char>>, n: nat) -> Map<Seq<char>, JsonView>
    decreases n,
{
    if n == 0 {
        Map::empty()
    } else {
        let i = n - 1;
        header_fields(headers, pieces, (n - 1) as nat).insert(
            headers[i],
            JsonView::String(trim_text(if i < pieces.len() { pieces[i] } else { Seq::empty() })),
        )
    }
}

/// The fields of a CSV record line.
pub open spec fn csv_record_fields(line: Seq<char>, headers: Seq<Seq<char>>, d: char) -> Map<Seq<char>, JsonView> {
    let pieces = split_text(line, d);
    if headers.len() == 0 {
        indexed_fields(pieces, pieces.len())
    } else {
        header_fields(headers, pieces, headers.len())
    }
}

/// CSV data source.
pub struct CsvDataSource {
    config: CsvDataSourceConfig,
}

impl CsvDataSource {
    /// A CSV data source with the given configuration.
    pub fn new(config: CsvDataSourceConfig) -> (r: Self)
        ensures
            r.config() == config,
    {
        CsvDataSource { config }
    }

    /// The source's configuration.
    pub closed spec fn config(&self) -> CsvDataSourceConfig {
        self.config
    }

    /// The delimiter: the configured byte, or a comma.
    pub open spec fn delimiter_char(&self) -> char {
        match self.config().delimiter {
            Some(b) => b as char,
            None => ',',
        }
    }

    /// The quote: the configured byte, or a double quote.
    pub open spec fn quote_char(&self) -> char {
        match self.config().quote_char {
            Some(b) => b as char,
            None => '"',
        }
    }

    /// Splits a CSV line into trimmed fields, honouring quotes.
    pub fn parse_csv_line(&self, line: &str) -> (r: Result<Vec<String>, DataSourceError>)
        ensures
            r matches Ok(v) && views(v@) == csv_fields(line@, self.delimiter_char(), self.quote_char()),
    {
        let d: char = match self.config.delimiter {
            Some(b) => b as char,
            None => ',',
        };
        let q: char = match self.config.quote_char {
            Some(b) => b as char,
            None => '"',
        };
        let cs = chars_of(line);
        let mut fields: Vec<String> = Vec::new();
        let mut cur: Vec<char> = Vec::new();
        let mut inq = false;
        let mut i: usize = 0;
        proof {
            assert(views(fields@) =~= Seq::<Seq<char>>::empty());
        }
        while i < cs.len()
            invariant
                i <= cs@.len(),
                cs@ == line@,
                csv_scan(cs@, i as int, d, q, views(fields@), cur@, inq) == csv_fields(line@, d, q),
            decreases cs.len() - i,
        {
            let c = cs[i];
            if c == q {
                if inq && i + 1 < cs.len() && cs[i + 1] == q {
                    cur.push(q);
                    i = i + 2;
                } else {
                    inq = !inq;
                    i = i + 1;
                }
            } else if c == d && !inq {
                let ghost before = fields@;
                assert(cur@.subrange(0, cur@.len() as int) =~= cur@);
                let f = trim_chars(&cur, 0, cur.len());
                fields.push(f);
                assert(views(fields@) =~= views(before).push(trim_text(cur@)));
                cur = Vec::new();
                assert(cur@ =~= Seq::<char>::empty());
                i = i + 1;
            } else {
                cur.push(c);
                i = i + 1;
            }
        }
        let ghost before = fields@;
        assert(cur@.subrange(0, cur@.len() as int) =~= cur@);
        let f = trim_chars(&cur, 0, cur.len());
        fields.push(f);
        assert(views(fields@) =~= views(before).push(trim_text(cur@)));
        Ok(fields)
    }

    /// The fields of the records of a CSV file's lines: with headers, the
    /// first line names the fields of the others; without, every line is a
    /// record whose fields are named by position.
    pub fn records_from_lines(&self, lines: &Vec<String>) -> (r: Result<Vec<DataRecord>, DataSourceError>)
        ensures
            r matches Ok(recs) && ({
                let skip: int = if self.config().has_headers && lines@.len() > 0 { 1 } else { 0 };
                let headers = if skip == 1 {
                    csv_fields(lines@[0]@, self.delimiter_char(), self.quote_char())
                } else {
                    Seq::<Seq<char>>::empty()
                };
                &&& recs@.len() == lines@.len() - skip
                &&& forall|i: int| 0 <= i < recs@.len() ==> param_views((#[trigger] recs@[i]).fields@)
                    == csv_record_fields(lines@[i + skip]@, headers, self.delimiter_char())
            }),
    {
        let mut headers: Vec<String> = Vec::new();
        let mut start: usize = 0;
        if self.config.has_headers && lines.len() > 0 {
            match self.parse_csv_line(lines[0].as_str()) {
                Ok(h) => { headers = h; },
                Err(e) => { return Err(e); },
            }
            start = 1;
        }
        assert(views(headers@) == if start == 1 {
            csv_fields(lines@[0]@, self.delimiter_char(), self.quote_char())
        } else {
            Seq::<Seq<char>>::empty()
        });
        let delimiter: u8 = match self.config.delimiter {
            Some(b) => b,
            None => 44,
        };
        assert(delimiter as char == self.delimiter_char());
        let mut records: Vec<DataRecord> = Vec::new();
        let mut i: usize = start;
        while i < lines.len()
            invariant
                start <= i <= lines@.len(),
                records@.len() == i - start,
                delimiter as char == self.delimiter_char(),
                forall|j: int| 0 <= j < records@.len() ==> param_views((#[trigger] records@[j]).fields@)
                    == csv_record_fields(lines@[j + start]@, views(headers@), self.delimiter_char()),
            decreases lines.len() - i,
        {
            match CsvDataSource::parse_csv_record(lines[i].as_str(), &headers, delimiter) {
                Ok(rec) => { records.push(rec); },
                Err(e) => { return Err(e); },
            }
            i = i + 1;
        }
        Ok(records)
    }

    /// A record from a CSV line: fields named by the headers, or by position
    /// when there are none. The record gets a fresh identifier.
    pub fn parse_csv_record(line: &str, headers: &Vec<String>, delimiter: u8) -> (r: Result<DataRecord, DataSourceError>)
        ensures
            r matches Ok(rec) && param_views(rec.fields@) == csv_record_fields(line@, views(headers@), delimiter as char)
                && rec.metadata@ == Map::<Seq<char>, String>::empty(),
    {
        let d = delimiter as char;
        let cs = chars_of(line);
        let mut pieces: Vec<Vec<char>> = Vec::new();
        let mut cur: Vec<char> = Vec::new();
        let mut i: usize = 0;
        proof {
            assert(cs@.take(0) =~= Seq::<char>::empty());
            assert(pieces@.map_values(|p: Vec<char>| p@).push(cur@) =~= split_text(Seq::<char>::empty(), d));
        }
        while i < cs.len()
            invariant
                i <= cs@.len(),
                cs@ == line@,
                pieces@.map_values(|p: Vec<char>| p@).push(cur@) == split_text(cs@.take(i as int), d),
            decreases cs.len() - i,
        {
            let ghost pv = pieces@.map_values(|p: Vec<char>| p@);
            proof {
                assert(cs@.take(i + 1).drop_last() =~= cs@.take(i as int));
                assert(cs@.take(i + 1).last() == cs@[i as int]);
            }
            if cs[i] == d {
                let done = cur;
                pieces.push(done);
                cur = Vec::new();
                proof {
                    assert(pieces@.map_values(|p: Vec<char>| p@) =~= pv.push(done@));
                    assert(pieces@.map_values(|p: Vec<char>| p@).push(cur@) =~= pv.push(done@).push(Seq::<char>::empty()));
                }
            } else {
                let ghost old_cur = cur@;
                cur.push(cs[i]);
                proof {
                    let p = pv.push(old_cur);
                    assert(pv.push(cur@) =~= p.update(p.len() - 1, p.last().push(cs@[i as int])));
                }
            }
            i = i + 1;
        }
        pieces.push(cur);
        let ghost pv = pieces@.map_values(|p: Vec<char>| p@);
        proof {
            assert(cs@.take(cs@.len() as int) =~= cs@);
            assert(pv =~= split_text(line@, d));
        }
        let mut fields: StrMap<JsonValue> = StrMap::new();
        if headers.len() == 0 {
            let mut k: usize = 0;
            proof { assert(param_views(fields@) =~= indexed_fields(pv, 0)); }
            while k < pieces.len()
                invariant
                    k <= pieces@.len(),
                    pv == pieces@.map_values(|p: Vec<char>| p@),
                    param_views(fields@) == indexed_fields(pv, k as nat),
                decreases pieces.len() - k,
            {
                let key = decimal_text(k as u64);
                let p = &pieces[k];
                assert(p@.subrange(0, p@.len() as int) =~= p@);
                let val = JsonValue::String(trim_chars(p, 0, p.len()));
                proof {
                    lemma_param_views_insert(fields@, key@, val);
                    assert(pv[k as int] == p@);
                }
                fields.insert(key, val);
                k = k + 1;
            }
        } else {
            let mut k: usize = 0;
            proof { assert(param_views(fields@) =~= header_fields(views(headers@), pv, 0)); }
            while k < headers.len()
                invariant
                    k <= headers@.len(),
                    pv == pieces@.map_values(|p: Vec<char>| p@),
                    param_views(fields@) == header_fields(views(headers@), pv, k as nat),
                decreases headers.len() - k,
            {
                let val = if k < pieces.len() {
                    let p = &pieces[k];
                    assert(p@.subrange(0, p@.len() as int) =~= p@);
                    assert(pv[k as int] == p@);
                    JsonValue::String(trim_chars(p, 0, p.len()))
                } else {
                    let e: Vec<char> = Vec::new();
                    assert(e@.subrange(0, 0) =~= Seq::<char>::empty());
                    JsonValue::String(trim_chars(&e, 0, 0))
                };
                let key = copy_string(&headers[k]);
                proof {
                    lemma_param_views_insert(fields@, key@, val);
                    assert(views(headers@)[k as int] == headers@[k as int]@);
                }
                fields.insert(key, val);
                k = k + 1;
            }
        }
        Ok(DataRecord { id: new_uuid(), fields, metadata: StrMap::new() })
    }
}

// ---------------------------------------------------------------- JSON

/// Whether `s` contains `c`.
pub open spec fn has_char(s: Seq<char>, c: char) -> bool {
    exists|i: int| 0 <= i < s.len() && s[i] == c
}

/// The value of the first member named `k`.
pub open spec fn member_get(m: Seq<(Seq<char>, JsonView)>, k: Seq<char>) -> Option<JsonView>
    decreases m.len(),
{
    if m.len() == 0 {
        None
    } else if m[0].0 == k {
        Some(m[0].1)
    } else {
        member_get(m.drop_first(), k)
    }
}

/// The member `k` of an object; nothing for other values.
pub open spec fn value_get(v: JsonView, k: Seq<char>) -> Option<JsonView> {
    match v {
        JsonView::Object(m) => member_get(m, k),
        _ => None,
    }
}

/// The value reached from `v` by following the member names `parts`;
/// empty names are passed over when `skip_empty` holds.
pub open spec fn walk(v: JsonView, parts: Seq<Seq<char>>, skip_empty: bool) -> Option<JsonView>
    decreases parts.len(),
{
    if parts.len() == 0 {
        Some(v)
    } else if skip_empty && parts[0].len() == 0 {
        walk(v, parts.drop_first(), skip_empty)
    } else {
        match value_get(v, parts[0]) {
            Some(c) => walk(c, parts.drop_first(), skip_empty),
            None => None,
        }
    }
}

/// What jsonpath-rust's `JsonPathFinder::from_str` reports for a document
/// text and a path: nothing when both parse, else its error message.
pub uninterp spec fn jsonpath_error(json: Seq<char>, path: Seq<char>) -> Option<Seq<char>>;

/// Checks that a JSON text and a JSONPath expression are accepted by
/// jsonpath-rust (`JsonPathFinder::from_str`), giving its error message if not.
#[verifier::external_body]
fn jsonpath_check(json: &str, path: &str) -> (r: Result<(), String>)
    ensures
        match jsonpath_error(json@, path@) {
            None => r is Ok,
            Some(e) => r matches Err(m) && m@ == e,
        },
{
    match jsonpath_rust::JsonPathFinder::from_str(json, path) {
        Ok(_) => Ok(()),
        Err(e) => Err(e),
    }
}

/// The items a JSON document yields under the configured paths, or the
/// message of the parse error reported.
pub open spec fn json_items(data: JsonView, json_path: Option<Seq<char>>, array_path: Option<Seq<char>>) -> Result<Seq<JsonView>, Seq<char>> {
    match json_path {
        Some(p) => match jsonpath_error(json_text(data), p) {
            Some(e) => Err("JSONPath error: "@ + e),
            None => if p.len() > 0 && p[0] == '$' && has_char(p, '.') {
                match walk(data, split_text(p.drop_first(), '.'), true) {
                    Some(JsonView::Array(a)) => Ok(a),
                    Some(other) => Ok(seq![other]),
                    None => Err("JSONPath not found: "@ + p),
                }
            } else {
                Ok(seq![data])
            },
        },
        None => match array_path {
            Some(ap) => match walk(data, split_text(ap, '.'), false) {
                Some(c) => Ok(seq![c]),
                None => Err("Path not found: "@ + ap),
            },
            None => Ok(seq![data]),
        },
    }
}

/// The members of an object as a map; a later member wins over an earlier one.
pub open spec fn members_map(m: Seq<(Seq<char>, JsonView)>) -> Map<Seq<char>, JsonView>
    decreases m.len(),
{
    if m.len() == 0 {
        Map::empty()
    } else {
        members_map(m.drop_last()).insert(m.last().0, m.last().1)
    }
}

/// Records of the objects among the first `n` elements of an array that is
/// item `i`, each noting both positions.
pub open spec fn array_records(a: Seq<JsonView>, i: nat, n: nat) -> Seq<(Map<Seq<char>, JsonView>, Map<Seq<char>, Seq<char>>)>
    decreases n,
{
    if n == 0 {
        Seq::empty()
    } else {
        let rest = array_records(a, i, (n - 1) as nat);
        match a[n - 1] {
            JsonView::Object(m) => rest.push((
                members_map(m),
                map!["source_index"@ => decimal(i), "array_index"@ => decimal((n - 1) as nat)],
            )),
            _ => rest,
        }
    }
}

/// Records made from item `i`: an object is one record, an array gives a
/// record per object in it, any other value is one record with field `value`.
pub open spec fn item_records(v: JsonView, i: nat) -> Seq<(Map<Seq<char>, JsonView>, Map<Seq<char>, Seq<char>>)> {
    match v {
        JsonView::Object(m) => seq![(members_map(m), map!["source_index"@ => decimal(i)])],
        JsonView::Array(a) => array_records(a, i, a.len()),
        _ => seq![(map!["value"@ => v], map!["source_index"@ => decimal(i)])],
    }
}

/// Records made from the first `n` items, in order.
pub open spec fn items_records(items: Seq<JsonView>, n: nat) -> Seq<(Map<Seq<char>, JsonView>, Map<Seq<char>, Seq<char>>)>
    decreases n,
{
    if n == 0 {
        Seq::empty()
    } else {
        items_records(items, (n - 1) as nat) + item_records(items[n - 1], (n - 1) as nat)
    }
}

/// JSON data source.
pub struct JsonDataSource {
    config: JsonDataSourceConfig,
}

/// Views of an optional string.
pub open spec fn opt_text(s: Option<String>) -> Option<Seq<char>> {
    match s {
        Some(x) => Some(x@),
        None => None,
    }
}

/// Splits `s` on `c`.
pub(crate) fn split_on(s: &str, c: char) -> (r: Vec<String>)
    ensures
        views(r@) == split_text(s@, c),
{
    let cs = chars_of(s);
    let mut pieces: Vec<String> = Vec::new();
    let mut start: usize = 0;
    let mut i: usize = 0;
    proof {
        assert(cs@.take(0) =~= Seq::<char>::empty());
        assert(cs@.subrange(0, 0) =~= Seq::<char>::empty());
        assert(views(pieces@).push(cs@.subrange(0, 0)) =~= split_text(Seq::<char>::empty(), c));
    }
    while i < cs.len()
        invariant
            start <= i <= cs@.len(),
            cs@ == s@,
            views(pieces@).push(cs@.subrange(start as int, i as int)) == split_text(cs@.take(i as int), c),
        decreases cs.len() - i,
    {
        let ghost pv = views(pieces@);
        proof {
            assert(cs@.take(i + 1).drop_last() =~= cs@.take(i as int));
            assert(cs@.take(i + 1).last() == cs@[i as int]);
        }
        if cs[i] == c {
            let piece = chars_between(&cs, start, i);
            pieces.push(piece);
            proof {
                assert(views(pieces@) =~= pv.push(cs@.subrange(start as int, i as int)));
                assert(cs@.subrange(i + 1, i + 1) =~= Seq::<char>::empty());
            }
            start = i + 1;
        } else {
            proof {
                let p = pv.push(cs@.subrange(start as int, i as int));
                assert(cs@.subrange(start as int, i as int).push(cs@[i as int]) =~= cs@.subrange(start as int, i + 1));
                assert(pv.push(cs@.subrange(start as int, i + 1)) =~= p.update(p.len() - 1, p.last().push(cs@[i as int])));
            }
        }
        i = i + 1;
    }
    let last = chars_between(&cs, start, cs.len());
    let ghost pv = views(pieces@);
    pieces.push(last);
    proof {
        assert(views(pieces@) =~= pv.push(last@));
        assert(cs@.take(cs@.len() as int) =~= cs@);
    }
    pieces
}

/// The member `k` of an object value.
pub(crate) fn get_member<'a>(v: &'a JsonValue, k: &String) -> (r: Option<&'a JsonValue>)
    ensures
        match value_get(v.view(), k@) {
            Some(c) => r matches Some(x) && x.view() == c,
            None => r is None,
        },
{
    match v {
        JsonValue::Object(m) => {
            proof {
                lemma_members_view(m@);
                assert(members_view(m@).subrange(0, m@.len() as int) =~= members_view(m@));
            }
            let mut i: usize = 0;
            while i < m.len()
                invariant
                    i <= m@.len(),
                    *v == JsonValue::Object(*m),
                    members_view(m@).len() == m@.len(),
                    forall|j: int| 0 <= j < m@.len() ==> #[trigger] members_view(m@)[j] == (m@[j].0@, m@[j].1.view()),
                    member_get(members_view(m@).subrange(i as int, m@.len() as int), k@)
                        == member_get(members_view(m@), k@),
                decreases m.len() - i,
            {
                let ghost rest = members_view(m@).subrange(i as int, m@.len() as int);
                assert(rest[0] == members_view(m@)[i as int]);
                if m[i].0 == *k {
                    return Some(&m[i].1);
                }
                assert(rest.drop_first() =~= members_view(m@).subrange(i + 1, m@.len() as int));
                i = i + 1;
            }
            None
        },
        _ => None,
    }
}

/// Follows the member names `parts` from `v`.
pub(crate) fn walk_path<'a>(v: &'a JsonValue, parts: &Vec<String>, skip_empty: bool) -> (r: Option<&'a JsonValue>)
    ensures
        match walk(v.view(), views(parts@), skip_empty) {
            Some(c) => r matches Some(x) && x.view() == c,
            None => r is None,
        },
{
    let mut cur: &JsonValue = v;
    let mut i: usize = 0;
    assert(views(parts@).subrange(0, parts@.len() as int) =~= views(parts@));
    while i < parts.len()
        invariant
            i <= parts@.len(),
            walk(cur.view(), views(parts@).subrange(i as int, parts@.len() as int), skip_empty)
                == walk(v.view(), views(parts@), skip_empty),
        decreases parts.len() - i,
    {
        let ghost rest = views(parts@).subrange(i as int, parts@.len() as int);
        assert(rest[0] == parts@[i as int]@);
        assert(rest.drop_first() =~= views(parts@).subrange(i + 1, parts@.len() as int));
        if skip_empty && parts[i].as_str().is_empty() {
            i = i + 1;
        } else {
            match get_member(cur, &parts[i]) {
                Some(c) => {
                    cur = c;
                    i = i + 1;
                },
                None => {
                    return None;
                },
            }
        }
    }
    assert(views(parts@).subrange(parts@.len() as int, parts@.len() as int) =~= Seq::<Seq<char>>::empty());
    Some(cur)
}

/// Copies of the members of an object, as fields; a later member wins.
fn members_fields(m: &Vec<(String, JsonValue)>) -> (r: StrMap<JsonValue>)
    ensures
        param_views(r@) == members_map(members_view(m@)),
{
    proof { lemma_members_view(m@); }
    let mut out: StrMap<JsonValue> = StrMap::new();
    let mut i: usize = 0;
    proof {
        assert(members_view(m@).take(0) =~= Seq::<(Seq<char>, JsonView)>::empty());
        assert(param_views(out@) =~= members_map(members_view(m@).take(0)));
    }
    while i < m.len()
        invariant
            i <= m@.len(),
            members_view(m@).len() == m@.len(),
            forall|j: int| 0 <= j < m@.len() ==> #[trigger] members_view(m@)[j] == (m@[j].0@, m@[j].1.view()),
            param_views(out@) == members_map(members_view(m@).take(i as int)),
        decreases m.len() - i,
    {
        let key = copy_string(&m[i].0);
        let val = m[i].1.duplicate();
        proof {
            lemma_param_views_insert(out@, key@, val);
            let t = members_view(m@).take(i + 1);
            assert(t.drop_last() =~= members_view(m@).take(i as int));
            assert(t.last() == members_view(m@)[i as int]);
        }
        out.insert(key, val);
        i = i + 1;
    }
    assert(members_view(m@).take(m@.len() as int) =~= members_view(m@));
    out
}

/// Metadata with one entry.
fn meta1(k: &str, v: String) -> (r: StrMap<String>)
    ensures
        text_views(r@) == map![k@ => v@],
{
    let mut m: StrMap<String> = StrMap::new();
    let ghost vv = v@;
    m.insert(owned(k), v);
    assert(text_views(m@) =~= map![k@ => vv]);
    m
}

/// Metadata with two entries.
fn meta2(k1: &str, v1: String, k2: &str, v2: String) -> (r: StrMap<String>)
    ensures
        text_views(r@) == map![k1@ => v1@, k2@ => v2@],
{
    let mut m: StrMap<String> = StrMap::new();
    let ghost a = v1@;
    let ghost b = v2@;
    m.insert(owned(k1), v1);
    m.insert(owned(k2), v2);
    assert(text_views(m@) =~= map![k1@ => a, k2@ => b]);
    m
}

/// Appends the records made from item `i` to `out`.
fn push_item_records(item: &JsonValue, i: usize, out: &mut Vec<DataRecord>)
    ensures
        record_shapes(final(out)@) == record_shapes(old(out)@) + item_records(item.view(), i as nat),
{
    let ghost base = record_shapes(out@);
    match item {
        JsonValue::Object(m) => {
            let fields = members_fields(m);
            let metadata = meta1("source_index", decimal_text(i as u64));
            out.push(DataRecord { id: new_uuid(), fields, metadata });
            assert(record_shapes(out@) =~= base + item_records(item.view(), i as nat));
        },
        JsonValue::Array(a) => {
            proof { lemma_array_view(a@); }
            let mut j: usize = 0;
            while j < a.len()
                invariant
                    j <= a@.len(),
                    array_view(a@).len() == a@.len(),
                    forall|q: int| 0 <= q < a@.len() ==> #[trigger] array_view(a@)[q] == a@[q].view(),
                    record_shapes(out@) == base + array_records(array_view(a@), i as nat, j as nat),
                decreases a.len() - j,
            {
                let ghost before = record_shapes(out@);
                match &a[j] {
                    JsonValue::Object(m) => {
                        let fields = members_fields(m);
                        let metadata = meta2(
                            "source_index",
                            decimal_text(i as u64),
                            "array_index",
                            decimal_text(j as u64),
                        );
                        out.push(DataRecord { id: new_uuid(), fields, metadata });
                        assert(record_shapes(out@) =~= before.push(record_shape(out@.last())));
                    },
                    _ => {},
                }
                assert(array_view(a@)[j as int] == a@[j as int].view());
                j = j + 1;
            }
        },
        _ => {
            let mut fields: StrMap<JsonValue> = StrMap::new();
            let v = item.duplicate();
            proof { lemma_param_views_insert(fields@, "value"@, v); }
            fields.insert(owned("value"), v);
            let metadata = meta1("source_index", decimal_text(i as u64));
            proof {
                assert(param_views(fields@) =~= map!["value"@ => item.view()]);
            }
            out.push(DataRecord { id: new_uuid(), fields, metadata });
            assert(record_shapes(out@) =~= base + item_records(item.view(), i as nat));
        },
    }
}

impl JsonDataSource {
    /// A JSON data source with the given configuration.
    pub fn new(config: JsonDataSourceConfig) -> (r: Self)
        ensures
            r.config() == config,
    {
        JsonDataSource { config }
    }

    /// The source's configuration.
    pub closed spec fn config(&self) -> JsonDataSourceConfig {
        self.config
    }

    /// Records from a JSON document: the items selected by the JSON path (a
    /// `$`-rooted, dot-separated member path; an array found there gives its
    /// elements) or by the array path (a dot-separated member path), or the
    /// whole document. Each record gets a fresh identifier.
    pub fn extract_records_from_json(&self, json_data: &JsonValue) -> (r: Result<Vec<DataRecord>, DataSourceError>)
        ensures
            match json_items(json_data.view(), opt_text(self.config().json_path), opt_text(self.config().array_path)) {
                Ok(items) => r matches Ok(recs) && record_shapes(recs@) == items_records(items, items.len()),
                Err(msg) => r matches Err(DataSourceError::ParseError(m)) && m@ == msg,
            },
    {
        let mut items: Vec<&JsonValue> = Vec::new();
        match &self.config.json_path {
            Some(json_path) => {
                let text = json_data.to_json_string();
                match jsonpath_check(text.as_str(), json_path.as_str()) {
                    Err(e) => {
                        return Err(DataSourceError::ParseError(concat("JSONPath error: ", e.as_str())));
                    },
                    Ok(()) => {},
                }
                let pcs = chars_of(json_path.as_str());
                let mut has_dot = false;
                let mut q: usize = 0;
                while q < pcs.len()
                    invariant
                        q <= pcs@.len(),
                        pcs@ == json_path@,
                        has_dot == exists|k: int| 0 <= k < q && pcs@[k] == '.',
                    decreases pcs.len() - q,
                {
                    if pcs[q] == '.' {
                        has_dot = true;
                    }
                    q = q + 1;
                }
                if pcs.len() > 0 && pcs[0] == '$' && has_dot {
                    let tail = chars_between(&pcs, 1, pcs.len());
                    assert(tail@ =~= json_path@.drop_first());
                    let parts = split_on(tail.as_str(), '.');
                    match walk_path(json_data, &parts, true) {
                        None => {
                            return Err(DataSourceError::ParseError(concat("JSONPath not found: ", json_path.as_str())));
                        },
                        Some(cur) => {
                            match cur {
                                JsonValue::Array(arr) => {
                                    proof { lemma_array_view(arr@); }
                                    let mut k: usize = 0;
                                    while k < arr.len()
                                        invariant
                                            k <= arr@.len(),
                                            items@.len() == k,
                                            forall|t: int| 0 <= t < k ==> (#[trigger] items@[t]).view() == arr@[t].view(),
                                        decreases arr.len() - k,
                                    {
                                        items.push(&arr[k]);
                                        k = k + 1;
                                    }
                                    proof {
                                        assert(items@.map_values(|x: &JsonValue| x.view()) =~= array_view(arr@));
                                        assert(cur.view() == JsonView::Array(array_view(arr@)));
                                    }
                                },
                                other => {
                                    items.push(other);
                                    proof {
                                        assert(items@.map_values(|x: &JsonValue| x.view()) =~= seq![other.view()]);
                                    }
                                },
                            }
                        },
                    }
                } else {
                    items.push(json_data);
                    proof {
                        assert(items@.map_values(|x: &JsonValue| x.view()) =~= seq![json_data.view()]);
                        if pcs@.len() > 0 && pcs@[0] == '$' {
                            assert(!has_dot);
                            assert(!has_char(json_path@, '.'));
                        }
                    }
                }
                proof {
                    assert(has_dot == has_char(json_path@, '.'));
                }
            },
            None => match &self.config.array_path {
                Some(array_path) => {
                    let parts = split_on(array_path.as_str(), '.');
                    match walk_path(json_data, &parts, false) {
                        None => {
                            return Err(DataSourceError::ParseError(concat("Path not found: ", array_path.as_str())));
                        },
                        Some(cur) => {
                            items.push(cur);
                            proof {
                                assert(items@.map_values(|x: &JsonValue| x.view()) =~= seq![cur.view()]);
                            }
                        },
                    }
                },
                None => {
                    items.push(json_data);
                    proof {
                        assert(items@.map_values(|x: &JsonValue| x.view()) =~= seq![json_data.view()]);
                    }
                },
            },
        }
        let ghost iv = items@.map_values(|x: &JsonValue| x.view());
        proof {
            assert(json_items(json_data.view(), opt_text(self.config().json_path), opt_text(self.config().array_path))
                == Ok::<Seq<JsonView>, Seq<char>>(iv));
        }
        let mut records: Vec<DataRecord> = Vec::new();
        let mut i: usize = 0;
        proof { assert(record_shapes(records@) =~= items_records(iv, 0)); }
        while i < items.len()
            invariant
                i <= items@.len(),
                iv == items@.map_values(|x: &JsonValue| x.view()),
                record_shapes(records@) == items_records(iv, i as nat),
            decreases items.len() - i,
        {
            push_item_records(items[i], i, &mut records);
            i = i + 1;
        }
        Ok(records)
    }
}

/// YAML data source.
pub struct YamlDataSource {
    config: YamlDataSourceConfig,
}

impl YamlDataSource {
    /// A YAML data source with the given configuration.
    pub fn new(config: YamlDataSourceConfig) -> (r: Self)
        ensures
            r.config() == config,
    {
        YamlDataSource { config }
    }

    /// The source's configuration.
    pub closed spec fn config(&self) -> YamlDataSourceConfig {
        self.config
    }
}


// ---------------------------------------------------------------- YAML

/// Whether text `a` comes before text `b`: character by character, a
/// shorter prefix first (the order of strings by their UTF-8 bytes).
pub open spec fn text_less(a: Seq<char>, b: Seq<char>) -> bool
    decreases a.len(),
{
    if a.len() == 0 {
        b.len() > 0
    } else if b.len() == 0 {
        false
    } else if a[0] != b[0] {
        (a[0] as u32) < (b[0] as u32)
    } else {
        text_less(a.drop_first(), b.drop_first())
    }
}

proof fn lemma_text_less_skip(a: Seq<char>, b: Seq<char>, i: int)
    requires
        0 <= i <= a.len(),
        i <= b.len(),
        a.take(i) == b.take(i),
    ensures
        text_less(a, b) == text_less(a.skip(i), b.skip(i)),
    decreases i,
{
    if i > 0 {
        assert(a[0] == a.take(i)[0] && b[0] == b.take(i)[0]);
        assert(a.drop_first().take(i - 1) =~= a.take(i).drop_first());
        assert(b.drop_first().take(i - 1) =~= b.take(i).drop_first());
        lemma_text_less_skip(a.drop_first(), b.drop_first(), i - 1);
        assert(a.drop_first().skip(i - 1) =~= a.skip(i));
        assert(b.drop_first().skip(i - 1) =~= b.skip(i));
    } else {
        assert(a.skip(0) =~= a);
        assert(b.skip(0) =~= b);
    }
}

/// Whether `a` comes before `b` (see `text_less`).
pub fn less_text(a: &str, b: &str) -> (r: bool)
    ensures
        r == text_less(a@, b@),
{
    let x = chars_of(a);
    let y = chars_of(b);
    let mut i: usize = 0;
    while i < x.len() && i < y.len() && x[i] == y[i]
        invariant
            i <= x@.len(),
            i <= y@.len(),
            x@ == a@,
            y@ == b@,
            x@.take(i as int) == y@.take(i as int),
        decreases x.len() - i,
    {
        assert(x@.take(i + 1) =~= x@.take(i as int).push(x@[i as int]));
        assert(y@.take(i + 1) =~= y@.take(i as int).push(y@[i as int]));
        i = i + 1;
    }
    proof {
        lemma_text_less_skip(a@, b@, i as int);
    }
    if i == x.len() {
        i < y.len()
    } else if i == y.len() {
        false
    } else {
        (x[i] as u32) < (y[i] as u32)
    }
}

/// Members with `(k, v)` put in place: replacing the member named `k`, or
/// before the first member whose name comes after `k`.
pub open spec fn insert_member(m: Seq<(Seq<char>, JsonView)>, k: Seq<char>, v: JsonView) -> Seq<(Seq<char>, JsonView)>
    decreases m.len(),
{
    if m.len() == 0 {
        seq![(k, v)]
    } else if m[0].0 == k {
        seq![(k, v)] + m.drop_first()
    } else if text_less(k, m[0].0) {
        seq![(k, v)] + m
    } else {
        seq![m[0]] + insert_member(m.drop_first(), k, v)
    }
}

proof fn lemma_insert_member_skip(m: Seq<(Seq<char>, JsonView)>, k: Seq<char>, v: JsonView, i: int)
    requires
        0 <= i <= m.len(),
        forall|j: int| 0 <= j < i ==> m[j].0 != k && !text_less(k, #[trigger] m[j].0),
    ensures
        insert_member(m, k, v) == m.take(i) + insert_member(m.skip(i), k, v),
    decreases i,
{
    if i > 0 {
        assert(m[0].0 != k && !text_less(k, m[0].0));
        let t = m.drop_first();
        assert forall|j: int| 0 <= j < i - 1 implies t[j].0 != k && !text_less(k, #[trigger] t[j].0) by {
            assert(t[j] == m[j + 1]);
        }
        lemma_insert_member_skip(t, k, v, i - 1);
        assert(t.skip(i - 1) =~= m.skip(i));
        assert(seq![m[0]] + t.take(i - 1) =~= m.take(i));
        assert(insert_member(m, k, v) == seq![m[0]] + insert_member(t, k, v));
        assert(seq![m[0]] + (t.take(i - 1) + insert_member(t.skip(i - 1), k, v))
            =~= m.take(i) + insert_member(m.skip(i), k, v));
    } else {
        assert(m.skip(0) =~= m);
        assert(m.take(0) + insert_member(m.skip(0), k, v) =~= insert_member(m, k, v));
    }
}

/// Puts member `(k, v)` in place among members kept in name order.
pub(crate) fn put_member(members: &mut Vec<(String, JsonValue)>, k: String, v: JsonValue)
    ensures
        members_view(final(members)@) == insert_member(members_view(old(members)@), k@, v.view()),
{
    let ghost m0 = members_view(members@);
    proof { lemma_members_view(members@); }
    let n = members.len();
    let mut i: usize = 0;
    while i < n
        invariant
            i <= n,
            n == members@.len(),
            members_view(members@) == m0,
            m0.len() == n,
            forall|j: int| 0 <= j < n ==> #[trigger] m0[j] == (members@[j].0@, members@[j].1.view()),
            forall|j: int| 0 <= j < i ==> m0[j].0 != k@ && !text_less(k@, #[trigger] m0[j].0),
        ensures
            i < n ==> (m0[i as int].0 == k@ || text_less(k@, m0[i as int].0)),
        decreases n - i,
    {
        let here = members[i].0.as_str();
        if crate::text::str_equal(here, k.as_str()) || less_text(k.as_str(), here) {
            break;
        }
        i = i + 1;
    }
    proof { lemma_insert_member_skip(m0, k@, v.view(), i as int); }
    let ghost kv = k@;
    let ghost vv = v.view();
    if i < n && crate::text::str_equal(members[i].0.as_str(), k.as_str()) {
        let ghost before = members@;
        members.set(i, (k, v));
        proof {
            lemma_members_view(members@);
            let rest = m0.skip(i as int);
            assert(rest[0] == m0[i as int]);
            assert(insert_member(rest, kv, vv) == seq![(kv, vv)] + rest.drop_first());
            assert(members_view(members@) =~= m0.take(i as int) + (seq![(kv, vv)] + rest.drop_first()));
        }
    } else {
        members.insert(i, (k, v));
        proof {
            lemma_members_view(members@);
            let rest = m0.skip(i as int);
            if i < n {
                assert(rest[0] == m0[i as int]);
                assert(text_less(kv, rest[0].0));
            }
            assert(insert_member(rest, kv, vv) == seq![(kv, vv)] + rest);
            assert(members_view(members@) =~= m0.take(i as int) + (seq![(kv, vv)] + rest));
        }
    }
}

/// A YAML number: an integer, or a double given by its JSON text (none for a
/// double that is not finite).
pub enum YamlNumber {
    Integer(i64),
    Float(Option<String>),
}

/// A YAML value as read from a document.
pub enum YamlValue {
    Null,
    Bool(bool),
    Number(YamlNumber),
    String(String),
    Sequence(Vec<YamlValue>),
    /// Entries in document order, each key once.
    Mapping(Vec<(YamlValue, YamlValue)>),
    /// A value with a tag.
    Tagged(Box<YamlValue>),
}

/// The JSON value of a YAML value: mappings keep their string-keyed entries,
/// in name order, and tags are dropped; none when a double is not finite.
pub open spec fn yaml_json(v: YamlValue) -> Option<JsonView>
    decreases v,
{
    match v {
        YamlValue::Null => Some(JsonView::Null),
        YamlValue::Bool(b) => Some(JsonView::Bool(b)),
        YamlValue::Number(n) => match n {
            YamlNumber::Integer(i) => Some(JsonView::Number(signed_decimal(i as int))),
            YamlNumber::Float(t) => match t {
                Some(x) => Some(JsonView::Number(x@)),
                None => None,
            },
        },
        YamlValue::String(s) => Some(JsonView::String(s@)),
        YamlValue::Sequence(items) => match yaml_items_json(items@) {
            Some(a) => Some(JsonView::Array(a)),
            None => None,
        },
        YamlValue::Mapping(entries) => match yaml_members_json(entries@) {
            Some(m) => Some(JsonView::Object(m)),
            None => None,
        },
        YamlValue::Tagged(b) => yaml_json(*b),
    }
}

/// The JSON values of a sequence of YAML values.
pub open spec fn yaml_items_json(s: Seq<YamlValue>) -> Option<Seq<JsonView>>
    decreases s,
{
    if s.len() == 0 {
        Some(Seq::empty())
    } else {
        match yaml_items_json(s.drop_last()) {
            Some(a) => match yaml_json(s.last()) {
                Some(x) => Some(a.push(x)),
                None => None,
            },
            None => None,
        }
    }
}

/// The JSON members of YAML mapping entries: those with a string key, put in
/// name order.
pub open spec fn yaml_members_json(s: Seq<(YamlValue, YamlValue)>) -> Option<Seq<(Seq<char>, JsonView)>>
    decreases s,
{
    if s.len() == 0 {
        Some(Seq::empty())
    } else {
        match yaml_members_json(s.drop_last()) {
            Some(m) => match s.last().0 {
                YamlValue::String(k) => match yaml_json(s.last().1) {
                    Some(x) => Some(insert_member(m, k@, x)),
                    None => None,
                },
                _ => Some(m),
            },
            None => None,
        }
    }
}

proof fn lemma_items_prefix_none(s: Seq<YamlValue>, j: int)
    requires
        0 <= j <= s.len(),
        yaml_items_json(s.take(j)) is None,
    ensures
        yaml_items_json(s) is None,
    decreases s.len(),
{
    if j == s.len() {
        assert(s.take(j) =~= s);
    } else {
        assert(s.drop_last().take(j) =~= s.take(j));
        lemma_items_prefix_none(s.drop_last(), j);
    }
}

proof fn lemma_members_prefix_none(s: Seq<(YamlValue, YamlValue)>, j: int)
    requires
        0 <= j <= s.len(),
        yaml_members_json(s.take(j)) is None,
    ensures
        yaml_members_json(s) is None,
    decreases s.len(),
{
    if j == s.len() {
        assert(s.take(j) =~= s);
    } else {
        assert(s.drop_last().take(j) =~= s.take(j));
        lemma_members_prefix_none(s.drop_last(), j);
    }
}

fn signed_number(i: i64) -> (r: JsonValue)
    ensures
        r.view() == JsonView::Number(signed_decimal(i as int)),
{
    let mut cs: Vec<char> = Vec::new();
    if i < 0 {
        cs.push('-');
        let mag: u64 = if i == i64::MIN { 9223372036854775808u64 } else { (-i) as u64 };
        push_decimal(mag, &mut cs);
    } else {
        push_decimal(i as u64, &mut cs);
    }
    assert(cs@ =~= signed_decimal(i as int));
    JsonValue::Number(crate::text::string_of(cs.as_slice()))
}

fn invalid_number() -> (e: DataSourceError)
    ensures
        e matches DataSourceError::ParseError(m) && m@ == "Invalid number in YAML"@,
{
    DataSourceError::ParseError(owned("Invalid number in YAML"))
}

fn yaml_value_json(v: &YamlValue) -> (r: Result<JsonValue, DataSourceError>)
    ensures
        match yaml_json(*v) {
            Some(j) => r matches Ok(x) && x.view() == j,
            None => r matches Err(DataSourceError::ParseError(m)) && m@ == "Invalid number in YAML"@,
        },
    decreases v,
{
    match v {
        YamlValue::Null => Ok(JsonValue::Null),
        YamlValue::Bool(b) => Ok(JsonValue::Bool(*b)),
        YamlValue::Number(n) => match n {
            YamlNumber::Integer(i) => Ok(signed_number(*i)),
            YamlNumber::Float(t) => match t {
                Some(x) => Ok(JsonValue::Number(copy_string(x))),
                None => Err(invalid_number()),
            },
        },
        YamlValue::String(s) => Ok(JsonValue::String(copy_string(s))),
        YamlValue::Sequence(items) => match yaml_items_to_json(items) {
            Ok(a) => Ok(JsonValue::Array(a)),
            Err(e) => Err(e),
        },
        YamlValue::Mapping(entries) => match yaml_members_to_json(entries) {
            Ok(m) => Ok(JsonValue::Object(m)),
            Err(e) => Err(e),
        },
        YamlValue::Tagged(b) => yaml_value_json(b),
    }
}

fn yaml_items_to_json(items: &Vec<YamlValue>) -> (r: Result<Vec<JsonValue>, DataSourceError>)
    ensures
        match yaml_items_json(items@) {
            Some(a) => r matches Ok(x) && array_view(x@) == a,
            None => r matches Err(DataSourceError::ParseError(m)) && m@ == "Invalid number in YAML"@,
        },
    decreases items@,
{
    let mut out: Vec<JsonValue> = Vec::new();
    let n = items.len();
    let mut i: usize = 0;
    assert(items@.take(0) =~= Seq::<YamlValue>::empty());
    while i < n
        invariant
            i <= n,
            n == items@.len(),
            yaml_items_json(items@.take(i as int)) == Some(array_view(out@)),
        decreases n - i,
    {
        proof {
            assert(decreases_to!(items@ => items@[i as int]));
            assert(items@.take(i + 1).drop_last() =~= items@.take(i as int));
            assert(items@.take(i + 1).last() == items@[i as int]);
        }
        match yaml_value_json(&items[i]) {
            Ok(x) => {
                let ghost before = out@;
                out.push(x);
                assert(out@.drop_last() =~= before);
            },
            Err(e) => {
                proof { lemma_items_prefix_none(items@, i + 1); }
                return Err(e);
            },
        }
        i = i + 1;
    }
    assert(items@.take(n as int) =~= items@);
    Ok(out)
}

fn yaml_members_to_json(entries: &Vec<(YamlValue, YamlValue)>) -> (r: Result<Vec<(String, JsonValue)>, DataSourceError>)
    ensures
        match yaml_members_json(entries@) {
            Some(m) => r matches Ok(x) && members_view(x@) == m,
            None => r matches Err(DataSourceError::ParseError(m)) && m@ == "Invalid number in YAML"@,
        },
    decreases entries@,
{
    let mut out: Vec<(String, JsonValue)> = Vec::new();
    let n = entries.len();
    let mut i: usize = 0;
    assert(entries@.take(0) =~= Seq::<(YamlValue, YamlValue)>::empty());
    while i < n
        invariant
            i <= n,
            n == entries@.len(),
            yaml_members_json(entries@.take(i as int)) == Some(members_view(out@)),
        decreases n - i,
    {
        proof {
            assert(decreases_to!(entries@ => entries@[i as int]));
            assert(decreases_to!(entries@[i as int] => entries@[i as int].1));
            assert(entries@.take(i + 1).drop_last() =~= entries@.take(i as int));
            assert(entries@.take(i + 1).last() == entries@[i as int]);
        }
        match &entries[i].0 {
            YamlValue::String(k) => {
                match yaml_value_json(&entries[i].1) {
                    Ok(x) => {
                        put_member(&mut out, copy_string(k), x);
                    },
                    Err(e) => {
                        proof { lemma_members_prefix_none(entries@, i + 1); }
                        return Err(e);
                    },
                }
            },
            _ => {},
        }
        i = i + 1;
    }
    assert(entries@.take(n as int) =~= entries@);
    Ok(out)
}

/// A value with its tags taken off.
pub open spec fn untagged(v: YamlValue) -> YamlValue
    decreases v,
{
    match v {
        YamlValue::Tagged(b) => untagged(*b),
        _ => v,
    }
}

/// Whether a YAML value is the string `k`.
pub open spec fn is_key(v: YamlValue, k: Seq<char>) -> bool {
    match v {
        YamlValue::String(s) => s@ == k,
        _ => false,
    }
}

/// The value of the first entry whose key is the string `k`.
pub open spec fn entry_value(entries: Seq<(YamlValue, YamlValue)>, k: Seq<char>) -> Option<YamlValue>
    decreases entries.len(),
{
    if entries.len() == 0 {
        None
    } else if is_key(entries[0].0, k) {
        Some(entries[0].1)
    } else {
        entry_value(entries.drop_first(), k)
    }
}

/// The value under key `k` of a mapping (serde_yaml's `get` with a text).
pub open spec fn yaml_get(v: YamlValue, k: Seq<char>) -> Option<YamlValue> {
    match untagged(v) {
        YamlValue::Mapping(entries) => entry_value(entries@, k),
        _ => None,
    }
}

/// The value reached from `v` by following the keys `parts`.
pub open spec fn yaml_walk(v: YamlValue, parts: Seq<Seq<char>>) -> Option<YamlValue>
    decreases parts.len(),
{
    if parts.len() == 0 {
        Some(v)
    } else {
        match yaml_get(v, parts[0]) {
            Some(x) => yaml_walk(x, parts.drop_first()),
            None => None,
        }
    }
}

/// The items of a value: the elements of a sequence, else the value itself.
pub open spec fn yaml_elements(v: YamlValue) -> Seq<YamlValue> {
    match v {
        YamlValue::Sequence(s) => s@,
        _ => seq![v],
    }
}

/// The items of a document: those at the dotted `array_path` when one is
/// set, else those of the document.
pub open spec fn doc_items(doc: YamlValue, array_path: Option<Seq<char>>) -> Result<Seq<YamlValue>, Seq<char>> {
    match array_path {
        Some(p) => match yaml_walk(doc, split_text(p, '.')) {
            Some(cur) => Ok(yaml_elements(cur)),
            None => Err("Path not found: "@ + p),
        },
        None => Ok(yaml_elements(doc)),
    }
}

/// The fields of a YAML mapping: its string-keyed entries as JSON.
pub open spec fn yaml_fields(entries: Seq<(YamlValue, YamlValue)>) -> Option<Map<Seq<char>, JsonView>>
    decreases entries.len(),
{
    if entries.len() == 0 {
        Some(Map::empty())
    } else {
        match yaml_fields(entries.drop_last()) {
            Some(m) => match entries.last().0 {
                YamlValue::String(k) => match yaml_json(entries.last().1) {
                    Some(x) => Some(m.insert(k@, x)),
                    None => None,
                },
                _ => Some(m),
            },
            None => None,
        }
    }
}

/// The record made from item `ii` of document `di`: the fields of a mapping,
/// or the item as the field `value`.
pub open spec fn yaml_item_record(item: YamlValue, di: nat, ii: nat) -> Option<(Map<Seq<char>, JsonView>, Map<Seq<char>, Seq<char>>)> {
    let meta = map!["document_index"@ => decimal(di), "item_index"@ => decimal(ii)];
    match item {
        YamlValue::Mapping(entries) => match yaml_fields(entries@) {
            Some(f) => Some((f, meta)),
            None => None,
        },
        _ => match yaml_json(item) {
            Some(x) => Some((map!["value"@ => x], meta)),
            None => None,
        },
    }
}

/// The records of the first `n` items of document `di`.
pub open spec fn yaml_item_records(items: Seq<YamlValue>, di: nat, n: nat) -> Option<Seq<(Map<Seq<char>, JsonView>, Map<Seq<char>, Seq<char>>)>>
    decreases n,
{
    if n == 0 {
        Some(Seq::empty())
    } else {
        match yaml_item_records(items, di, (n - 1) as nat) {
            Some(rs) => match yaml_item_record(items[n - 1], di, (n - 1) as nat) {
                Some(r) => Some(rs.push(r)),
                None => None,
            },
            None => None,
        }
    }
}

/// The records of the first `n` documents, or the first error met.
pub open spec fn yaml_records(docs: Seq<YamlValue>, array_path: Option<Seq<char>>, n: nat) -> Result<Seq<(Map<Seq<char>, JsonView>, Map<Seq<char>, Seq<char>>)>, Seq<char>>
    decreases n,
{
    if n == 0 {
        Ok(Seq::empty())
    } else {
        match yaml_records(docs, array_path, (n - 1) as nat) {
            Ok(prev) => match doc_items(docs[n - 1], array_path) {
                Ok(items) => match yaml_item_records(items, (n - 1) as nat, items.len()) {
                    Some(rs) => Ok(prev + rs),
                    None => Err("Invalid number in YAML"@),
                },
                Err(e) => Err(e),
            },
            Err(e) => Err(e),
        }
    }
}

proof fn lemma_yaml_records_error(docs: Seq<YamlValue>, p: Option<Seq<char>>, k: nat, n: nat, e: Seq<char>)
    requires
        k <= n,
        yaml_records(docs, p, k) == Err::<Seq<(Map<Seq<char>, JsonView>, Map<Seq<char>, Seq<char>>)>, Seq<char>>(e),
    ensures
        yaml_records(docs, p, n) == Err::<Seq<(Map<Seq<char>, JsonView>, Map<Seq<char>, Seq<char>>)>, Seq<char>>(e),
    decreases n,
{
    if k < n {
        lemma_yaml_records_error(docs, p, k, (n - 1) as nat, e);
    }
}

proof fn lemma_item_records_none(items: Seq<YamlValue>, di: nat, k: nat, n: nat)
    requires
        k <= n,
        yaml_item_records(items, di, k) is None,
    ensures
        yaml_item_records(items, di, n) is None,
    decreases n,
{
    if k < n {
        lemma_item_records_none(items, di, k, (n - 1) as nat);
    }
}

proof fn lemma_fields_prefix_none(s: Seq<(YamlValue, YamlValue)>, j: int)
    requires
        0 <= j <= s.len(),
        yaml_fields(s.take(j)) is None,
    ensures
        yaml_fields(s) is None,
    decreases s.len(),
{
    if j == s.len() {
        assert(s.take(j) =~= s);
    } else {
        assert(s.drop_last().take(j) =~= s.take(j));
        lemma_fields_prefix_none(s.drop_last(), j);
    }
}

fn untag(v: &YamlValue) -> (r: &YamlValue)
    ensures
        *r == untagged(*v),
    decreases v,
{
    match v {
        YamlValue::Tagged(b) => untag(b),
        _ => v,
    }
}

fn yaml_lookup<'a>(v: &'a YamlValue, k: &str) -> (r: Option<&'a YamlValue>)
    ensures
        match yaml_get(*v, k@) {
            Some(x) => r matches Some(y) && *y == x,
            None => r is None,
        },
{
    match untag(v) {
        YamlValue::Mapping(entries) => {
            let n = entries.len();
            let mut i: usize = 0;
            assert(entries@.skip(0) =~= entries@);
            while i < n
                invariant
                    i <= n,
                    n == entries@.len(),
                    yaml_get(*v, k@) == entry_value(entries@, k@),
                    entry_value(entries@, k@) == entry_value(entries@.skip(i as int), k@),
                decreases n - i,
            {
                let ghost rest = entries@.skip(i as int);
                assert(rest[0] == entries@[i as int]);
                assert(rest.drop_first() =~= entries@.skip(i + 1));
                match &entries[i].0 {
                    YamlValue::String(s) => {
                        if crate::text::str_equal(s.as_str(), k) {
                            assert(is_key(rest[0].0, k@));
                            return Some(&entries[i].1);
                        }
                    },
                    _ => {},
                }
                i = i + 1;
            }
            assert(entries@.skip(n as int) =~= Seq::<(YamlValue, YamlValue)>::empty());
            None
        },
        _ => None,
    }
}

fn elements_of<'a>(v: &'a YamlValue) -> (r: Vec<&'a YamlValue>)
    ensures
        r@.len() == yaml_elements(*v).len(),
        forall|j: int| 0 <= j < r@.len() ==> *r@[j] == yaml_elements(*v)[j],
{
    let mut out: Vec<&YamlValue> = Vec::new();
    match v {
        YamlValue::Sequence(s) => {
            let mut i: usize = 0;
            while i < s.len()
                invariant
                    i <= s@.len(),
                    out@.len() == i,
                    forall|j: int| 0 <= j < i ==> *out@[j] == s@[j],
                decreases s.len() - i,
            {
                out.push(&s[i]);
                i = i + 1;
            }
        },
        _ => {
            out.push(v);
        },
    }
    out
}

fn yaml_item_fields(entries: &Vec<(YamlValue, YamlValue)>) -> (r: Result<StrMap<JsonValue>, DataSourceError>)
    ensures
        match yaml_fields(entries@) {
            Some(f) => r matches Ok(m) && param_views(m@) == f,
            None => r matches Err(DataSourceError::ParseError(t)) && t@ == "Invalid number in YAML"@,
        },
{
    let mut fields: StrMap<JsonValue> = StrMap::new();
    let n = entries.len();
    let mut i: usize = 0;
    assert(entries@.take(0) =~= Seq::<(YamlValue, YamlValue)>::empty());
    assert(param_views(fields@) =~= Map::<Seq<char>, JsonView>::empty());
    while i < n
        invariant
            i <= n,
            n == entries@.len(),
            yaml_fields(entries@.take(i as int)) == Some(param_views(fields@)),
        decreases n - i,
    {
        proof {
            assert(entries@.take(i + 1).drop_last() =~= entries@.take(i as int));
            assert(entries@.take(i + 1).last() == entries@[i as int]);
        }
        match &entries[i].0 {
            YamlValue::String(k) => {
                match yaml_value_json(&entries[i].1) {
                    Ok(x) => {
                        proof { lemma_param_views_insert(fields@, k@, x); }
                        fields.insert(copy_string(k), x);
                    },
                    Err(e) => {
                        proof { lemma_fields_prefix_none(entries@, i + 1); }
                        return Err(e);
                    },
                }
            },
            _ => {},
        }
        i = i + 1;
    }
    assert(entries@.take(n as int) =~= entries@);
    Ok(fields)
}

fn index_metadata(di: usize, ii: usize) -> (m: StrMap<String>)
    ensures
        text_views(m@) == map!["document_index"@ => decimal(di as nat), "item_index"@ => decimal(ii as nat)],
{
    let mut m: StrMap<String> = StrMap::new();
    m.insert(owned("document_index"), decimal_text(di as u64));
    m.insert(owned("item_index"), decimal_text(ii as u64));
    assert(text_views(m@) =~= map!["document_index"@ => decimal(di as nat), "item_index"@ => decimal(ii as nat)]);
    m
}

fn yaml_item_to_record(item: &YamlValue, di: usize, ii: usize) -> (r: Result<DataRecord, DataSourceError>)
    ensures
        match yaml_item_record(*item, di as nat, ii as nat) {
            Some(shape) => r matches Ok(rec) && record_shape(rec) == shape,
            None => r matches Err(DataSourceError::ParseError(t)) && t@ == "Invalid number in YAML"@,
        },
{
    let fields = match item {
        YamlValue::Mapping(entries) => match yaml_item_fields(entries) {
            Ok(f) => f,
            Err(e) => return Err(e),
        },
        _ => match yaml_value_json(item) {
            Ok(x) => {
                let mut f: StrMap<JsonValue> = StrMap::new();
                let ghost xv = x.view();
                proof { lemma_param_views_insert(f@, "value"@, x); }
                f.insert(owned("value"), x);
                assert(param_views(f@) =~= map!["value"@ => xv]);
                f
            },
            Err(e) => return Err(e),
        },
    };
    Ok(DataRecord { id: new_uuid(), fields, metadata: index_metadata(di, ii) })
}

impl YamlDataSource {
    /// The JSON value of a YAML value (see `yaml_json`); a double that is not
    /// finite is refused.
    pub fn yaml_to_json_value(&self, yaml_value: &YamlValue) -> (r: Result<JsonValue, DataSourceError>)
        ensures
            match yaml_json(*yaml_value) {
                Some(j) => r matches Ok(x) && x.view() == j,
                None => r matches Err(DataSourceError::ParseError(m)) && m@ == "Invalid number in YAML"@,
            },
    {
        yaml_value_json(yaml_value)
    }

    /// Records from YAML documents: one per item of each document (see
    /// `yaml_records`), with the document and item positions as metadata.
    pub fn extract_records_from_yaml(&self, yaml_docs: &Vec<YamlValue>) -> (r: Result<Vec<DataRecord>, DataSourceError>)
        ensures
            match yaml_records(yaml_docs@, opt_text(self.config().array_path), yaml_docs@.len()) {
                Ok(shapes) => r matches Ok(recs) && record_shapes(recs@) == shapes,
                Err(m) => r matches Err(DataSourceError::ParseError(t)) && t@ == m,
            },
    {
        let ghost p = opt_text(self.config().array_path);
        let mut records: Vec<DataRecord> = Vec::new();
        let nd = yaml_docs.len();
        let mut d: usize = 0;
        assert(record_shapes(records@) =~= Seq::empty());
        while d < nd
            invariant
                d <= nd,
                nd == yaml_docs@.len(),
                p == opt_text(self.config().array_path),
                yaml_records(yaml_docs@, p, d as nat) == Ok::<Seq<(Map<Seq<char>, JsonView>, Map<Seq<char>, Seq<char>>)>, Seq<char>>(record_shapes(records@)),
            decreases nd - d,
        {
            let doc = &yaml_docs[d];
            let items: Vec<&YamlValue> = match &self.config.array_path {
                Some(array_path) => {
                    let parts = split_on(array_path.as_str(), '.');
                    let mut current: &YamlValue = doc;
                    let np = parts.len();
                    let mut j: usize = 0;
                    proof { assert(views(parts@).skip(0) =~= views(parts@)); }
                    assert(p == Some(array_path@));
                    while j < np
                        invariant
                            j <= np,
                            np == parts@.len(),
                            d < nd,
                            nd == yaml_docs@.len(),
                            *doc == yaml_docs@[d as int],
                            p == Some(array_path@),
                            p == opt_text(self.config().array_path),
                            yaml_records(yaml_docs@, p, d as nat) is Ok,
                            views(parts@) == split_text(array_path@, '.'),
                            yaml_walk(*doc, views(parts@)) == yaml_walk(*current, views(parts@).skip(j as int)),
                        decreases np - j,
                    {
                        let ghost rest = views(parts@).skip(j as int);
                        assert(rest[0] == parts@[j as int]@);
                        assert(rest.drop_first() =~= views(parts@).skip(j + 1));
                        match yaml_lookup(current, parts[j].as_str()) {
                            Some(x) => { current = x; },
                            None => {
                                let msg = concat("Path not found: ", array_path.as_str());
                                proof {
                                    assert(yaml_walk(*current, rest) is None);
                                    assert(doc_items(yaml_docs@[d as int], p) == Err::<Seq<YamlValue>, Seq<char>>(msg@));
                                    lemma_yaml_records_error(yaml_docs@, p, (d + 1) as nat, nd as nat, msg@);
                                }
                                return Err(DataSourceError::ParseError(msg));
                            },
                        }
                        j = j + 1;
                    }
                    proof { assert(views(parts@).skip(np as int) =~= Seq::<Seq<char>>::empty()); }
                    elements_of(current)
                },
                None => elements_of(doc),
            };
            let ghost item_seq = match doc_items(yaml_docs@[d as int], p) { Ok(x) => x, Err(_) => Seq::empty() };
            assert(doc_items(yaml_docs@[d as int], p) is Ok);
            let ni = items.len();
            let mut k: usize = 0;
            let ghost prev = record_shapes(records@);
            assert(ni == item_seq.len());
            while k < ni
                invariant
                    k <= ni,
                    ni == item_seq.len(),
                    ni == items@.len(),
                    forall|j: int| 0 <= j < ni ==> *items@[j] == item_seq[j],
                    d < nd,
                    nd == yaml_docs@.len(),
                    p == opt_text(self.config().array_path),
                    yaml_records(yaml_docs@, p, d as nat) == Ok::<Seq<(Map<Seq<char>, JsonView>, Map<Seq<char>, Seq<char>>)>, Seq<char>>(prev),
                    doc_items(yaml_docs@[d as int], p) == Ok::<Seq<YamlValue>, Seq<char>>(item_seq),
                    yaml_item_records(item_seq, d as nat, k as nat) matches Some(rs) && record_shapes(records@) == prev + rs,
                decreases ni - k,
            {
                match yaml_item_to_record(items[k], d, k) {
                    Ok(rec) => {
                        let ghost before = records@;
                        records.push(rec);
                        proof {
                            assert(records@.drop_last() =~= before);
                            assert(record_shapes(records@) =~= record_shapes(before).push(record_shape(rec)));
                        }
                    },
                    Err(e) => {
                        proof {
                            lemma_item_records_none(item_seq, d as nat, (k + 1) as nat, ni as nat);
                            lemma_yaml_records_error(yaml_docs@, p, (d + 1) as nat, nd as nat, "Invalid number in YAML"@);
                        }
                        return Err(e);
                    },
                }
                k = k + 1;
            }
            d = d + 1;
        }
        Ok(records)
    }
}

// ---------------------------------------------------------------- transformations

/// Data types a field can be converted to.
#[derive(Clone, Copy, Debug, PartialEq, Eq, Structural)]
pub enum DataType {
    String,
    Integer,
    Float,
    Boolean,
    Array,
    Object,
}

/// Whether a lowercased text reads as true.
pub open spec fn true_word(t: Seq<char>) -> bool {
    t == "true"@ || t == "1"@ || t == "yes"@ || t == "on"@
}

/// Whether a lowercased text reads as false.
pub open spec fn false_word(t: Seq<char>) -> bool {
    t == "false"@ || t == "0"@ || t == "no"@ || t == "off"@
}

/// What converting `v` to `target` gives, for the conversions that need
/// neither floating-point values nor parsing JSON text: to a string (a text
/// stays as it is, anything else becomes its JSON text); to an integer from
/// a text or a number; to a boolean from a text or a boolean; an array or
/// an object kept as it is. `None` for every other conversion.
pub open spec fn exact_conversion(v: JsonView, target: DataType) -> Option<Result<JsonView, Seq<char>>> {
    match target {
        DataType::String => Some(Ok(JsonView::String(match v {
            JsonView::String(t) => t,
            _ => json_text(v),
        }))),
        DataType::Integer => match v {
            JsonView::String(t) => Some(match parse_i64_text(t) {
                Some(i) => Ok(JsonView::Number(signed_decimal(i as int))),
                None => Err("Cannot convert '"@ + t + "' to integer"@),
            }),
            JsonView::Number(t) => Some(match parse_i64_text(t) {
                Some(i) => Ok(JsonView::Number(signed_decimal(i as int))),
                None => Err("Number is not an integer"@),
            }),
            _ => None,
        },
        DataType::Boolean => match v {
            JsonView::String(t) => Some(if true_word(lowercase_text(t)) {
                Ok(JsonView::Bool(true))
            } else if false_word(lowercase_text(t)) {
                Ok(JsonView::Bool(false))
            } else {
                Err("Cannot convert '"@ + t + "' to boolean"@)
            }),
            JsonView::Bool(b) => Some(Ok(JsonView::Bool(b))),
            _ => None,
        },
        DataType::Array => match v {
            JsonView::Array(_) => Some(Ok(v)),
            _ => None,
        },
        DataType::Object => match v {
            JsonView::Object(_) => Some(Ok(v)),
            _ => None,
        },
        DataType::Float => None,
    }
}

/// Converts a value to a data type, for the conversions that need neither
/// floating-point values nor parsing JSON text; `None` for the others.
pub fn convert_value_exact(v: &JsonValue, target: &DataType) -> (r: Option<Result<JsonValue, DataSourceError>>)
    ensures
        match exact_conversion(v.view(), *target) {
            None => r is None,
            Some(Ok(x)) => r matches Some(Ok(y)) && y.view() == x,
            Some(Err(m)) => r matches Some(Err(DataSourceError::TransformationFailed(e))) && e@ == m,
        },
{
    match target {
        DataType::String => Some(Ok(JsonValue::String(match v {
            JsonValue::String(t) => copy_string(t),
            _ => v.to_json_string(),
        }))),
        DataType::Integer => match v {
            JsonValue::String(t) => Some(match parse_i64(t.as_str()) {
                Some(i) => Ok(signed_number(i)),
                None => {
                    let mut m = concat("Cannot convert '", t.as_str());
                    m.append("' to integer");
                    Err(DataSourceError::TransformationFailed(m))
                },
            }),
            JsonValue::Number(t) => Some(match parse_i64(t.as_str()) {
                Some(i) => Ok(signed_number(i)),
                None => Err(DataSourceError::TransformationFailed(owned("Number is not an integer"))),
            }),
            _ => None,
        },
        DataType::Boolean => match v {
            JsonValue::String(t) => {
                let l = lowercase(t.as_str());
                let ls = l.as_str();
                Some(if crate::text::str_equal(ls, "true") || crate::text::str_equal(ls, "1")
                    || crate::text::str_equal(ls, "yes") || crate::text::str_equal(ls, "on") {
                    Ok(JsonValue::Bool(true))
                } else if crate::text::str_equal(ls, "false") || crate::text::str_equal(ls, "0")
                    || crate::text::str_equal(ls, "no") || crate::text::str_equal(ls, "off") {
                    Ok(JsonValue::Bool(false))
                } else {
                    let mut m = concat("Cannot convert '", t.as_str());
                    m.append("' to boolean");
                    Err(DataSourceError::TransformationFailed(m))
                })
            },
            JsonValue::Bool(b) => Some(Ok(JsonValue::Bool(*b))),
            _ => None,
        },
        DataType::Array => match v {
            JsonValue::Array(_) => Some(Ok(v.duplicate())),
            _ => None,
        },
        DataType::Object => match v {
            JsonValue::Object(_) => Some(Ok(v.duplicate())),
            _ => None,
        },
        DataType::Float => None,
    }
}

/// Field mapping transformation: renames fields.
pub struct FieldMappingTransform {
    mappings: StrMap<String>,
}

/// The name a field gets under `mappings`.
pub open spec fn renamed(mappings: Map<Seq<char>, Seq<char>>, k: Seq<char>) -> Seq<char> {
    if mappings.dom().contains(k) { mappings[k] } else { k }
}

/// Fields renamed, taking the first `n` keys in `order`; when two fields get
/// the same name, the later one in `order` wins.
pub open spec fn mapped_fields(
    order: Seq<Seq<char>>,
    fields: Map<Seq<char>, JsonView>,
    mappings: Map<Seq<char>, Seq<char>>,
    n: nat,
) -> Map<Seq<char>, JsonView>
    decreases n,
{
    if n == 0 {
        Map::empty()
    } else {
        let k = order[n - 1];
        mapped_fields(order, fields, mappings, (n - 1) as nat).insert(renamed(mappings, k), fields[k])
    }
}

/// Renaming law: when no two of the first `n` keys of `order` get the same
/// name, every one of them reappears under its new name with its value
/// unchanged, and no other name appears.
pub proof fn lemma_fields_renamed(
    order: Seq<Seq<char>>,
    fields: Map<Seq<char>, JsonView>,
    mappings: Map<Seq<char>, Seq<char>>,
    n: nat,
)
    requires
        n <= order.len(),
        forall|i: int, j: int| 0 <= i < n && 0 <= j < n && i != j
            ==> #[trigger] renamed(mappings, order[i]) != #[trigger] renamed(mappings, order[j]),
    ensures
        forall|i: int| 0 <= i < n ==> #[trigger] mapped_fields(order, fields, mappings, n).dom().contains(renamed(mappings, order[i]))
            && mapped_fields(order, fields, mappings, n)[renamed(mappings, order[i])] == fields[order[i]],
        forall|x: Seq<char>| #[trigger] mapped_fields(order, fields, mappings, n).dom().contains(x)
            ==> exists|i: int| 0 <= i < n && renamed(mappings, order[i]) == x,
    decreases n,
{
    if n > 0 {
        lemma_fields_renamed(order, fields, mappings, (n - 1) as nat);
        let prev = mapped_fields(order, fields, mappings, (n - 1) as nat);
        let last = renamed(mappings, order[n - 1]);
        assert forall|i: int| 0 <= i < n implies #[trigger] mapped_fields(order, fields, mappings, n).dom().contains(renamed(mappings, order[i]))
            && mapped_fields(order, fields, mappings, n)[renamed(mappings, order[i])] == fields[order[i]] by {
            if i < n - 1 {
                assert(renamed(mappings, order[i]) != renamed(mappings, order[n - 1]));
                assert(prev.dom().contains(renamed(mappings, order[i])));
            }
        }
        assert forall|x: Seq<char>| #[trigger] mapped_fields(order, fields, mappings, n).dom().contains(x)
            implies exists|i: int| 0 <= i < n && renamed(mappings, order[i]) == x by {
            if x != last {
                assert(prev.dom().contains(x));
                let i = choose|i: int| 0 <= i < n - 1 && renamed(mappings, order[i]) == x;
                assert(0 <= i < n && renamed(mappings, order[i]) == x);
            } else {
                assert(renamed(mappings, order[n - 1]) == x);
            }
        }
    }
}

impl FieldMappingTransform {
    /// A transformation renaming each field named in `mappings`.
    pub fn new(mappings: StrMap<String>) -> (r: Self)
        ensures
            r.mapping() == text_views(mappings@),
    {
        FieldMappingTransform { mappings }
    }

    /// The renaming, as a map from old to new names.
    pub closed spec fn mapping(&self) -> Map<Seq<char>, Seq<char>> {
        text_views(self.mappings@)
    }

    /// The transformation's name.
    pub fn name(&self) -> (r: String)
        ensures
            r@ == "field_mapping"@,
    {
        owned("field_mapping")
    }

    fn map_record(&self, rec: DataRecord) -> (r: DataRecord)
        ensures
            r.id == rec.id,
            r.metadata == rec.metadata,
            param_views(r.fields@) == mapped_fields(
                rec.fields.key_order(),
                param_views(rec.fields@),
                self.mapping(),
                rec.fields.key_order().len(),
            ),
    {
        let DataRecord { id, fields, metadata } = rec;
        let ghost ko = fields.key_order();
        let ghost fv = param_views(fields@);
        let n = fields.len();
        let mut out: StrMap<JsonValue> = StrMap::new();
        let mut i: usize = 0;
        proof {
            fields.lemma_key_order();
            assert(param_views(out@) =~= mapped_fields(ko, fv, self.mapping(), 0));
        }
        while i < n
            invariant
                i <= n,
                n == ko.len(),
                ko == fields.key_order(),
                fv == param_views(fields@),
                forall|k: Seq<char>| #[trigger] fields@.dom().contains(k) <==> ko.contains(k),
                param_views(out@) == mapped_fields(ko, fv, self.mapping(), i as nat),
            decreases n - i,
        {
            let (k, v) = fields.entry_at(i);
            let new_key = match self.mappings.get(k.as_str()) {
                Some(nk) => copy_string(nk),
                None => copy_string(k),
            };
            let val = v.duplicate();
            proof {
                assert(ko[i as int] == k@);
                assert(ko.contains(k@));
                assert(new_key@ == renamed(self.mapping(), k@));
                lemma_param_views_insert(out@, new_key@, val);
            }
            out.insert(new_key, val);
            i = i + 1;
        }
        DataRecord { id, fields: out, metadata }
    }

    /// Renames the fields of every record, keeping identifiers and metadata.
    pub fn transform(&self, records: Vec<DataRecord>) -> (r: Result<Vec<DataRecord>, DataSourceError>)
        ensures
            r matches Ok(v) && (v@.len() == records@.len()) && (forall|i: int| 0 <= i < v@.len() ==> {
                &&& (#[trigger] v@[i]).id == records@[i].id
                &&& v@[i].metadata == records@[i].metadata
                &&& param_views(v@[i].fields@) == mapped_fields(
                    records@[i].fields.key_order(),
                    param_views(records@[i].fields@),
                    self.mapping(),
                    records@[i].fields.key_order().len(),
                )
            }),
    {
        Ok(self.apply_each(records))
    }

    fn apply_each(&self, records: Vec<DataRecord>) -> (r: Vec<DataRecord>)
        ensures
            r@.len() == records@.len(),
            forall|i: int| 0 <= i < r@.len() ==> {
                &&& (#[trigger] r@[i]).id == records@[i].id
                &&& r@[i].metadata == records@[i].metadata
                &&& param_views(r@[i].fields@) == mapped_fields(
                    records@[i].fields.key_order(),
                    param_views(records@[i].fields@),
                    self.mapping(),
                    records@[i].fields.key_order().len(),
                )
            },
    {
        let ghost orig = records@;
        let mut rest = records;
        let mut out: Vec<DataRecord> = Vec::new();
        while rest.len() > 0
            invariant
                out@.len() + rest@.len() == orig.len(),
                rest@ == orig.subrange(out@.len() as int, orig.len() as int),
                forall|i: int| 0 <= i < out@.len() ==> {
                    &&& (#[trigger] out@[i]).id == orig[i].id
                    &&& out@[i].metadata == orig[i].metadata
                    &&& param_views(out@[i].fields@) == mapped_fields(
                        orig[i].fields.key_order(),
                        param_views(orig[i].fields@),
                        self.mapping(),
                        orig[i].fields.key_order().len(),
                    )
                },
            decreases rest@.len(),
        {
            let ghost k = out@.len() as int;
            let rec = rest.remove(0);
            assert(rec == orig[k]);
            let m = self.map_record(rec);
            out.push(m);
            assert(rest@ =~= orig.subrange(k + 1, orig.len() as int));
        }
        out
    }
}

/// Field filter transformation: keeps or drops fields by name.
pub struct FieldFilterTransform {
    include_fields: Option<Vec<String>>,
    exclude_fields: Option<Vec<String>>,
}

/// Whether a field is kept: when names to keep are given, it must be one
/// of them; otherwise, when names to drop are given, it must be none of them.
pub open spec fn keeps_field(wanted: Option<Seq<Seq<char>>>, unwanted: Option<Seq<Seq<char>>>, k: Seq<char>) -> bool {
    match wanted {
        Some(inc) => inc.contains(k),
        None => match unwanted {
            Some(exc) => !exc.contains(k),
            None => true,
        },
    }
}

/// Filtering law: with names to keep, a field is kept exactly when its name
/// is one of them, wherever it stands, and names to drop are then not
/// consulted; with only names to drop, a field is kept exactly when its name
/// is none of them; with neither, every field is kept.
pub proof fn lemma_keeps_field(wanted: Option<Seq<Seq<char>>>, unwanted: Option<Seq<Seq<char>>>, k: Seq<char>)
    ensures
        wanted matches Some(inc) ==> (keeps_field(wanted, unwanted, k) <==> exists|i: int| 0 <= i < inc.len() && inc[i] == k),
        (wanted is None && unwanted is Some) ==> (keeps_field(wanted, unwanted, k)
            <==> forall|i: int| 0 <= i < unwanted->0.len() ==> unwanted->0[i] != k),
        (wanted is None && unwanted is None) ==> keeps_field(wanted, unwanted, k),
{
}

/// Views of an optional list of strings.
pub open spec fn opt_views(v: Option<Vec<String>>) -> Option<Seq<Seq<char>>> {
    match v {
        Some(x) => Some(views(x@)),
        None => None,
    }
}

impl FieldFilterTransform {
    /// A filter keeping the `include_fields` when given, else dropping the `exclude_fields`.
    pub fn new(include_fields: Option<Vec<String>>, exclude_fields: Option<Vec<String>>) -> (r: Self)
        ensures
            r.includes() == opt_views(include_fields),
            r.excludes() == opt_views(exclude_fields),
    {
        FieldFilterTransform { include_fields, exclude_fields }
    }

    /// The names to keep, if given.
    pub closed spec fn includes(&self) -> Option<Seq<Seq<char>>> {
        opt_views(self.include_fields)
    }

    /// The names to drop, if given.
    pub closed spec fn excludes(&self) -> Option<Seq<Seq<char>>> {
        opt_views(self.exclude_fields)
    }

    /// The transformation's name.
    pub fn name(&self) -> (r: String)
        ensures
            r@ == "field_filter"@,
    {
        owned("field_filter")
    }

    /// Whether the field `k` is kept.
    pub fn keeps(&self, k: &String) -> (r: bool)
        ensures
            r == keeps_field(self.includes(), self.excludes(), k@),
    {
        match &self.include_fields {
            Some(inc) => contains_string(inc, k),
            None => match &self.exclude_fields {
                Some(exc) => !contains_string(exc, k),
                None => true,
            },
        }
    }

    fn filter_record(&self, rec: DataRecord) -> (r: DataRecord)
        ensures
            r.id == rec.id,
            r.metadata == rec.metadata,
            param_views(r.fields@) == param_views(rec.fields@).restrict(
                Set::new(|k: Seq<char>| keeps_field(self.includes(), self.excludes(), k)),
            ),
    {
        let DataRecord { id, fields, metadata } = rec;
        let ghost ko = fields.key_order();
        let ghost fv = param_views(fields@);
        let ghost keep = Set::new(|k: Seq<char>| keeps_field(self.includes(), self.excludes(), k));
        let n = fields.len();
        let mut out: StrMap<JsonValue> = StrMap::new();
        let mut i: usize = 0;
        proof {
            fields.lemma_key_order();
            assert(ko.take(0) =~= Seq::<Seq<char>>::empty());
            assert(param_views(out@) =~= Map::new(
                |k: Seq<char>| fv.dom().contains(k) && keep.contains(k) && ko.take(0).contains(k),
                |k: Seq<char>| fv[k],
            ));
        }
        while i < n
            invariant
                i <= n,
                n == ko.len(),
                ko == fields.key_order(),
                fv == param_views(fields@),
                keep == Set::new(|k: Seq<char>| keeps_field(self.includes(), self.excludes(), k)),
                forall|k: Seq<char>| #[trigger] fields@.dom().contains(k) <==> ko.contains(k),
                param_views(out@) == Map::new(
                    |k: Seq<char>| fv.dom().contains(k) && keep.contains(k) && ko.take(i as int).contains(k),
                    |k: Seq<char>| fv[k],
                ),
            decreases n - i,
        {
            let (k, v) = fields.entry_at(i);
            let ghost kv = k@;
            let ghost ta = ko.take(i as int);
            let ghost tb = ko.take(i + 1);
            proof {
                assert(ko[i as int] == kv);
                assert(ko.contains(kv));
                assert forall|q: Seq<char>| tb.contains(q) <==> (ta.contains(q) || q == kv) by {
                    if tb.contains(q) {
                        let j = choose|j: int| 0 <= j < tb.len() && tb[j] == q;
                        if j < i {
                            assert(ta[j] == q);
                        }
                    }
                    if ta.contains(q) {
                        let j = choose|j: int| 0 <= j < ta.len() && ta[j] == q;
                        assert(tb[j] == q);
                    }
                    if q == kv {
                        assert(tb[i as int] == q);
                    }
                }
            }
            if self.keeps(k) {
                let key = copy_string(k);
                let val = v.duplicate();
                assert(fv[kv] == val.view());
                assert(fv.dom().contains(kv));
                proof { lemma_param_views_insert(out@, key@, val); }
                out.insert(key, val);
                proof {
                    assert(param_views(out@) =~= Map::new(
                        |q: Seq<char>| fv.dom().contains(q) && keep.contains(q) && tb.contains(q),
                        |q: Seq<char>| fv[q],
                    ));
                }
            } else {
                proof {
                    assert(!keep.contains(kv));
                    assert(param_views(out@) =~= Map::new(
                        |q: Seq<char>| fv.dom().contains(q) && keep.contains(q) && tb.contains(q),
                        |q: Seq<char>| fv[q],
                    ));
                }
            }
            i = i + 1;
        }
        proof {
            assert(ko.take(n as int) =~= ko);
            assert(param_views(out@) =~= fv.restrict(keep));
        }
        DataRecord { id, fields: out, metadata }
    }

    /// Keeps the chosen fields of every record, keeping identifiers and metadata.
    pub fn transform(&self, records: Vec<DataRecord>) -> (r: Result<Vec<DataRecord>, DataSourceError>)
        ensures
            r matches Ok(v) && (v@.len() == records@.len()) && (forall|i: int| 0 <= i < v@.len() ==> {
                &&& (#[trigger] v@[i]).id == records@[i].id
                &&& v@[i].metadata == records@[i].metadata
                &&& param_views(v@[i].fields@) == param_views(records@[i].fields@).restrict(
                    Set::new(|k: Seq<char>| keeps_field(self.includes(), self.excludes(), k)),
                )
            }),
    {
        Ok(self.apply_each(records))
    }

    fn apply_each(&self, records: Vec<DataRecord>) -> (r: Vec<DataRecord>)
        ensures
            r@.len() == records@.len(),
            forall|i: int| 0 <= i < r@.len() ==> {
                &&& (#[trigger] r@[i]).id == records@[i].id
                &&& r@[i].metadata == records@[i].metadata
                &&& param_views(r@[i].fields@) == param_views(records@[i].fields@).restrict(
                    Set::new(|k: Seq<char>| keeps_field(self.includes(), self.excludes(), k)),
                )
            },
    {
        let ghost orig = records@;
        let mut rest = records;
        let mut out: Vec<DataRecord> = Vec::new();
        while rest.len() > 0
            invariant
                out@.len() + rest@.len() == orig.len(),
                rest@ == orig.subrange(out@.len() as int, orig.len() as int),
                forall|i: int| 0 <= i < out@.len() ==> {
                    &&& (#[trigger] out@[i]).id == orig[i].id
                    &&& out@[i].metadata == orig[i].metadata
                    &&& param_views(out@[i].fields@) == param_views(orig[i].fields@).restrict(
                        Set::new(|k: Seq<char>| keeps_field(self.includes(), self.excludes(), k)),
                    )
                },
            decreases rest@.len(),
        {
            let ghost k = out@.len() as int;
            let rec = rest.remove(0);
            assert(rec == orig[k]);
            let m = self.filter_record(rec);
            out.push(m);
            assert(rest@ =~= orig.subrange(k + 1, orig.len() as int));
        }
        out
    }
}

/// Type conversion transformation: converts fields to data types.
pub struct TypeConversionTransform {
    conversions: StrMap<DataType>,
}

impl TypeConversionTransform {
    /// A transformation converting each named field to its data type.
    pub fn new(conversions: StrMap<DataType>) -> (r: Self)
        ensures
            r.conversion_map() == conversions@,
    {
        TypeConversionTransform { conversions }
    }

    /// The conversions, by field name.
    pub closed spec fn conversion_map(&self) -> Map<Seq<char>, DataType> {
        self.conversions@
    }

    /// The field names and their types, in order.
    pub fn entries(&self) -> (r: Vec<(String, DataType)>)
        ensures
            r@.len() == self.conversion_map().dom().len(),
            forall|i: int| 0 <= i < r@.len() ==> self.conversion_map().dom().contains((#[trigger] r@[i]).0@)
                && self.conversion_map()[r@[i].0@] == r@[i].1,
    {
        let n = self.conversions.len();
        let mut out: Vec<(String, DataType)> = Vec::new();
        let mut i: usize = 0;
        while i < n
            invariant
                i <= n,
                n == self.conversions.key_order().len(),
                n == self.conversion_map().dom().len(),
                out@.len() == i,
                forall|j: int| 0 <= j < i ==> self.conversion_map().dom().contains((#[trigger] out@[j]).0@)
                    && self.conversion_map()[out@[j].0@] == out@[j].1,
            decreases n - i,
        {
            let (k, t) = self.conversions.entry_at(i);
            proof {
                self.conversions.lemma_key_order();
                assert(self.conversions.key_order().contains(k@));
            }
            out.push((copy_string(k), *t));
            i = i + 1;
        }
        out
    }
}
} // verus!
