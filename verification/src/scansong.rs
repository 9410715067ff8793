//! The scan table: one row per segment, keyed by the track's URL, the
//! track's fingerprint repeated on every row.

use vstd::prelude::*;
use vstd::utf8::encode_utf8;
use crate::fingerprint::Fingerprint;
use crate::gated::SongWindows;
use crate::hex::decode_hex;
use crate::text::{
    decimal_of, fields_of, lemma_fields_nonempty, lossy_text, natural_of, parse_decimal,
    parse_natural, range_is, span, split_ranges, text_of, trim_of, trim_range,
};

verus! {

/// The columns that are read.
#[derive(Clone, Copy, Debug, PartialEq, Eq, Structural)]
pub enum Column {
    Url,
    StartS,
    EndS,
    FpType,
    FpBands,
    FpHopS,
    FpOffsetS,
    FpBinsHex,
}

/// Why a table cannot be read.
#[derive(Clone, Copy, Debug, PartialEq, Eq, Structural)]
pub enum TableError {
    /// The table has no header line.
    Empty,
    /// The header does not name this column.
    MissingColumn(Column),
}

/// Where the columns stand in a row.
#[derive(Clone, Copy, Debug, PartialEq, Eq, Structural)]
pub struct Columns {
    pub url: usize,
    pub start_s: usize,
    pub end_s: usize,
    pub fp_type: usize,
    pub fp_bands: usize,
    pub fp_hop_s: usize,
    pub fp_offset_s: usize,
    pub fp_bins_hex: usize,
}

/// The name of a column in the header.
pub open spec fn column_name(c: Column) -> Seq<u8> {
    match c {
        Column::Url => encode_utf8("url"@),
        Column::StartS => encode_utf8("start_s"@),
        Column::EndS => encode_utf8("end_s"@),
        Column::FpType => encode_utf8("fp_type"@),
        Column::FpBands => encode_utf8("fp_bands"@),
        Column::FpHopS => encode_utf8("fp_hop_s"@),
        Column::FpOffsetS => encode_utf8("fp_offset_s"@),
        Column::FpBinsHex => encode_utf8("fp_bins_hex"@),
    }
}

fn column_text(c: Column) -> (name: &'static str)
    ensures
        encode_utf8(name@) == column_name(c),
{
    match c {
        Column::Url => "url",
        Column::StartS => "start_s",
        Column::EndS => "end_s",
        Column::FpType => "fp_type",
        Column::FpBands => "fp_bands",
        Column::FpHopS => "fp_hop_s",
        Column::FpOffsetS => "fp_offset_s",
        Column::FpBinsHex => "fp_bins_hex",
    }
}

/// The cell `c` of a row cut into `parts`, without the white space around
/// it; empty where the row has no such cell.
pub open spec fn cell(parts: Seq<Seq<u8>>, c: int) -> Seq<u8> {
    if 0 <= c < parts.len() {
        trim_of(parts[c])
    } else {
        Seq::empty()
    }
}

/// First cell among the first `n` of the header that holds `name`.
pub open spec fn find_in(header: Seq<Seq<u8>>, name: Seq<u8>, n: int) -> Option<int>
    decreases n,
{
    if n <= 0 {
        None
    } else {
        match find_in(header, name, n - 1) {
            Some(c) => Some(c),
            None => if cell(header, n - 1) == name {
                Some(n - 1)
            } else {
                None
            },
        }
    }
}

/// Where the header line names `c`.
pub open spec fn column_at(header: Seq<u8>, c: Column) -> Option<int> {
    let parts = fields_of(header, 44);
    find_in(parts, column_name(c), parts.len() as int)
}

/// The ranges of a row's cells, cut and trimmed, are those of `line`.
pub open spec fn cells_of(s: Seq<u8>, cells: Seq<(usize, usize)>, line: Seq<u8>) -> bool {
    &&& cells.len() == fields_of(line, 44).len()
    &&& forall|k: int|
        0 <= k < cells.len() ==> (#[trigger] cells[k]).0 <= cells[k].1 <= s.len() && span(
            s,
            cells[k],
        ) == cell(fields_of(line, 44), k)
}

/// Cuts the line `s[at.0..at.1]` into cells and trims them.
fn cut_cells(s: &[u8], at: (usize, usize)) -> (cells: Vec<(usize, usize)>)
    requires
        at.0 <= at.1 <= s@.len(),
    ensures
        cells_of(s@, cells@, span(s@, at)),
{
    let raw = split_ranges(s, at.0, at.1, 44);
    let ghost parts = fields_of(span(s@, at), 44);
    let mut cells: Vec<(usize, usize)> = Vec::new();
    let mut k: usize = 0;
    while k < raw.len()
        invariant
            k <= raw@.len(),
            at.1 <= s@.len(),
            raw@.len() == parts.len(),
            forall|j: int|
                0 <= j < raw@.len() ==> at.0 <= (#[trigger] raw@[j]).0 <= raw@[j].1 <= at.1 && span(
                    s@,
                    raw@[j],
                ) == parts[j],
            cells@.len() == k,
            forall|j: int|
                0 <= j < k ==> (#[trigger] cells@[j]).0 <= cells@[j].1 <= s@.len() && span(
                    s@,
                    cells@[j],
                ) == cell(parts, j),
        decreases raw@.len() - k,
    {
        let r = raw[k];
        cells.push(trim_range(s, r.0, r.1));
        k += 1;
    }
    cells
}

fn find_column(s: &[u8], cells: &Vec<(usize, usize)>, c: Column, Ghost(header): Ghost<Seq<u8>>) -> (at:
    Option<usize>)
    requires
        cells_of(s@, cells@, header),
    ensures
        at is Some <==> column_at(header, c) is Some,
        at matches Some(i) ==> column_at(header, c) == Some(i as int),
{
    let name = column_text(c).as_bytes();
    let ghost parts = fields_of(header, 44);
    let mut k: usize = 0;
    while k < cells.len()
        invariant
            k <= cells@.len(),
            cells_of(s@, cells@, header),
            parts == fields_of(header, 44),
            name@ == column_name(c),
            find_in(parts, column_name(c), k as int) is None,
        decreases cells@.len() - k,
    {
        if range_is(s, cells[k], name) {
            proof {
                lemma_found_stays(parts, column_name(c), k as int, parts.len() as int);
            }
            return Some(k);
        }
        k += 1;
    }
    None
}

proof fn lemma_found_stays(header: Seq<Seq<u8>>, name: Seq<u8>, k: int, n: int)
    requires
        0 <= k < n,
        find_in(header, name, k) is None,
        cell(header, k) == name,
    ensures
        find_in(header, name, n) == Some(k),
    decreases n,
{
    if n > k + 1 {
        lemma_found_stays(header, name, k, n - 1);
    }
}

/// The columns that the header names, or the first one that it lacks.
pub open spec fn columns_of(header: Seq<u8>) -> Result<Columns, TableError> {
    if column_at(header, Column::Url) is None {
        Err(TableError::MissingColumn(Column::Url))
    } else if column_at(header, Column::StartS) is None {
        Err(TableError::MissingColumn(Column::StartS))
    } else if column_at(header, Column::EndS) is None {
        Err(TableError::MissingColumn(Column::EndS))
    } else if column_at(header, Column::FpType) is None {
        Err(TableError::MissingColumn(Column::FpType))
    } else if column_at(header, Column::FpBands) is None {
        Err(TableError::MissingColumn(Column::FpBands))
    } else if column_at(header, Column::FpHopS) is None {
        Err(TableError::MissingColumn(Column::FpHopS))
    } else if column_at(header, Column::FpOffsetS) is None {
        Err(TableError::MissingColumn(Column::FpOffsetS))
    } else if column_at(header, Column::FpBinsHex) is None {
        Err(TableError::MissingColumn(Column::FpBinsHex))
    } else {
        Ok(
            Columns {
                url: column_at(header, Column::Url)->0 as usize,
                start_s: column_at(header, Column::StartS)->0 as usize,
                end_s: column_at(header, Column::EndS)->0 as usize,
                fp_type: column_at(header, Column::FpType)->0 as usize,
                fp_bands: column_at(header, Column::FpBands)->0 as usize,
                fp_hop_s: column_at(header, Column::FpHopS)->0 as usize,
                fp_offset_s: column_at(header, Column::FpOffsetS)->0 as usize,
                fp_bins_hex: column_at(header, Column::FpBinsHex)->0 as usize,
            },
        )
    }
}

/// Reads the header line `s[at.0..at.1]`.
fn read_header(s: &[u8], at: (usize, usize)) -> (cols: Result<Columns, TableError>)
    requires
        at.0 <= at.1 <= s@.len(),
    ensures
        cols == columns_of(span(s@, at)),
{
    let cells = cut_cells(s, at);
    let ghost header = span(s@, at);
    let url = match find_column(s, &cells, Column::Url, Ghost(header)) {
        Some(c) => c,
        None => {
            return Err(TableError::MissingColumn(Column::Url));
        },
    };
    let start_s = match find_column(s, &cells, Column::StartS, Ghost(header)) {
        Some(c) => c,
        None => {
            return Err(TableError::MissingColumn(Column::StartS));
        },
    };
    let end_s = match find_column(s, &cells, Column::EndS, Ghost(header)) {
        Some(c) => c,
        None => {
            return Err(TableError::MissingColumn(Column::EndS));
        },
    };
    let fp_type = match find_column(s, &cells, Column::FpType, Ghost(header)) {
        Some(c) => c,
        None => {
            return Err(TableError::MissingColumn(Column::FpType));
        },
    };
    let fp_bands = match find_column(s, &cells, Column::FpBands, Ghost(header)) {
        Some(c) => c,
        None => {
            return Err(TableError::MissingColumn(Column::FpBands));
        },
    };
    let fp_hop_s = match find_column(s, &cells, Column::FpHopS, Ghost(header)) {
        Some(c) => c,
        None => {
            return Err(TableError::MissingColumn(Column::FpHopS));
        },
    };
    let fp_offset_s = match find_column(s, &cells, Column::FpOffsetS, Ghost(header)) {
        Some(c) => c,
        None => {
            return Err(TableError::MissingColumn(Column::FpOffsetS));
        },
    };
    let fp_bins_hex = match find_column(s, &cells, Column::FpBinsHex, Ghost(header)) {
        Some(c) => c,
        None => {
            return Err(TableError::MissingColumn(Column::FpBinsHex));
        },
    };
    Ok(Columns { url, start_s, end_s, fp_type, fp_bands, fp_hop_s, fp_offset_s, fp_bins_hex })
}

/// A number read from a cell in units of `10^-d`; zero where the cell does
/// not hold one or it is above `max`.
pub open spec fn number_or_zero(s: Seq<u8>, d: nat, max: int) -> int {
    match decimal_of(s, d) {
        Some(v) => if v <= max {
            v
        } else {
            0
        },
        None => 0,
    }
}

/// What a row says of the track's fingerprint.
pub struct FpRecord {
    pub fp_type: Seq<u8>,
    pub bands: int,
    pub hop_us: int,
    pub offset_ms: int,
    pub bins: Seq<u8>,
}

/// What a row says: the track, one segment in milliseconds, and the
/// fingerprint where the row holds a usable one.
pub struct Record {
    pub url: Seq<u8>,
    pub seg: (u32, u32),
    pub fp: Option<FpRecord>,
}

/// The fingerprint of a row: usable when it has a type, a positive band
/// count, a positive hop and bins in hexadecimal.
pub open spec fn fp_record_of(parts: Seq<Seq<u8>>, cols: Columns) -> Option<FpRecord> {
    let fp_type = cell(parts, cols.fp_type as int);
    let bands = match natural_of(cell(parts, cols.fp_bands as int)) {
        Some(v) => if v <= usize::MAX {
            v
        } else {
            0
        },
        None => 0,
    };
    let hop_us = number_or_zero(cell(parts, cols.fp_hop_s as int), 6, u32::MAX as int);
    let offset_ms = number_or_zero(cell(parts, cols.fp_offset_s as int), 3, u32::MAX as int);
    let hex = cell(parts, cols.fp_bins_hex as int);
    if fp_type.len() > 0 && bands > 0 && hop_us > 0 && hex.len() > 0 && decode_hex(hex) is Some {
        Some(FpRecord { fp_type, bands, hop_us, offset_ms, bins: decode_hex(hex)->0 })
    } else {
        None
    }
}

/// What a line says; nothing for a blank line, a line that stops before the
/// end column, or one without a URL.
pub open spec fn record_of(line: Seq<u8>, cols: Columns) -> Option<Record> {
    let parts = fields_of(line, 44);
    let url = cell(parts, cols.url as int);
    if trim_of(line).len() == 0 || parts.len() <= cols.end_s || url.len() == 0 {
        None
    } else {
        Some(
            Record {
                url,
                seg: (
                    number_or_zero(cell(parts, cols.start_s as int), 3, u32::MAX as int) as u32,
                    number_or_zero(cell(parts, cols.end_s as int), 3, u32::MAX as int) as u32,
                ),
                fp: fp_record_of(parts, cols),
            },
        )
    }
}

/// The fingerprint is the one that the record describes.
pub open spec fn fp_matches(fp: Fingerprint, r: FpRecord) -> bool {
    &&& fp.fp_type@ == lossy_text(r.fp_type)
    &&& fp.bands == r.bands
    &&& fp.hop_us == r.hop_us
    &&& fp.offset_ms == r.offset_ms
    &&& fp.bins@ == r.bins
}

fn cell_range(cells: &Vec<(usize, usize)>, c: usize, Ghost(s): Ghost<Seq<u8>>, Ghost(line): Ghost<
    Seq<u8>,
>) -> (at: (usize, usize))
    requires
        cells_of(s, cells@, line),
    ensures
        at.0 <= at.1 <= s.len(),
        span(s, at) == cell(fields_of(line, 44), c as int),
{
    if c < cells.len() {
        cells[c]
    } else {
        assert(s.subrange(0, 0) =~= Seq::<u8>::empty());
        (0, 0)
    }
}

fn read_number(s: &[u8], at: (usize, usize), d: u8) -> (v: u32)
    requires
        at.0 <= at.1 <= s@.len(),
        d <= 9,
    ensures
        v == number_or_zero(span(s@, at), d as nat, u32::MAX as int),
{
    match parse_decimal(s, at.0, at.1, d) {
        Some(v) => if v <= u32::MAX as u64 {
            v as u32
        } else {
            0
        },
        None => 0,
    }
}

fn read_fingerprint(s: &[u8], cells: &Vec<(usize, usize)>, cols: &Columns, Ghost(line): Ghost<
    Seq<u8>,
>) -> (fp: Option<Fingerprint>)
    requires
        cells_of(s@, cells@, line),
    ensures
        fp is Some <==> fp_record_of(fields_of(line, 44), *cols) is Some,
        fp matches Some(f) ==> fp_matches(f, fp_record_of(fields_of(line, 44), *cols)->0),
{
    let kind = cell_range(cells, cols.fp_type, Ghost(s@), Ghost(line));
    let bands_at = cell_range(cells, cols.fp_bands, Ghost(s@), Ghost(line));
    let hop_at = cell_range(cells, cols.fp_hop_s, Ghost(s@), Ghost(line));
    let offset_at = cell_range(cells, cols.fp_offset_s, Ghost(s@), Ghost(line));
    let hex_at = cell_range(cells, cols.fp_bins_hex, Ghost(s@), Ghost(line));
    let bands: usize = match parse_natural(s, bands_at.0, bands_at.1) {
        Some(v) => if v <= usize::MAX as u64 {
            v as usize
        } else {
            0
        },
        None => 0,
    };
    let hop_us = read_number(s, hop_at, 6);
    let offset_ms = read_number(s, offset_at, 3);
    if kind.1 - kind.0 == 0 || bands == 0 || hop_us == 0 || hex_at.1 - hex_at.0 == 0 {
        return None;
    }
    match bytes_from_hex(s, hex_at) {
        Some(bins) => Some(
            Fingerprint { fp_type: text_of(s, kind), bands, hop_us, offset_ms, bins },
        ),
        None => None,
    }
}

/// Reads the hexadecimal digits `s[at.0..at.1]`.
fn bytes_from_hex(s: &[u8], at: (usize, usize)) -> (bytes: Option<Vec<u8>>)
    requires
        at.0 <= at.1 <= s@.len(),
    ensures
        bytes is Some <==> decode_hex(span(s@, at)) is Some,
        bytes matches Some(v) ==> decode_hex(span(s@, at)) == Some(v@),
{
    crate::hex::decode(vstd::slice::slice_subrange(s, at.0, at.1))
}

/// `a` comes before `b` in the order of their bytes.
pub open spec fn lex_less(a: Seq<u8>, b: Seq<u8>) -> bool
    decreases a.len(),
{
    if b.len() == 0 {
        false
    } else if a.len() == 0 {
        true
    } else if a[0] != b[0] {
        a[0] < b[0]
    } else {
        lex_less(a.subrange(1, a.len() as int), b.subrange(1, b.len() as int))
    }
}

fn range_less(s: &[u8], a: (usize, usize), b: (usize, usize)) -> (less: bool)
    requires
        a.0 <= a.1 <= s@.len(),
        b.0 <= b.1 <= s@.len(),
    ensures
        less == lex_less(span(s@, a), span(s@, b)),
{
    let mut i: usize = 0;
    loop
        invariant
            a.0 + i <= a.1 <= s@.len(),
            b.0 + i <= b.1 <= s@.len(),
            lex_less(span(s@, a), span(s@, b)) == lex_less(
                s@.subrange(a.0 + i, a.1 as int),
                s@.subrange(b.0 + i, b.1 as int),
            ),
        decreases a.1 - a.0 - i,
    {
        let ghost x = s@.subrange(a.0 + i, a.1 as int);
        let ghost y = s@.subrange(b.0 + i, b.1 as int);
        if b.0 + i == b.1 {
            return false;
        }
        if a.0 + i == a.1 {
            return true;
        }
        assert(x[0] == s@[a.0 + i] && y[0] == s@[b.0 + i]);
        if s[a.0 + i] != s[b.0 + i] {
            return s[a.0 + i] < s[b.0 + i];
        }
        assert(x.subrange(1, x.len() as int) =~= s@.subrange(a.0 + i + 1, a.1 as int));
        assert(y.subrange(1, y.len() as int) =~= s@.subrange(b.0 + i + 1, b.1 as int));
        i += 1;
    }
}

fn range_same(s: &[u8], a: (usize, usize), b: (usize, usize)) -> (same: bool)
    requires
        a.0 <= a.1 <= s@.len(),
        b.0 <= b.1 <= s@.len(),
    ensures
        same == (span(s@, a) == span(s@, b)),
{
    range_is(s, a, vstd::slice::slice_subrange(s, b.0, b.1))
}

/// The segments with one more put in its place: behind the last one that
/// starts no later.
pub open spec fn placed(sorted: Seq<(u32, u32)>, x: (u32, u32)) -> Seq<(u32, u32)>
    decreases sorted.len(),
{
    if sorted.len() == 0 {
        seq![x]
    } else if sorted.last().0 <= x.0 {
        sorted.push(x)
    } else {
        placed(sorted.drop_last(), x).push(sorted.last())
    }
}

/// The segments in ascending order of their starts; segments that start
/// together stay in the order in which they came.
pub open spec fn by_start(segs: Seq<(u32, u32)>) -> Seq<(u32, u32)>
    decreases segs.len(),
{
    if segs.len() == 0 {
        Seq::empty()
    } else {
        placed(by_start(segs.drop_last()), segs.last())
    }
}

/// No segment starts before the one in front of it.
pub open spec fn ascending(segs: Seq<(u32, u32)>) -> bool {
    forall|i: int, j: int| 0 <= i < j < segs.len() ==> segs[i].0 <= segs[j].0
}

proof fn lemma_placed_at(sorted: Seq<(u32, u32)>, x: (u32, u32), p: int)
    requires
        0 <= p <= sorted.len(),
        forall|j: int| p <= j < sorted.len() ==> (#[trigger] sorted[j]).0 > x.0,
        p > 0 ==> sorted[p - 1].0 <= x.0,
    ensures
        placed(sorted, x) == sorted.insert(p, x),
    decreases sorted.len(),
{
    if sorted.len() == 0 {
        assert(sorted.insert(p, x) =~= seq![x]);
    } else if p == sorted.len() {
        assert(sorted.insert(p, x) =~= sorted.push(x));
    } else {
        lemma_placed_at(sorted.drop_last(), x, p);
        assert(sorted.insert(p, x) =~= sorted.drop_last().insert(p, x).push(sorted.last()));
    }
}

/// Putting a segment in its place keeps the order and loses nothing.
pub proof fn lemma_placed_ascending(sorted: Seq<(u32, u32)>, x: (u32, u32))
    requires
        ascending(sorted),
    ensures
        ascending(placed(sorted, x)),
        placed(sorted, x).len() == sorted.len() + 1,
        placed(sorted, x).to_multiset() == sorted.to_multiset().insert(x),
    decreases sorted.len(),
{
    broadcast use vstd::seq_lib::group_to_multiset_ensures;

    if sorted.len() == 0 {
        assert(sorted =~= Seq::empty());
        assert(seq![x] =~= Seq::<(u32, u32)>::empty().push(x));
    } else if sorted.last().0 <= x.0 {
    } else {
        let init = sorted.drop_last();
        assert(ascending(init));
        lemma_placed_ascending(init, x);
        let q = placed(init, x);
        let out = q.push(sorted.last());
        assert(init.push(sorted.last()) =~= sorted);
        assert forall|i: int, j: int| 0 <= i < j < out.len() implies out[i].0 <= out[j].0 by {
            if j == out.len() - 1 {
                // Everything in `q` is the new segment or one of `init`.
                assert(q.to_multiset().count(q[i]) > 0);
                if q[i] != x {
                    assert(init.to_multiset().count(q[i]) > 0);
                    let k = choose|k: int| 0 <= k < init.len() && init[k] == q[i];
                    assert(sorted[k] == init[k]);
                }
            }
        }
    }
}

/// Sorting by start gives an ascending sequence of the same segments.
pub proof fn lemma_by_start(segs: Seq<(u32, u32)>)
    ensures
        ascending(by_start(segs)),
        by_start(segs).len() == segs.len(),
        by_start(segs).to_multiset() == segs.to_multiset(),
    decreases segs.len(),
{
    broadcast use vstd::seq_lib::group_to_multiset_ensures;

    if segs.len() > 0 {
        lemma_by_start(segs.drop_last());
        lemma_placed_ascending(by_start(segs.drop_last()), segs.last());
        assert(segs.drop_last().push(segs.last()) =~= segs);
    }
}

fn sort_segments(segs: &Vec<(u32, u32)>) -> (out: Vec<(u32, u32)>)
    ensures
        out@ == by_start(segs@),
{
    let mut out: Vec<(u32, u32)> = Vec::new();
    let mut i: usize = 0;
    while i < segs.len()
        invariant
            i <= segs@.len(),
            out@ == by_start(segs@.take(i as int)),
            out@.len() == i,
        decreases segs@.len() - i,
    {
        let x = segs[i];
        let mut p: usize = out.len();
        while p > 0 && out[p - 1].0 > x.0
            invariant
                p <= out@.len(),
                forall|j: int| p <= j < out@.len() ==> (#[trigger] out@[j]).0 > x.0,
            decreases p,
        {
            p -= 1;
        }
        proof {
            lemma_placed_at(out@, x, p as int);
            assert(segs@.take(i + 1).drop_last() =~= segs@.take(i as int));
            assert(segs@.take(i + 1).last() == x);
        }
        out.insert(p, x);
        i += 1;
    }
    assert(segs@.take(segs@.len() as int) =~= segs@);
    out
}

/// What the table says of one track.
pub struct GroupModel {
    pub url: Seq<u8>,
    pub segs: Seq<(u32, u32)>,
    pub fp: Option<FpRecord>,
}

/// Where a track of this URL stands among the groups from `from` on, which
/// are in the order of their URLs.
pub open spec fn slot_from(groups: Seq<GroupModel>, url: Seq<u8>, from: int) -> int
    decreases groups.len() - from,
{
    if from < 0 || from >= groups.len() {
        groups.len() as int
    } else if lex_less(groups[from].url, url) {
        slot_from(groups, url, from + 1)
    } else {
        from
    }
}

/// The groups after one more record: its segment joins the group of its
/// track, which takes the record's fingerprint if it has none yet; the
/// first record of a track opens a group at the track's place.
pub open spec fn added(groups: Seq<GroupModel>, r: Record) -> Seq<GroupModel> {
    let i = slot_from(groups, r.url, 0);
    if i < groups.len() && groups[i].url == r.url {
        groups.update(
            i,
            GroupModel {
                url: r.url,
                segs: groups[i].segs.push(r.seg),
                fp: if groups[i].fp is Some {
                    groups[i].fp
                } else {
                    r.fp
                },
            },
        )
    } else {
        groups.insert(i, GroupModel { url: r.url, segs: seq![r.seg], fp: r.fp })
    }
}

/// The groups after one more line, which adds a record or nothing.
pub open spec fn with_line(groups: Seq<GroupModel>, line: Seq<u8>, cols: Columns) -> Seq<
    GroupModel,
> {
    match record_of(line, cols) {
        Some(r) => added(groups, r),
        None => groups,
    }
}

/// The groups that the lines `1..n` make.
pub open spec fn grouped_upto(lines: Seq<Seq<u8>>, cols: Columns, n: int) -> Seq<GroupModel>
    decreases n,
{
    if n <= 1 {
        Seq::empty()
    } else {
        with_line(grouped_upto(lines, cols, n - 1), lines[n - 1], cols)
    }
}

/// Those of the first `n` groups that have a fingerprint.
pub open spec fn with_fingerprint(groups: Seq<GroupModel>, n: int) -> Seq<GroupModel>
    decreases n,
{
    if n <= 0 {
        Seq::empty()
    } else if groups[n - 1].fp is Some {
        with_fingerprint(groups, n - 1).push(groups[n - 1])
    } else {
        with_fingerprint(groups, n - 1)
    }
}

/// No text comes before itself.
pub proof fn lemma_lex_irreflexive(a: Seq<u8>)
    ensures
        !lex_less(a, a),
    decreases a.len(),
{
    if a.len() > 0 {
        lemma_lex_irreflexive(a.subrange(1, a.len() as int));
    }
}

/// What comes before something that comes before a third comes before the
/// third.
pub proof fn lemma_lex_transitive(a: Seq<u8>, b: Seq<u8>, c: Seq<u8>)
    requires
        lex_less(a, b),
        lex_less(b, c),
    ensures
        lex_less(a, c),
    decreases a.len(),
{
    if a.len() > 0 && b.len() > 0 && c.len() > 0 && a[0] == b[0] && b[0] == c[0] {
        lemma_lex_transitive(
            a.subrange(1, a.len() as int),
            b.subrange(1, b.len() as int),
            c.subrange(1, c.len() as int),
        );
    }
}

/// Of two different texts one comes before the other.
pub proof fn lemma_lex_total(a: Seq<u8>, b: Seq<u8>)
    requires
        a != b,
    ensures
        lex_less(a, b) || lex_less(b, a),
    decreases a.len(),
{
    if a.len() > 0 && b.len() > 0 && a[0] == b[0] {
        let ra = a.subrange(1, a.len() as int);
        let rb = b.subrange(1, b.len() as int);
        if ra == rb {
            assert(a =~= seq![a[0]] + ra);
            assert(b =~= seq![b[0]] + rb);
        }
        lemma_lex_total(ra, rb);
    } else if a.len() == 0 && b.len() == 0 {
        assert(a =~= b);
    }
}

/// The groups stand in the order of their URLs, each URL once.
pub open spec fn url_ordered(groups: Seq<GroupModel>) -> bool {
    forall|i: int, j: int|
        0 <= i < j < groups.len() ==> lex_less(
            (#[trigger] groups[i]).url,
            (#[trigger] groups[j]).url,
        )
}

proof fn lemma_slot(groups: Seq<GroupModel>, url: Seq<u8>, from: int)
    requires
        0 <= from <= groups.len(),
    ensures
        from <= slot_from(groups, url, from) <= groups.len(),
        forall|j: int|
            from <= j < slot_from(groups, url, from) ==> lex_less((#[trigger] groups[j]).url, url),
        slot_from(groups, url, from) < groups.len() ==> !lex_less(
            groups[slot_from(groups, url, from)].url,
            url,
        ),
    decreases groups.len() - from,
{
    if from < groups.len() && lex_less(groups[from].url, url) {
        lemma_slot(groups, url, from + 1);
    }
}

/// A record finds or takes its place among ordered groups without
/// disturbing their order.
pub proof fn lemma_added_ordered(groups: Seq<GroupModel>, r: Record)
    requires
        url_ordered(groups),
    ensures
        url_ordered(added(groups, r)),
{
    let i = slot_from(groups, r.url, 0);
    lemma_slot(groups, r.url, 0);
    let out = added(groups, r);
    if i < groups.len() && groups[i].url == r.url {
        assert forall|a: int, b: int| 0 <= a < b < out.len() implies lex_less(
            (#[trigger] out[a]).url,
            (#[trigger] out[b]).url,
        ) by {
            assert(out[a].url == groups[a].url);
            assert(out[b].url == groups[b].url);
        }
    } else {
        if i < groups.len() {
            lemma_lex_total(groups[i].url, r.url);
        }
        assert forall|a: int, b: int| 0 <= a < b < out.len() implies lex_less(
            (#[trigger] out[a]).url,
            (#[trigger] out[b]).url,
        ) by {
            if b < i {
                assert(out[a] == groups[a] && out[b] == groups[b]);
            } else if b == i {
                assert(out[a] == groups[a]);
            } else if a < i {
                assert(out[a] == groups[a] && out[b] == groups[b - 1]);
            } else if a == i {
                assert(out[b] == groups[b - 1]);
                if b - 1 > i {
                    lemma_lex_transitive(r.url, groups[i].url, groups[b - 1].url);
                }
            } else {
                assert(out[a] == groups[a - 1] && out[b] == groups[b - 1]);
            }
        }
    }
}

proof fn lemma_grouped_ordered(lines: Seq<Seq<u8>>, cols: Columns, n: int)
    ensures
        url_ordered(grouped_upto(lines, cols, n)),
    decreases n,
{
    if n > 1 {
        lemma_grouped_ordered(lines, cols, n - 1);
        let before = grouped_upto(lines, cols, n - 1);
        match record_of(lines[n - 1], cols) {
            Some(r) => {
                lemma_added_ordered(before, r);
            },
            None => {},
        }
    }
}

proof fn lemma_with_fingerprint_ordered(groups: Seq<GroupModel>, n: int)
    requires
        url_ordered(groups),
        0 <= n <= groups.len(),
    ensures
        url_ordered(with_fingerprint(groups, n)),
        forall|k: int|
            0 <= k < with_fingerprint(groups, n).len() ==> exists|j: int|
                0 <= j < n && groups[j] == #[trigger] with_fingerprint(groups, n)[k],
    decreases n,
{
    if n > 0 {
        lemma_with_fingerprint_ordered(groups, n - 1);
        let before = with_fingerprint(groups, n - 1);
        let out = with_fingerprint(groups, n);
        if groups[n - 1].fp is Some {
            assert forall|a: int, b: int| 0 <= a < b < out.len() implies lex_less(
                (#[trigger] out[a]).url,
                (#[trigger] out[b]).url,
            ) by {
                if b == out.len() - 1 {
                    let j = choose|j: int| 0 <= j < n - 1 && groups[j] == before[a];
                    assert(out[a] == groups[j]);
                    assert(out[b] == groups[n - 1]);
                } else {
                    assert(out[a] == before[a] && out[b] == before[b]);
                }
            }
            assert forall|k: int| 0 <= k < out.len() implies exists|j: int|
                0 <= j < n && groups[j] == #[trigger] out[k] by {
                if k == out.len() - 1 {
                    assert(groups[n - 1] == out[k]);
                } else {
                    let j = choose|j: int| 0 <= j < n - 1 && groups[j] == before[k];
                    assert(groups[j] == out[k]);
                }
            }
        } else {
            assert forall|k: int| 0 <= k < out.len() implies exists|j: int|
                0 <= j < n && groups[j] == #[trigger] out[k] by {
                let j = choose|j: int| 0 <= j < n - 1 && groups[j] == before[k];
                assert(groups[j] == out[k]);
            }
        }
    }
}

/// A table names every track once, and the tracks stand in the order of
/// their URLs.
pub proof fn lemma_table_ordered(text: Seq<u8>)
    ensures
        table_of(text) matches Ok(groups) ==> url_ordered(groups),
{
    if table_of(text) is Ok {
        let lines = fields_of(text, 10);
        let cols = columns_of(lines[0])->Ok_0;
        let groups = grouped_upto(lines, cols, lines.len() as int);
        lemma_grouped_ordered(lines, cols, lines.len() as int);
        lemma_with_fingerprint_ordered(groups, groups.len() as int);
    }
}

/// What a table says: for every track that has a usable fingerprint on one
/// of its rows, its segments and the first such fingerprint; the tracks in
/// the order of their URLs.
pub open spec fn table_of(text: Seq<u8>) -> Result<Seq<GroupModel>, TableError> {
    let lines = fields_of(text, 10);
    if text.len() == 0 {
        Err(TableError::Empty)
    } else {
        match columns_of(lines[0]) {
            Err(e) => Err(e),
            Ok(cols) => {
                let groups = grouped_upto(lines, cols, lines.len() as int);
                Ok(with_fingerprint(groups, groups.len() as int))
            },
        }
    }
}

/// The stored track is the one that the group describes, its segments
/// sorted by their starts.
pub open spec fn song_matches(song: SongWindows, g: GroupModel) -> bool {
    &&& song.url@ == lossy_text(g.url)
    &&& song.segs@ == by_start(g.segs)
    &&& g.fp is Some
    &&& fp_matches(song.fp, g.fp->0)
}

/// The stored tracks are those that the groups describe, in their order.
pub open spec fn songs_match(songs: Seq<SongWindows>, groups: Seq<GroupModel>) -> bool {
    &&& songs.len() == groups.len()
    &&& forall|i: int| 0 <= i < songs.len() ==> song_matches(#[trigger] songs[i], groups[i])
}

struct Group {
    url: (usize, usize),
    segs: Vec<(u32, u32)>,
    fp: Option<Fingerprint>,
}

spec fn group_matches(s: Seq<u8>, g: Group, m: GroupModel) -> bool {
    &&& g.url.0 <= g.url.1 <= s.len()
    &&& span(s, g.url) == m.url
    &&& g.segs@ == m.segs
    &&& g.fp is Some <==> m.fp is Some
    &&& g.fp matches Some(f) ==> fp_matches(f, m.fp->0)
}

spec fn groups_match(s: Seq<u8>, groups: Seq<Group>, models: Seq<GroupModel>) -> bool {
    &&& groups.len() == models.len()
    &&& forall|i: int| 0 <= i < groups.len() ==> group_matches(s, #[trigger] groups[i], models[i])
}

/// Adds the record of the line `s[at.0..at.1]`, if it holds one.
fn add_line(
    s: &[u8],
    at: (usize, usize),
    cols: &Columns,
    groups: &mut Vec<Group>,
    Ghost(models): Ghost<Seq<GroupModel>>,
) -> (out: Ghost<Seq<GroupModel>>)
    requires
        at.0 <= at.1 <= s@.len(),
        groups_match(s@, old(groups)@, models),
    ensures
        groups_match(s@, final(groups)@, out@),
        out@ == with_line(models, span(s@, at), *cols),
{
    let ghost line = span(s@, at);
    let whole = trim_range(s, at.0, at.1);
    if whole.1 - whole.0 == 0 {
        return Ghost(models);
    }
    let cells = cut_cells(s, at);
    if cells.len() <= cols.end_s {
        return Ghost(models);
    }
    let url = cell_range(&cells, cols.url, Ghost(s@), Ghost(line));
    if url.1 - url.0 == 0 {
        return Ghost(models);
    }
    let start_at = cell_range(&cells, cols.start_s, Ghost(s@), Ghost(line));
    let end_at = cell_range(&cells, cols.end_s, Ghost(s@), Ghost(line));
    let seg: (u32, u32) = (read_number(s, start_at, 3), read_number(s, end_at, 3));
    let ghost r = record_of(line, *cols)->0;
    let mut i: usize = 0;
    while i < groups.len() && range_less(s, groups[i].url, url)
        invariant
            i <= groups@.len(),
            url.0 <= url.1 <= s@.len(),
            span(s@, url) == r.url,
            groups_match(s@, groups@, models),
            slot_from(models, r.url, i as int) == slot_from(models, r.url, 0),
        decreases groups@.len() - i,
    {
        assert(group_matches(s@, groups@[i as int], models[i as int]));
        i += 1;
    }
    if i < groups.len() {
        assert(group_matches(s@, groups@[i as int], models[i as int]));
    }
    if i < groups.len() && range_same(s, groups[i].url, url) {
        let ghost before = groups@;
        let mut g = groups.remove(i);
        g.segs.push(seg);
        if g.fp.is_none() {
            g.fp = read_fingerprint(s, &cells, cols, Ghost(line));
        }
        let ghost next = models.update(
            i as int,
            GroupModel {
                url: r.url,
                segs: models[i as int].segs.push(r.seg),
                fp: if models[i as int].fp is Some {
                    models[i as int].fp
                } else {
                    r.fp
                },
            },
        );
        assert(group_matches(s@, g, next[i as int]));
        groups.insert(i, g);
        assert forall|k: int| 0 <= k < groups@.len() implies group_matches(
            s@,
            #[trigger] groups@[k],
            next[k],
        ) by {
            if k != i {
                assert(groups@[k] == before[k]);
                assert(group_matches(s@, before[k], models[k]));
            }
        }
        Ghost(next)
    } else {
        let ghost before = groups@;
        let mut segs: Vec<(u32, u32)> = Vec::new();
        segs.push(seg);
        let g = Group { url, segs, fp: read_fingerprint(s, &cells, cols, Ghost(line)) };
        let ghost next = models.insert(
            i as int,
            GroupModel { url: r.url, segs: seq![r.seg], fp: r.fp },
        );
        assert(g.segs@ =~= seq![r.seg]);
        groups.insert(i, g);
        assert forall|k: int| 0 <= k < groups@.len() implies group_matches(
            s@,
            #[trigger] groups@[k],
            next[k],
        ) by {
            if k < i {
                assert(groups@[k] == before[k]);
                assert(group_matches(s@, before[k], models[k]));
            } else if k > i {
                assert(groups@[k] == before[k - 1]);
                assert(group_matches(s@, before[k - 1], models[k - 1]));
            }
        }
        Ghost(next)
    }
}

/// Reads a scan table.
pub fn parse_scansong(text: &str) -> (out: Result<Vec<SongWindows>, TableError>)
    ensures
        table_of(encode_utf8(text@)) is Err <==> out is Err,
        out matches Err(e) ==> table_of(encode_utf8(text@)) == Err::<Seq<GroupModel>, TableError>(
            e,
        ),
        out matches Ok(songs) ==> songs_match(songs@, table_of(encode_utf8(text@))->Ok_0),
{
    let s = text.as_bytes();
    if s.len() == 0 {
        return Err(TableError::Empty);
    }
    let lines = split_ranges(s, 0, s.len(), 10);
    let ghost all = fields_of(s@, 10);
    proof {
        assert(s@.subrange(0, s@.len() as int) =~= s@);
        lemma_fields_nonempty(s@, 10);
    }
    let cols = match read_header(s, lines[0]) {
        Ok(c) => c,
        Err(e) => {
            return Err(e);
        },
    };
    let mut groups: Vec<Group> = Vec::new();
    let ghost mut models: Seq<GroupModel> = Seq::empty();
    let mut n: usize = 1;
    while n < lines.len()
        invariant
            1 <= n <= lines@.len(),
            lines@.len() == all.len(),
            forall|k: int|
                0 <= k < lines@.len() ==> (#[trigger] lines@[k]).0 <= lines@[k].1 <= s@.len()
                    && span(s@, lines@[k]) == all[k],
            groups_match(s@, groups@, models),
            models == grouped_upto(all, cols, n as int),
        decreases lines@.len() - n,
    {
        let at = lines[n];
        let next = add_line(s, at, &cols, &mut groups, Ghost(models));
        proof {
            models = next@;
        }
        n += 1;
    }
    let mut songs: Vec<SongWindows> = Vec::new();
    let mut k: usize = 0;
    while k < groups.len()
        invariant
            k <= groups@.len(),
            groups_match(s@, groups@, models),
            songs_match(songs@, with_fingerprint(models, k as int)),
        decreases groups@.len() - k,
    {
        assert(group_matches(s@, groups@[k as int], models[k as int]));
        let ghost before = songs@;
        let g = &groups[k];
        match &g.fp {
            Some(f) => {
                let fp = Fingerprint {
                    fp_type: f.fp_type.clone(),
                    bands: f.bands,
                    hop_us: f.hop_us,
                    offset_ms: f.offset_ms,
                    bins: copy_bytes(&f.bins),
                };
                let song = SongWindows { url: text_of(s, g.url), segs: sort_segments(&g.segs), fp };
                songs.push(song);
                assert forall|i: int| 0 <= i < songs@.len() implies song_matches(
                    #[trigger] songs@[i],
                    with_fingerprint(models, k + 1)[i],
                ) by {
                    if i < before.len() {
                        assert(songs@[i] == before[i]);
                    }
                }
            },
            None => {},
        }
        k += 1;
    }
    Ok(songs)
}

fn copy_bytes(v: &Vec<u8>) -> (out: Vec<u8>)
    ensures
        out@ == v@,
{
    let mut out: Vec<u8> = Vec::new();
    let mut i: usize = 0;
    while i < v.len()
        invariant
            i <= v@.len(),
            out@ == v@.take(i as int),
        decreases v@.len() - i,
    {
        out.push(v[i]);
        i += 1;
    }
    assert(v@.take(v@.len() as int) =~= v@);
    out
}

} // verus!
